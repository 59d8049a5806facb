//! Secret bytes in memory: wiped when they are dropped.
use vstd::prelude::*;
use zeroize::Zeroizing;

verus! {

/// A secret byte string, held in a `zeroize::Zeroizing<Vec<u8>>`, which wipes it
/// when it is dropped.
#[verifier::external_body]
pub struct Token {
    inner: Zeroizing<Vec<u8>>,
}

/// The bytes that a [`Token`] holds.
pub uninterp spec fn token_bytes(t: Token) -> Seq<u8>;

impl View for Token {
    type V = Seq<u8>;

    open spec fn view(&self) -> Seq<u8> {
        token_bytes(*self)
    }
}

/// `Zeroizing::new`: the token holds exactly the bytes it was made from.
#[verifier::external_body]
fn wrap(bytes: Vec<u8>) -> (t: Token)
    ensures
        token_bytes(t) == bytes@,
{
    Token { inner: Zeroizing::new(bytes) }
}

/// `Zeroizing::deref`: the bytes that the token holds.
#[verifier::external_body]
fn unwrap(t: &Token) -> (r: &[u8])
    ensures
        r@ == token_bytes(*t),
{
    t.inner.as_slice()
}

/// `Zeroizing::clone`: another token over the same bytes.
#[verifier::external_body]
fn copy(t: &Token) -> (r: Token)
    ensures
        token_bytes(r) == token_bytes(*t),
{
    Token { inner: t.inner.clone() }
}

impl Token {
    /// A token over `bytes`.
    pub fn new(bytes: Vec<u8>) -> (t: Token)
        ensures
            t@ == bytes@,
    {
        wrap(bytes)
    }

    /// The secret bytes.
    pub fn as_slice(&self) -> (r: &[u8])
        ensures
            r@ == self@,
    {
        unwrap(self)
    }

    /// Another token over the same bytes.
    pub fn duplicate(&self) -> (r: Token)
        ensures
            r@ == self@,
    {
        copy(self)
    }
}

} // verus!
