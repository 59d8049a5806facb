//! Byte strings: length-prefixed fields, lowercase hex, and the digest that
//! identities and grants are folded with.
use crate::text;
use blake2::Digest;
use vstd::bytes::*;
use vstd::prelude::*;
use vstd::string::*;
use vstd::utf8::*;

verus! {

/// The BLAKE2b digest of 32 bytes of a message.
pub uninterp spec fn blake2b256_of(message: Seq<u8>) -> Seq<u8>;

/// The 32-byte BLAKE2b digest of `message`, by `blake2::Blake2b::<U32>::digest`.
/// Claimed of it: the digest depends on the message bytes alone.
#[verifier::external_body]
pub(crate) fn blake2b256(message: &[u8]) -> (r: [u8; 32])
    ensures
        r@ == blake2b256_of(message@),
{
    blake2::Blake2b::<blake2::digest::consts::U32>::digest(message).into()
}

/// One field of a hashed record: its length as eight little-endian bytes, then
/// the bytes themselves.
pub open spec fn field(b: Seq<u8>) -> Seq<u8> {
    spec_u64_to_le_bytes(b.len() as u64) + b
}

/// Append one length-prefixed field.
pub fn push_field(out: &mut Vec<u8>, b: &[u8])
    ensures
        final(out)@ == old(out)@ + field(b@),
{
    let n: usize = b.len();
    push_u64(out, n as u64);
    push_bytes(out, b);
    assert(out@ =~= old(out)@ + field(b@));
}

/// Append the eight little-endian bytes of `n`.
pub fn push_u64(out: &mut Vec<u8>, n: u64)
    ensures
        final(out)@ == old(out)@ + spec_u64_to_le_bytes(n),
{
    let le = u64_to_le_bytes(n);
    push_bytes(out, le.as_slice());
}

/// Append the four little-endian bytes of `n`.
pub fn push_u32(out: &mut Vec<u8>, n: u32)
    ensures
        final(out)@ == old(out)@ + spec_u32_to_le_bytes(n),
{
    let le = u32_to_le_bytes(n);
    push_bytes(out, le.as_slice());
}

/// Append `b`.
pub fn push_bytes(out: &mut Vec<u8>, b: &[u8])
    ensures
        final(out)@ == old(out)@ + b@,
{
    let mut i: usize = 0;
    while i < b.len()
        invariant
            i <= b.len(),
            out@ == old(out)@ + b@.take(i as int),
        decreases b.len() - i,
    {
        out.push(b[i]);
        assert(out@ =~= old(out)@ + b@.take(i + 1));
        i += 1;
    }
    assert(b@.take(i as int) =~= b@);
}

/// A field at the head of a record can be read in only one way: equal records
/// hold equal first fields and equal rests.
pub proof fn field_reads_one_way(a: Seq<u8>, x: Seq<u8>, b: Seq<u8>, y: Seq<u8>)
    requires
        a.len() <= u64::MAX,
        b.len() <= u64::MAX,
        field(a) + x == field(b) + y,
    ensures
        a == b,
        x == y,
{
    lemma_auto_spec_u64_to_from_le_bytes();
    let l = field(a) + x;
    let r = field(b) + y;
    let la = spec_u64_to_le_bytes(a.len() as u64);
    let lb = spec_u64_to_le_bytes(b.len() as u64);
    assert(l.take(8) =~= la);
    assert(r.take(8) =~= lb);
    assert(la == lb);
    assert(a.len() as u64 == b.len() as u64);
    assert(l.skip(8).take(a.len() as int) =~= a);
    assert(r.skip(8).take(b.len() as int) =~= b);
    assert(l.skip(8 + a.len() as int) =~= x);
    assert(r.skip(8 + b.len() as int) =~= y);
}

/// A prefix of known length at the head of a record can be read in only one way.
pub proof fn prefix_reads_one_way(a: Seq<u8>, x: Seq<u8>, b: Seq<u8>, y: Seq<u8>)
    requires
        a.len() == b.len(),
        a + x == b + y,
    ensures
        a == b,
        x == y,
{
    assert((a + x).take(a.len() as int) =~= a);
    assert((b + y).take(b.len() as int) =~= b);
    assert((a + x).skip(a.len() as int) =~= x);
    assert((b + y).skip(b.len() as int) =~= y);
}

/// The UTF-8 bytes of a text determine the text.
pub proof fn utf8_reads_one_way(a: Seq<char>, b: Seq<char>)
    requires
        encode_utf8(a) == encode_utf8(b),
    ensures
        a == b,
{
    encode_utf8_decode_utf8(a);
    encode_utf8_decode_utf8(b);
}

/// The lowercase hex digit for `d`.
pub open spec fn hex_digit(d: int) -> char {
    if d < 10 {
        ('0' as int + d) as char
    } else {
        ('a' as int + d - 10) as char
    }
}

/// Two lowercase hex digits for each byte.
pub open spec fn hex_of(b: Seq<u8>) -> Seq<char> {
    Seq::new(
        2 * b.len(),
        |i: int|
            if i % 2 == 0 {
                hex_digit(b[i / 2] as int / 16)
            } else {
                hex_digit(b[i / 2] as int % 16)
            },
    )
}

fn hex_digit_text(d: u8) -> (r: &'static str)
    requires
        d < 16,
    ensures
        r@ == seq![hex_digit(d as int)],
{
    proof {
        reveal_strlit("0");
        reveal_strlit("1");
        reveal_strlit("2");
        reveal_strlit("3");
        reveal_strlit("4");
        reveal_strlit("5");
        reveal_strlit("6");
        reveal_strlit("7");
        reveal_strlit("8");
        reveal_strlit("9");
        reveal_strlit("a");
        reveal_strlit("b");
        reveal_strlit("c");
        reveal_strlit("d");
        reveal_strlit("e");
        reveal_strlit("f");
    }
    match d {
        0 => "0",
        1 => "1",
        2 => "2",
        3 => "3",
        4 => "4",
        5 => "5",
        6 => "6",
        7 => "7",
        8 => "8",
        9 => "9",
        10 => "a",
        11 => "b",
        12 => "c",
        13 => "d",
        14 => "e",
        _ => "f",
    }
}

/// Lowercase hex of `bytes`.
pub fn hex(bytes: &[u8]) -> (r: String)
    ensures
        r@ == hex_of(bytes@),
{
    let mut s = String::new();
    let mut i: usize = 0;
    while i < bytes.len()
        invariant
            i <= bytes.len(),
            s@ == hex_of(bytes@.take(i as int)),
        decreases bytes.len() - i,
    {
        let b: u8 = bytes[i];
        s.append(hex_digit_text(b / 16));
        s.append(hex_digit_text(b % 16));
        assert(s@ =~= hex_of(bytes@.take(i + 1)));
        i += 1;
    }
    assert(bytes@.take(i as int) =~= bytes@);
    s
}

proof fn hex_digits_differ(x: int, y: int)
    requires
        0 <= x < 16,
        0 <= y < 16,
        hex_digit(x) == hex_digit(y),
    ensures
        x == y,
{
}

/// The hex of a byte string determines the byte string.
pub proof fn hex_reads_one_way(a: Seq<u8>, b: Seq<u8>)
    requires
        hex_of(a) == hex_of(b),
    ensures
        a == b,
{
    assert(hex_of(a).len() == 2 * a.len());
    assert(hex_of(b).len() == 2 * b.len());
    assert(a.len() == b.len());
    assert forall|i: int| 0 <= i < a.len() implies a[i] == b[i] by {
        let j = 2 * i;
        let k = 2 * i + 1;
        assert(j / 2 == i && j % 2 == 0 && k / 2 == i && k % 2 == 1);
        assert(hex_of(a)[j] == hex_digit(a[i] as int / 16));
        assert(hex_of(b)[j] == hex_digit(b[i] as int / 16));
        assert(hex_of(a)[k] == hex_digit(a[i] as int % 16));
        assert(hex_of(b)[k] == hex_digit(b[i] as int % 16));
        hex_digits_differ(a[i] as int / 16, b[i] as int / 16);
        hex_digits_differ(a[i] as int % 16, b[i] as int % 16);
    }
    assert(a =~= b);
}

/// The value of a hex digit of either case, or `None` for any other character.
pub open spec fn hex_value(c: char) -> Option<int> {
    let n = c as int;
    if '0' as int <= n <= '9' as int {
        Some(n - '0' as int)
    } else if 'a' as int <= n <= 'f' as int {
        Some(n - 'a' as int + 10)
    } else if 'A' as int <= n <= 'F' as int {
        Some(n - 'A' as int + 10)
    } else {
        None
    }
}

/// Every character is a hex digit, and there are two for each byte.
pub open spec fn is_hex(s: Seq<char>) -> bool {
    s.len() % 2 == 0 && forall|i: int| 0 <= i < s.len() ==> hex_value(#[trigger] s[i]) is Some
}

/// The bytes that hex digits stand for.
pub open spec fn hex_bytes(s: Seq<char>) -> Seq<u8> {
    Seq::new(
        s.len() / 2,
        |i: int| (hex_value(s[2 * i])->0 * 16 + hex_value(s[2 * i + 1])->0) as u8,
    )
}

fn hex_digit_value(c: char) -> (r: Option<u8>)
    ensures
        match r {
            Some(v) => hex_value(c) == Some(v as int) && v < 16,
            None => hex_value(c) is None,
        },
{
    if '0' <= c && c <= '9' {
        Some(c as u8 - 48)
    } else if 'a' <= c && c <= 'f' {
        Some(c as u8 - 87)
    } else if 'A' <= c && c <= 'F' {
        Some(c as u8 - 55)
    } else {
        None
    }
}

/// The bytes that a hex text stands for, or `None` where it is not hex.
pub fn from_hex(s: &str) -> (r: Option<Vec<u8>>)
    ensures
        match r {
            Some(b) => is_hex(s@) && b@ == hex_bytes(s@),
            None => !is_hex(s@),
        },
{
    let v = text::chars_of(s);
    if v.len() % 2 != 0 {
        return None;
    }
    let n: usize = v.len() / 2;
    let mut out: Vec<u8> = Vec::new();
    let mut i: usize = 0;
    while i < n
        invariant
            i <= n,
            v@ == s@,
            v.len() == 2 * n,
            out@ == hex_bytes(s@).take(i as int),
            forall|k: int| 0 <= k < 2 * i ==> hex_value(#[trigger] s@[k]) is Some,
        decreases n - i,
    {
        let ghost at = 2 * i as int;
        match (hex_digit_value(v[2 * i]), hex_digit_value(v[2 * i + 1])) {
            (Some(a), Some(b)) => {
                out.push(a * 16 + b);
                assert(hex_bytes(s@)[i as int] == a * 16 + b);
                assert(out@ =~= hex_bytes(s@).take(i + 1));
            },
            _ => {
                assert(hex_value(s@[at]) is None || hex_value(s@[at + 1]) is None);
                return None;
            },
        }
        i += 1;
    }
    assert(hex_bytes(s@).take(i as int) =~= hex_bytes(s@));
    Some(out)
}

/// Reading hex gives back what was written in hex.
pub proof fn hex_reads_back(b: Seq<u8>)
    ensures
        is_hex(hex_of(b)),
        hex_bytes(hex_of(b)) == b,
{
    let h = hex_of(b);
    assert forall|i: int| 0 <= i < h.len() implies hex_value(#[trigger] h[i]) is Some by {
        hex_digit_reads_back(b[i / 2] as int / 16);
        hex_digit_reads_back(b[i / 2] as int % 16);
    }
    assert(h.len() % 2 == 0);
    assert forall|i: int| 0 <= i < b.len() implies hex_bytes(h)[i] == b[i] by {
        let j = 2 * i;
        let k = 2 * i + 1;
        assert(j / 2 == i && j % 2 == 0 && k / 2 == i && k % 2 == 1);
        hex_digit_reads_back(b[i] as int / 16);
        hex_digit_reads_back(b[i] as int % 16);
        assert(h[j] == hex_digit(b[i] as int / 16));
        assert(h[k] == hex_digit(b[i] as int % 16));
    }
    assert(hex_bytes(h) =~= b);
}

proof fn hex_digit_reads_back(d: int)
    requires
        0 <= d < 16,
    ensures
        hex_value(hex_digit(d)) == Some(d),
{
}

/// A copy of a byte string.
pub fn copy(b: &[u8]) -> (r: Vec<u8>)
    ensures
        r@ == b@,
{
    let mut out: Vec<u8> = Vec::new();
    push_bytes(&mut out, b);
    assert(out@ =~= b@);
    out
}

/// Whether two byte strings are equal.
pub fn same(a: &[u8], b: &[u8]) -> (r: bool)
    ensures
        r == (a@ == b@),
{
    if a.len() != b.len() {
        return false;
    }
    let mut i: usize = 0;
    while i < a.len()
        invariant
            i <= a.len(),
            a@.len() == b@.len(),
            forall|k: int| 0 <= k < i ==> a@[k] == b@[k],
        decreases a.len() - i,
    {
        if a[i] != b[i] {
            assert(a@[i as int] != b@[i as int]);
            return false;
        }
        i += 1;
    }
    assert(a@ =~= b@);
    true
}

/// Whether two keys of 32 bytes are equal, in a time that does not depend on
/// where they differ.
pub fn same_key(a: &[u8; 32], b: &[u8; 32]) -> (r: bool)
    ensures
        r == (a@ == b@),
{
    let mut diff: u8 = 0;
    let mut i: usize = 0;
    while i < 32
        invariant
            i <= 32,
            (diff == 0) == (forall|k: int| 0 <= k < i ==> a@[k] == b@[k]),
        decreases 32 - i,
    {
        let x: u8 = a[i];
        let y: u8 = b[i];
        let before: u8 = diff;
        diff = diff | (x ^ y);
        assert((diff == 0) == (before == 0 && x == y)) by (bit_vector)
            requires
                diff == before | (x ^ y),
        ;
        assert((diff == 0) == (forall|k: int| 0 <= k < i + 1 ==> a@[k] == b@[k])) by {
            if diff != 0 && before == 0 {
                assert(a@[i as int] != b@[i as int]);
            }
        }
        i += 1;
    }
    if diff == 0 {
        assert(a@ =~= b@);
    }
    diff == 0
}

/// Hex is two digits for each byte, the high one first, in lower case; and digits of
/// either case read the same.
pub proof fn hex_is_two_small_digits_each(b: Seq<u8>, i: int, c: char)
    requires
        0 <= i < b.len(),
    ensures
        hex_of(b).len() == 2 * b.len(),
        hex_value(hex_of(b)[2 * i]) == Some(b[i] as int / 16),
        hex_value(hex_of(b)[2 * i + 1]) == Some(b[i] as int % 16),
        forall|k: int|
            0 <= k < hex_of(b).len() ==> !('A' as int <= #[trigger] hex_of(b)[k] as int <= 'F' as int),
        'a' as int <= c as int <= 'f' as int ==> hex_value(c) == hex_value(
            (c as int - 32) as char,
        ) && hex_value(c) == Some(c as int - 87),
{
    let j = 2 * i;
    let k = 2 * i + 1;
    assert(j / 2 == i && j % 2 == 0 && k / 2 == i && k % 2 == 1);
    hex_digit_reads_back(b[i] as int / 16);
    hex_digit_reads_back(b[i] as int % 16);
    assert forall|k: int| 0 <= k < hex_of(b).len() implies !('A' as int <= #[trigger] hex_of(
        b,
    )[k] as int <= 'F' as int) by {
        let d = if k % 2 == 0 {
            b[k / 2] as int / 16
        } else {
            b[k / 2] as int % 16
        };
        assert(0 <= d < 16);
        assert(hex_of(b)[k] == hex_digit(d));
    }
}

} // verus!
