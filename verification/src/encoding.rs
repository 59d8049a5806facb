//! Base64 and JSON, from the crates that define them here.
use base64::Engine;
use vstd::prelude::*;
use vstd::string::*;
use vstd::utf8::*;

verus! {

/// The padded standard base64 of a byte string.
pub uninterp spec fn base64_of(bytes: Seq<u8>) -> Seq<char>;

/// The bytes that a padded standard base64 text stands for, or why it is none.
pub uninterp spec fn base64_read(text: Seq<char>) -> Result<Seq<u8>, Seq<char>>;

/// Reading `text` as base64 gives `bytes`.
pub open spec fn stands_for(text: Seq<char>, bytes: Seq<u8>) -> bool {
    base64_read(text) == Ok::<Seq<u8>, Seq<char>>(bytes)
}

/// `base64::engine::general_purpose::STANDARD.encode`: the text depends on the
/// bytes alone, and decoding it gives the bytes back. It panics where the text
/// would not fit in memory, which the precondition leaves out.
#[verifier::external_body]
pub(crate) fn base64_text(bytes: &[u8]) -> (r: String)
    requires
        4 * (bytes@.len() / 3 + 1) <= isize::MAX,
    ensures
        r@ == base64_of(bytes@),
        stands_for(r@, bytes@),
{
    base64::engine::general_purpose::STANDARD.encode(bytes)
}

/// `base64::engine::general_purpose::STANDARD.decode`: what comes out, bytes or
/// the message of the error, depends on the text alone.
#[verifier::external_body]
pub(crate) fn base64_bytes(text: &str) -> (r: Result<Vec<u8>, String>)
    ensures
        match r {
            Ok(b) => base64_read(text@) matches Ok(x) && x == b@,
            Err(e) => base64_read(text@) matches Err(x) && x == e@,
        },
{
    base64::engine::general_purpose::STANDARD.decode(text).map_err(|e| e.to_string())
}

/// The text under `key` in the JSON object that these bytes write, if they write
/// one and a text stands there.
pub uninterp spec fn json_text_at(body: Seq<u8>, key: Seq<char>) -> Option<Seq<char>>;

/// The unsigned number under `key` in the JSON object that these bytes write, if
/// they write one and such a number stands there.
pub uninterp spec fn json_number_at(body: Seq<u8>, key: Seq<char>) -> Option<u64>;

/// Whether null stands under `key` in the JSON object that these bytes write, if
/// they write one and anything stands there.
pub uninterp spec fn json_null_at(body: Seq<u8>, key: Seq<char>) -> Option<bool>;

/// The JSON text of an object of texts and one number.
pub uninterp spec fn json_object_text(
    texts: Seq<(Seq<char>, Seq<char>)>,
    number_key: Seq<char>,
    number: u64,
) -> Seq<char>;

/// `serde_json::from_slice` into a `Value`, then `Value::get` and
/// `Value::as_str`: what is found depends on the bytes and the key alone.
#[verifier::external_body]
pub(crate) fn json_text_field(body: &[u8], key: &str) -> (r: Option<String>)
    ensures
        match r {
            Some(s) => json_text_at(body@, key@) == Some(s@),
            None => json_text_at(body@, key@) is None,
        },
{
    let v: serde_json::Value = serde_json::from_slice(body).ok()?;
    v.get(key).and_then(serde_json::Value::as_str).map(str::to_owned)
}

/// `serde_json::from_slice` into a `Value`, then `Value::get` and
/// `Value::as_u64`: what is found depends on the bytes and the key alone.
#[verifier::external_body]
pub(crate) fn json_number_field(body: &[u8], key: &str) -> (r: Option<u64>)
    ensures
        r == json_number_at(body@, key@),
{
    let v: serde_json::Value = serde_json::from_slice(body).ok()?;
    v.get(key).and_then(serde_json::Value::as_u64)
}

/// `serde_json::from_slice` into a `Value`, then `Value::get` and
/// `Value::is_null`: what is found depends on the bytes and the key alone.
#[verifier::external_body]
pub(crate) fn json_null_field(body: &[u8], key: &str) -> (r: Option<bool>)
    ensures
        r == json_null_at(body@, key@),
{
    let v: serde_json::Value = serde_json::from_slice(body).ok()?;
    v.get(key).map(serde_json::Value::is_null)
}

/// The plain values of pairs of texts.
pub open spec fn str_pairs(v: Seq<(&str, &str)>) -> Seq<(Seq<char>, Seq<char>)> {
    Seq::new(v.len(), |i: int| (v[i].0@, v[i].1@))
}

/// No two of these keys are the same.
pub open spec fn keys_differ(texts: Seq<(Seq<char>, Seq<char>)>, number_key: Seq<char>) -> bool {
    &&& forall|i: int, j: int|
        0 <= i < j < texts.len() ==> (#[trigger] texts[i]).0 != (#[trigger] texts[j]).0
    &&& forall|i: int| 0 <= i < texts.len() ==> (#[trigger] texts[i]).0 != number_key
}

/// One of these keys is `key`.
pub open spec fn holds_key(
    texts: Seq<(Seq<char>, Seq<char>)>,
    number_key: Seq<char>,
    key: Seq<char>,
) -> bool {
    key == number_key || exists|i: int| 0 <= i < texts.len() && (#[trigger] texts[i]).0 == key
}

/// `serde_json::Map` collected from entries, and `Value::to_string` of it: the
/// text depends on the entries alone, and reading the object back finds each
/// entry under its key, and nothing under any other.
#[verifier::external_body]
pub(crate) fn json_object(texts: &[(&str, &str)], number_key: &str, number: u64) -> (r: String)
    requires
        keys_differ(str_pairs(texts@), number_key@),
    ensures
        r@ == json_object_text(str_pairs(texts@), number_key@, number),
        forall|i: int|
            0 <= i < texts@.len() ==> json_text_at(
                encode_utf8(r@),
                (#[trigger] str_pairs(texts@)[i]).0,
            ) == Some(str_pairs(texts@)[i].1),
        json_number_at(encode_utf8(r@), number_key@) == Some(number),
        forall|key: Seq<char>|
            (#[trigger] json_null_at(encode_utf8(r@), key)) == (if holds_key(
                str_pairs(texts@),
                number_key@,
                key,
            ) {
                Some(false)
            } else {
                None
            }),
{
    let entries = texts.iter().map(|(k, v)| (k.to_string(), serde_json::Value::from(*v)));
    let mut object: serde_json::Map<String, serde_json::Value> = entries.collect();
    object.insert(number_key.to_owned(), serde_json::Value::from(number));
    serde_json::Value::Object(object).to_string()
}

} // verus!
