//! Trusted bindings: the few points where this library leans on outside
//! crates (JSON parsing, JSON string escaping, base64) and on std functions
//! vstd gives no specification to. Each carries the whole contract this
//! library assumes of it.

use vstd::prelude::*;
use vstd::utf8::encode_utf8;

verus! {

/// What `json_escape_simd::escape` returns for a given string: its JSON
/// string literal form, surrounding quotes included. The escaped text is a
/// function of the input characters alone.
pub uninterp spec fn escape_of(s: Seq<char>) -> Seq<char>;

/// Relies on `json_escape_simd::escape`: the quoted, escaped JSON string
/// literal for `value`.
#[verifier::external_body]
pub(crate) fn escape_json_string(value: &str) -> (r: String)
    ensures
        r@ == escape_of(value@),
{
    json_escape_simd::escape(value)
}

/// What `base64_simd::Base64::encode_to_string` returns for given bytes under
/// the standard alphabet: their base64 text, a function of the bytes alone.
pub uninterp spec fn base64_of(bytes: Seq<u8>) -> Seq<char>;

/// Relies on `base64_simd::Base64::encode_to_string` with the `STANDARD`
/// (padded) alphabet.
#[verifier::external_body]
pub(crate) fn base64_encode(data: &[u8]) -> (r: String)
    ensures
        r@ == base64_of(data@),
{
    base64_simd::STANDARD.encode_to_string(data)
}

/// Relies on `String::from_utf8`: a vector of ASCII bytes is valid UTF-8, so
/// the conversion succeeds, the string's bytes are exactly the input, and its
/// characters are the bytes' code points.
#[verifier::external_body]
pub(crate) fn ascii_to_string(bytes: Vec<u8>) -> (r: Option<String>)
    requires
        forall|i: int| 0 <= i < bytes@.len() ==> bytes@[i] < 128,
    ensures
        r is Some,
        r matches Some(s) ==> s@.len() == bytes@.len() && encode_utf8(s@) == bytes@ && (forall|
            i: int,
        |
            0 <= i < bytes@.len() ==> s@[i] == bytes@[i] as char),
{
    String::from_utf8(bytes).ok()
}

/// The opaque JSON document tree of `serde_json`.
#[verifier::external_type_specification]
#[verifier::external_body]
pub struct ExValue(serde_json::Value);

/// Relies on `serde_json::from_str`: parses text as one JSON document;
/// `None` when the text is not valid JSON.
#[verifier::external_body]
pub(crate) fn parse_json(text: &str) -> (r: Option<serde_json::Value>) {
    serde_json::from_str(text).ok()
}

/// Relies on `serde_json::Value::get`: the value of a key inside a JSON
/// object, `None` elsewhere.
#[verifier::external_body]
pub(crate) fn json_get<'a>(v: &'a serde_json::Value, key: &str) -> (r: Option<&'a serde_json::Value>) {
    v.get(key)
}

/// Relies on `serde_json::Value::as_str`: the text of a JSON string value.
#[verifier::external_body]
pub(crate) fn json_as_str<'a>(v: &'a serde_json::Value) -> (r: Option<&'a str>) {
    v.as_str()
}

/// Relies on `serde_json::Value::as_u64`: a JSON number as an unsigned
/// integer, when it is one.
#[verifier::external_body]
pub(crate) fn json_as_u64(v: &serde_json::Value) -> (r: Option<u64>) {
    v.as_u64()
}

/// Relies on `serde_json::Value::as_array`: the elements of a JSON array.
#[verifier::external_body]
pub(crate) fn json_as_array<'a>(v: &'a serde_json::Value) -> (r: Option<&'a Vec<serde_json::Value>>) {
    v.as_array()
}

/// Relies on `serde_json::Value::is_null`: whether the value is JSON `null`.
#[verifier::external_body]
pub(crate) fn json_is_null(v: &serde_json::Value) -> (r: bool) {
    v.is_null()
}

} // verus!
