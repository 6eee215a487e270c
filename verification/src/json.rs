//! Trusted access to the JSON values that node declarations are written
//! in. A parsed JSON value is opaque here: the verified parser reads it
//! only through the accessors below and validates the schema itself.

use vstd::prelude::*;

verus! {

/// A parsed JSON document of the genome's node section.
#[verifier::external_type_specification]
#[verifier::external_body]
pub struct ExValue(serde_json::Value);

/// Whether a byte string is one valid JSON document: a function of the
/// bytes alone, anchored by `json_parse`.
pub uninterp spec fn json_parses(bytes: Seq<u8>) -> bool;

/// Relies on `serde_json::from_slice`: `Some` exactly when the bytes form
/// one valid JSON document.
#[verifier::external_body]
pub fn json_parse(bytes: &[u8]) -> (r: Option<serde_json::Value>)
    ensures
        r is Some <==> json_parses(bytes@),
{
    serde_json::from_slice::<serde_json::Value>(bytes).ok()
}

/// Relies on `Value::get`: the member of a JSON object under this key,
/// `None` when the value is no object or has no such member.
#[verifier::external_body]
pub fn json_get<'a>(v: &'a serde_json::Value, key: &str) -> Option<&'a serde_json::Value> {
    v.get(key)
}

/// Relies on `Value::as_str`: the text of a JSON string, `None` for any
/// other kind of value.
#[verifier::external_body]
pub fn json_as_str<'a>(v: &'a serde_json::Value) -> Option<&'a str> {
    v.as_str()
}

/// Relies on `Value::as_u64`: the value of a JSON number that is a
/// non-negative integer fitting `u64`, `None` otherwise.
#[verifier::external_body]
pub fn json_as_u64(v: &serde_json::Value) -> Option<u64> {
    v.as_u64()
}

/// Relies on `Value::as_bool`: the value of a JSON boolean, `None` for
/// any other kind of value.
#[verifier::external_body]
pub fn json_as_bool(v: &serde_json::Value) -> Option<bool> {
    v.as_bool()
}

/// Relies on `Value::as_array`: the elements of a JSON array, `None` for
/// any other kind of value.
#[verifier::external_body]
pub fn json_as_array<'a>(v: &'a serde_json::Value) -> Option<&'a Vec<serde_json::Value>> {
    v.as_array()
}

} // verus!
