//! Trusted bridges to serde_json: the embedded assignments are handed to
//! the generic JSON parser; parsed values are opaque and leave these
//! wrappers only as plain byte strings or entry lists.

use vstd::prelude::*;

verus! {

#[verifier::external_type_specification]
#[verifier::external_body]
pub struct ExValue(serde_json::Value);

/// Relies on serde_json::from_slice::<Value>: the payload parses as JSON
/// or it does not.
#[verifier::external_body]
pub(crate) fn json_from_slice(b: &[u8]) -> (r: Option<serde_json::Value>) {
    serde_json::from_slice::<serde_json::Value>(b).ok()
}

/// Relies on serde_json::Value::as_object and Map::iter: the object's
/// entries, keys as bytes, values cloned; `None` for non-objects.
#[verifier::external_body]
pub(crate) fn object_entries(v: &serde_json::Value) -> (r: Option<
    Vec<(Vec<u8>, serde_json::Value)>,
>) {
    v.as_object().map(
        |m| m.iter().map(|(k, val)| (k.clone().into_bytes(), val.clone())).collect(),
    )
}

/// Relies on serde_json::Value's Number variant and Number's Display:
/// the decimal literal of a number value.
#[verifier::external_body]
pub(crate) fn number_literal(v: &serde_json::Value) -> (r: Option<Vec<u8>>) {
    match v {
        serde_json::Value::Number(n) => Some(n.to_string().into_bytes()),
        _ => None,
    }
}

/// Relies on serde_json::Value::as_str.
#[verifier::external_body]
pub(crate) fn string_bytes(v: &serde_json::Value) -> (r: Option<Vec<u8>>) {
    v.as_str().map(|s| s.as_bytes().to_vec())
}

/// Relies on serde_json::Value::is_null.
#[verifier::external_body]
pub(crate) fn is_null(v: &serde_json::Value) -> (r: bool) {
    v.is_null()
}

} // verus!
