//! The boundary to the JSON data model (the `serde_json` crate). The
//! payload and the values that the interpreter hands back as JSON are
//! opaque here; these wrappers read them out as plain values.

use vstd::prelude::*;

verus! {

#[verifier::external_type_specification]
#[verifier::external_body]
pub struct ExJsonValue(serde_json::Value);

/// The kind of a JSON value.
pub enum JsonKind {
    Null,
    Bool,
    Number,
    Str,
    Array,
    Object,
}

/// Relies on the accessors of `serde_json::Value`: tells the kinds
/// apart.
#[verifier::external_body]
pub fn json_kind(v: &serde_json::Value) -> JsonKind {
    match v {
        serde_json::Value::Null => JsonKind::Null,
        serde_json::Value::Bool(_) => JsonKind::Bool,
        serde_json::Value::Number(_) => JsonKind::Number,
        serde_json::Value::String(_) => JsonKind::Str,
        serde_json::Value::Array(_) => JsonKind::Array,
        serde_json::Value::Object(_) => JsonKind::Object,
    }
}

/// Relies on `serde_json::Value::as_str`: a string value's characters,
/// when the value is a string.
#[verifier::external_body]
pub fn json_as_str_chars(v: &serde_json::Value) -> Option<Vec<char>> {
    v.as_str().map(|s| s.chars().collect())
}

/// Relies on the `Display` form of `serde_json::Value`: the compact
/// JSON serialization, object entries in their held order.
#[verifier::external_body]
pub fn json_text(v: &serde_json::Value) -> Vec<char> {
    v.to_string().chars().collect()
}

/// Relies on `serde_json::Value::as_object` and the entry iterator of
/// `serde_json::Map`: the object's entries, keys as characters, in the
/// map's held order; nothing when the value is not an object.
#[verifier::external_body]
pub fn json_object_entries(v: &serde_json::Value) -> Option<Vec<(Vec<char>, serde_json::Value)>> {
    v.as_object().map(|m| m.iter().map(|(k, val)| (k.chars().collect(), val.clone())).collect())
}

} // verus!
