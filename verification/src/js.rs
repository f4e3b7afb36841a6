//! The boundary to the embedded ECMAScript interpreter (the `boa_engine`
//! crate). The interpreter's values are opaque here: each wrapper makes
//! one interpreter call, and the engine's verified logic decides on
//! whatever came back. No contract in this module promises anything an
//! interpreter with mutable state could not keep.

use vstd::prelude::*;

verus! {

#[verifier::external_type_specification]
#[verifier::external_body]
pub struct ExContext(boa_engine::Context);

#[verifier::external_type_specification]
#[verifier::external_body]
pub struct ExJsValue(boa_engine::JsValue);

#[verifier::external_type_specification]
#[verifier::external_body]
pub struct ExPropertyKey(boa_engine::property::PropertyKey);

/// The outcome of classifying an interpreter value: what the directive
/// logic dispatches on.
pub enum JsClass {
    Null,
    Undefined,
    /// A string, carried as its characters.
    Str(Vec<char>),
    /// A number held as a 32-bit integer.
    Int(i32),
    /// An object (arrays included).
    IsObject,
    /// Any other kind (floats, big integers, symbols, booleans).
    Other,
}

/// Relies on `boa_engine::Context::default`: a fresh interpreter.
#[verifier::external_body]
pub fn js_new_context() -> boa_engine::Context {
    boa_engine::Context::default()
}

/// Relies on `boa_engine::Context::eval`: runs the source and returns
/// its completion value, or an error.
#[verifier::external_body]
pub fn js_eval(ctx: &mut boa_engine::Context, code: &Vec<char>) -> Result<
    boa_engine::JsValue,
    (),
> {
    let src: String = code.iter().collect();
    ctx.eval(boa_engine::Source::from_bytes(src.as_bytes())).map_err(|_| ())
}

/// Relies on `boa_engine::Context::global_object`: the global object as
/// a value.
#[verifier::external_body]
pub fn js_global(ctx: &mut boa_engine::Context) -> boa_engine::JsValue {
    boa_engine::JsValue::from(ctx.global_object())
}

/// Relies on `boa_engine::object::JsObject::set`: sets a property on
/// `target` when it is an object.
#[verifier::external_body]
pub fn js_set_on(
    ctx: &mut boa_engine::Context,
    target: &boa_engine::JsValue,
    key: &Vec<char>,
    value: boa_engine::JsValue,
) -> Result<(), ()> {
    let k: String = key.iter().collect();
    match target.variant() {
        boa_engine::value::JsVariant::Object(o) => o
            .set(boa_engine::JsString::from(k.as_str()), value, false, ctx)
            .map(|_| ())
            .map_err(|_| ()),
        _ => Err(()),
    }
}

/// Relies on `boa_engine::object::JsObject::get`: reads a property of
/// `target` by name when it is an object.
#[verifier::external_body]
pub fn js_get_on(
    ctx: &mut boa_engine::Context,
    target: &boa_engine::JsValue,
    key: &Vec<char>,
) -> Result<boa_engine::JsValue, ()> {
    let k: String = key.iter().collect();
    match target.variant() {
        boa_engine::value::JsVariant::Object(o) => o
            .get(boa_engine::JsString::from(k.as_str()), ctx)
            .map_err(|_| ()),
        _ => Err(()),
    }
}

/// Relies on `boa_engine::object::JsObject::delete_property_or_throw`:
/// removes a property of `target` when it is an object; a failure is
/// ignored, as nothing can be done about it.
#[verifier::external_body]
pub fn js_delete_on(
    ctx: &mut boa_engine::Context,
    target: &boa_engine::JsValue,
    key: &Vec<char>,
) {
    let k: String = key.iter().collect();
    if let boa_engine::value::JsVariant::Object(o) = target.variant() {
        let _ = o.delete_property_or_throw(boa_engine::JsString::from(k.as_str()), ctx);
    }
}

/// Relies on `boa_engine::object::ObjectInitializer`: a fresh empty
/// object, as a value.
#[verifier::external_body]
pub fn js_new_object(ctx: &mut boa_engine::Context) -> boa_engine::JsValue {
    boa_engine::JsValue::from(boa_engine::object::ObjectInitializer::new(ctx).build())
}

/// Relies on `boa_engine::JsValue::equals`: the language's loose
/// equality.
#[verifier::external_body]
pub fn js_equals(
    ctx: &mut boa_engine::Context,
    a: &boa_engine::JsValue,
    b: &boa_engine::JsValue,
) -> Result<bool, ()> {
    a.equals(b, ctx).map_err(|_| ())
}

/// Relies on `boa_engine::JsValue::null`.
#[verifier::external_body]
pub fn js_null() -> boa_engine::JsValue {
    boa_engine::JsValue::null()
}

/// Relies on `boa_engine::JsValue::variant`: tells the value's kind
/// apart, carrying a string's characters and an integer's value out.
#[verifier::external_body]
pub fn js_classify(v: &boa_engine::JsValue) -> JsClass {
    match v.variant() {
        boa_engine::value::JsVariant::Null => JsClass::Null,
        boa_engine::value::JsVariant::Undefined => JsClass::Undefined,
        boa_engine::value::JsVariant::String(s) => JsClass::Str(
            s.to_std_string_escaped().chars().collect(),
        ),
        boa_engine::value::JsVariant::Integer32(i) => JsClass::Int(i),
        boa_engine::value::JsVariant::Object(_) => JsClass::IsObject,
        _ => JsClass::Other,
    }
}

/// Relies on `boa_engine::JsValue::to_boolean`: the language's
/// truthiness (zero, the empty string, `null`, `undefined` and `NaN`
/// are false; everything else is true).
#[verifier::external_body]
pub fn js_to_boolean(v: &boa_engine::JsValue) -> bool {
    v.to_boolean()
}

/// Relies on `boa_engine::JsValue::display`: the value's canonical
/// display form.
#[verifier::external_body]
pub fn js_display(v: &boa_engine::JsValue) -> Vec<char> {
    v.display().to_string().chars().collect()
}

/// Relies on `boa_engine::object::JsObject::is_array`: whether the
/// value is an array object.
#[verifier::external_body]
pub fn js_is_array(v: &boa_engine::JsValue) -> bool {
    match v.variant() {
        boa_engine::value::JsVariant::Object(o) => o.is_array(),
        _ => false,
    }
}

/// Relies on `boa_engine::object::JsObject::own_property_keys`: the
/// object's own property keys, integer indices in ascending order first,
/// then names in insertion order.
#[verifier::external_body]
pub fn js_own_keys(
    ctx: &mut boa_engine::Context,
    v: &boa_engine::JsValue,
) -> Result<Vec<boa_engine::property::PropertyKey>, ()> {
    match v.variant() {
        boa_engine::value::JsVariant::Object(o) => o.own_property_keys(ctx).map_err(|_| ()),
        _ => Err(()),
    }
}

/// Relies on `boa_engine::object::JsObject::get`: the property of the
/// object under the given key; `undefined` when the read fails.
#[verifier::external_body]
pub fn js_get_key(
    ctx: &mut boa_engine::Context,
    v: &boa_engine::JsValue,
    key: &boa_engine::property::PropertyKey,
) -> boa_engine::JsValue {
    match v.variant() {
        boa_engine::value::JsVariant::Object(o) => o
            .get(key.clone(), ctx)
            .unwrap_or(boa_engine::JsValue::undefined()),
        _ => boa_engine::JsValue::undefined(),
    }
}

/// Relies on `boa_engine::property::PropertyKey`: the index of an
/// integer-indexed key, if it is one.
#[verifier::external_body]
pub fn prop_key_index(k: &boa_engine::property::PropertyKey) -> Option<u32> {
    match k {
        boa_engine::property::PropertyKey::Index(i) => Some(i.get()),
        _ => None,
    }
}

/// Relies on the `From<&PropertyKey>` conversion of
/// `boa_engine::JsValue`: the key as a value.
#[verifier::external_body]
pub fn prop_key_value(k: &boa_engine::property::PropertyKey) -> boa_engine::JsValue {
    boa_engine::JsValue::from(k)
}

/// Relies on the `From<i32>` conversion of `boa_engine::JsValue`.
#[verifier::external_body]
pub fn js_from_i32(v: i32) -> boa_engine::JsValue {
    boa_engine::JsValue::from(v)
}

/// Relies on the `From<u32>` conversion of `boa_engine::JsValue`.
#[verifier::external_body]
pub fn js_from_u32(v: u32) -> boa_engine::JsValue {
    boa_engine::JsValue::from(v)
}

/// Relies on the `From<usize>` conversion of `boa_engine::JsValue`.
#[verifier::external_body]
pub fn js_from_usize(v: usize) -> boa_engine::JsValue {
    boa_engine::JsValue::from(v)
}

/// Relies on the `From<char>` conversion of `boa_engine::JsValue`.
#[verifier::external_body]
pub fn js_from_char(v: char) -> boa_engine::JsValue {
    boa_engine::JsValue::from(v)
}

/// Relies on `boa_engine::JsValue::to_json`: the value as JSON, when it
/// has a JSON form.
#[verifier::external_body]
pub fn js_to_json(
    ctx: &mut boa_engine::Context,
    v: &boa_engine::JsValue,
) -> Result<Option<serde_json::Value>, ()> {
    v.to_json(ctx).map_err(|_| ())
}

/// Relies on `boa_engine::JsValue::from_json`: the JSON value as an
/// interpreter value.
#[verifier::external_body]
pub fn js_from_json(
    ctx: &mut boa_engine::Context,
    v: &serde_json::Value,
) -> Result<boa_engine::JsValue, ()> {
    boa_engine::JsValue::from_json(v, ctx).map_err(|_| ())
}

} // verus!
