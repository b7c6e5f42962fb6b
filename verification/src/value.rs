//! The mathematical model of a JSON value, and the trusted interface to
//! `serde_json`, which supplies the generic value tree and its text
//! encoder.
//!
//! `serde_json::Value` is opaque to the verifier; `val_model` names the
//! JSON value it holds, as a `JVal`. Every constructor the library uses
//! is wrapped with a contract that says what the model of the built
//! value is, and the text encoder is wrapped with a contract that names
//! its output as a function of the model alone.

use vstd::prelude::*;

verus! {

/// The model of a JSON value: what a `serde_json::Value` holds.
///
/// Objects are modelled as maps from key to value, which is faithful to
/// `serde_json`'s default object representation (a tree ordered by key,
/// where a later insert of the same key replaces the earlier one).
/// Numbers are modelled by their canonical decimal rendering, the text
/// `serde_json` emits for them.
#[verifier::ext_equal]
pub enum JVal {
    Null,
    Bool(bool),
    Num(Seq<char>),
    Str(Seq<char>),
    Arr(Seq<JVal>),
    Obj(Map<Seq<char>, JVal>),
}

/// The JSON value a `serde_json::Value` holds.
pub uninterp spec fn val_model(v: serde_json::Value) -> JVal;

/// The entries a `serde_json::Map` holds, keyed by the key's characters.
pub uninterp spec fn map_model(m: serde_json::Map<String, serde_json::Value>) -> Map<
    Seq<char>,
    JVal,
>;

/// The canonical text `serde_json::to_string` produces for a value.
///
/// The default `serde_json` object iterates its entries in key order, so
/// the text is a function of the value's model alone.
pub uninterp spec fn json_text(v: JVal) -> Seq<char>;

#[verifier::external_type_specification]
#[verifier::external_body]
pub struct ExValue(serde_json::Value);

#[verifier::external_type_specification]
#[verifier::external_body]
#[verifier::reject_recursive_types(K)]
#[verifier::reject_recursive_types(V)]
pub struct ExMap<K, V>(serde_json::Map<K, V>);

#[verifier::external_type_specification]
#[verifier::external_body]
pub struct ExError(serde_json::Error);

/// Relies on `serde_json::Value::Null`: the null value.
#[verifier::external_body]
pub(crate) fn value_null() -> (v: serde_json::Value)
    ensures
        val_model(v) == JVal::Null,
{
    serde_json::Value::Null
}

/// Relies on `serde_json::Value::String`: a string value holding exactly
/// the given characters.
#[verifier::external_body]
pub(crate) fn value_string(s: String) -> (v: serde_json::Value)
    ensures
        val_model(v) == JVal::Str(s@),
{
    serde_json::Value::String(s)
}

/// Relies on `serde_json::Value::Array`: an array value holding exactly
/// the given elements, in order.
#[verifier::external_body]
pub(crate) fn value_array(items: Vec<serde_json::Value>) -> (v: serde_json::Value)
    ensures
        val_model(v) == JVal::Arr(Seq::new(items@.len(), |i: int| val_model(items@[i]))),
{
    serde_json::Value::Array(items)
}

/// Relies on `serde_json::Value::Object`: an object value holding exactly
/// the given entries.
#[verifier::external_body]
pub(crate) fn value_object(m: serde_json::Map<String, serde_json::Value>) -> (v: serde_json::Value)
    ensures
        val_model(v) == JVal::Obj(map_model(m)),
{
    serde_json::Value::Object(m)
}

/// Relies on `serde_json::Map::new`: the empty object.
#[verifier::external_body]
pub(crate) fn map_new() -> (r: serde_json::Map<String, serde_json::Value>)
    ensures
        map_model(r) =~= Map::empty(),
{
    serde_json::Map::new()
}

/// Relies on `serde_json::Map::insert`: binds the key to the value,
/// replacing any earlier binding of the same key.
#[verifier::external_body]
pub(crate) fn map_insert(
    m: &mut serde_json::Map<String, serde_json::Value>,
    k: String,
    v: serde_json::Value,
)
    ensures
        map_model(*final(m)) == map_model(*old(m)).insert(k@, val_model(v)),
{
    m.insert(k, v);
}

/// Relies on `serde_json::Map::clone`: the copy holds the same entries.
#[verifier::external_body]
pub(crate) fn map_clone(m: &serde_json::Map<String, serde_json::Value>) -> (r: serde_json::Map<String, serde_json::Value>)
    ensures
        map_model(r) == map_model(*m),
{
    m.clone()
}

/// Relies on `serde_json::to_string`: the output is the canonical text
/// of the value. On a `Value` the call cannot fail: every object key is
/// a `String`, numbers are finite, and the writer is an infallible
/// in-memory buffer.
#[verifier::external_body]
pub(crate) fn to_json_string(v: &serde_json::Value) -> (r: Result<String, serde_json::Error>)
    ensures
        r is Ok,
        r matches Ok(s) ==> s@ == json_text(val_model(*v)),
{
    serde_json::to_string(v)
}

} // verus!
