//! The JSON boundary: parsed documents are held as `serde_json::Value`s,
//! opaque to the verifier, and read through a small set of trusted accessors
//! whose contracts speak of an abstract model of the document.

use vstd::prelude::*;

verus! {

/// The abstract shape of a parsed JSON document, as far as this library
/// reads one: strings, arrays and objects; numbers, booleans and null are
/// lumped together as `Other`, which no contract inspects further.
/// An object is a sequence of key/value pairs with distinct keys.
pub enum Json {
    Str(Seq<char>),
    Arr(Seq<Json>),
    Obj(Seq<(Seq<char>, Json)>),
    Other,
}

/// The value bound to `k` among an object's entries: the first pair whose
/// key is `k`. Keys of a parsed object are distinct, so "first" is "the".
pub open spec fn obj_lookup(entries: Seq<(Seq<char>, Json)>, k: Seq<char>) -> Option<Json>
    decreases entries.len(),
{
    if entries.len() == 0 {
        None
    } else if entries[0].0 == k {
        Some(entries[0].1)
    } else {
        obj_lookup(entries.skip(1), k)
    }
}

#[verifier::external_type_specification]
#[verifier::external_body]
pub struct ExValue(serde_json::Value);

/// The model of a parsed JSON value.
pub uninterp spec fn value_model(v: serde_json::Value) -> Json;

/// The model of the JSON document a text parses to, where it parses.
pub uninterp spec fn json_of(s: Seq<char>) -> Json;

/// Whether a text is a parseable JSON document.
pub uninterp spec fn json_parses(s: Seq<char>) -> bool;

/// Relies on serde_json::from_str::<Value>: whether a text parses, and what
/// it parses to, are functions of the text alone; a parse failure is
/// reported as None.
#[verifier::external_body]
pub fn parse_json(s: &str) -> (r: Option<serde_json::Value>)
    ensures
        r is Some <==> json_parses(s@),
        r is Some ==> value_model(r->Some_0) == json_of(s@),
{
    serde_json::from_str(s).ok()
}

/// Relies on serde_json::Value::as_array: Some exactly on arrays, and the
/// returned elements are the array's elements in order.
#[verifier::external_body]
pub fn as_array<'a>(v: &'a serde_json::Value) -> (r: Option<&'a Vec<serde_json::Value>>)
    ensures
        match value_model(*v) {
            Json::Arr(items) => {
                &&& r is Some
                &&& r->Some_0@.len() == items.len()
                &&& forall|i: int|
                    0 <= i < items.len() ==> value_model(#[trigger] r->Some_0@[i]) == items[i]
            },
            _ => r is None,
        },
{
    v.as_array()
}

/// Relies on serde_json::Value::as_str: Some exactly on strings, returning
/// the string's characters.
#[verifier::external_body]
pub fn as_str<'a>(v: &'a serde_json::Value) -> (r: Option<&'a str>)
    ensures
        match value_model(*v) {
            Json::Str(s) => r is Some && r->Some_0@ == s,
            _ => r is None,
        },
{
    v.as_str()
}

/// Relies on serde_json::Value::get with a string key: on an object, the
/// value bound to the key; None on a missing key or any non-object.
#[verifier::external_body]
pub fn get_field<'a>(v: &'a serde_json::Value, key: &str) -> (r: Option<&'a serde_json::Value>)
    ensures
        match value_model(*v) {
            Json::Obj(entries) => match obj_lookup(entries, key@) {
                Some(j) => r is Some && value_model(*r->Some_0) == j,
                None => r is None,
            },
            _ => r is None,
        },
{
    v.get(key)
}

/// Relies on serde_json::Value::as_object and serde_json::Map iteration:
/// Some exactly on objects, handing out every entry, keys distinct.
#[verifier::external_body]
pub fn object_entries(v: &serde_json::Value) -> (r: Option<Vec<(String, serde_json::Value)>>)
    ensures
        match value_model(*v) {
            Json::Obj(entries) => {
                &&& r is Some
                &&& r->Some_0@.len() == entries.len()
                &&& forall|i: int|
                    0 <= i < entries.len() ==> (#[trigger] r->Some_0@[i].0@ == entries[i].0
                        && value_model(r->Some_0@[i].1) == entries[i].1)
                &&& forall|i: int, j: int|
                    0 <= i < j < entries.len() ==> #[trigger] entries[i].0 != #[trigger] entries[j].0
            },
            _ => r is None,
        },
{
    v.as_object().map(|m| m.iter().map(|(k, w)| (k.clone(), w.clone())).collect())
}

} // verus!
