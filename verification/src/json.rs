//! Trusted interface to the JSON reader used for directive payloads.
//!
//! A parsed document is modelled by [`JsonData`]; what the reader returns
//! for a given payload text is named by [`json_of`], and the content of an
//! outside JSON value by [`json_rep`].  The shape checks on directive
//! payloads are done in verified code on top of these few accessors.

use vstd::prelude::*;

verus! {

/// Spec-level shape of a parsed JSON document.  A number carries its `u64`
/// value when it has one, and in either case the token text the writer
/// renders for it, so that two different numbers never read as one
/// document; object entries stand in the reader's iteration order.
pub enum JsonData {
    Null,
    Bool(bool),
    Num(Option<u64>, Seq<char>),
    Str(Seq<char>),
    Arr(Seq<JsonData>),
    Obj(Seq<(Seq<char>, JsonData)>),
}

/// The document that the JSON reader yields for a text, or `None` when the
/// text is not valid JSON.
pub uninterp spec fn json_of(s: Seq<char>) -> Option<JsonData>;

/// The content of an outside JSON value.
pub uninterp spec fn json_rep(v: serde_json::Value) -> JsonData;

/// The canonical text that the JSON writer renders for a document.
pub uninterp spec fn json_text(d: JsonData) -> Seq<char>;

/// The value under `key` in an object's entry list, first match.
pub open spec fn obj_lookup(entries: Seq<(Seq<char>, JsonData)>, key: Seq<char>) -> Option<
    JsonData,
>
    decreases entries.len(),
{
    if entries.len() == 0 {
        None
    } else if entries[0].0 == key {
        Some(entries[0].1)
    } else {
        obj_lookup(entries.skip(1), key)
    }
}

#[verifier::external_type_specification]
#[verifier::external_body]
pub struct ExValue(serde_json::Value);

/// Relies on `serde_json::from_str::<Value>`: parses a JSON document, or
/// reports why the text is not one.
#[verifier::external_body]
pub fn json_parse(s: &str) -> (r: Result<serde_json::Value, String>)
    ensures
        r is Ok <==> json_of(s@) is Some,
        r is Ok ==> json_rep(r->Ok_0) == json_of(s@)->Some_0,
{
    match serde_json::from_str::<serde_json::Value>(s) {
        Ok(v) => Ok(v),
        Err(e) => Err(e.to_string()),
    }
}

/// Relies on `serde_json::Value::is_object`.
#[verifier::external_body]
pub fn value_is_object(v: &serde_json::Value) -> (r: bool)
    ensures
        r == (json_rep(*v) is Obj),
{
    v.is_object()
}

/// Relies on `serde_json::Value::is_null`.
#[verifier::external_body]
pub fn value_is_null(v: &serde_json::Value) -> (r: bool)
    ensures
        r == (json_rep(*v) is Null),
{
    v.is_null()
}

/// Relies on `serde_json::Value::get`: looks a key up in a JSON object;
/// `None` on any other shape.
#[verifier::external_body]
pub fn value_get<'a>(v: &'a serde_json::Value, key: &str) -> (r: Option<&'a serde_json::Value>)
    ensures
        match json_rep(*v) {
            JsonData::Obj(entries) => match obj_lookup(entries, key@) {
                Some(d) => r is Some && json_rep(*r->Some_0) == d,
                None => r is None,
            },
            _ => r is None,
        },
{
    v.get(key)
}

/// Relies on `serde_json::Value::as_u64`: the number's `u64` value, if it
/// is one.
#[verifier::external_body]
pub fn value_as_u64(v: &serde_json::Value) -> (r: Option<u64>)
    ensures
        r == (match json_rep(*v) {
            JsonData::Num(o, _) => o,
            _ => None::<u64>,
        }),
{
    v.as_u64()
}

/// Relies on `serde_json::Value::as_str`.
#[verifier::external_body]
pub fn value_as_str<'a>(v: &'a serde_json::Value) -> (r: Option<&'a str>)
    ensures
        match json_rep(*v) {
            JsonData::Str(t) => r is Some && r->Some_0@ == t,
            _ => r is None,
        },
{
    v.as_str()
}

/// Relies on `serde_json::Value::as_array`.
#[verifier::external_body]
pub fn value_as_array<'a>(v: &'a serde_json::Value) -> (r: Option<&'a Vec<serde_json::Value>>)
    ensures
        match json_rep(*v) {
            JsonData::Arr(items) => r is Some && r->Some_0@.len() == items.len() && (forall|i: int|
                0 <= i < items.len() ==> json_rep(#[trigger] r->Some_0@[i]) == items[i]),
            _ => r is None,
        },
{
    v.as_array()
}

/// Relies on `serde_json::Map::iter`: hands an object's entries out as
/// plain pairs, in the map's iteration order.
#[verifier::external_body]
pub fn value_object_entries(v: &serde_json::Value) -> (r: Option<Vec<(String, serde_json::Value)>>)
    ensures
        match json_rep(*v) {
            JsonData::Obj(entries) => r is Some && r->Some_0@.len() == entries.len() && (forall|
                i: int,
            |
                0 <= i < entries.len() ==> (#[trigger] r->Some_0@[i]).0@ == entries[i].0 && json_rep(
                    r->Some_0@[i].1,
                ) == entries[i].1),
            _ => r is None,
        },
{
    match v.as_object() {
        Some(m) => Some(m.iter().map(|(k, val)| (k.clone(), val.clone())).collect()),
        None => None,
    }
}

/// Relies on `serde_json::to_string`: renders a JSON value; the output is a
/// function of the value's content alone, and rendering a `Value` cannot
/// fail.
#[verifier::external_body]
pub fn value_to_text(v: &serde_json::Value) -> (r: String)
    ensures
        r@ == json_text(json_rep(*v)),
{
    serde_json::to_string(v).unwrap_or_default()
}

} // verus!
