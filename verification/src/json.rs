//! JSON values of `serde_json` and what the drivers do with them.
use vstd::prelude::*;
use serde_json::Value;
use crate::text;

verus! {

/// A value of `serde_json`.
#[verifier::external_type_specification]
#[verifier::external_body]
pub struct ExValue(serde_json::Value);

/// A `serde_json` map: the members of an object while it is built.
#[verifier::external_type_specification]
#[verifier::external_body]
#[verifier::reject_recursive_types(K)]
#[verifier::reject_recursive_types(V)]
pub struct ExMap<K, V>(serde_json::Map<K, V>);

/// An error of `serde_json`.
#[verifier::external_type_specification]
#[verifier::external_body]
pub struct ExError(serde_json::Error);

/// What a JSON value holds. A number is held by its text.
pub enum Json {
    Null,
    Bool(bool),
    Number(Seq<char>),
    Text(Seq<char>),
    Array(Seq<Json>),
    Object(Map<Seq<char>, Json>),
}

/// The contents of a `serde_json` value.
pub uninterp spec fn json_of(value: serde_json::Value) -> Json;

/// The bytes that `serde_json::to_vec` writes for a value with these contents. The
/// members of an object are written in the order of their keys, as the crate keeps
/// them without its feature `preserve_order`.
pub uninterp spec fn json_bytes(value: Json) -> Seq<u8>;

/// The contents of the value that `serde_json::from_slice` reads, or `None` when
/// the bytes are no JSON text.
pub uninterp spec fn json_parsed(bytes: Seq<u8>) -> Option<Json>;

/// The members that a `serde_json` map holds.
pub uninterp spec fn members_of(map: serde_json::Map<String, serde_json::Value>) -> Map<
    Seq<char>,
    Json,
>;

/// `serde_json::Value::String`: a JSON string.
#[verifier::external_body]
pub(crate) fn json_string(s: String) -> (r: Value)
    ensures
        json_of(r) == Json::Text(s@),
{
    Value::String(s)
}

/// `serde_json::Value::Bool`: a JSON boolean.
#[verifier::external_body]
pub(crate) fn json_bool(b: bool) -> (r: Value)
    ensures
        json_of(r) == Json::Bool(b),
{
    Value::Bool(b)
}

/// `serde_json::Value::from` on a `u32`: a JSON number.
#[verifier::external_body]
pub(crate) fn json_number(n: u32) -> (r: Value)
    ensures
        json_of(r) == Json::Number(text::decimal(n as nat)),
{
    Value::from(n)
}

/// `serde_json::Value::Array`: a JSON array of the values in order.
#[verifier::external_body]
pub(crate) fn json_array(items: Vec<Value>) -> (r: Value)
    ensures
        json_of(r) == Json::Array(items@.map_values(|v: Value| json_of(v))),
{
    Value::Array(items)
}

/// `serde_json::Map::new`: a map without members.
#[verifier::external_body]
pub(crate) fn no_members() -> (r: serde_json::Map<String, Value>)
    ensures
        (members_of(r) == Map::<Seq<char>, Json>::empty()),
{
    serde_json::Map::new()
}

/// `serde_json::Map::insert`: puts a value under a key, in place of the value that
/// the key had before, and leaves the other members as they are.
#[verifier::external_body]
pub(crate) fn add_member(map: &mut serde_json::Map<String, Value>, key: String, value: Value)
    ensures
        members_of(*final(map)) == members_of(*old(map)).insert(key@, json_of(value)),
{
    map.insert(key, value);
}

/// `serde_json::Value::Object`: a JSON object with the members of the map.
#[verifier::external_body]
pub(crate) fn json_object(map: serde_json::Map<String, Value>) -> (r: Value)
    ensures
        json_of(r) == Json::Object(members_of(map)),
{
    Value::Object(map)
}

/// `serde_json::to_vec` on a value: its compact JSON text. It succeeds on every
/// `Value`, whose keys are strings and which is written to memory.
#[verifier::external_body]
pub(crate) fn json_to_vec(value: &Value) -> (r: Result<Vec<u8>, serde_json::Error>)
    ensures
        r is Ok,
        r->Ok_0@ == json_bytes(json_of(*value)),
{
    serde_json::to_vec(value)
}

/// `serde_json::from_slice` into a `Value`: reads one JSON text.
#[verifier::external_body]
pub(crate) fn json_from_slice(bytes: &[u8]) -> (r: Result<Value, serde_json::Error>)
    ensures
        r is Ok == (json_parsed(bytes@) is Some),
        r matches Ok(v) ==> json_parsed(bytes@) == Some(json_of(v)),
{
    serde_json::from_slice(bytes)
}

/// The member of an object under a key.
pub open spec fn member(value: Json, key: Seq<char>) -> Option<Json> {
    match value {
        Json::Object(m) => if m.contains_key(key) {
            Some(m[key])
        } else {
            None
        },
        _ => None,
    }
}

/// `serde_json::Value::get` with a string: the member of an object under that
/// key, and `None` where there is none or the value is no object.
#[verifier::external_body]
pub(crate) fn json_get<'a>(value: &'a Value, key: &str) -> (r: Option<&'a Value>)
    ensures
        r is Some == (member(json_of(*value), key@) is Some),
        r matches Some(v) ==> member(json_of(*value), key@) == Some(json_of(*v)),
{
    value.get(key)
}

/// The text of a JSON string.
pub open spec fn text_of(value: Json) -> Option<Seq<char>> {
    match value {
        Json::Text(s) => Some(s),
        _ => None,
    }
}

/// `serde_json::Value::as_str`: the text of a JSON string, `None` for any other
/// value.
#[verifier::external_body]
pub(crate) fn json_as_str(value: &Value) -> (r: Option<&str>)
    ensures
        r is Some == (text_of(json_of(*value)) is Some),
        r matches Some(s) ==> text_of(json_of(*value)) == Some(s@),
{
    value.as_str()
}

/// `serde_json::Value::clone`: a value with the same contents.
#[verifier::external_body]
pub(crate) fn json_clone(value: &Value) -> (r: Value)
    ensures
        json_of(r) == json_of(*value),
{
    value.clone()
}

/// Adds a member with a text.
pub(crate) fn add_text(map: &mut serde_json::Map<String, Value>, key: &str, value: &str)
    ensures
        members_of(*final(map)) == members_of(*old(map)).insert(key@, Json::Text(value@)),
{
    add_member(map, key.to_owned(), json_string(value.to_owned()));
}

} // verus!
