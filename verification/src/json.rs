use serde_json::Value;
use vstd::prelude::*;

verus! {

/// The mathematical content of a JSON document.
///
/// Objects are maps: the order of their keys carries no meaning. A number is
/// kept as its decimal text.
pub enum Json {
    Null,
    Bool(bool),
    Number(Seq<char>),
    String(Seq<char>),
    Array(Seq<Json>),
    Object(Map<Seq<char>, Json>),
}

/// The entries of a JSON object, each under its key.
pub type JsonFields = Map<Seq<char>, Json>;

/// A JSON value of `serde_json`.
#[verifier::external_type_specification]
#[verifier::external_body]
pub struct ExValue(serde_json::Value);

/// The map of `serde_json` behind a JSON object.
#[verifier::external_type_specification]
#[verifier::external_body]
#[verifier::reject_recursive_types(K)]
#[verifier::reject_recursive_types(V)]
pub struct ExJsonMap<K, V>(serde_json::Map<K, V>);

/// The document that a JSON value of `serde_json` holds.
pub uninterp spec fn json_view(value: serde_json::Value) -> Json;

/// The entries of a JSON object of `serde_json`, each under its key.
pub uninterp spec fn object_view(map: serde_json::Map<String, Value>) -> JsonFields;

/// `serde_json::Value::Null`: the document is null.
#[verifier::external_body]
pub(crate) fn json_null() -> (value: Value)
    ensures
        json_view(value) == Json::Null,
{
    Value::Null
}

/// `serde_json::Value::Bool`: the document is the given boolean.
#[verifier::external_body]
pub(crate) fn json_bool(flag: bool) -> (value: Value)
    ensures
        json_view(value) == Json::Bool(flag),
{
    Value::Bool(flag)
}

/// `serde_json::Value::String`: the document is the given string.
#[verifier::external_body]
pub(crate) fn json_string(text: String) -> (value: Value)
    ensures
        json_view(value) == Json::String(text@),
{
    Value::String(text)
}

/// `serde_json::Value::Array`: the document is the array of the given
/// documents, in their order.
#[verifier::external_body]
pub(crate) fn json_array(items: Vec<Value>) -> (value: Value)
    ensures
        json_view(value) == Json::Array(json_views(items@)),
{
    Value::Array(items)
}

/// `serde_json::Value::Object`: the document is the object with the entries of
/// the given map.
#[verifier::external_body]
pub(crate) fn json_object(map: serde_json::Map<String, Value>) -> (value: Value)
    ensures
        json_view(value) == Json::Object(object_view(map)),
{
    Value::Object(map)
}

/// `serde_json::Map::new`: the map has no entries.
#[verifier::external_body]
pub(crate) fn object_new() -> (map: serde_json::Map<String, Value>)
    ensures
        object_view(map) == JsonFields::empty(),
{
    serde_json::Map::new()
}

/// `serde_json::Map::insert`: the key is bound to the value, every other key
/// keeps its binding, and the value that the key had before is handed back.
#[verifier::external_body]
pub(crate) fn object_insert(
    map: &mut serde_json::Map<String, Value>,
    key: String,
    value: Value,
) -> (previous: Option<Value>)
    ensures
        object_view(*final(map)) == object_view(*old(map)).insert(key@, json_view(value)),
        match previous {
            Some(v) => object_view(*old(map)).contains_key(key@) && json_view(v) == object_view(
                *old(map),
            )[key@],
            None => !object_view(*old(map)).contains_key(key@),
        },
{
    map.insert(key, value)
}

/// `serde_json::Value::clone`: the copy holds the same document.
pub assume_specification[ <serde_json::Value as Clone>::clone ](value: &serde_json::Value) -> (copy:
    serde_json::Value)
    ensures
        json_view(copy) == json_view(*value),
;

/// `serde_json::Value::is_null`: whether the document is null.
#[verifier::external_body]
pub(crate) fn json_is_null(value: &Value) -> (is_null: bool)
    ensures
        is_null == (json_view(*value) == Json::Null),
{
    value.is_null()
}

/// `serde_json::Value::as_str`: the text of a document that is a string, and
/// nothing for any other document.
#[verifier::external_body]
pub(crate) fn json_as_str(value: &Value) -> (text: Option<&str>)
    ensures
        match text {
            Some(t) => json_view(*value) == Json::String(t@),
            None => !(json_view(*value) is String),
        },
{
    value.as_str()
}

/// `serde_json::Value::as_array_mut`: the elements of a document that is an
/// array, to be changed in place, and nothing for any other document.
#[verifier::external_body]
pub(crate) fn json_as_array_mut(value: &mut Value) -> (items: Option<&mut Vec<Value>>)
    ensures
        match items {
            Some(v) => {
                &&& json_view(*old(value)) == Json::Array(json_views(v@))
                &&& json_view(*final(value)) == Json::Array(json_views(final(v)@))
            },
            None => !(json_view(*old(value)) is Array) && *final(value) == *old(value),
        },
{
    value.as_array_mut()
}

/// `serde_json::Value::as_object_mut`: the entries of a document that is an
/// object, to be changed in place, and nothing for any other document.
#[verifier::external_body]
pub(crate) fn json_as_object_mut(value: &mut Value) -> (map: Option<
    &mut serde_json::Map<String, Value>,
>)
    ensures
        match map {
            Some(m) => {
                &&& json_view(*old(value)) == Json::Object(object_view(*m))
                &&& json_view(*final(value)) == Json::Object(object_view(*final(m)))
            },
            None => !(json_view(*old(value)) is Object) && *final(value) == *old(value),
        },
{
    value.as_object_mut()
}

/// `serde_json::Map::get`: the value bound to a key, or nothing where the key is
/// not bound.
#[verifier::external_body]
pub(crate) fn object_get<'a>(map: &'a serde_json::Map<String, Value>, key: &str) -> (value: Option<
    &'a Value,
>)
    ensures
        match value {
            Some(v) => object_view(*map).contains_key(key@) && json_view(*v) == object_view(
                *map,
            )[key@],
            None => !object_view(*map).contains_key(key@),
        },
{
    map.get(key)
}

/// `serde_json::Map::get_mut`: the value bound to a key, to be changed in place
/// with every other binding kept, or nothing where the key is not bound.
#[verifier::external_body]
pub(crate) fn object_get_mut<'a>(
    map: &'a mut serde_json::Map<String, Value>,
    key: &str,
) -> (value: Option<&'a mut Value>)
    ensures
        match value {
            Some(v) => {
                &&& object_view(*old(map)).contains_key(key@)
                &&& json_view(*v) == object_view(*old(map))[key@]
                &&& object_view(*final(map)) == object_view(*old(map)).insert(
                    key@,
                    json_view(*final(v)),
                )
            },
            None => !object_view(*old(map)).contains_key(key@) && *final(map) == *old(map),
        },
{
    map.get_mut(key)
}

/// The documents that a sequence of JSON values holds.
pub open spec fn json_views(values: Seq<Value>) -> Seq<Json> {
    values.map_values(|v: Value| json_view(v))
}

} // verus!
