//! What a JSON value holds, and the calls into `serde_json` that read, build
//! and change one.
use vstd::prelude::*;

verus! {

/// A JSON value.
#[verifier::external_type_specification]
#[verifier::external_body]
pub struct ExValue(serde_json::Value);

/// A JSON number.
#[verifier::external_type_specification]
#[verifier::external_body]
pub struct ExNumber(serde_json::Number);

/// The entries of a JSON object.
#[verifier::external_type_specification]
#[verifier::external_body]
#[verifier::reject_recursive_types(K)]
#[verifier::reject_recursive_types(V)]
pub struct ExMap<K, V>(serde_json::Map<K, V>);

/// A JSON value as a tree. An object is a map: the order in which it lists its
/// keys is no part of the tree.
pub ghost enum Json {
    Null,
    Bool(bool),
    Number(serde_json::Number),
    Text(Seq<char>),
    Array(Seq<Json>),
    Object(Map<Seq<char>, Json>),
}

/// The tree that a JSON value holds.
pub uninterp spec fn json_tree(value: serde_json::Value) -> Json;

/// The entries that a JSON object holds.
pub uninterp spec fn json_entries(entries: serde_json::Map<String, serde_json::Value>) -> Map<
    Seq<char>,
    Json,
>;

/// The trees of the elements of an array.
pub open spec fn json_items(items: Seq<serde_json::Value>) -> Seq<Json> {
    items.map_values(|v: serde_json::Value| json_tree(v))
}

/// The member of an object with the given key.
pub open spec fn member(value: Json, key: Seq<char>) -> Option<Json> {
    match value {
        Json::Object(entries) => if entries.contains_key(key) {
            Some(entries[key])
        } else {
            None
        },
        _ => None,
    }
}

/// `Value::as_str`: the text, where the value is a text.
pub assume_specification[ serde_json::Value::as_str ](value: &serde_json::Value) -> (text: Option<
    &str,
>)
    ensures
        match text {
            Some(s) => json_tree(*value) == Json::Text(s@),
            None => !(json_tree(*value) is Text),
        },
;

/// `Value::as_bool`: the truth value, where the value is one.
pub assume_specification[ serde_json::Value::as_bool ](value: &serde_json::Value) -> (truth: Option<
    bool,
>)
    ensures
        match truth {
            Some(b) => json_tree(*value) == Json::Bool(b),
            None => !(json_tree(*value) is Bool),
        },
;

/// `Value::as_array`: the elements, where the value is an array.
pub assume_specification[ serde_json::Value::as_array ](value: &serde_json::Value) -> (items: Option<
    &Vec<serde_json::Value>,
>)
    ensures
        match items {
            Some(v) => json_tree(*value) == Json::Array(json_items(v@)),
            None => !(json_tree(*value) is Array),
        },
;

/// `Value::as_array_mut`: the elements, to be changed in place, where the value
/// is an array; the value then holds what they have become.
pub assume_specification[ serde_json::Value::as_array_mut ](
    value: &mut serde_json::Value,
) -> (items: Option<&mut Vec<serde_json::Value>>)
    ensures
        match items {
            Some(v) => {
                &&& json_tree(*old(value)) == Json::Array(json_items(v@))
                &&& json_tree(*final(value)) == Json::Array(json_items(final(v)@))
            },
            None => {
                &&& !(json_tree(*old(value)) is Array)
                &&& *final(value) == *old(value)
            },
        },
;

/// `Value::as_object_mut`: the entries, to be changed in place, where the value
/// is an object; the value then holds what they have become.
pub assume_specification[ serde_json::Value::as_object_mut ](
    value: &mut serde_json::Value,
) -> (entries: Option<&mut serde_json::Map<String, serde_json::Value>>)
    ensures
        match entries {
            Some(m) => {
                &&& json_tree(*old(value)) == Json::Object(json_entries(*m))
                &&& json_tree(*final(value)) == Json::Object(json_entries(*final(m)))
            },
            None => {
                &&& !(json_tree(*old(value)) is Object)
                &&& *final(value) == *old(value)
            },
        },
;

/// `Value::clone`: a copy that holds the same tree.
pub assume_specification[ <serde_json::Value as Clone>::clone ](
    value: &serde_json::Value,
) -> (copy: serde_json::Value)
    ensures
        json_tree(copy) == json_tree(*value),
;

/// `Map::new`: no entry.
pub assume_specification[ serde_json::Map::<String, serde_json::Value>::new ]() -> (none: serde_json::Map<String, serde_json::Value>)
    ensures
        json_entries(none) == (Map::<Seq<char>, Json>::empty()),
;

/// `Map::insert`: the key now has the given value, the other entries stay, and
/// the value that the key had is returned.
pub assume_specification[ serde_json::Map::<String, serde_json::Value>::insert ](
    entries: &mut serde_json::Map<String, serde_json::Value>,
    k: String,
    v: serde_json::Value,
) -> (replaced: Option<serde_json::Value>)
    ensures
        json_entries(*final(entries)) == json_entries(*old(entries)).insert(k@, json_tree(v)),
        match replaced {
            Some(was) => {
                &&& json_entries(*old(entries)).contains_key(k@)
                &&& json_tree(was) == json_entries(*old(entries))[k@]
            },
            None => !json_entries(*old(entries)).contains_key(k@),
        },
;

/// `Value::get` with a string: the member of that name, where the value is an
/// object that has it.
#[verifier::external_body]
pub(crate) fn get<'a>(value: &'a serde_json::Value, key: &str) -> (found: Option<
    &'a serde_json::Value,
>)
    ensures
        match found {
            Some(v) => member(json_tree(*value), key@) == Some(json_tree(*v)),
            None => member(json_tree(*value), key@) is None,
        },
{
    value.get(key)
}

/// `Value::get_mut` with a string: the member of that name, to be changed in
/// place, where the value is an object that has it; the object then holds what
/// the member has become, and its other members stay.
#[verifier::external_body]
pub(crate) fn get_mut<'a>(value: &'a mut serde_json::Value, key: &str) -> (found: Option<
    &'a mut serde_json::Value,
>)
    ensures
        match found {
            Some(v) => {
                &&& json_tree(*old(value)) matches Json::Object(entries)
                &&& entries.contains_key(key@)
                &&& json_tree(*v) == entries[key@]
                &&& json_tree(*final(value)) == Json::Object(
                    entries.insert(key@, json_tree(*final(v))),
                )
            },
            None => {
                &&& member(json_tree(*old(value)), key@) is None
                &&& *final(value) == *old(value)
            },
        },
{
    value.get_mut(key)
}

/// `Value::String`: the text as a JSON value.
#[verifier::external_body]
pub(crate) fn text_value(text: String) -> (value: serde_json::Value)
    ensures
        json_tree(value) == Json::Text(text@),
{
    serde_json::Value::String(text)
}

/// The compact text of a JSON value.
pub uninterp spec fn json_text(tree: Json) -> Seq<char>;

/// `Value::to_string`: the compact text. It depends on the tree alone: an
/// object lists its members in the order of their keys.
#[verifier::external_body]
pub(crate) fn compact_text(value: &serde_json::Value) -> (text: String)
    ensures
        text@ == json_text(json_tree(*value)),
{
    value.to_string()
}

/// `Value::Null`: the JSON value `null`.
#[verifier::external_body]
pub(crate) fn null_value() -> (value: serde_json::Value)
    ensures
        json_tree(value) == Json::Null,
{
    serde_json::Value::Null
}

/// `Value::Object`: the entries as a JSON value.
#[verifier::external_body]
pub(crate) fn object_value(entries: serde_json::Map<String, serde_json::Value>) -> (value:
    serde_json::Value)
    ensures
        json_tree(value) == Json::Object(json_entries(entries)),
{
    serde_json::Value::Object(entries)
}

} // verus!
