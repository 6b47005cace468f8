//! JSON documents.
//!
//! [`Json`] is the plain content of a document. The documents themselves are
//! `serde_json` values; what is believed of `serde_json` stands here, in terms of
//! that content.

use vstd::prelude::*;

verus! {

/// The content of a JSON document.
pub enum Json {
    Null,
    Bool(bool),
    /// A number, as it is printed.
    Number(Seq<char>),
    Text(Seq<char>),
    List(Seq<Json>),
    Object(Map<Seq<char>, Json>),
}

/// `serde_json::Value`.
#[verifier::external_type_specification]
#[verifier::external_body]
pub struct ExValue(serde_json::Value);

/// `serde_json::Map`.
#[verifier::external_type_specification]
#[verifier::external_body]
#[verifier::reject_recursive_types(K)]
#[verifier::reject_recursive_types(V)]
pub struct ExMap<K, V>(serde_json::Map<K, V>);

/// `serde_json::Error`.
#[verifier::external_type_specification]
#[verifier::external_body]
pub struct ExError(serde_json::Error);

/// What a value holds.
pub uninterp spec fn json_content(value: serde_json::Value) -> Json;

/// What an object holds: the content of the value under each key.
pub uninterp spec fn object_content(
    map: serde_json::Map<String, serde_json::Value>,
) -> Map<Seq<char>, Json>;

/// What `serde_json::from_str` reads from a text, or nothing where it refuses it.
pub uninterp spec fn parsed_json(text: Seq<char>) -> Option<Json>;

/// What `serde_json::to_string_pretty` prints for a document with this content.
pub uninterp spec fn pretty_json(content: Json) -> Seq<char>;

/// What values hold.
pub open spec fn json_contents(values: Seq<serde_json::Value>) -> Seq<Json> {
    values.map_values(|value: serde_json::Value| json_content(value))
}

/// `serde_json::Value::as_object_mut` hands out the object that a value is; a
/// change of the object is a change of the value.
pub assume_specification[ serde_json::Value::as_object_mut ](value: &mut serde_json::Value) -> (r:
    Option<&mut serde_json::Map<String, serde_json::Value>>)
    ensures
        match r {
            Some(map) => {
                &&& json_content(*old(value)) == Json::Object(object_content(*map))
                &&& json_content(*final(value)) == Json::Object(object_content(*final(map)))
            },
            None => !(json_content(*old(value)) is Object) && *final(value) == *old(value),
        },
;

/// `serde_json::Value::as_array_mut` hands out the items of a list; a change of
/// the items is a change of the value.
pub assume_specification[ serde_json::Value::as_array_mut ](value: &mut serde_json::Value) -> (r:
    Option<&mut Vec<serde_json::Value>>)
    ensures
        match r {
            Some(items) => {
                &&& json_content(*old(value)) == Json::List(json_contents(items@))
                &&& json_content(*final(value)) == Json::List(json_contents(final(items)@))
            },
            None => !(json_content(*old(value)) is List) && *final(value) == *old(value),
        },
;

/// `serde_json::Value::as_str` reads the text that a value is.
pub assume_specification[ serde_json::Value::as_str ](value: &serde_json::Value) -> (r: Option<
    &str,
>)
    ensures
        match r {
            Some(text) => json_content(*value) == Json::Text(text@),
            None => !(json_content(*value) is Text),
        },
;

/// `serde_json::Value::clone`: the copy holds what the value holds.
pub assume_specification[ <serde_json::Value as Clone>::clone ](value: &serde_json::Value) -> (r:
    serde_json::Value)
    ensures
        json_content(r) == json_content(*value),
;

/// `serde_json::Map::remove` takes a key out of an object and leaves every other
/// key as it is.
#[verifier::external_body]
pub(crate) fn remove_key(map: &mut serde_json::Map<String, serde_json::Value>, key: &str)
    ensures
        object_content(*final(map)) == object_content(*old(map)).remove(key@),
{
    map.remove(key);
}

/// `serde_json::Map::entry` with `Entry::or_insert_with` hands out the value
/// under a key, after putting `default` there where the object lacks the key. A
/// change of that value changes the object under that key and nowhere else.
#[verifier::external_body]
pub(crate) fn entry_or_insert<'a>(
    map: &'a mut serde_json::Map<String, serde_json::Value>,
    key: &str,
    default: serde_json::Value,
) -> (r: &'a mut serde_json::Value)
    ensures
        json_content(*r) == (if object_content(*old(map)).contains_key(key@) {
            object_content(*old(map))[key@]
        } else {
            json_content(default)
        }),
        object_content(*final(map)) == object_content(*old(map)).insert(
            key@,
            json_content(*final(r)),
        ),
{
    map.entry(key).or_insert_with(|| default)
}

/// `serde_json::Value::String`: the value that is a text.
#[verifier::external_body]
pub(crate) fn text_value(text: String) -> (r: serde_json::Value)
    ensures
        json_content(r) == Json::Text(text@),
{
    serde_json::Value::String(text)
}

/// `serde_json::Value::Array`: the value that is a list.
#[verifier::external_body]
pub(crate) fn list_value(items: Vec<serde_json::Value>) -> (r: serde_json::Value)
    ensures
        json_content(r) == Json::List(json_contents(items@)),
{
    serde_json::Value::Array(items)
}

/// `serde_json::from_str` reads a document, or refuses the text. Which texts it
/// reads, and as what, is left to the name [`parsed_json`].
#[verifier::external_body]
pub(crate) fn parse_json(text: &str) -> (r: Result<serde_json::Value, serde_json::Error>)
    ensures
        (match r {
            Ok(value) => Some(json_content(value)),
            Err(_) => None,
        }) == parsed_json(text@),
{
    serde_json::from_str(text)
}

/// `serde_json::to_string_pretty` prints a document. It never fails on a
/// `serde_json::Value`: all keys are texts, and no part of one refuses to be
/// printed.
#[verifier::external_body]
pub(crate) fn print_json(value: &serde_json::Value) -> (r: Result<String, serde_json::Error>)
    ensures
        r is Ok,
        r->Ok_0@ == pretty_json(json_content(*value)),
{
    serde_json::to_string_pretty(value)
}

/// The contents of values are one for each value, in the same order.
pub proof fn law_contents_are_one_by_one(values: Seq<serde_json::Value>, i: int)
    ensures
        json_contents(values).len() == values.len(),
        0 <= i < values.len() ==> json_contents(values)[i] == json_content(values[i]),
{
}

} // verus!
