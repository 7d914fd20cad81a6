//! `serde_json` documents: what they hold, and what the operations on them do to that.
//!
//! A `serde_json::Value` is opaque to the verifier. `contents` says which document it is,
//! and `members` which members a `serde_json::Map` holds. Each trusted item below states
//! what one operation of `serde_json` reads or changes, in these terms.

use vstd::prelude::*;
use crate::json::Json;

verus! {

/// The type of JSON numbers, which are carried through unread.
#[verifier::external_type_specification]
#[verifier::external_body]
pub struct ExNumber(serde_json::Number);

/// The type of JSON documents.
#[verifier::external_type_specification]
#[verifier::external_body]
pub struct ExValue(serde_json::Value);

/// The type of the members of a JSON object.
#[verifier::external_type_specification]
#[verifier::external_body]
#[verifier::reject_recursive_types(K)]
#[verifier::reject_recursive_types(V)]
pub struct ExMap<K, V>(serde_json::Map<K, V>);

/// The document that a value holds.
pub uninterp spec fn contents(value: serde_json::Value) -> Json;

/// The members that a map holds, each with its document.
pub uninterp spec fn members(map: serde_json::Map<String, serde_json::Value>) -> Map<
    Seq<char>,
    Json,
>;

/// The compact JSON text of a document.
pub uninterp spec fn json_text(document: Json) -> Seq<char>;

/// The documents that a list of values holds.
pub open spec fn all_contents(values: Seq<serde_json::Value>) -> Seq<Json> {
    values.map_values(|value: serde_json::Value| contents(value))
}

/// The members of an empty object.
pub open spec fn no_members() -> Map<Seq<char>, Json> {
    Map::empty()
}

/// `Value::is_object`: true of an object and of nothing else.
pub assume_specification[ serde_json::Value::is_object ](value: &serde_json::Value) -> (yes: bool)
    ensures
        yes == (contents(*value) is Obj),
;

/// `Value::is_null`: true of `null` and of nothing else.
pub assume_specification[ serde_json::Value::is_null ](value: &serde_json::Value) -> (yes: bool)
    ensures
        yes == (contents(*value) is Null),
;

/// `Value::is_string`: true of a string and of nothing else.
pub assume_specification[ serde_json::Value::is_string ](value: &serde_json::Value) -> (yes: bool)
    ensures
        yes == (contents(*value) is Str),
;

/// `Value::as_str`: the text of a string, and nothing for any other value.
pub assume_specification[ serde_json::Value::as_str ](value: &serde_json::Value) -> (text: Option<
    &str,
>)
    ensures
        match text {
            Some(text) => contents(*value) == Json::Str(text@),
            None => !(contents(*value) is Str),
        },
;

/// `Value::as_array`: the items of an array, and nothing for any other value.
pub assume_specification[ serde_json::Value::as_array ](value: &serde_json::Value) -> (items:
    Option<&Vec<serde_json::Value>>)
    ensures
        match items {
            Some(items) => contents(*value) == Json::Arr(all_contents(items@)),
            None => !(contents(*value) is Arr),
        },
;

/// `Value::as_array_mut`: access to the items of an array, and nothing for any other value.
pub assume_specification[ serde_json::Value::as_array_mut ](value: &mut serde_json::Value) -> (items:
    Option<&mut Vec<serde_json::Value>>)
    ensures
        match items {
            Some(items) => contents(*old(value)) == Json::Arr(all_contents(items@)) && contents(
                *final(value),
            ) == Json::Arr(all_contents(final(items)@)),
            None => !(contents(*old(value)) is Arr) && *final(value) == *old(value),
        },
;

/// `Value::as_object`: the members of an object, and nothing for any other value.
pub assume_specification[ serde_json::Value::as_object ](value: &serde_json::Value) -> (map: Option<
    &serde_json::Map<String, serde_json::Value>,
>)
    ensures
        match map {
            Some(map) => contents(*value) == Json::Obj(members(*map)),
            None => !(contents(*value) is Obj),
        },
;

/// `Value::as_object_mut`: access to the members of an object, and nothing for any other value.
pub assume_specification[ serde_json::Value::as_object_mut ](value: &mut serde_json::Value) -> (map:
    Option<&mut serde_json::Map<String, serde_json::Value>>)
    ensures
        match map {
            Some(map) => contents(*old(value)) == Json::Obj(members(*map)) && contents(
                *final(value),
            ) == Json::Obj(members(*final(map))),
            None => !(contents(*old(value)) is Obj) && *final(value) == *old(value),
        },
;

/// `Value::clone`: a value that holds the same document.
pub assume_specification[ <serde_json::Value as Clone>::clone ](value: &serde_json::Value) -> (copy:
    serde_json::Value)
    ensures
        contents(copy) == contents(*value),
;

/// `Map::new`: a map without members.
pub assume_specification[ serde_json::Map::<String, serde_json::Value>::new ]() -> (map:
    serde_json::Map<String, serde_json::Value>)
    ensures
        members(map) == no_members(),
;

/// `Map::insert`: sets one member and hands back the value that it had before, if any.
pub assume_specification[ serde_json::Map::<String, serde_json::Value>::insert ](
    map: &mut serde_json::Map<String, serde_json::Value>,
    k: String,
    v: serde_json::Value,
) -> (before: Option<serde_json::Value>)
    ensures
        members(*final(map)) == members(*old(map)).insert(k@, contents(v)),
        match before {
            Some(before) => members(*old(map)).contains_key(k@) && members(*old(map))[k@]
                == contents(before),
            None => !members(*old(map)).contains_key(k@),
        },
;

/// `Map::is_empty`: whether a map has no members.
pub assume_specification[ serde_json::Map::<String, serde_json::Value>::is_empty ](
    map: &serde_json::Map<String, serde_json::Value>,
) -> (yes: bool)
    ensures
        yes == (members(*map) == no_members()),
;

/// `Value::get` with a text: the member of an object, and nothing where the value is no
/// object or has no such member.
#[verifier::external_body]
pub(crate) fn member<'a>(value: &'a serde_json::Value, key: &str) -> (found: Option<
    &'a serde_json::Value,
>)
    ensures
        match found {
            Some(found) => contents(*value).get(key@) == Some(contents(*found)),
            None => contents(*value).get(key@) is None,
        },
{
    value.get(key)
}

/// `Value::get_mut` with a text: access to the member of an object, and nothing where the
/// value is no object or has no such member.
#[verifier::external_body]
pub(crate) fn member_mut<'a>(value: &'a mut serde_json::Value, key: &str) -> (found: Option<
    &'a mut serde_json::Value,
>)
    ensures
        match found {
            Some(found) => contents(*old(value)).get(key@) == Some(contents(*found)) && contents(
                *final(value),
            ) == contents(*old(value)).with(key@, contents(*final(found))),
            None => contents(*old(value)).get(key@) is None && *final(value) == *old(value),
        },
{
    value.get_mut(key)
}

/// `Value::to_string`, which is its `Display`: the compact JSON text of the document. It
/// depends on the document alone, since the members of an object are written in the order
/// of their names.
#[verifier::external_body]
pub(crate) fn to_text(value: &serde_json::Value) -> (text: String)
    ensures
        text@ == json_text(contents(*value)),
{
    value.to_string()
}

/// `Value::String`: the string with that text.
#[verifier::external_body]
pub(crate) fn string(text: String) -> (value: serde_json::Value)
    ensures
        contents(value) == Json::Str(text@),
{
    serde_json::Value::String(text)
}

/// `Value::Bool`: the boolean.
#[verifier::external_body]
pub(crate) fn boolean(truth: bool) -> (value: serde_json::Value)
    ensures
        contents(value) == Json::Bool(truth),
{
    serde_json::Value::Bool(truth)
}

/// `Value::Array`: the array of those items.
#[verifier::external_body]
pub(crate) fn array(items: Vec<serde_json::Value>) -> (value: serde_json::Value)
    ensures
        contents(value) == Json::Arr(all_contents(items@)),
{
    serde_json::Value::Array(items)
}

/// `Value::Object`: the object with those members.
#[verifier::external_body]
pub(crate) fn object(map: serde_json::Map<String, serde_json::Value>) -> (value: serde_json::Value)
    ensures
        contents(value) == Json::Obj(members(map)),
{
    serde_json::Value::Object(map)
}

/// `Map::get`: the value of a member, if there is one.
#[verifier::external_body]
pub(crate) fn entry<'a>(
    map: &'a serde_json::Map<String, serde_json::Value>,
    key: &str,
) -> (found: Option<&'a serde_json::Value>)
    ensures
        match found {
            Some(found) => members(*map).contains_key(key@) && members(*map)[key@] == contents(
                *found,
            ),
            None => !members(*map).contains_key(key@),
        },
{
    map.get(key)
}

/// `Map::get_mut`: access to the value of a member, if there is one.
#[verifier::external_body]
pub(crate) fn entry_mut<'a>(
    map: &'a mut serde_json::Map<String, serde_json::Value>,
    key: &str,
) -> (found: Option<&'a mut serde_json::Value>)
    ensures
        match found {
            Some(found) => members(*old(map)).contains_key(key@) && members(*old(map))[key@]
                == contents(*found) && members(*final(map)) == members(*old(map)).insert(
                key@,
                contents(*final(found)),
            ),
            None => !members(*old(map)).contains_key(key@) && *final(map) == *old(map),
        },
{
    map.get_mut(key)
}

/// `Map::remove`: takes one member out and hands back its value, if it was there.
#[verifier::external_body]
pub(crate) fn take_out(
    map: &mut serde_json::Map<String, serde_json::Value>,
    key: &str,
) -> (before: Option<serde_json::Value>)
    ensures
        members(*final(map)) == members(*old(map)).remove(key@),
        match before {
            Some(before) => members(*old(map)).contains_key(key@) && members(*old(map))[key@]
                == contents(before),
            None => !members(*old(map)).contains_key(key@),
        },
{
    map.remove(key)
}

/// `Map::keys`: the names of the members, each once.
#[verifier::external_body]
pub(crate) fn names(map: &serde_json::Map<String, serde_json::Value>) -> (names: Vec<String>)
    ensures
        forall|i: int|
            0 <= i < names.len() ==> members(*map).contains_key((#[trigger] names@[i])@),
        forall|key: Seq<char>| #[trigger]
            members(*map).contains_key(key) ==> exists|i: int|
                0 <= i < names.len() && (#[trigger] names@[i])@ == key,
        forall|i: int, j: int|
            0 <= i < j < names.len() ==> (#[trigger] names@[i])@ != (#[trigger] names@[j])@,
{
    map.keys().cloned().collect()
}

} // verus!
