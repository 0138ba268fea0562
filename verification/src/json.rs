//! JSON values as `serde_json` parses, reads, updates and writes them. Each result is named
//! as a function of the call's arguments; the logic that decides on them is verified where
//! it is called.

use vstd::prelude::*;

verus! {

/// The value that `serde_json::from_slice` parses from `bytes`, or `None` when it refuses
/// them.
pub uninterp spec fn json_parse(bytes: Seq<u8>) -> Option<serde_json::Value>;

/// The member `key` of an object value, as `Value::get` finds it (`None` for a value that is
/// not an object or lacks the key).
pub uninterp spec fn json_member(value: serde_json::Value, key: Seq<char>) -> Option<serde_json::Value>;

/// The text of a string value, as `Value::as_str` reads it (`None` for another kind).
pub uninterp spec fn json_text(value: serde_json::Value) -> Option<Seq<char>>;

/// `value` with the string `text` stored under `key` in its object member `member`, or
/// `None` when that member is absent or not an object.
pub uninterp spec fn json_with_member_text(
    value: serde_json::Value,
    member: Seq<char>,
    key: Seq<char>,
    text: Seq<char>,
) -> Option<serde_json::Value>;

/// The bytes that `serde_json::to_vec` writes for `value`, or `None` when it fails.
pub uninterp spec fn json_encoding(value: serde_json::Value) -> Option<Seq<u8>>;

/// Calls `serde_json::from_slice` for a `Value`. Claims only that what it returns is a
/// function of the bytes.
#[verifier::external_body]
pub(crate) fn parse_json(bytes: &[u8]) -> (result: Result<serde_json::Value, serde_json::Error>)
    ensures
        match result {
            Ok(value) => json_parse(bytes@) == Some(value),
            Err(_) => json_parse(bytes@) is None,
        },
{
    serde_json::from_slice(bytes)
}

/// Calls `Value::get` with a text key. Claims that what it returns is a function of the
/// value and the key, and, as its source shows (a text index finds nothing in a value that
/// is not an object), that only an object has a member.
#[verifier::external_body]
pub(crate) fn json_get<'a>(value: &'a serde_json::Value, key: &str) -> (result: Option<&'a serde_json::Value>)
    ensures
        match result {
            Some(member) => json_member(*value, key@) == Some(*member),
            None => json_member(*value, key@) is None,
        },
        result is Some ==> json_object(*value),
{
    value.get(key)
}

/// Calls `Value::as_str`. Claims only that what it returns is a function of the value.
#[verifier::external_body]
pub(crate) fn json_as_text(value: &serde_json::Value) -> (result: Option<String>)
    ensures
        match result {
            Some(text) => json_text(*value) == Some(text@),
            None => json_text(*value) is None,
        },
{
    value.as_str().map(String::from)
}

/// Calls `Value::get_mut` for `member`, `Value::as_object_mut` on it and `Map::insert` of a
/// string value under `key`. Claims that the updated value is a function of the arguments,
/// and that the value is left as it was when the member is absent or not an object (the
/// calls then change nothing). As `Map::insert` documents, the member then holds the text
/// under `key`.
#[verifier::external_body]
pub(crate) fn json_set_member_text(value: &mut serde_json::Value, member: &str, key: &str, text: &str) -> (result: bool)
    ensures
        match json_with_member_text(*old(value), member@, key@, text@) {
            Some(updated) => result && *final(value) == updated,
            None => !result && *final(value) == *old(value),
        },
        result ==> (json_member(*final(value), member@) matches Some(object) && json_member(object, key@) matches Some(
            stored,
        ) && json_text(stored) == Some(text@)),
{
    match value.get_mut(member).and_then(serde_json::Value::as_object_mut) {
        Some(object) => {
            object.insert(key.to_string(), serde_json::Value::String(text.to_string()));
            true
        },
        None => false,
    }
}

/// Calls `serde_json::to_vec` on a `Value`. Claims only that what it returns is a function
/// of the value.
#[verifier::external_body]
pub(crate) fn encode_json(value: &serde_json::Value) -> (result: Result<Vec<u8>, serde_json::Error>)
    ensures
        match result {
            Ok(bytes) => json_encoding(*value) == Some(bytes@),
            Err(_) => json_encoding(*value) is None,
        },
{
    serde_json::to_vec(value)
}

/// The value of a boolean value, as `Value::as_bool` reads it (`None` for another kind).
pub uninterp spec fn json_bool(value: serde_json::Value) -> Option<bool>;

/// Calls `Value::as_bool`. Claims only that what it returns is a function of the value.
#[verifier::external_body]
pub(crate) fn json_as_bool(value: &serde_json::Value) -> (result: Option<bool>)
    ensures
        result == json_bool(*value),
{
    value.as_bool()
}

/// Calls `Value::clone`. Claims that the copy is the same value, as a derived `Clone` makes
/// it.
#[verifier::external_body]
pub(crate) fn json_clone(value: &serde_json::Value) -> (result: serde_json::Value)
    ensures
        result == *value,
{
    value.clone()
}

/// The value of an integer value that fits `i64`, as `Value::as_i64` reads it (`None` for
/// another kind or a number out of range).
pub uninterp spec fn json_int(value: serde_json::Value) -> Option<i64>;

/// Calls `Value::as_i64`. Claims only that what it returns is a function of the value.
#[verifier::external_body]
pub(crate) fn json_as_i64(value: &serde_json::Value) -> (result: Option<i64>)
    ensures
        result == json_int(*value),
{
    value.as_i64()
}

/// Whether a value is JSON `null`, as `Value::is_null` tells.
pub uninterp spec fn json_null(value: serde_json::Value) -> bool;

/// Calls `Value::is_null`. Claims only that what it returns is a function of the value.
#[verifier::external_body]
pub(crate) fn json_is_null(value: &serde_json::Value) -> (result: bool)
    ensures
        result == json_null(*value),
{
    value.is_null()
}

/// Whether a value is an object, as `Value::is_object` tells.
pub uninterp spec fn json_object(value: serde_json::Value) -> bool;

/// Calls `Value::is_object`. Claims only that what it returns is a function of the value.
#[verifier::external_body]
pub(crate) fn json_is_object(value: &serde_json::Value) -> (result: bool)
    ensures
        result == json_object(*value),
{
    value.is_object()
}

/// The items of an array value, in order, as `Value::as_array` reads them (`None` for
/// another kind).
pub uninterp spec fn json_items(value: serde_json::Value) -> Option<Seq<serde_json::Value>>;

/// Calls `Value::as_array` and clones the items. Claims that what it returns is a function
/// of the value; the clones are the same values, as a derived `Clone` makes them; and, as
/// `Vec` documents for elements that take space, that there are at most `isize::MAX` of them.
#[verifier::external_body]
pub(crate) fn json_array_items(value: &serde_json::Value) -> (result: Option<Vec<serde_json::Value>>)
    ensures
        match result {
            Some(items) => json_items(*value) == Some(items@),
            None => json_items(*value) is None,
        },
        result matches Some(items) ==> items@.len() <= isize::MAX,
{
    value.as_array().cloned()
}

/// The array value holding `items`, in order.
pub uninterp spec fn json_array_value(items: Seq<serde_json::Value>) -> serde_json::Value;

/// Makes `Value::Array` of the items. Claims that the value is a function of them and that
/// `as_array` reads them back in order.
#[verifier::external_body]
pub(crate) fn json_array(items: Vec<serde_json::Value>) -> (result: serde_json::Value)
    ensures
        result == json_array_value(items@),
        json_items(result) == Some(items@),
        !json_object(result),
{
    serde_json::Value::Array(items)
}

/// An object value with `member` stored under `key` by `Map::insert`, or `None` when the
/// value is not an object.
pub uninterp spec fn json_with_member(
    value: serde_json::Value,
    key: Seq<char>,
    member: serde_json::Value,
) -> Option<serde_json::Value>;

/// Calls `Value::as_object_mut` and `Map::insert`. Claims that the updated value is a
/// function of the arguments, that the call succeeds exactly on an object, as
/// `as_object_mut` documents, and that another value is left as it was. As `Map::insert`
/// documents, the object then holds `member` under `key` and its other members as before.
#[verifier::external_body]
pub(crate) fn json_insert(value: &mut serde_json::Value, key: &str, member: serde_json::Value) -> (result: bool)
    ensures
        result == json_object(*old(value)),
        match json_with_member(*old(value), key@, member) {
            Some(updated) => result && *final(value) == updated,
            None => !result && *final(value) == *old(value),
        },
        result ==> json_object(*final(value)) && json_member(*final(value), key@) == Some(member),
        result ==> forall|other: Seq<char>|
            other != key@ ==> #[trigger] json_member(*final(value), other) == json_member(*old(value), other),
{
    match value.as_object_mut() {
        Some(object) => {
            object.insert(key.to_string(), member);
            true
        },
        None => false,
    }
}

/// The bytes that `serde_json::to_vec_pretty` writes for `value`, or `None` when it fails.
pub uninterp spec fn json_pretty_encoding(value: serde_json::Value) -> Option<Seq<u8>>;

/// Calls `serde_json::to_vec_pretty` on a `Value`. Claims only that what it returns is a
/// function of the value.
#[verifier::external_body]
pub(crate) fn encode_json_pretty(value: &serde_json::Value) -> (result: Result<Vec<u8>, serde_json::Error>)
    ensures
        match result {
            Ok(bytes) => json_pretty_encoding(*value) == Some(bytes@),
            Err(_) => json_pretty_encoding(*value) is None,
        },
{
    serde_json::to_vec_pretty(value)
}

/// Makes `Value::String` of the text. Claims that `as_str` reads the text back.
#[verifier::external_body]
pub(crate) fn json_string_value(text: &str) -> (result: serde_json::Value)
    ensures
        json_text(result) == Some(text@),
{
    serde_json::Value::String(text.to_string())
}

/// Makes `Value::Bool` of `b`. Claims that `as_bool` reads it back.
#[verifier::external_body]
pub(crate) fn json_bool_value(b: bool) -> (result: serde_json::Value)
    ensures
        json_bool(result) == Some(b),
{
    serde_json::Value::Bool(b)
}

/// Makes a number value of `n`. Claims that `as_i64` reads it back.
#[verifier::external_body]
pub(crate) fn json_int_value(n: i64) -> (result: serde_json::Value)
    ensures
        json_int(result) == Some(n),
{
    serde_json::Value::from(n)
}

/// Makes `Value::Null`. Claims that `is_null` tells it.
#[verifier::external_body]
pub(crate) fn json_null_value() -> (result: serde_json::Value)
    ensures
        json_null(result),
{
    serde_json::Value::Null
}

/// Makes an empty object. Claims that `is_object` tells it and that it has no member.
#[verifier::external_body]
pub(crate) fn json_empty_object() -> (result: serde_json::Value)
    ensures
        json_object(result),
        forall|key: Seq<char>| #[trigger] json_member(result, key) is None,
{
    serde_json::Value::Object(serde_json::Map::new())
}

/// The value of an integer value that fits `u64`, as `Value::as_u64` reads it (`None` for
/// another kind or a number out of range).
pub uninterp spec fn json_u64(value: serde_json::Value) -> Option<u64>;

/// Makes a number value of `n`. Claims that `as_u64` reads it back.
#[verifier::external_body]
pub(crate) fn json_u64_value(n: u64) -> (result: serde_json::Value)
    ensures
        json_u64(result) == Some(n),
{
    serde_json::Value::from(n)
}

/// Calls `Value::as_object_mut` and `Map::remove`, and tells whether a member was removed.
/// Claims, as they document, that a member is removed exactly when the value is an object
/// holding `key`; that the object then no longer holds it and keeps its other members; and
/// that otherwise the value is left as it was.
#[verifier::external_body]
pub(crate) fn json_remove(value: &mut serde_json::Value, key: &str) -> (result: bool)
    ensures
        result == (json_object(*old(value)) && json_member(*old(value), key@) is Some),
        !result ==> *final(value) == *old(value),
        result ==> json_object(*final(value)) && json_member(*final(value), key@) is None,
        result ==> forall|other: Seq<char>|
            other != key@ ==> #[trigger] json_member(*final(value), other) == json_member(*old(value), other),
{
    value.as_object_mut().map_or(false, |object| object.remove(key).is_some())
}

} // verus!
