//! JSON documents, as `serde_json` reads them.
//!
//! The library leaves reading JSON text to `serde_json` and walks the
//! document that comes back. The first part of this file states what the
//! library takes for granted of `serde_json`; none of that is proved.

use vstd::prelude::*;

verus! {

/// `serde_json::Value`: a JSON document, or a part of one. What it holds
/// is [`json_model`].
#[verifier::external_type_specification]
#[verifier::external_body]
pub struct ExJsonValue(serde_json::Value);

/// `serde_json::Error`: why a text is no JSON document. The library does
/// not look into it.
#[verifier::external_type_specification]
#[verifier::external_body]
pub struct ExJsonError(serde_json::Error);

/// What a JSON value holds. Of a number the model holds the value where
/// `serde_json` holds the number as an unsigned integer; of any other
/// number only that it is one.
pub enum JsonModel {
    Null,
    Bool(bool),
    Number(Option<u64>),
    Text(Seq<char>),
    List(Seq<JsonModel>),
    Object(Map<Seq<char>, JsonModel>),
}

/// What the `serde_json::Value` `value` holds.
pub uninterp spec fn json_model(value: serde_json::Value) -> JsonModel;

/// What `serde_json::from_str` makes of `text`: the document that the text
/// denotes, or `None` where it reports an error.
pub uninterp spec fn json_parse(text: Seq<char>) -> Option<JsonModel>;

/// `serde_json::from_str` for a `serde_json::Value`. Trusted: what comes
/// back depends on the text alone, and is named by [`json_parse`].
#[verifier::external_body]
pub(crate) fn parse_document(text: &str) -> (parsed: Result<serde_json::Value, serde_json::Error>)
    ensures
        match parsed {
            Ok(document) => json_parse(text@) == Some(json_model(document)),
            Err(_) => json_parse(text@) is None,
        },
{
    serde_json::from_str::<serde_json::Value>(text)
}

/// `serde_json::Value::get` with a key. Trusted: it returns the member
/// `key` of an object that has one, and `None` for an object without that
/// member and for a value that is no object.
#[verifier::external_body]
pub(crate) fn member<'a>(value: &'a serde_json::Value, key: &str) -> (found: Option<
    &'a serde_json::Value,
>)
    ensures
        match found {
            Some(m) => json_model(*value) matches JsonModel::Object(fields) && fields.contains_key(
                key@,
            ) && json_model(*m) == fields[key@],
            None => !(json_model(*value) matches JsonModel::Object(fields) && fields.contains_key(
                key@,
            )),
        },
{
    value.get(key)
}

/// `serde_json::Value::as_array`. Trusted: it returns the elements of an
/// array, in order, and `None` for a value that is no array.
#[verifier::external_body]
pub(crate) fn elements<'a>(value: &'a serde_json::Value) -> (found: Option<
    &'a Vec<serde_json::Value>,
>)
    ensures
        match found {
            Some(items) => json_model(*value) matches JsonModel::List(models) && models.len()
                == items@.len() && forall|i: int|
                0 <= i < items@.len() ==> json_model(#[trigger] items@[i]) == models[i],
            None => !(json_model(*value) is List),
        },
{
    value.as_array()
}

/// `serde_json::Value::as_str`. Trusted: it returns the text of a string,
/// and `None` for a value that is no string.
#[verifier::external_body]
pub(crate) fn string<'a>(value: &'a serde_json::Value) -> (found: Option<&'a str>)
    ensures
        match found {
            Some(text) => json_model(*value) == JsonModel::Text(text@),
            None => !(json_model(*value) is Text),
        },
{
    value.as_str()
}

/// `serde_json::Value::as_u64`. Trusted: it returns the value of a number
/// that `serde_json` holds as an unsigned integer, and `None` for any
/// other number and for a value that is no number.
#[verifier::external_body]
pub(crate) fn natural(value: &serde_json::Value) -> (found: Option<u64>)
    ensures
        match found {
            Some(n) => json_model(*value) == JsonModel::Number(Some(n)),
            None => !(json_model(*value) matches JsonModel::Number(Some(_))),
        },
{
    value.as_u64()
}

/// The member `key` of the object `value`, where it is a string.
pub open spec fn string_member_of(value: JsonModel, key: Seq<char>) -> Option<Seq<char>> {
    match value {
        JsonModel::Object(fields) => if fields.contains_key(key) {
            match fields[key] {
                JsonModel::Text(text) => Some(text),
                _ => None,
            }
        } else {
            None
        },
        _ => None,
    }
}

/// The member `key` of the object `value`, where it is an array.
pub open spec fn array_member_of(value: JsonModel, key: Seq<char>) -> Option<Seq<JsonModel>> {
    match value {
        JsonModel::Object(fields) => if fields.contains_key(key) {
            match fields[key] {
                JsonModel::List(items) => Some(items),
                _ => None,
            }
        } else {
            None
        },
        _ => None,
    }
}

/// The member `key` of the object `value`, where it is a whole number
/// that the model holds.
pub open spec fn natural_member_of(value: JsonModel, key: Seq<char>) -> Option<u64> {
    match value {
        JsonModel::Object(fields) => if fields.contains_key(key) {
            match fields[key] {
                JsonModel::Number(Some(n)) => Some(n),
                _ => None,
            }
        } else {
            None
        },
        _ => None,
    }
}

/// The member `key` of `value`, where `value` is an object and the member
/// a whole number.
pub(crate) fn natural_member(value: &serde_json::Value, key: &str) -> (found: Option<u64>)
    ensures
        found == natural_member_of(json_model(*value), key@),
{
    match member(value, key) {
        Some(m) => natural(m),
        None => None,
    }
}

/// The member `key` of `value`, where `value` is an object and the member
/// a string.
pub(crate) fn string_member<'a>(value: &'a serde_json::Value, key: &str) -> (found: Option<
    &'a str,
>)
    ensures
        match found {
            Some(text) => string_member_of(json_model(*value), key@) == Some(text@),
            None => string_member_of(json_model(*value), key@) is None,
        },
{
    match member(value, key) {
        Some(m) => string(m),
        None => None,
    }
}

/// The member `key` of `value`, where `value` is an object and the member
/// an array.
pub(crate) fn array_member<'a>(value: &'a serde_json::Value, key: &str) -> (found: Option<
    &'a Vec<serde_json::Value>,
>)
    ensures
        match found {
            Some(items) => array_member_of(json_model(*value), key@) matches Some(models)
                && models.len() == items@.len() && forall|i: int|
                0 <= i < items@.len() ==> json_model(#[trigger] items@[i]) == models[i],
            None => array_member_of(json_model(*value), key@) is None,
        },
{
    match member(value, key) {
        Some(m) => elements(m),
        None => None,
    }
}

} // verus!
