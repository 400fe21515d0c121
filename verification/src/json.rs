//! JSON documents, as `serde_json` reads them.
//!
//! Nothing here is proved: each function states what `serde_json` is
//! trusted to do.

use vstd::prelude::*;

verus! {

/// A JSON value as `serde_json` holds it.
#[verifier::external_type_specification]
#[verifier::external_body]
pub struct ExJsonValue(serde_json::Value);

/// The error that `serde_json` gives for a text that is no JSON document.
#[verifier::external_type_specification]
#[verifier::external_body]
pub struct ExJsonError(serde_json::Error);

/// What a JSON value holds. Of a number only its kind is kept.
pub enum Json {
    Null,
    Bool(bool),
    Number,
    String(Seq<char>),
    Array(Seq<Json>),
    Object(Map<Seq<char>, Json>),
}

/// What `value` holds.
pub uninterp spec fn json_of(value: serde_json::Value) -> Json;

/// The JSON document that `text` is, as `serde_json::from_str` reads it;
/// `None` where it refuses the text.
pub uninterp spec fn json_parse(text: Seq<char>) -> Option<Json>;

/// The member of the object `json` under `key`; `Null` where `json` is no
/// object or has no such member.
pub open spec fn json_member(json: Json, key: Seq<char>) -> Json {
    match json {
        Json::Object(members) => if members.contains_key(key) {
            members[key]
        } else {
            Json::Null
        },
        _ => Json::Null,
    }
}

/// The text of `json` where it is a string.
pub open spec fn json_text(json: Json) -> Option<Seq<char>> {
    match json {
        Json::String(text) => Some(text),
        _ => None,
    }
}

/// Calls `serde_json::from_str` for a `serde_json::Value`. Trusted: whether
/// the text is accepted, and what the value then holds, depend on the text
/// alone.
#[verifier::external_body]
pub(crate) fn parse_json(text: &str) -> (parsed: Result<serde_json::Value, serde_json::Error>)
    ensures
        match parsed {
            Ok(value) => json_parse(text@) == Some(json_of(value)),
            Err(_) => json_parse(text@) is None,
        },
{
    serde_json::from_str::<serde_json::Value>(text)
}

/// Indexes a `serde_json::Value` by a string, as `value[key]` does.
/// Trusted: the result is the member under `key` where `value` is an object
/// that has one, and a null value otherwise.
#[verifier::external_body]
pub(crate) fn member<'a>(value: &'a serde_json::Value, key: &str) -> (found: &'a serde_json::Value)
    ensures
        json_of(*found) == json_member(json_of(*value), key@),
{
    &value[key]
}

/// Calls `serde_json::Value::as_str`. Trusted: the result is the text of
/// `value` where it is a string, and `None` otherwise.
#[verifier::external_body]
pub(crate) fn as_text<'a>(value: &'a serde_json::Value) -> (text: Option<&'a str>)
    ensures
        match text {
            Some(t) => json_text(json_of(*value)) == Some(t@),
            None => json_text(json_of(*value)) is None,
        },
{
    value.as_str()
}

} // verus!
