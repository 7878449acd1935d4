//! Reading JSON documents through `serde_json`: the custom command file and
//! the sidecar's message lines.
//!
//! `serde_json::Value` stays opaque here. What a parse, a member lookup, an
//! array or a string view gives depends on its arguments alone; each is
//! named below and nothing more is said of it, so the logic that consumes
//! these results is specified over the names, for every value they could
//! have.

use vstd::prelude::*;

verus! {

#[verifier::external_type_specification]
#[verifier::external_body]
pub struct ExJsonValue(serde_json::Value);

/// The document `serde_json::from_str` parses from a text, `None` where it
/// reports an error.
pub uninterp spec fn parsed_json(text: Seq<char>) -> Option<serde_json::Value>;

/// The member `Value::get` finds under a string key.
pub uninterp spec fn json_member(v: serde_json::Value, key: Seq<char>) -> Option<serde_json::Value>;

/// The elements `Value::as_array` hands out.
pub uninterp spec fn json_elements(v: serde_json::Value) -> Option<Seq<serde_json::Value>>;

/// The text `Value::as_str` hands out.
pub uninterp spec fn json_text(v: serde_json::Value) -> Option<Seq<char>>;

/// The text of the member under `key`, where there is one and it is a string.
pub open spec fn member_text(v: serde_json::Value, key: Seq<char>) -> Option<Seq<char>> {
    match json_member(v, key) {
        Some(m) => json_text(m),
        None => None,
    }
}

/// The elements of the member under `key`, where there is one and it is an array.
pub open spec fn member_elements(v: serde_json::Value, key: Seq<char>) -> Option<Seq<serde_json::Value>> {
    match json_member(v, key) {
        Some(m) => json_elements(m),
        None => None,
    }
}

/// `serde_json::from_str::<Value>`: the parsed document, or `None` when the
/// text is not valid JSON. The claim is only that the result is the one
/// named for the text.
#[verifier::external_body]
pub fn json_parse(raw: &str) -> (r: Option<serde_json::Value>)
    ensures
        r == parsed_json(raw@),
{
    serde_json::from_str::<serde_json::Value>(raw).ok()
}

/// `Value::get` with a string key: the member of an object under `key`;
/// `None` for a missing key or a value that is not an object. The claim is
/// only that the result is the one named for the value and the key.
#[verifier::external_body]
pub fn json_field<'a>(v: &'a serde_json::Value, key: &str) -> (r: Option<&'a serde_json::Value>)
    ensures
        match r {
            Some(m) => json_member(*v, key@) == Some(*m),
            None => json_member(*v, key@) is None,
        },
{
    v.get(key)
}

/// `Value::as_array`: the elements of an array value, `None` for any other.
/// The claim is only that the result is the one named for the value.
#[verifier::external_body]
pub fn json_array<'a>(v: &'a serde_json::Value) -> (r: Option<&'a Vec<serde_json::Value>>)
    ensures
        match r {
            Some(a) => json_elements(*v) == Some(a@),
            None => json_elements(*v) is None,
        },
{
    v.as_array()
}

/// `Value::as_str`: the text of a string value, `None` for any other. The
/// claim is only that the result is the one named for the value.
#[verifier::external_body]
pub fn json_str<'a>(v: &'a serde_json::Value) -> (r: Option<&'a str>)
    ensures
        match r {
            Some(s) => json_text(*v) == Some(s@),
            None => json_text(*v) is None,
        },
{
    v.as_str()
}

} // verus!
