//! What the library believes of `serde_json`, which reads the replies of
//! the generation service.

use vstd::prelude::*;

verus! {

/// `serde_json::Value`, a JSON value. Nothing of what it holds is visible
/// but through the functions below.
#[verifier::external_type_specification]
#[verifier::external_body]
pub struct ExJsonValue(serde_json::Value);

/// `serde_json::Error`, which says why a text could not be read. The
/// library only tells it from success.
#[verifier::external_type_specification]
#[verifier::external_body]
pub struct ExJsonError(serde_json::Error);

/// The JSON value that `text` is the text of; `None` where `text` is not
/// the text of a JSON value.
pub uninterp spec fn json_document(text: Seq<char>) -> Option<serde_json::Value>;

/// The member that the JSON object `value` has under `key`; `None` where
/// `value` is no object, or an object without such a member.
pub uninterp spec fn json_member(value: serde_json::Value, key: Seq<char>) -> Option<
    serde_json::Value,
>;

/// The characters of the JSON string `value`; `None` where `value` is not a
/// string.
pub uninterp spec fn json_string(value: serde_json::Value) -> Option<Seq<char>>;

/// `serde_json::from_str`, reading a `serde_json::Value`: the value that
/// `text` is the JSON text of, or an error where it is not the text of one.
/// The contract claims only that the outcome depends on `text` alone.
#[verifier::external_body]
pub(crate) fn parse_document(text: &str) -> (parsed: Result<serde_json::Value, serde_json::Error>)
    ensures
        match parsed {
            Ok(value) => json_document(text@) == Some(value),
            Err(_) => json_document(text@) is None,
        },
{
    serde_json::from_str::<serde_json::Value>(text)
}

/// `serde_json::Value::get` with a string index: the member of an object
/// under `key`, and `None` for a value that is no object or has no such
/// member. The contract claims only that the outcome depends on `value` and
/// `key` alone.
#[verifier::external_body]
pub(crate) fn member_of<'a>(value: &'a serde_json::Value, key: &str) -> (found: Option<
    &'a serde_json::Value,
>)
    ensures
        match found {
            Some(member) => json_member(*value, key@) == Some(*member),
            None => json_member(*value, key@) is None,
        },
{
    value.get(key)
}

/// `serde_json::Value::as_str`: the text of a JSON string, and `None` for
/// any other value. The contract claims only that the outcome depends on
/// `value` alone.
#[verifier::external_body]
pub(crate) fn string_of<'a>(value: &'a serde_json::Value) -> (text: Option<&'a str>)
    ensures
        match text {
            Some(characters) => json_string(*value) == Some(characters@),
            None => json_string(*value) is None,
        },
{
    value.as_str()
}

} // verus!
