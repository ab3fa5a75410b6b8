//! Reading JSON texts.

use vstd::prelude::*;

verus! {

/// What `serde_json` finds wrong with a text that is no JSON value.
pub uninterp spec fn json_fault(text: Seq<char>) -> Option<Seq<char>>;

/// The string that a JSON text holds under a key.
pub uninterp spec fn json_str(text: Seq<char>, key: Seq<char>) -> Option<Seq<char>>;

/// The unsigned number that a JSON text holds under a key.
pub uninterp spec fn json_u64(text: Seq<char>, key: Seq<char>) -> Option<u64>;

/// What a JSON text holds under a key, written out.
pub uninterp spec fn json_shown(text: Seq<char>, key: Seq<char>) -> Option<Seq<char>>;

/// The boolean that a JSON text holds under a key.
pub uninterp spec fn json_bool(text: Seq<char>, key: Seq<char>) -> Option<bool>;

/// The number of items in the array that a JSON text holds under a key.
pub uninterp spec fn json_len(text: Seq<char>, key: Seq<char>) -> Option<usize>;

/// The unsigned number under `field` in item `i` of the array that a JSON text
/// holds under a key.
pub uninterp spec fn json_item(
    text: Seq<char>,
    key: Seq<char>,
    i: usize,
    field: Seq<char>,
) -> Option<u64>;

/// A JSON text laid out over lines.
pub uninterp spec fn json_pretty(text: Seq<char>) -> Option<Seq<char>>;

/// A JSON text on one line.
pub uninterp spec fn json_compact(text: Seq<char>) -> Option<Seq<char>>;

/// The view of an optional string.
pub open spec fn opt_view(s: Option<String>) -> Option<Seq<char>> {
    match s {
        Some(t) => Some(t@),
        None => None,
    }
}

/// `serde_json::from_str` into a `Value`: the words of its error, if it
/// returns one. They are named, not stated.
#[verifier::external_body]
pub(crate) fn fault(text: &str) -> (why: Option<String>)
    ensures
        opt_view(why) == json_fault(text@),
{
    match serde_json::from_str::<serde_json::Value>(text) {
        Ok(_) => None,
        Err(e) => Some(e.to_string()),
    }
}

/// `serde_json::from_str`, the index by `key`, and `Value::as_str`. The result
/// is named, not stated; it is `None` for a text that is no JSON, is no
/// object, lacks the key, or has something other than a string there.
#[verifier::external_body]
pub(crate) fn str_at(text: &str, key: &str) -> (value: Option<String>)
    ensures
        opt_view(value) == json_str(text@, key@),
{
    match serde_json::from_str::<serde_json::Value>(text) {
        Ok(v) => v[key].as_str().map(String::from),
        Err(_) => None,
    }
}

/// `serde_json::from_str`, the index by `key`, and `Value::as_u64`. The result
/// is named, not stated; it is `None` where there is no such number.
#[verifier::external_body]
pub(crate) fn u64_at(text: &str, key: &str) -> (value: Option<u64>)
    ensures
        value == json_u64(text@, key@),
{
    match serde_json::from_str::<serde_json::Value>(text) {
        Ok(v) => v[key].as_u64(),
        Err(_) => None,
    }
}

/// `serde_json::from_str`, the index by `key`, and `Value::to_string`. The
/// result is named, not stated; it is `None` for a text that is no JSON.
#[verifier::external_body]
pub(crate) fn shown_at(text: &str, key: &str) -> (out: Option<String>)
    ensures
        opt_view(out) == json_shown(text@, key@),
{
    match serde_json::from_str::<serde_json::Value>(text) {
        Ok(v) => Some(v[key].to_string()),
        Err(_) => None,
    }
}

/// `serde_json::from_str`, the index by `key`, and `Value::as_bool`. The
/// result is named, not stated; it is `None` where there is no boolean.
#[verifier::external_body]
pub(crate) fn bool_at(text: &str, key: &str) -> (value: Option<bool>)
    ensures
        value == json_bool(text@, key@),
{
    match serde_json::from_str::<serde_json::Value>(text) {
        Ok(v) => v[key].as_bool(),
        Err(_) => None,
    }
}

/// `serde_json::from_str`, the index by `key`, and `Value::as_array`: its
/// length. The result is named, not stated.
#[verifier::external_body]
pub(crate) fn len_at(text: &str, key: &str) -> (value: Option<usize>)
    ensures
        value == json_len(text@, key@),
{
    match serde_json::from_str::<serde_json::Value>(text) {
        Ok(v) => v[key].as_array().map(Vec::len),
        Err(_) => None,
    }
}

/// `serde_json::from_str`, the index by `key`, `i` and `field`, and
/// `Value::as_u64`. The result is named, not stated.
#[verifier::external_body]
pub(crate) fn item_at(text: &str, key: &str, i: usize, field: &str) -> (value: Option<u64>)
    ensures
        value == json_item(text@, key@, i, field@),
{
    match serde_json::from_str::<serde_json::Value>(text) {
        Ok(v) => v[key][i][field].as_u64(),
        Err(_) => None,
    }
}

/// `serde_json::from_str` and `serde_json::to_string_pretty`. The result is
/// named, not stated; it is `None` for a text that is no JSON.
#[verifier::external_body]
pub(crate) fn pretty(text: &str) -> (out: Option<String>)
    ensures
        opt_view(out) == json_pretty(text@),
{
    match serde_json::from_str::<serde_json::Value>(text) {
        Ok(v) => serde_json::to_string_pretty(&v).ok(),
        Err(_) => None,
    }
}

/// `serde_json::from_str` and `Value::to_string`. The result is named, not
/// stated; it is `None` for a text that is no JSON.
#[verifier::external_body]
pub(crate) fn compact(text: &str) -> (out: Option<String>)
    ensures
        opt_view(out) == json_compact(text@),
{
    match serde_json::from_str::<serde_json::Value>(text) {
        Ok(v) => Some(v.to_string()),
        Err(_) => None,
    }
}

/// An optional text is there exactly when its characters are.
pub proof fn optional_texts_are_kept(s: Option<String>)
    ensures
        opt_view(s) is Some <==> s is Some,
        s matches Some(t) ==> opt_view(s) == Some(t@),
{
}

} // verus!
