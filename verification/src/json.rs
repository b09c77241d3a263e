//! Reading JSON documents through `serde_json`. A document is handled as
//! its text; each reading parses the text with `serde_json::from_str` into a
//! `serde_json::Value` and applies one accessor of `Value`. Nested values are
//! handed on as the compact text that `Value`'s `Display` writes.
use vstd::prelude::*;
use crate::adb::opt_string_view;

verus! {

/// `serde_json::from_str::<Value>(text)` followed by `value[key]` written
/// back as compact JSON text (`null` when the document is not an object or
/// lacks the key); `None` when the text is not a JSON document.
pub uninterp spec fn json_member_text(text: Seq<char>, key: Seq<char>) -> Option<Seq<char>>;

/// `serde_json::from_str::<Value>(text)` followed by `Value::as_str`.
pub uninterp spec fn json_str_text(text: Seq<char>) -> Option<Seq<char>>;

/// `serde_json::from_str::<Value>(text)` followed by `Value::as_u64`.
pub uninterp spec fn json_u64_text(text: Seq<char>) -> Option<u64>;

/// `serde_json::from_str::<Value>(text)` followed by `Value::as_i64`.
pub uninterp spec fn json_i64_text(text: Seq<char>) -> Option<i64>;

/// `serde_json::from_str::<Value>(text)` followed by `Value::as_array`, each
/// element written back as compact JSON text.
pub uninterp spec fn json_items_text(text: Seq<char>) -> Option<Seq<Seq<char>>>;

/// Calls `serde_json::from_str::<serde_json::Value>` and indexes the value by
/// `key` (serde_json's `Index<&str>` for `Value`, which yields `Null` for a
/// missing key or a non-object); the member is written back with
/// `Value::to_string`. Claimed: the result is `json_member_text` of the
/// arguments, that is, a function of the text and the key alone.
#[verifier::external_body]
pub(crate) fn json_member(text: &str, key: &str) -> (res: Option<String>)
    ensures
        opt_string_view(res) == json_member_text(text@, key@),
{
    match serde_json::from_str::<serde_json::Value>(text) {
        Ok(v) => Some(v[key].to_string()),
        Err(_) => None,
    }
}

/// Calls `serde_json::from_str::<serde_json::Value>` and `Value::as_str`.
/// Claimed: the result is `json_str_text` of the text.
#[verifier::external_body]
pub(crate) fn json_str(text: &str) -> (res: Option<String>)
    ensures
        opt_string_view(res) == json_str_text(text@),
{
    match serde_json::from_str::<serde_json::Value>(text) {
        Ok(v) => match v.as_str() {
            Some(s) => Some(s.to_string()),
            None => None,
        },
        Err(_) => None,
    }
}

/// Calls `serde_json::from_str::<serde_json::Value>` and `Value::as_u64`.
/// Claimed: the result is `json_u64_text` of the text.
#[verifier::external_body]
pub(crate) fn json_u64(text: &str) -> (res: Option<u64>)
    ensures
        res == json_u64_text(text@),
{
    match serde_json::from_str::<serde_json::Value>(text) {
        Ok(v) => v.as_u64(),
        Err(_) => None,
    }
}

/// Calls `serde_json::from_str::<serde_json::Value>` and `Value::as_i64`.
/// Claimed: the result is `json_i64_text` of the text.
#[verifier::external_body]
pub(crate) fn json_i64(text: &str) -> (res: Option<i64>)
    ensures
        res == json_i64_text(text@),
{
    match serde_json::from_str::<serde_json::Value>(text) {
        Ok(v) => v.as_i64(),
        Err(_) => None,
    }
}

/// Calls `serde_json::from_str::<serde_json::Value>` and `Value::as_array`;
/// each element is written back with `Value::to_string`. Claimed: the
/// result, element by element, is `json_items_text` of the text.
#[verifier::external_body]
pub(crate) fn json_items(text: &str) -> (res: Option<Vec<String>>)
    ensures
        match res {
            Some(v) => json_items_text(text@) == Some(v@.map_values(|s: String| s@)),
            None => json_items_text(text@) is None,
        },
{
    match serde_json::from_str::<serde_json::Value>(text) {
        Ok(v) => match v.as_array() {
            Some(items) => {
                let mut out = Vec::new();
                for item in items {
                    out.push(item.to_string());
                }
                Some(out)
            },
            None => None,
        },
        Err(_) => None,
    }
}

/// The string at `key` of a JSON object text, or the empty string when
/// there is none (`value[key].as_str().unwrap_or_default()`).
pub open spec fn member_str_or_empty(text: Seq<char>, key: Seq<char>) -> Seq<char> {
    match json_member_text(text, key) {
        Some(m) => match json_str_text(m) {
            Some(s) => s,
            None => Seq::empty(),
        },
        None => Seq::empty(),
    }
}

pub fn member_str_or_empty_of(text: &str, key: &str) -> (res: String)
    ensures
        res@ == member_str_or_empty(text@, key@),
{
    match json_member(text, key) {
        Some(m) => match json_str(m.as_str()) {
            Some(s) => s,
            None => String::new(),
        },
        None => String::new(),
    }
}

} // verus!
