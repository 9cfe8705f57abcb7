//! Attribute values.
//!
//! Attributes and event payloads carry `serde_json::Value`. The library moves
//! such values around without looking inside; the few things it needs to know
//! of one come from `serde_json` itself, through the items of this module.
//! Nothing in this module is proved.

use vstd::prelude::*;

verus! {

/// `serde_json::Value`, a JSON value.
#[verifier::external_type_specification]
#[verifier::external_body]
pub struct ExJson(serde_json::Value);

/// The compact JSON text of a value, as `serde_json::to_string` writes it;
/// `None` where it reports an error.
pub uninterp spec fn rendering(v: serde_json::Value) -> Option<Seq<char>>;

/// `serde_json::to_string` on a JSON value. The text depends on the value
/// alone.
#[verifier::external_body]
pub(crate) fn json_text(v: &serde_json::Value) -> (text: Option<String>)
    ensures
        crate::node::opt_chars(text) == rendering(*v),
{
    match serde_json::to_string(v) {
        Ok(text) => Some(text),
        Err(_) => None,
    }
}

/// The text of a JSON string, as `serde_json::Value::as_str` gives it; `None`
/// for a value that is no string.
pub uninterp spec fn string_of(v: serde_json::Value) -> Option<Seq<char>>;

/// `serde_json::Value::as_str`, with the text copied into a `String`.
#[verifier::external_body]
pub(crate) fn json_string(v: &serde_json::Value) -> (text: Option<String>)
    ensures
        crate::node::opt_chars(text) == string_of(*v),
{
    match v.as_str() {
        Some(text) => Some(text.to_owned()),
        None => None,
    }
}

/// The items of a JSON array, as `serde_json::Value::as_array` gives them;
/// `None` for a value that is no array.
pub uninterp spec fn items_of(v: serde_json::Value) -> Option<Seq<serde_json::Value>>;

/// `serde_json::Value::as_array`, with the items copied into a `Vec`.
#[verifier::external_body]
pub(crate) fn json_items(v: &serde_json::Value) -> (items: Option<Vec<serde_json::Value>>)
    ensures
        match items {
            Some(list) => items_of(*v) == Some(list@),
            None => items_of(*v) is None,
        },
{
    match v.as_array() {
        Some(list) => Some(list.clone()),
        None => None,
    }
}

/// `Clone::clone` on a JSON value: the copy equals the value it was made from.
pub assume_specification[ <serde_json::Value as Clone>::clone ](v: &serde_json::Value) -> (copy:
    serde_json::Value)
    ensures
        copy == *v,
;

} // verus!
