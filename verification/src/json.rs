//! Reading the providers' JSON answers with `serde_json`.
//!
//! Everything here is trusted: the contracts restate what `serde_json` does
//! and Verus takes them as given. What a call returns is a function of its
//! arguments alone, so each result has a name the callers' contracts can
//! speak of.

use vstd::prelude::*;

verus! {

#[verifier::external_type_specification]
#[verifier::external_body]
pub struct ExJsonValue(serde_json::Value);

/// The document `serde_json::from_str` reads from `text`; `None` where it
/// reports an error.
pub uninterp spec fn json_document(text: Seq<char>) -> Option<serde_json::Value>;

/// The member `serde_json::Value::get` finds under `key`; `None` where the
/// value is not an object or has no such member.
pub uninterp spec fn json_member(value: serde_json::Value, key: Seq<char>) -> Option<
    serde_json::Value,
>;

/// The elements `serde_json::Value::as_array` hands out; `None` where the
/// value is not an array.
pub uninterp spec fn json_items(value: serde_json::Value) -> Option<Seq<serde_json::Value>>;

/// The text `serde_json::Value::as_str` hands out; `None` where the value is
/// not a string.
pub uninterp spec fn json_text(value: serde_json::Value) -> Option<Seq<char>>;

/// The number `serde_json::Value::as_u64` hands out; `None` where the value
/// is not a non-negative integer below 2^64.
pub uninterp spec fn json_unsigned(value: serde_json::Value) -> Option<u64>;

/// The bit pattern of the double `serde_json::Value::as_f64` hands out;
/// `None` where the value is not a number.
pub uninterp spec fn json_number_bits(value: serde_json::Value) -> Option<u64>;

/// Calls `serde_json::from_str` for a `serde_json::Value` and drops the
/// parser's error.
///
/// Trusted: the result is the document named `json_document`.
#[verifier::external_body]
pub(crate) fn document(text: &str) -> (r: Option<serde_json::Value>)
    ensures
        r == json_document(text@),
{
    serde_json::from_str(text).ok()
}

/// Calls `serde_json::Value::get` with a string key.
///
/// Trusted: the result is the member named `json_member`.
#[verifier::external_body]
pub(crate) fn member<'a>(value: &'a serde_json::Value, key: &str) -> (r: Option<
    &'a serde_json::Value,
>)
    ensures
        r is Some == json_member(*value, key@) is Some,
        r matches Some(m) ==> json_member(*value, key@) == Some(*m),
{
    value.get(key)
}

/// Calls `serde_json::Value::as_array`.
///
/// Trusted: the result holds the elements named `json_items`, in order.
#[verifier::external_body]
pub(crate) fn items(value: &serde_json::Value) -> (r: Option<&Vec<serde_json::Value>>)
    ensures
        r is Some == json_items(*value) is Some,
        r matches Some(a) ==> json_items(*value) == Some(a@),
{
    value.as_array()
}

/// Calls `serde_json::Value::as_str` and copies the text.
///
/// Trusted: the result is the text named `json_text`.
#[verifier::external_body]
pub(crate) fn text(value: &serde_json::Value) -> (r: Option<String>)
    ensures
        r is Some == json_text(*value) is Some,
        r matches Some(s) ==> json_text(*value) == Some(s@),
{
    value.as_str().map(|s| s.to_owned())
}

/// Calls `serde_json::Value::as_u64`.
///
/// Trusted: the result is the number named `json_unsigned`.
#[verifier::external_body]
pub(crate) fn unsigned(value: &serde_json::Value) -> (r: Option<u64>)
    ensures
        r == json_unsigned(*value),
{
    value.as_u64()
}

/// Calls `serde_json::Value::as_f64` and takes the double's bit pattern.
///
/// Trusted: the result is the bit pattern named `json_number_bits`.
#[verifier::external_body]
pub(crate) fn number_bits(value: &serde_json::Value) -> (r: Option<u64>)
    ensures
        r == json_number_bits(*value),
{
    value.as_f64().map(|x| x.to_bits())
}

} // verus!
