//! The calls into `serde_json` that the library makes, each behind a trusted
//! item whose contract states what `serde_json` documents of it.
//!
//! A JSON value stays opaque: each accessor below is named by an
//! uninterpreted function of the value it reads, so that contracts elsewhere
//! can say exactly which accessor results a computation is built from.

use vstd::prelude::*;

verus! {

#[verifier::external_type_specification]
#[verifier::external_body]
pub struct ExValue(serde_json::Value);

/// What `serde_json::from_str::<Value>` makes of a text: `None` where it reports an error.
pub uninterp spec fn parsed(s: Seq<char>) -> Option<serde_json::Value>;

/// What `Value::get` returns for a string key: the member of an object under that key.
pub uninterp spec fn member(v: serde_json::Value, key: Seq<char>) -> Option<serde_json::Value>;

/// What `Value::as_str` returns: the text of a JSON string.
pub uninterp spec fn string_of(v: serde_json::Value) -> Option<Seq<char>>;

/// What `Value::as_array` returns: the elements of a JSON array.
pub uninterp spec fn array_of(v: serde_json::Value) -> Option<Seq<serde_json::Value>>;

/// What `Value::as_i64` returns: an integer that fits in `i64`.
pub uninterp spec fn integer_of(v: serde_json::Value) -> Option<i64>;

/// What `serde_json::to_string_pretty` makes of a value: `None` where it reports an error.
pub uninterp spec fn pretty_of(v: serde_json::Value) -> Option<Seq<char>>;

/// What `serde_json::to_string` makes of a `str`: the quoted, escaped JSON string.
pub uninterp spec fn quoted(s: Seq<char>) -> Seq<char>;

/// The text of member `key` of `v`, where that member is a JSON string.
pub open spec fn string_member(v: serde_json::Value, key: Seq<char>) -> Option<Seq<char>> {
    match member(v, key) {
        Some(m) => string_of(m),
        None => None,
    }
}

/// The text of a JSON string, or nothing: the view of an optional `&str`.
pub open spec fn opt_view(r: Option<&str>) -> Option<Seq<char>> {
    match r {
        Some(s) => Some(s@),
        None => None,
    }
}

/// Relies on `serde_json::from_str::<Value>`: the outcome depends on the text alone.
#[verifier::external_body]
pub(crate) fn parse_json(s: &str) -> (r: Option<serde_json::Value>)
    ensures
        r == parsed(s@),
{
    serde_json::from_str::<serde_json::Value>(s).ok()
}

/// Relies on `Value::get` with a `&str` index: a lookup in an object.
#[verifier::external_body]
pub(crate) fn get_member<'a>(v: &'a serde_json::Value, key: &str) -> (r: Option<&'a serde_json::Value>)
    ensures
        match r {
            Some(m) => member(*v, key@) == Some(*m),
            None => member(*v, key@).is_none(),
        },
{
    v.get(key)
}

/// Relies on `Value::as_str`: the text held by a JSON string.
#[verifier::external_body]
pub(crate) fn as_text(v: &serde_json::Value) -> (r: Option<&str>)
    ensures
        opt_view(r) == string_of(*v),
{
    v.as_str()
}

/// Relies on `Value::as_array`: the elements of a JSON array.
#[verifier::external_body]
pub(crate) fn as_elements(v: &serde_json::Value) -> (r: Option<&Vec<serde_json::Value>>)
    ensures
        match r {
            Some(a) => array_of(*v) == Some(a@),
            None => array_of(*v).is_none(),
        },
{
    v.as_array()
}

/// Relies on `Value::as_i64`: an integer member that fits in `i64`.
#[verifier::external_body]
pub(crate) fn as_integer(v: &serde_json::Value) -> (r: Option<i64>)
    ensures
        r == integer_of(*v),
{
    v.as_i64()
}

/// Relies on `serde_json::to_string_pretty`: an indented rendering of a value.
#[verifier::external_body]
pub(crate) fn render_pretty(v: &serde_json::Value) -> (r: Option<String>)
    ensures
        match r {
            Some(t) => pretty_of(*v) == Some(t@),
            None => pretty_of(*v).is_none(),
        },
{
    serde_json::to_string_pretty(v).ok()
}

/// Relies on `serde_json::to_string` on a `str`: the string quoted and escaped
/// as a JSON string. Serialising a `str` into the crate's in-memory buffer
/// reports no error, so the text is always there.
#[verifier::external_body]
pub(crate) fn quote(s: &str) -> (r: String)
    ensures
        r@ == quoted(s@),
{
    serde_json::to_string(s).unwrap_or_default()
}

} // verus!
