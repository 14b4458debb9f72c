//! Trusted declarations for the JSON values the wiki API hands back.
//!
//! A `serde_json::Value` is opaque to the verifier, but each accessor's
//! result is a function of the value (and key or path) alone, so each gets
//! a named result: an uninterpreted spec function that the wrapper's
//! contract equates with what the call returned. The extraction logic is
//! then specified exactly over those names.

use vstd::prelude::*;

verus! {

#[verifier::external_type_specification]
#[verifier::external_body]
pub struct ExValue(serde_json::Value);

/// What `serde_json::Value::pointer` resolves a JSON pointer path to.
pub uninterp spec fn pointer_of(v: serde_json::Value, path: Seq<char>) -> Option<
    serde_json::Value,
>;

/// The element list behind `serde_json::Value::as_array`: present exactly
/// when the value is a JSON array.
pub uninterp spec fn array_of(v: serde_json::Value) -> Option<Seq<serde_json::Value>>;

/// The value behind a key, as `serde_json::Value::get` looks it up:
/// present exactly when this is a JSON object holding the key.
pub uninterp spec fn field_of(v: serde_json::Value, key: Seq<char>) -> Option<serde_json::Value>;

/// The number behind `serde_json::Value::as_u64`: present exactly when the
/// value is an integer representable as u64.
pub uninterp spec fn u64_of(v: serde_json::Value) -> Option<u64>;

/// The text behind `serde_json::Value::as_str`: present exactly when the
/// value is a JSON string.
pub uninterp spec fn string_of(v: serde_json::Value) -> Option<Seq<char>>;

/// The value serialized back to compact JSON text, as its `Display` impl
/// renders it.
pub uninterp spec fn text_of(v: serde_json::Value) -> Seq<char>;

/// Relies on serde_json::Value::pointer: the value a JSON pointer path
/// resolves to, or nothing when it does not resolve.
#[verifier::external_body]
pub(crate) fn json_pointer<'a>(v: &'a serde_json::Value, path: &str) -> (r: Option<
    &'a serde_json::Value,
>)
    ensures
        (r is Some <==> pointer_of(*v, path@) is Some),
        (r matches Some(x) ==> pointer_of(*v, path@) == Some(*x)),
{
    v.pointer(path)
}

/// Relies on serde_json::Value::as_array: the element vector when the
/// value is a JSON array, nothing otherwise.
#[verifier::external_body]
pub(crate) fn json_as_array<'a>(v: &'a serde_json::Value) -> (r: Option<&'a Vec<serde_json::Value>>)
    ensures
        (r is Some <==> array_of(*v) is Some),
        (r matches Some(a) ==> array_of(*v) == Some(a@)),
{
    v.as_array()
}

/// Relies on serde_json::Value::get: the value under a key when this is a
/// JSON object holding that key, nothing otherwise.
#[verifier::external_body]
pub(crate) fn json_get<'a>(v: &'a serde_json::Value, key: &str) -> (r: Option<
    &'a serde_json::Value,
>)
    ensures
        (r is Some <==> field_of(*v, key@) is Some),
        (r matches Some(f) ==> field_of(*v, key@) == Some(*f)),
{
    v.get(key)
}

/// Relies on serde_json::Value::as_u64: the number when the value is an
/// integer representable as u64, nothing otherwise.
#[verifier::external_body]
pub(crate) fn json_as_u64(v: &serde_json::Value) -> (r: Option<u64>)
    ensures
        r == u64_of(*v),
{
    v.as_u64()
}

/// Relies on serde_json::Value::as_str: an owned copy of the text when the
/// value is a JSON string, nothing otherwise.
#[verifier::external_body]
pub(crate) fn json_as_string(v: &serde_json::Value) -> (r: Option<String>)
    ensures
        (r is Some <==> string_of(*v) is Some),
        (r matches Some(s) ==> string_of(*v) == Some(s@)),
{
    v.as_str().map(str::to_owned)
}

/// Relies on serde_json::Value's Display impl: the value serialized back
/// to compact JSON text, for embedding a raw response in a diagnostic.
#[verifier::external_body]
pub(crate) fn json_to_text(v: &serde_json::Value) -> (r: String)
    ensures
        r@ == text_of(*v),
{
    format!("{}", v)
}

} // verus!
