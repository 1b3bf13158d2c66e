//! The JSON document model. Parsing and navigation are done by `serde_json`;
//! this module declares its value type, names what its functions return, and
//! wraps each call. Nothing in this file is proved: the contracts restate the
//! behaviour of the parser library.

use vstd::prelude::*;

verus! {

/// A parsed JSON document, as `serde_json` represents it. Its inside is not
/// visible to proofs; it is read through the functions below.
#[verifier::external_type_specification]
#[verifier::external_body]
pub struct ExValue(serde_json::Value);

/// What `serde_json::from_str::<Value>` makes of a text: the document, or
/// nothing where the text is not exactly one JSON value.
pub uninterp spec fn json_parse(text: Seq<char>) -> Option<serde_json::Value>;

/// What `Value::pointer` finds in a document under a JSON pointer.
pub uninterp spec fn json_pointer(doc: serde_json::Value, path: Seq<char>) -> Option<serde_json::Value>;

/// What `Value::get` finds in a document under a string key: the member of
/// that name where the document is an object that has one.
pub uninterp spec fn json_member(doc: serde_json::Value, key: Seq<char>) -> Option<serde_json::Value>;

/// What `Value::as_str` reads from a document: its text where it is a JSON
/// string.
pub uninterp spec fn json_string(doc: serde_json::Value) -> Option<Seq<char>>;

/// What `Value::as_i64` reads from a document: its value where it is a JSON
/// integer that fits in 64 signed bits.
pub uninterp spec fn json_integer(doc: serde_json::Value) -> Option<int>;

/// What `Value::as_bool` reads from a document: its value where it is a JSON
/// boolean.
pub uninterp spec fn json_bool(doc: serde_json::Value) -> Option<bool>;

/// Calls `serde_json::from_str` for a `Value`; a text that it rejects gives
/// `None`. The result is the one named by [`json_parse`].
#[verifier::external_body]
pub(crate) fn parse(text: &str) -> (r: Option<serde_json::Value>)
    ensures
        r == json_parse(text@),
{
    serde_json::from_str::<serde_json::Value>(text).ok()
}

/// Calls `Value::pointer`. The result is the one named by [`json_pointer`].
#[verifier::external_body]
pub(crate) fn pointer<'a>(doc: &'a serde_json::Value, path: &str) -> (r: Option<&'a serde_json::Value>)
    ensures
        match r {
            Some(found) => json_pointer(*doc, path@) == Some(*found),
            None => json_pointer(*doc, path@) is None,
        },
{
    doc.pointer(path)
}

/// Calls `Value::get` with a string key. The result is the one named by
/// [`json_member`].
#[verifier::external_body]
pub(crate) fn member<'a>(doc: &'a serde_json::Value, key: &str) -> (r: Option<&'a serde_json::Value>)
    ensures
        match r {
            Some(found) => json_member(*doc, key@) == Some(*found),
            None => json_member(*doc, key@) is None,
        },
{
    doc.get(key)
}

/// Calls `Value::as_str`. The result is the one named by [`json_string`].
#[verifier::external_body]
pub(crate) fn as_text<'a>(doc: &'a serde_json::Value) -> (r: Option<&'a str>)
    ensures
        match r {
            Some(s) => json_string(*doc) == Some(s@),
            None => json_string(*doc) is None,
        },
{
    doc.as_str()
}

/// Calls `Value::as_i64`. The result is the one named by [`json_integer`].
#[verifier::external_body]
pub(crate) fn as_integer(doc: &serde_json::Value) -> (r: Option<i64>)
    ensures
        match r {
            Some(n) => json_integer(*doc) == Some(n as int),
            None => json_integer(*doc) is None,
        },
{
    doc.as_i64()
}

/// Calls `Value::as_bool`. The result is the one named by [`json_bool`].
#[verifier::external_body]
pub(crate) fn as_flag(doc: &serde_json::Value) -> (r: Option<bool>)
    ensures
        r == json_bool(*doc),
{
    doc.as_bool()
}

} // verus!
