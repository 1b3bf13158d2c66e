//! One line of a transcript, and the fields that the detectors read from it.

use vstd::prelude::*;
use crate::json::{
    as_integer, as_text, json_integer, json_member, json_parse, json_pointer, json_string, member,
    parse, pointer,
};
use crate::text::{is_word, lower};

verus! {

/// A transcript line: its trimmed text, and the JSON document it holds where
/// the text is one. Built once and never changed.
#[derive(Debug, Clone)]
pub struct TranscriptLine {
    pub raw: String,
    pub json: Option<serde_json::Value>,
}

/// The string found in a document under a JSON pointer.
pub open spec fn string_at(doc: serde_json::Value, path: Seq<char>) -> Option<Seq<char>> {
    match json_pointer(doc, path) {
        Some(found) => json_string(found),
        None => None,
    }
}

/// The string held by a top-level member of a document.
pub open spec fn member_string(doc: serde_json::Value, key: Seq<char>) -> Option<Seq<char>> {
    match json_member(doc, key) {
        Some(found) => json_string(found),
        None => None,
    }
}

/// The integer found in a document under a JSON pointer.
pub open spec fn integer_at(doc: serde_json::Value, path: Seq<char>) -> Option<int> {
    match json_pointer(doc, path) {
        Some(found) => json_integer(found),
        None => None,
    }
}

/// The integer held by a top-level member of a document.
pub open spec fn member_integer(doc: serde_json::Value, key: Seq<char>) -> Option<int> {
    match json_member(doc, key) {
        Some(found) => json_integer(found),
        None => None,
    }
}

/// The stop reason of an entry: the one of its message where there is one,
/// else the one at top level.
pub open spec fn stop_reason_of(doc: serde_json::Value) -> Option<Seq<char>> {
    match string_at(doc, "/message/stop_reason"@) {
        Some(reason) => Some(reason),
        None => member_string(doc, "stop_reason"@),
    }
}

/// The integer under one spelling of the status field: at top level first,
/// then inside the error object.
pub open spec fn status_under(doc: serde_json::Value, key: Seq<char>, nested: Seq<char>) -> Option<
    int,
> {
    match member_integer(doc, key) {
        Some(status) => Some(status),
        None => integer_at(doc, nested),
    }
}

/// The HTTP status of an entry: the first integer found under the spellings
/// `status`, `status_code`, `http_status`, `statusCode`, in this order.
pub open spec fn http_status_of(doc: serde_json::Value) -> Option<int> {
    if status_under(doc, "status"@, "/error/status"@) is Some {
        status_under(doc, "status"@, "/error/status"@)
    } else if status_under(doc, "status_code"@, "/error/status_code"@) is Some {
        status_under(doc, "status_code"@, "/error/status_code"@)
    } else if status_under(doc, "http_status"@, "/error/http_status"@) is Some {
        status_under(doc, "http_status"@, "/error/http_status"@)
    } else {
        status_under(doc, "statusCode"@, "/error/statusCode"@)
    }
}

/// The entry's `type` is `error`, in any ASCII case.
pub open spec fn is_error_entry(doc: serde_json::Value) -> bool {
    match member_string(doc, "type"@) {
        Some(kind) => lower(kind) == "error"@,
        None => false,
    }
}

/// The entry looks like an error: its `type` is `error`, or it has an
/// `error` member.
pub open spec fn is_error_like(doc: serde_json::Value) -> bool {
    is_error_entry(doc) || json_member(doc, "error"@) is Some
}

/// The view of an optional string slice.
pub open spec fn text_view(text: Option<&str>) -> Option<Seq<char>> {
    match text {
        Some(s) => Some(s@),
        None => None,
    }
}

/// The value of an optional 64-bit integer.
pub open spec fn integer_view(n: Option<i64>) -> Option<int> {
    match n {
        Some(n) => Some(n as int),
        None => None,
    }
}

impl TranscriptLine {
    /// The line that a text makes: the text itself, with the document that
    /// the JSON parser reads from it, if any.
    pub open spec fn of_text(self, text: Seq<char>) -> bool {
        self.raw@ == text && self.json == json_parse(text)
    }

    /// Builds the line for a text, parsing it as JSON where that succeeds.
    pub fn parse(text: &str) -> (line: TranscriptLine)
        ensures
            line.of_text(text@),
    {
        TranscriptLine { raw: text.to_owned(), json: parse(text) }
    }

    /// Builds the line for a text that is kept as raw text only.
    pub fn unparsed(text: &str) -> (line: TranscriptLine)
        ensures
            line.raw@ == text@,
            line.json is None,
    {
        TranscriptLine { raw: text.to_owned(), json: None }
    }
}

/// Reads the string under a JSON pointer.
pub fn text_at<'a>(doc: &'a serde_json::Value, path: &str) -> (r: Option<&'a str>)
    ensures
        text_view(r) == string_at(*doc, path@),
{
    match pointer(doc, path) {
        Some(found) => as_text(found),
        None => None,
    }
}

/// Reads the string held by a top-level member.
pub fn member_text<'a>(doc: &'a serde_json::Value, key: &str) -> (r: Option<&'a str>)
    ensures
        text_view(r) == member_string(*doc, key@),
{
    match member(doc, key) {
        Some(found) => as_text(found),
        None => None,
    }
}

/// Reads the integer of one spelling of the status field.
pub fn status_for(doc: &serde_json::Value, key: &str, nested: &str) -> (r: Option<i64>)
    ensures
        integer_view(r) == status_under(*doc, key@, nested@),
{
    let top = match member(doc, key) {
        Some(found) => as_integer(found),
        None => None,
    };
    if top.is_some() {
        return top;
    }
    match pointer(doc, nested) {
        Some(found) => as_integer(found),
        None => None,
    }
}

/// Finds the stop reason of an entry.
pub fn extract_stop_reason<'a>(value: &'a serde_json::Value) -> (r: Option<&'a str>)
    ensures
        text_view(r) == stop_reason_of(*value),
{
    let nested = text_at(value, "/message/stop_reason");
    if nested.is_some() {
        nested
    } else {
        member_text(value, "stop_reason")
    }
}

/// Finds the HTTP status of an entry.
pub fn extract_http_status(value: &serde_json::Value) -> (r: Option<i64>)
    ensures
        integer_view(r) == http_status_of(*value),
{
    let status = status_for(value, "status", "/error/status");
    if status.is_some() {
        return status;
    }
    let status = status_for(value, "status_code", "/error/status_code");
    if status.is_some() {
        return status;
    }
    let status = status_for(value, "http_status", "/error/http_status");
    if status.is_some() {
        return status;
    }
    status_for(value, "statusCode", "/error/statusCode")
}

/// Whether the entry's `type` is `error`.
pub fn entry_is_error(value: &serde_json::Value) -> (r: bool)
    ensures
        r == is_error_entry(*value),
{
    match member_text(value, "type") {
        Some(kind) => is_word(kind, "error"),
        None => false,
    }
}

/// Whether the entry looks like an error.
pub fn entry_is_error_like(value: &serde_json::Value) -> (r: bool)
    ensures
        r == is_error_like(*value),
{
    entry_is_error(value) || member(value, "error").is_some()
}

} // verus!
