//! Classification of single values taken from a transcript line: an error
//! type, an error message, a stop reason, an HTTP status, or the raw text.

use vstd::prelude::*;
use crate::cause::{DetectionOutcome, StopCause};
use crate::text::{chars_of, contains, has, is_word, lower, to_lower, to_upper, upper};

verus! {

/// The fatal cause that an error's type names, if any.
pub open spec fn fatal_type_cause(error_type: Seq<char>) -> Option<StopCause> {
    if contains(lower(error_type), "context_length"@) || contains(
        lower(error_type),
        "context_window"@,
    ) {
        Some(StopCause::ContextLengthExceeded)
    } else {
        None
    }
}

/// The fatal cause that an error's message names, if any.
pub open spec fn fatal_message_cause(message: Seq<char>) -> Option<StopCause> {
    if contains(lower(message), "cost limit"@) || contains(lower(message), "spending limit"@)
        || contains(lower(message), "budget"@) {
        Some(StopCause::CostLimitReached)
    } else {
        None
    }
}

/// The fatal cause that the raw text of a line names, if any. The text is
/// scanned, in any ASCII case, for what is looked for in the fields of a
/// structured error: `context_length` or `context_window` first, then
/// `cost limit`, `spending limit` or `budget`. The spellings `cost_limit` and
/// `spending_limit` count as well.
pub open spec fn fatal_raw_cause(raw: Seq<char>) -> Option<StopCause> {
    if fatal_type_cause(raw) is Some {
        fatal_type_cause(raw)
    } else if fatal_message_cause(raw) is Some || contains(lower(raw), "cost_limit"@) || contains(
        lower(raw),
        "spending_limit"@,
    ) {
        Some(StopCause::CostLimitReached)
    } else {
        None
    }
}

/// The retryable cause that an error's type names, if any. The patterns are
/// tried in this order on the upper-cased type.
pub open spec fn error_type_cause(error_type: Seq<char>) -> Option<StopCause> {
    let t = upper(error_type);
    if contains(t, "RESOURCE_EXHAUSTED"@) {
        Some(StopCause::ResourceExhausted)
    } else if contains(t, "RATE_LIMIT"@) || contains(t, "TOO_MANY_REQUESTS"@) {
        Some(StopCause::RateLimited)
    } else if contains(t, "OVERLOADED"@) || contains(t, "OVERLOAD"@) {
        Some(StopCause::Overloaded)
    } else if contains(t, "UNAVAILABLE"@) {
        Some(StopCause::Unavailable)
    } else {
        None
    }
}

/// The retryable cause that an error's message names, if any: the patterns
/// of the error type, without the one for unavailability.
pub open spec fn error_message_cause(message: Seq<char>) -> Option<StopCause> {
    let m = upper(message);
    if contains(m, "RESOURCE_EXHAUSTED"@) {
        Some(StopCause::ResourceExhausted)
    } else if contains(m, "RATE_LIMIT"@) || contains(m, "TOO_MANY_REQUESTS"@) {
        Some(StopCause::RateLimited)
    } else if contains(m, "OVERLOADED"@) || contains(m, "OVERLOAD"@) {
        Some(StopCause::Overloaded)
    } else {
        None
    }
}

/// The retryable cause that an unparsed line names, if any.
pub open spec fn raw_text_cause(raw: Seq<char>) -> Option<StopCause> {
    let u = upper(raw);
    if contains(u, "RESOURCE_EXHAUSTED"@) {
        Some(StopCause::ResourceExhausted)
    } else if contains(u, "OVERLOADED"@) {
        Some(StopCause::Overloaded)
    } else if contains(u, "UNAVAILABLE"@) {
        Some(StopCause::Unavailable)
    } else if contains(u, "HTTP 429"@) || contains(raw, "\"status\":429"@) || contains(
        raw,
        "\"status\": 429"@,
    ) {
        Some(StopCause::RateLimited)
    } else if contains(u, "HTTP 503"@) || contains(u, "HTTP 529"@) || contains(
        raw,
        "\"status\":503"@,
    ) || contains(raw, "\"status\":529"@) {
        Some(StopCause::Overloaded)
    } else {
        None
    }
}

/// What a stop reason means for the stop: truncation blocks, a normal end
/// allows, `error` defers to the detectors that follow, and anything else
/// allows.
pub open spec fn stop_reason_outcome(reason: Seq<char>) -> DetectionOutcome {
    if lower(reason) == "max_tokens"@ {
        DetectionOutcome::Block(StopCause::MaxTokens)
    } else if lower(reason) == "end_turn"@ || lower(reason) == "stop_sequence"@ {
        DetectionOutcome::Allow
    } else if lower(reason) == "error"@ {
        DetectionOutcome::NoMatch
    } else {
        DetectionOutcome::Allow
    }
}

/// The cause that an HTTP status stands for, if any.
pub open spec fn http_status_cause(status: int) -> Option<StopCause> {
    if status == 429 {
        Some(StopCause::RateLimited)
    } else if status == 503 || status == 529 {
        Some(StopCause::Overloaded)
    } else {
        None
    }
}

/// Looks for a fatal signal in the raw text of a line.
pub fn classify_fatal_error_raw(raw: &str) -> (r: Option<StopCause>)
    ensures
        r == fatal_raw_cause(raw@),
{
    let low = to_lower(chars_of(raw).as_slice());
    if has(low.as_slice(), "context_length") || has(low.as_slice(), "context_window") {
        return Some(StopCause::ContextLengthExceeded);
    }
    if has(low.as_slice(), "cost limit") || has(low.as_slice(), "spending limit") || has(
        low.as_slice(),
        "budget",
    ) {
        return Some(StopCause::CostLimitReached);
    }
    if has(low.as_slice(), "cost_limit") || has(low.as_slice(), "spending_limit") {
        return Some(StopCause::CostLimitReached);
    }
    None
}

/// Looks for a fatal signal in an error's type.
pub fn classify_fatal_error_type(error_type: &str) -> (r: Option<StopCause>)
    ensures
        r == fatal_type_cause(error_type@),
{
    let low = to_lower(chars_of(error_type).as_slice());
    if has(low.as_slice(), "context_length") || has(low.as_slice(), "context_window") {
        Some(StopCause::ContextLengthExceeded)
    } else {
        None
    }
}

/// Looks for a fatal signal in an error's message.
pub fn classify_fatal_error_message(message: &str) -> (r: Option<StopCause>)
    ensures
        r == fatal_message_cause(message@),
{
    let low = to_lower(chars_of(message).as_slice());
    if has(low.as_slice(), "cost limit") || has(low.as_slice(), "spending limit") || has(
        low.as_slice(),
        "budget",
    ) {
        Some(StopCause::CostLimitReached)
    } else {
        None
    }
}

/// Classifies the type of a structured error.
pub fn classify_error_type(error_type: &str) -> (r: Option<StopCause>)
    ensures
        r == error_type_cause(error_type@),
{
    let t = to_upper(chars_of(error_type).as_slice());
    if has(t.as_slice(), "RESOURCE_EXHAUSTED") {
        return Some(StopCause::ResourceExhausted);
    }
    if has(t.as_slice(), "RATE_LIMIT") || has(t.as_slice(), "TOO_MANY_REQUESTS") {
        return Some(StopCause::RateLimited);
    }
    if has(t.as_slice(), "OVERLOADED") || has(t.as_slice(), "OVERLOAD") {
        return Some(StopCause::Overloaded);
    }
    if has(t.as_slice(), "UNAVAILABLE") {
        return Some(StopCause::Unavailable);
    }
    None
}

/// Classifies the message of a structured error.
pub fn classify_error_message(msg: &str) -> (r: Option<StopCause>)
    ensures
        r == error_message_cause(msg@),
{
    let m = to_upper(chars_of(msg).as_slice());
    if has(m.as_slice(), "RESOURCE_EXHAUSTED") {
        return Some(StopCause::ResourceExhausted);
    }
    if has(m.as_slice(), "RATE_LIMIT") || has(m.as_slice(), "TOO_MANY_REQUESTS") {
        return Some(StopCause::RateLimited);
    }
    if has(m.as_slice(), "OVERLOADED") || has(m.as_slice(), "OVERLOAD") {
        return Some(StopCause::Overloaded);
    }
    None
}

/// Classifies the raw text of a line that is not JSON.
pub fn classify_raw_text(raw: &str) -> (r: Option<StopCause>)
    ensures
        r == raw_text_cause(raw@),
{
    let chars = chars_of(raw);
    let up = to_upper(chars.as_slice());
    if has(up.as_slice(), "RESOURCE_EXHAUSTED") {
        return Some(StopCause::ResourceExhausted);
    }
    if has(up.as_slice(), "OVERLOADED") {
        return Some(StopCause::Overloaded);
    }
    if has(up.as_slice(), "UNAVAILABLE") {
        return Some(StopCause::Unavailable);
    }
    if has(up.as_slice(), "HTTP 429") || has(chars.as_slice(), "\"status\":429") || has(
        chars.as_slice(),
        "\"status\": 429",
    ) {
        return Some(StopCause::RateLimited);
    }
    if has(up.as_slice(), "HTTP 503") || has(up.as_slice(), "HTTP 529") || has(
        chars.as_slice(),
        "\"status\":503",
    ) || has(chars.as_slice(), "\"status\":529") {
        return Some(StopCause::Overloaded);
    }
    None
}

/// Classifies a stop reason.
pub fn classify_stop_reason(reason: &str) -> (r: DetectionOutcome)
    ensures
        r == stop_reason_outcome(reason@),
{
    if is_word(reason, "max_tokens") {
        return DetectionOutcome::Block(StopCause::MaxTokens);
    }
    if is_word(reason, "end_turn") || is_word(reason, "stop_sequence") {
        return DetectionOutcome::Allow;
    }
    if is_word(reason, "error") {
        return DetectionOutcome::NoMatch;
    }
    DetectionOutcome::Allow
}

/// Classifies an HTTP status.
pub fn classify_http_status(status: i64) -> (r: Option<StopCause>)
    ensures
        r == http_status_cause(status as int),
{
    if status == 429 {
        Some(StopCause::RateLimited)
    } else if status == 503 || status == 529 {
        Some(StopCause::Overloaded)
    } else {
        None
    }
}

} // verus!
