//! The detector chain: five detectors in a fixed order of priority, each
//! scanning its window of recent lines from the newest line to the oldest.

use vstd::prelude::*;
use vstd::slice::slice_subrange;
use crate::cause::{DetectionOutcome, StopCause};
use crate::classify::{
    classify_error_message, classify_error_type, classify_fatal_error_message,
    classify_fatal_error_raw, classify_fatal_error_type, classify_http_status,
    classify_raw_text, classify_stop_reason, error_message_cause, error_type_cause,
    fatal_message_cause, fatal_raw_cause, fatal_type_cause, http_status_cause, raw_text_cause,
    stop_reason_outcome,
};
use crate::line::{
    entry_is_error, entry_is_error_like, extract_http_status, extract_stop_reason,
    http_status_of, is_error_entry, is_error_like, stop_reason_of, string_at, text_at,
    TranscriptLine,
};

verus! {

/// Structured errors and HTTP statuses count only in this many newest lines.
pub const RECENT_ERROR_LINES: usize = 5;

/// Unparsed text counts only in this many newest lines.
pub const RAW_FALLBACK_LINES: usize = 8;

/// The newest finding of a scan: the last entry that holds one.
pub open spec fn newest<T>(found: Seq<Option<T>>) -> Option<T>
    decreases found.len(),
{
    if found.len() == 0 {
        None
    } else if found.last() is Some {
        found.last()
    } else {
        newest(found.drop_last())
    }
}

/// The last `n` lines, or all of them where there are fewer.
pub open spec fn recent(lines: Seq<TranscriptLine>, n: nat) -> Seq<TranscriptLine> {
    if lines.len() <= n {
        lines
    } else {
        lines.subrange(lines.len() - n, lines.len() as int)
    }
}

/// A found cause blocks; none found is no match.
pub open spec fn blocked(cause: Option<StopCause>) -> DetectionOutcome {
    match cause {
        Some(c) => DetectionOutcome::Block(c),
        None => DetectionOutcome::NoMatch,
    }
}

/// The fatal cause that a document names in its error type or, failing
/// that, in its error message.
pub open spec fn fatal_json_cause(doc: serde_json::Value) -> Option<StopCause> {
    let by_type = match string_at(doc, "/error/type"@) {
        Some(t) => fatal_type_cause(t),
        None => None,
    };
    if by_type is Some {
        by_type
    } else {
        match string_at(doc, "/error/message"@) {
            Some(m) => fatal_message_cause(m),
            None => None,
        }
    }
}

/// The fatal cause of a line: the one of its document, else the one of its
/// raw text.
pub open spec fn line_fatal(line: TranscriptLine) -> Option<StopCause> {
    let structured = match line.json {
        Some(doc) => fatal_json_cause(doc),
        None => None,
    };
    if structured is Some {
        structured
    } else {
        fatal_raw_cause(line.raw@)
    }
}

/// What the stop reason of a line says, where the line bears one.
pub open spec fn line_boundary(line: TranscriptLine) -> Option<DetectionOutcome> {
    match line.json {
        Some(doc) => match stop_reason_of(doc) {
            Some(reason) => Some(stop_reason_outcome(reason)),
            None => None,
        },
        None => None,
    }
}

/// The retryable cause of a structured error entry: the one of its error
/// type, else the one of its error message.
pub open spec fn structured_cause(doc: serde_json::Value) -> Option<StopCause> {
    let by_type = match string_at(doc, "/error/type"@) {
        Some(t) => error_type_cause(t),
        None => None,
    };
    if by_type is Some {
        by_type
    } else {
        match string_at(doc, "/error/message"@) {
            Some(m) => error_message_cause(m),
            None => None,
        }
    }
}

/// The cause that a line gives as a structured error.
pub open spec fn line_structured(line: TranscriptLine) -> Option<StopCause> {
    match line.json {
        Some(doc) => if is_error_entry(doc) {
            structured_cause(doc)
        } else {
            None
        },
        None => None,
    }
}

/// The cause that a line gives by its HTTP status.
pub open spec fn line_http(line: TranscriptLine) -> Option<StopCause> {
    match line.json {
        Some(doc) => if is_error_like(doc) {
            match http_status_of(doc) {
                Some(status) => http_status_cause(status),
                None => None,
            }
        } else {
            None
        },
        None => None,
    }
}

/// The cause that a line gives by its raw text; only a line without a
/// document is read this way.
pub open spec fn line_raw(line: TranscriptLine) -> Option<StopCause> {
    match line.json {
        Some(_) => None,
        None => raw_text_cause(line.raw@),
    }
}

/// Outcome of the fatal-error detector over the whole window.
pub open spec fn fatal_outcome(lines: Seq<TranscriptLine>) -> DetectionOutcome {
    blocked(newest(lines.map_values(|l: TranscriptLine| line_fatal(l))))
}

/// Outcome of the stop-reason detector over the whole window: the newest
/// line that bears a stop reason decides.
pub open spec fn boundary_outcome(lines: Seq<TranscriptLine>) -> DetectionOutcome {
    match newest(lines.map_values(|l: TranscriptLine| line_boundary(l))) {
        Some(outcome) => outcome,
        None => DetectionOutcome::NoMatch,
    }
}

/// Outcome of the structured-error detector over the newest lines.
pub open spec fn structured_outcome(lines: Seq<TranscriptLine>) -> DetectionOutcome {
    blocked(
        newest(
            recent(lines, RECENT_ERROR_LINES as nat).map_values(
                |l: TranscriptLine| line_structured(l),
            ),
        ),
    )
}

/// Outcome of the HTTP-status detector over the newest lines.
pub open spec fn http_outcome(lines: Seq<TranscriptLine>) -> DetectionOutcome {
    blocked(
        newest(recent(lines, RECENT_ERROR_LINES as nat).map_values(|l: TranscriptLine| line_http(l))),
    )
}

/// Outcome of the raw-text detector over the newest lines.
pub open spec fn raw_outcome(lines: Seq<TranscriptLine>) -> DetectionOutcome {
    blocked(
        newest(recent(lines, RAW_FALLBACK_LINES as nat).map_values(|l: TranscriptLine| line_raw(l))),
    )
}

/// Outcome of the whole chain: the first detector, in order of priority,
/// that does not answer `NoMatch` decides.
pub open spec fn detection(lines: Seq<TranscriptLine>) -> DetectionOutcome {
    if fatal_outcome(lines) != DetectionOutcome::NoMatch {
        fatal_outcome(lines)
    } else if boundary_outcome(lines) != DetectionOutcome::NoMatch {
        boundary_outcome(lines)
    } else if structured_outcome(lines) != DetectionOutcome::NoMatch {
        structured_outcome(lines)
    } else if http_outcome(lines) != DetectionOutcome::NoMatch {
        http_outcome(lines)
    } else {
        raw_outcome(lines)
    }
}

/// A scan that has found nothing in the entries from `i` on has the newest
/// finding of the entries before `i`.
pub proof fn lemma_newest_skips_empty<T>(found: Seq<Option<T>>, i: int)
    requires
        0 <= i <= found.len(),
        forall|j: int| i <= j < found.len() ==> found[j] is None,
    ensures
        newest(found) == newest(found.take(i)),
    decreases found.len(),
{
    if i == found.len() {
        assert(found.take(i) =~= found);
    } else {
        assert(found.last() is None);
        lemma_newest_skips_empty(found.drop_last(), i);
        assert(found.drop_last().take(i) =~= found.take(i));
    }
}

/// The newest entry that holds a finding is the newest finding.
pub proof fn lemma_newest_is_last_found<T>(found: Seq<Option<T>>, i: int)
    requires
        0 <= i < found.len(),
        found[i] is Some,
        forall|j: int| i < j < found.len() ==> found[j] is None,
    ensures
        newest(found) == found[i],
{
    lemma_newest_skips_empty(found, i + 1);
    assert(found.take(i + 1).last() == found[i]);
}

/// The start of the window of the last `n` lines among `len`.
fn window_start(len: usize, n: usize) -> (start: usize)
    ensures
        start == if len <= n { 0 } else { len - n },
{
    if len <= n {
        0
    } else {
        len - n
    }
}

/// Looks for a fatal signal in a document.
pub fn classify_fatal_error_json(value: &serde_json::Value) -> (r: Option<StopCause>)
    ensures
        r == fatal_json_cause(*value),
{
    if let Some(error_type) = text_at(value, "/error/type") {
        let found = classify_fatal_error_type(error_type);
        if found.is_some() {
            return found;
        }
    }
    if let Some(message) = text_at(value, "/error/message") {
        return classify_fatal_error_message(message);
    }
    None
}

/// Looks for a fatal signal in a line.
pub fn fatal_in_line(line: &TranscriptLine) -> (r: Option<StopCause>)
    ensures
        r == line_fatal(*line),
{
    if let Some(json) = &line.json {
        let found = classify_fatal_error_json(json);
        if found.is_some() {
            return found;
        }
    }
    classify_fatal_error_raw(line.raw.as_str())
}

/// Reads what the stop reason of a line says.
pub fn boundary_in_line(line: &TranscriptLine) -> (r: Option<DetectionOutcome>)
    ensures
        r == line_boundary(*line),
{
    match &line.json {
        Some(json) => match extract_stop_reason(json) {
            Some(reason) => Some(classify_stop_reason(reason)),
            None => None,
        },
        None => None,
    }
}

/// Classifies a line as a structured error.
pub fn structured_in_line(line: &TranscriptLine) -> (r: Option<StopCause>)
    ensures
        r == line_structured(*line),
{
    let json = match &line.json {
        Some(v) => v,
        None => return None,
    };
    if !entry_is_error(json) {
        return None;
    }
    if let Some(error_type) = text_at(json, "/error/type") {
        let found = classify_error_type(error_type);
        if found.is_some() {
            return found;
        }
    }
    if let Some(message) = text_at(json, "/error/message") {
        return classify_error_message(message);
    }
    None
}

/// Classifies a line by its HTTP status.
pub fn http_in_line(line: &TranscriptLine) -> (r: Option<StopCause>)
    ensures
        r == line_http(*line),
{
    let json = match &line.json {
        Some(v) => v,
        None => return None,
    };
    if !entry_is_error_like(json) {
        return None;
    }
    match extract_http_status(json) {
        Some(status) => classify_http_status(status),
        None => None,
    }
}

/// Classifies a line by its raw text.
pub fn raw_in_line(line: &TranscriptLine) -> (r: Option<StopCause>)
    ensures
        r == line_raw(*line),
{
    if line.json.is_some() {
        return None;
    }
    classify_raw_text(line.raw.as_str())
}

/// Detects the causes that must never be retried, in the whole window.
pub fn detect_fatal_errors(lines: &[TranscriptLine], _stop_hook_active: bool) -> (r:
    DetectionOutcome)
    ensures
        r == fatal_outcome(lines@),
{
    let ghost found = lines@.map_values(|l: TranscriptLine| line_fatal(l));
    let mut i: usize = lines.len();
    while i > 0
        invariant
            i <= lines.len(),
            found == lines@.map_values(|l: TranscriptLine| line_fatal(l)),
            forall|j: int| i <= j < found.len() ==> found[j] is None,
        decreases i,
    {
        i -= 1;
        if let Some(cause) = fatal_in_line(&lines[i]) {
            proof {
                lemma_newest_is_last_found(found, i as int);
            }
            return DetectionOutcome::Block(cause);
        }
    }
    proof {
        lemma_newest_skips_empty(found, 0);
    }
    DetectionOutcome::NoMatch
}

/// Finds the newest stop reason in the whole window and says whether it
/// marks a normal end of the turn.
pub fn detect_stop_reason_boundary(lines: &[TranscriptLine], _stop_hook_active: bool) -> (r:
    DetectionOutcome)
    ensures
        r == boundary_outcome(lines@),
{
    let ghost found = lines@.map_values(|l: TranscriptLine| line_boundary(l));
    let mut i: usize = lines.len();
    while i > 0
        invariant
            i <= lines.len(),
            found == lines@.map_values(|l: TranscriptLine| line_boundary(l)),
            forall|j: int| i <= j < found.len() ==> found[j] is None,
        decreases i,
    {
        i -= 1;
        if let Some(outcome) = boundary_in_line(&lines[i]) {
            proof {
                lemma_newest_is_last_found(found, i as int);
            }
            return outcome;
        }
    }
    proof {
        lemma_newest_skips_empty(found, 0);
    }
    DetectionOutcome::NoMatch
}

/// Detects a structured error among the newest lines.
pub fn detect_structured_error(lines: &[TranscriptLine], _stop_hook_active: bool) -> (r:
    DetectionOutcome)
    ensures
        r == structured_outcome(lines@),
{
    let start = window_start(lines.len(), RECENT_ERROR_LINES);
    let window = slice_subrange(lines, start, lines.len());
    assert(window@ =~= recent(lines@, RECENT_ERROR_LINES as nat));
    let ghost found = window@.map_values(|l: TranscriptLine| line_structured(l));
    let mut i: usize = window.len();
    while i > 0
        invariant
            i <= window.len(),
            window@ == recent(lines@, RECENT_ERROR_LINES as nat),
            found == window@.map_values(|l: TranscriptLine| line_structured(l)),
            forall|j: int| i <= j < found.len() ==> found[j] is None,
        decreases i,
    {
        i -= 1;
        if let Some(cause) = structured_in_line(&window[i]) {
            proof {
                lemma_newest_is_last_found(found, i as int);
            }
            return DetectionOutcome::Block(cause);
        }
    }
    proof {
        lemma_newest_skips_empty(found, 0);
    }
    DetectionOutcome::NoMatch
}

/// Detects an HTTP status of a transient failure among the newest lines.
pub fn detect_http_status(lines: &[TranscriptLine], _stop_hook_active: bool) -> (r:
    DetectionOutcome)
    ensures
        r == http_outcome(lines@),
{
    let start = window_start(lines.len(), RECENT_ERROR_LINES);
    let window = slice_subrange(lines, start, lines.len());
    assert(window@ =~= recent(lines@, RECENT_ERROR_LINES as nat));
    let ghost found = window@.map_values(|l: TranscriptLine| line_http(l));
    let mut i: usize = window.len();
    while i > 0
        invariant
            i <= window.len(),
            window@ == recent(lines@, RECENT_ERROR_LINES as nat),
            found == window@.map_values(|l: TranscriptLine| line_http(l)),
            forall|j: int| i <= j < found.len() ==> found[j] is None,
        decreases i,
    {
        i -= 1;
        if let Some(cause) = http_in_line(&window[i]) {
            proof {
                lemma_newest_is_last_found(found, i as int);
            }
            return DetectionOutcome::Block(cause);
        }
    }
    proof {
        lemma_newest_skips_empty(found, 0);
    }
    DetectionOutcome::NoMatch
}

/// Detects a transient failure in the raw text of the newest unparsed lines.
pub fn detect_raw_fallback(lines: &[TranscriptLine], _stop_hook_active: bool) -> (r:
    DetectionOutcome)
    ensures
        r == raw_outcome(lines@),
{
    let start = window_start(lines.len(), RAW_FALLBACK_LINES);
    let window = slice_subrange(lines, start, lines.len());
    assert(window@ =~= recent(lines@, RAW_FALLBACK_LINES as nat));
    let ghost found = window@.map_values(|l: TranscriptLine| line_raw(l));
    let mut i: usize = window.len();
    while i > 0
        invariant
            i <= window.len(),
            window@ == recent(lines@, RAW_FALLBACK_LINES as nat),
            found == window@.map_values(|l: TranscriptLine| line_raw(l)),
            forall|j: int| i <= j < found.len() ==> found[j] is None,
        decreases i,
    {
        i -= 1;
        if let Some(cause) = raw_in_line(&window[i]) {
            proof {
                lemma_newest_is_last_found(found, i as int);
            }
            return DetectionOutcome::Block(cause);
        }
    }
    proof {
        lemma_newest_skips_empty(found, 0);
    }
    DetectionOutcome::NoMatch
}

/// Runs the detectors in order of priority; the first that answers decides.
pub fn detect(lines: &[TranscriptLine], stop_hook_active: bool) -> (r: DetectionOutcome)
    ensures
        r == detection(lines@),
{
    let outcome = detect_fatal_errors(lines, stop_hook_active);
    if outcome != DetectionOutcome::NoMatch {
        return outcome;
    }
    let outcome = detect_stop_reason_boundary(lines, stop_hook_active);
    if outcome != DetectionOutcome::NoMatch {
        return outcome;
    }
    let outcome = detect_structured_error(lines, stop_hook_active);
    if outcome != DetectionOutcome::NoMatch {
        return outcome;
    }
    let outcome = detect_http_status(lines, stop_hook_active);
    if outcome != DetectionOutcome::NoMatch {
        return outcome;
    }
    detect_raw_fallback(lines, stop_hook_active)
}

} // verus!
