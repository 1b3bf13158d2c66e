//! What holds of the detector chain for every window of lines: the order of
//! priority among the detectors, and the limits of their windows.

use vstd::prelude::*;
use crate::cause::{DetectionOutcome, StopCause};
use crate::classify::stop_reason_outcome;
use crate::detect::{
    blocked, boundary_outcome, detection, fatal_outcome, http_outcome, line_boundary, line_fatal,
    line_http, line_raw, line_structured, newest, raw_outcome, recent, structured_outcome,
    lemma_newest_is_last_found, lemma_newest_skips_empty, RAW_FALLBACK_LINES, RECENT_ERROR_LINES,
};
use crate::line::{http_status_of, is_error_like, stop_reason_of, TranscriptLine};
use crate::policy::retry_cause;
use crate::text::lower;

verus! {

/// Line `i` is among the last `n` of the lines.
pub open spec fn in_window(lines: Seq<TranscriptLine>, n: nat, i: int) -> bool {
    0 <= i < lines.len() && lines.len() - n <= i
}

/// A scan with a finding has it from one of its entries, and no entry after
/// that one holds a finding.
pub proof fn lemma_newest_has_source<T>(found: Seq<Option<T>>) -> (i: int)
    requires
        newest(found) is Some,
    ensures
        0 <= i < found.len(),
        found[i] == newest(found),
        forall|j: int| i < j < found.len() ==> found[j] is None,
    decreases found.len(),
{
    if found.last() is Some {
        found.len() - 1
    } else {
        let i = lemma_newest_has_source(found.drop_last());
        assert forall|j: int| i < j < found.len() implies found[j] is None by {
            if j < found.len() - 1 {
                assert(found.drop_last()[j] == found[j]);
            }
        }
        i
    }
}

/// The findings of the last `n` lines, seen from the whole window: entry `k`
/// of the scan belongs to line `k + (len - n)`.
proof fn lemma_recent_index(lines: Seq<TranscriptLine>, n: nat, k: int)
    requires
        0 <= k < recent(lines, n).len(),
    ensures
        recent(lines, n).len() == if lines.len() <= n { lines.len() } else { n },
        recent(lines, n)[k] == lines[k + (lines.len() - recent(lines, n).len())],
        in_window(lines, n, k + (lines.len() - recent(lines, n).len())),
{
}

/// A fatal signal anywhere in the window decides: the chain answers with a
/// fatal cause, whatever stop reasons and retryable errors stand beside it,
/// and no action follows.
pub proof fn lemma_fatal_outranks(lines: Seq<TranscriptLine>, i: int)
    requires
        0 <= i < lines.len(),
        line_fatal(lines[i]) is Some,
    ensures
        detection(lines) == fatal_outcome(lines),
        detection(lines) matches DetectionOutcome::Block(cause) && !cause.retryable(),
        retry_cause(detection(lines)) is None,
{
    let found = lines.map_values(|l: TranscriptLine| line_fatal(l));
    assert(found[i] is Some);
    if newest(found) is None {
        lemma_newest_all_empty(found);
    }
    let k = lemma_newest_has_source(found);
    assert(found[k] == line_fatal(lines[k]));
}

/// A scan without a finding has none in any entry.
pub proof fn lemma_newest_all_empty<T>(found: Seq<Option<T>>)
    requires
        newest(found) is None,
    ensures
        forall|j: int| 0 <= j < found.len() ==> found[j] is None,
    decreases found.len(),
{
    if found.len() > 0 {
        lemma_newest_all_empty(found.drop_last());
        assert forall|j: int| 0 <= j < found.len() implies found[j] is None by {
            if j < found.len() - 1 {
                assert(found.drop_last()[j] == found[j]);
            }
        }
    }
}

/// The fatal cause reported is that of the newest line that bears one.
pub proof fn lemma_newest_fatal_wins(lines: Seq<TranscriptLine>, i: int)
    requires
        0 <= i < lines.len(),
        line_fatal(lines[i]) is Some,
        forall|j: int| i < j < lines.len() ==> line_fatal(lines[j]) is None,
    ensures
        detection(lines) == blocked(line_fatal(lines[i])),
{
    let found = lines.map_values(|l: TranscriptLine| line_fatal(l));
    lemma_newest_is_last_found(found, i);
}

/// Where no line bears a fatal signal and the newest line that bears a stop
/// reason says `end_turn` or `stop_sequence`, the stop is allowed and no
/// action follows, whatever errors older or newer lines hold.
pub proof fn lemma_normal_end_allows(lines: Seq<TranscriptLine>, i: int)
    requires
        forall|j: int| 0 <= j < lines.len() ==> line_fatal(lines[j]) is None,
        0 <= i < lines.len(),
        lines[i].json matches Some(doc) && stop_reason_of(doc) matches Some(reason) && (lower(
            reason,
        ) == "end_turn"@ || lower(reason) == "stop_sequence"@),
        forall|j: int| i < j < lines.len() ==> line_boundary(lines[j]) is None,
    ensures
        detection(lines) == DetectionOutcome::Allow,
        retry_cause(detection(lines)) is None,
{
    reveal_strlit("end_turn");
    reveal_strlit("stop_sequence");
    reveal_strlit("max_tokens");
    let fatal = lines.map_values(|l: TranscriptLine| line_fatal(l));
    lemma_newest_skips_empty(fatal, 0);
    let found = lines.map_values(|l: TranscriptLine| line_boundary(l));
    let reason = stop_reason_of(lines[i].json->0)->0;
    assert("end_turn"@.len() == 8 && "stop_sequence"@.len() == 13 && "max_tokens"@.len() == 10);
    assert(stop_reason_outcome(reason) == DetectionOutcome::Allow);
    assert(found[i] == Some(DetectionOutcome::Allow));
    lemma_newest_is_last_found(found, i);
}

/// Where no line bears a fatal signal and the newest line that bears a stop
/// reason says `max_tokens`, the chain blocks for truncation, and the action
/// waits for nothing, whatever backoff is configured.
pub proof fn lemma_truncation_blocks(lines: Seq<TranscriptLine>, i: int, configured: u64)
    requires
        forall|j: int| 0 <= j < lines.len() ==> line_fatal(lines[j]) is None,
        0 <= i < lines.len(),
        lines[i].json matches Some(doc) && stop_reason_of(doc) matches Some(reason) && lower(
            reason,
        ) == "max_tokens"@,
        forall|j: int| i < j < lines.len() ==> line_boundary(lines[j]) is None,
    ensures
        detection(lines) == DetectionOutcome::Block(StopCause::MaxTokens),
        retry_cause(detection(lines)) == Some(StopCause::MaxTokens),
        StopCause::MaxTokens.wait(configured) == 0,
{
    let fatal = lines.map_values(|l: TranscriptLine| line_fatal(l));
    lemma_newest_skips_empty(fatal, 0);
    let found = lines.map_values(|l: TranscriptLine| line_boundary(l));
    lemma_newest_is_last_found(found, i);
}

/// Only a fatal signal makes the chain answer with a fatal cause: where no
/// line bears one, a cause that the chain finds is retryable.
pub proof fn lemma_fatal_cause_needs_fatal_signal(lines: Seq<TranscriptLine>)
    requires
        forall|j: int| 0 <= j < lines.len() ==> line_fatal(lines[j]) is None,
    ensures
        detection(lines) matches DetectionOutcome::Block(cause) ==> cause.retryable(),
{
    lemma_newest_skips_empty(lines.map_values(|l: TranscriptLine| line_fatal(l)), 0);
    let boundary = lines.map_values(|l: TranscriptLine| line_boundary(l));
    if newest(boundary) is Some {
        let i = lemma_newest_has_source(boundary);
        assert(boundary[i] == line_boundary(lines[i]));
    }
    let n = RECENT_ERROR_LINES as nat;
    let structured = recent(lines, n).map_values(|l: TranscriptLine| line_structured(l));
    if newest(structured) is Some {
        let i = lemma_newest_has_source(structured);
        assert(structured[i] == line_structured(recent(lines, n)[i]));
    }
    let http = recent(lines, n).map_values(|l: TranscriptLine| line_http(l));
    if newest(http) is Some {
        let i = lemma_newest_has_source(http);
        assert(http[i] == line_http(recent(lines, n)[i]));
    }
    let m = RAW_FALLBACK_LINES as nat;
    let raw = recent(lines, m).map_values(|l: TranscriptLine| line_raw(l));
    if newest(raw) is Some {
        let i = lemma_newest_has_source(raw);
        assert(raw[i] == line_raw(recent(lines, m)[i]));
    }
}

/// A retryable cause found by the chain calls for an action, whether or not
/// an earlier stop of the session was blocked already: the flag for that is
/// no input of the detection, nor of the decision.
pub proof fn lemma_retryable_cause_blocks(lines: Seq<TranscriptLine>, cause: StopCause)
    requires
        detection(lines) == DetectionOutcome::Block(cause),
        cause.retryable(),
    ensures
        retry_cause(detection(lines)) == Some(cause),
{
}

/// A structured error counts only among the newest lines: where none of
/// them is one, the detector finds nothing, whatever older lines hold.
pub proof fn lemma_structured_window_closes(lines: Seq<TranscriptLine>)
    requires
        forall|j: int|
            in_window(lines, RECENT_ERROR_LINES as nat, j) ==> line_structured(lines[j]) is None,
    ensures
        structured_outcome(lines) == DetectionOutcome::NoMatch,
{
    let n = RECENT_ERROR_LINES as nat;
    let found = recent(lines, n).map_values(|l: TranscriptLine| line_structured(l));
    assert forall|k: int| 0 <= k < found.len() implies found[k] is None by {
        lemma_recent_index(lines, n, k);
    }
    lemma_newest_skips_empty(found, 0);
}

/// A structured error among the newest lines is found, if no newer line is
/// one too.
pub proof fn lemma_structured_window_holds(lines: Seq<TranscriptLine>, i: int)
    requires
        in_window(lines, RECENT_ERROR_LINES as nat, i),
        line_structured(lines[i]) is Some,
        forall|j: int| i < j < lines.len() ==> line_structured(lines[j]) is None,
    ensures
        structured_outcome(lines) == blocked(line_structured(lines[i])),
{
    let n = RECENT_ERROR_LINES as nat;
    let found = recent(lines, n).map_values(|l: TranscriptLine| line_structured(l));
    let shift = lines.len() - recent(lines, n).len();
    assert forall|k: int| i - shift < k < found.len() implies found[k] is None by {
        lemma_recent_index(lines, n, k);
    }
    lemma_recent_index(lines, n, i - shift);
    lemma_newest_is_last_found(found, i - shift);
}

/// An HTTP status counts only among the newest lines.
pub proof fn lemma_http_window_closes(lines: Seq<TranscriptLine>)
    requires
        forall|j: int| in_window(lines, RECENT_ERROR_LINES as nat, j) ==> line_http(lines[j]) is None,
    ensures
        http_outcome(lines) == DetectionOutcome::NoMatch,
{
    let n = RECENT_ERROR_LINES as nat;
    let found = recent(lines, n).map_values(|l: TranscriptLine| line_http(l));
    assert forall|k: int| 0 <= k < found.len() implies found[k] is None by {
        lemma_recent_index(lines, n, k);
    }
    lemma_newest_skips_empty(found, 0);
}

/// An HTTP status among the newest lines is found, if no newer line bears
/// one that counts.
pub proof fn lemma_http_window_holds(lines: Seq<TranscriptLine>, i: int)
    requires
        in_window(lines, RECENT_ERROR_LINES as nat, i),
        line_http(lines[i]) is Some,
        forall|j: int| i < j < lines.len() ==> line_http(lines[j]) is None,
    ensures
        http_outcome(lines) == blocked(line_http(lines[i])),
{
    let n = RECENT_ERROR_LINES as nat;
    let found = recent(lines, n).map_values(|l: TranscriptLine| line_http(l));
    let shift = lines.len() - recent(lines, n).len();
    assert forall|k: int| i - shift < k < found.len() implies found[k] is None by {
        lemma_recent_index(lines, n, k);
    }
    lemma_recent_index(lines, n, i - shift);
    lemma_newest_is_last_found(found, i - shift);
}

/// Raw text counts only among the newest lines, and only in lines that are
/// no JSON.
pub proof fn lemma_raw_window_closes(lines: Seq<TranscriptLine>)
    requires
        forall|j: int|
            in_window(lines, RAW_FALLBACK_LINES as nat, j) ==> (lines[j].json is Some || line_raw(
                lines[j],
            ) is None),
    ensures
        raw_outcome(lines) == DetectionOutcome::NoMatch,
{
    let n = RAW_FALLBACK_LINES as nat;
    let found = recent(lines, n).map_values(|l: TranscriptLine| line_raw(l));
    assert forall|k: int| 0 <= k < found.len() implies found[k] is None by {
        lemma_recent_index(lines, n, k);
    }
    lemma_newest_skips_empty(found, 0);
}

/// A raw-text signal among the newest lines is found, if no newer line
/// bears one.
pub proof fn lemma_raw_window_holds(lines: Seq<TranscriptLine>, i: int)
    requires
        in_window(lines, RAW_FALLBACK_LINES as nat, i),
        line_raw(lines[i]) is Some,
        forall|j: int| i < j < lines.len() ==> line_raw(lines[j]) is None,
    ensures
        raw_outcome(lines) == blocked(line_raw(lines[i])),
{
    let n = RAW_FALLBACK_LINES as nat;
    let found = recent(lines, n).map_values(|l: TranscriptLine| line_raw(l));
    let shift = lines.len() - recent(lines, n).len();
    assert forall|k: int| i - shift < k < found.len() implies found[k] is None by {
        lemma_recent_index(lines, n, k);
    }
    lemma_recent_index(lines, n, i - shift);
    lemma_newest_is_last_found(found, i - shift);
}

/// Where every detector before the last finds nothing, and the newest lines
/// hold no raw-text signal outside JSON, the chain finds nothing: an error
/// that has left the window of the structured detector is not picked up by
/// the wider window of the raw-text detector.
pub proof fn lemma_aged_error_is_ignored(lines: Seq<TranscriptLine>)
    requires
        forall|j: int| 0 <= j < lines.len() ==> line_fatal(lines[j]) is None,
        forall|j: int| 0 <= j < lines.len() ==> line_boundary(lines[j]) is None,
        forall|j: int|
            in_window(lines, RECENT_ERROR_LINES as nat, j) ==> line_structured(lines[j]) is None
                && line_http(lines[j]) is None,
        forall|j: int|
            in_window(lines, RAW_FALLBACK_LINES as nat, j) ==> (lines[j].json is Some || line_raw(
                lines[j],
            ) is None),
    ensures
        detection(lines) == DetectionOutcome::NoMatch,
        retry_cause(detection(lines)) is None,
{
    lemma_newest_skips_empty(lines.map_values(|l: TranscriptLine| line_fatal(l)), 0);
    lemma_newest_skips_empty(lines.map_values(|l: TranscriptLine| line_boundary(l)), 0);
    lemma_structured_window_closes(lines);
    lemma_http_window_closes(lines);
    lemma_raw_window_closes(lines);
}

/// An error-like entry among the newest lines whose status is 429 makes the
/// chain block for the rate limit, with the configured wait, where no
/// detector of higher priority answers and no newer line bears a status
/// that counts.
pub proof fn lemma_rate_limit_status_blocks(lines: Seq<TranscriptLine>, i: int, configured: u64)
    requires
        fatal_outcome(lines) == DetectionOutcome::NoMatch,
        boundary_outcome(lines) == DetectionOutcome::NoMatch,
        structured_outcome(lines) == DetectionOutcome::NoMatch,
        in_window(lines, RECENT_ERROR_LINES as nat, i),
        lines[i].json matches Some(doc) && is_error_like(doc) && http_status_of(doc) == Some(
            429int,
        ),
        forall|j: int| i < j < lines.len() ==> line_http(lines[j]) is None,
    ensures
        detection(lines) == DetectionOutcome::Block(StopCause::RateLimited),
        retry_cause(detection(lines)) == Some(StopCause::RateLimited),
        StopCause::RateLimited.wait(configured) == configured,
{
    assert(line_http(lines[i]) == Some(StopCause::RateLimited));
    lemma_http_window_holds(lines, i);
}

} // verus!
