//! The decision policy: from the outcome of the detector chain to the action
//! that is emitted, or to none.

use vstd::prelude::*;
use crate::cause::{DetectionOutcome, HookAction, HookOutput, StopCause};
use crate::detect::{detect, detection};
use crate::line::TranscriptLine;
use crate::verdict::{
    braced, lemma_reply_without_object_is_inconclusive, lemma_wrapped_verdict_is_recovered,
    free_of, normalize_verdict, normalized, verdict_view, Verdict, VerdictView,
};
use crate::text::lower;

verus! {

/// The cause that calls for an action: the one of a `Block` outcome, where
/// it is retryable. A fatal cause, `Allow` and `NoMatch` call for none.
pub open spec fn retry_cause(outcome: DetectionOutcome) -> Option<StopCause> {
    match outcome {
        DetectionOutcome::Block(cause) => if cause.retryable() {
            Some(cause)
        } else {
            None
        },
        _ => None,
    }
}

impl HookAction {
    /// The action is the one for `cause` under the configured backoff: it
    /// waits as the cause asks, decides `block`, and gives the cause's reason.
    pub open spec fn is_for(self, cause: StopCause, configured: u64) -> bool {
        &&& self.wait_seconds == cause.wait(configured)
        &&& self.output.decision@ == "block"@
        &&& self.output.reason@ == cause.reason_text()
    }
}

/// Turns an outcome into the action to emit. There is an action exactly for
/// a retryable cause.
pub fn action_for(outcome: DetectionOutcome, wait_seconds: u64) -> (r: Option<HookAction>)
    ensures
        match retry_cause(outcome) {
            Some(cause) => r matches Some(action) && action.is_for(cause, wait_seconds),
            None => r is None,
        },
{
    match outcome {
        DetectionOutcome::Allow | DetectionOutcome::NoMatch => None,
        DetectionOutcome::Block(cause) => {
            if !cause.is_retryable() {
                return None;
            }
            Some(
                HookAction {
                    wait_seconds: cause.wait_seconds(wait_seconds),
                    output: HookOutput {
                        decision: "block".to_owned(),
                        reason: cause.reason().to_owned(),
                    },
                },
            )
        },
    }
}

/// Decides the action for a window of transcript lines. Whether an earlier
/// stop was already blocked in this session plays no part: a retryable cause
/// blocks either way.
pub fn decide_action(lines: &[TranscriptLine], stop_hook_active: bool, wait_seconds: u64) -> (r:
    Option<HookAction>)
    ensures
        match retry_cause(detection(lines@)) {
            Some(cause) => r matches Some(action) && action.is_for(cause, wait_seconds),
            None => r is None,
        },
{
    action_for(detect(lines, stop_hook_active), wait_seconds)
}

/// The reason with which a verdict blocks the stop: the one it gives, where
/// it says to continue. A verdict to stop, and no verdict, block nothing.
pub open spec fn blocking_reason(verdict: Option<VerdictView>) -> Option<Seq<char>> {
    match verdict {
        Some(stated) => if stated.should_continue {
            Some(stated.reason)
        } else {
            None
        },
        None => None,
    }
}

impl HookAction {
    /// The action blocks with the given reason after the given wait.
    pub open spec fn blocks_with(self, reason: Seq<char>, wait_seconds: u64) -> bool {
        &&& self.wait_seconds == wait_seconds
        &&& self.output.decision@ == "block"@
        &&& self.output.reason@ == reason
    }
}

/// Turns the verdict of an arbitration into the action to emit. Only a
/// verdict to continue blocks the stop, after the wait that the caller asks
/// for and with the reason that the verdict gives; an inconclusive
/// arbitration never blocks.
pub fn verdict_action(verdict: Option<Verdict>, wait_seconds: u64) -> (r: Option<HookAction>)
    ensures
        match blocking_reason(verdict_view(verdict)) {
            Some(reason) => r matches Some(action) && action.blocks_with(reason, wait_seconds),
            None => r is None,
        },
{
    match verdict {
        Some(stated) => {
            if stated.should_continue {
                Some(
                    HookAction {
                        wait_seconds,
                        output: HookOutput { decision: "block".to_owned(), reason: stated.reason },
                    },
                )
            } else {
                None
            }
        },
        None => None,
    }
}

/// Decides the action for the reply of an arbitrating model: the verdict is
/// recovered from the reply, and only a verdict to continue blocks. A reply
/// from which no verdict can be recovered allows the stop.
pub fn arbitrated_action(reply: &str, wait_seconds: u64) -> (r: Option<HookAction>)
    ensures
        match blocking_reason(normalized(reply@)) {
            Some(reason) => r matches Some(action) && action.blocks_with(reason, wait_seconds),
            None => r is None,
        },
{
    verdict_action(normalize_verdict(reply), wait_seconds)
}

/// A reply that wraps an object in a `<think>` block and prose calls for the
/// same action as the bare object: the same reason where the object states a
/// verdict to continue, and no action where it states a verdict to stop or
/// none. The parts of the reply are as in
/// [`lemma_wrapped_verdict_is_recovered`].
pub proof fn lemma_wrapping_changes_no_action(
    before: Seq<char>,
    open: Seq<char>,
    noise: Seq<char>,
    close: Seq<char>,
    middle: Seq<char>,
    inner: Seq<char>,
    after: Seq<char>,
)
    requires
        lower(open) == "<think>"@,
        lower(close) == "</think>"@,
        free_of(before, '<') && free_of(before, '{'),
        free_of(noise, '<'),
        free_of(middle, '<') && free_of(middle, '{'),
        free_of(inner, '<') && free_of(inner, '{') && free_of(inner, '}'),
        free_of(after, '<') && free_of(after, '}'),
    ensures
        blocking_reason(
            normalized(before + open + noise + close + (middle + braced(inner) + after)),
        ) == blocking_reason(normalized(braced(inner))),
{
    lemma_wrapped_verdict_is_recovered(before, open, noise, close, middle, inner, after);
}

/// A reply without `{`, or without `}`, never blocks the stop.
pub proof fn lemma_reply_without_object_never_blocks(reply: Seq<char>)
    requires
        free_of(reply, '{') || free_of(reply, '}'),
    ensures
        blocking_reason(normalized(reply)) is None,
{
    lemma_reply_without_object_is_inconclusive(reply);
}

} // verus!
