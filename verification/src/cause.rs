//! The closed set of stop causes, detector outcomes and the emitted action.

use vstd::prelude::*;

verus! {

/// Backoff, in seconds, used when the caller configures none.
pub const DEFAULT_WAIT_SECONDS: u64 = 30;

/// Why a turn ended although the work was not finished.
#[derive(Debug, Clone, Copy, PartialEq, Eq, Structural)]
pub enum StopCause {
    /// Output was cut off at the token limit.
    MaxTokens,
    /// The API reported exhausted resources (quota or load).
    ResourceExhausted,
    /// The API rate limit was hit (HTTP 429).
    RateLimited,
    /// The server was overloaded (HTTP 503 or 529).
    Overloaded,
    /// The network or the service was unavailable.
    Unavailable,
    /// The context window is full; retrying cannot help.
    ContextLengthExceeded,
    /// A cost or spending limit was reached; retrying must not happen.
    CostLimitReached,
}

/// What one detector, or the whole chain, found.
#[derive(Debug, Clone, Copy, PartialEq, Eq, Structural)]
pub enum DetectionOutcome {
    /// The stop is fine; evaluation ends here.
    Allow,
    /// A stop cause was identified.
    Block(StopCause),
    /// Nothing found; the next detector gets its turn.
    NoMatch,
}

/// The decision as it is handed to the host.
#[derive(Debug)]
pub struct HookOutput {
    pub decision: String,
    pub reason: String,
}

/// The single artifact of one invocation: how long to wait, and what to say.
#[derive(Debug)]
pub struct HookAction {
    pub wait_seconds: u64,
    pub output: HookOutput,
}

impl StopCause {
    /// A cause is retryable when continuing after a pause can succeed.
    pub open spec fn retryable(self) -> bool {
        match self {
            StopCause::MaxTokens => true,
            StopCause::ResourceExhausted => true,
            StopCause::RateLimited => true,
            StopCause::Overloaded => true,
            StopCause::Unavailable => true,
            StopCause::ContextLengthExceeded => false,
            StopCause::CostLimitReached => false,
        }
    }

    /// The pause attached to a cause: none for truncation and for fatal
    /// causes, the configured backoff for every other retryable cause.
    pub open spec fn wait(self, configured: u64) -> u64 {
        if self == StopCause::MaxTokens {
            0
        } else if self.retryable() {
            configured
        } else {
            0
        }
    }

    /// The text shown to the assistant for a cause.
    pub open spec fn reason_text(self) -> Seq<char> {
        match self {
            StopCause::MaxTokens =>
                "Detected stop_reason=max_tokens. Please continue output from where you left off."@,
            StopCause::ResourceExhausted =>
                "Detected retryable API error (RESOURCE_EXHAUSTED). Please continue working."@,
            StopCause::RateLimited =>
                "Detected API rate limit (HTTP 429). Please continue working after wait."@,
            StopCause::Overloaded =>
                "Detected server overload (HTTP 503/529). Please continue working after wait."@,
            StopCause::Unavailable =>
                "Detected network/service unavailability. Please continue working after wait."@,
            StopCause::ContextLengthExceeded =>
                "Context length exceeded. Cannot retry - please use /compact to reduce context."@,
            StopCause::CostLimitReached =>
                "Cost/spending limit reached. Cannot retry - please check your budget settings."@,
        }
    }

    /// Whether the cause is transient, so that continuing is worth a try.
    pub fn is_retryable(self) -> (r: bool)
        ensures
            r == self.retryable(),
    {
        match self {
            StopCause::MaxTokens
            | StopCause::ResourceExhausted
            | StopCause::RateLimited
            | StopCause::Overloaded
            | StopCause::Unavailable => true,
            StopCause::ContextLengthExceeded | StopCause::CostLimitReached => false,
        }
    }

    /// Seconds to wait before continuing, given the configured backoff.
    pub fn wait_seconds(self, configured: u64) -> (r: u64)
        ensures
            r == self.wait(configured),
    {
        match self {
            StopCause::MaxTokens => 0,
            _ => if self.is_retryable() {
                configured
            } else {
                0
            },
        }
    }

    /// The human-readable reason for the decision.
    pub fn reason(self) -> (r: &'static str)
        ensures
            r@ == self.reason_text(),
    {
        match self {
            StopCause::MaxTokens => {
                "Detected stop_reason=max_tokens. Please continue output from where you left off."
            },
            StopCause::ResourceExhausted => {
                "Detected retryable API error (RESOURCE_EXHAUSTED). Please continue working."
            },
            StopCause::RateLimited => {
                "Detected API rate limit (HTTP 429). Please continue working after wait."
            },
            StopCause::Overloaded => {
                "Detected server overload (HTTP 503/529). Please continue working after wait."
            },
            StopCause::Unavailable => {
                "Detected network/service unavailability. Please continue working after wait."
            },
            StopCause::ContextLengthExceeded => {
                "Context length exceeded. Cannot retry - please use /compact to reduce context."
            },
            StopCause::CostLimitReached => {
                "Cost/spending limit reached. Cannot retry - please check your budget settings."
            },
        }
    }
}

} // verus!
