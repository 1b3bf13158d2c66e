use cc_goto_work::cause::{DetectionOutcome, StopCause, DEFAULT_WAIT_SECONDS};
use cc_goto_work::policy::action_for;

const ALL: [StopCause; 7] = [
    StopCause::MaxTokens,
    StopCause::ResourceExhausted,
    StopCause::RateLimited,
    StopCause::Overloaded,
    StopCause::Unavailable,
    StopCause::ContextLengthExceeded,
    StopCause::CostLimitReached,
];

#[test]
fn transient_causes_are_retryable() {
    assert!(StopCause::MaxTokens.is_retryable());
    assert!(StopCause::ResourceExhausted.is_retryable());
    assert!(StopCause::RateLimited.is_retryable());
    assert!(StopCause::Overloaded.is_retryable());
    assert!(StopCause::Unavailable.is_retryable());
}

#[test]
fn fatal_causes_are_not_retryable() {
    assert!(!StopCause::ContextLengthExceeded.is_retryable());
    assert!(!StopCause::CostLimitReached.is_retryable());
}

#[test]
fn default_wait_is_thirty_seconds() {
    assert_eq!(DEFAULT_WAIT_SECONDS, 30);
}

#[test]
fn wait_is_zero_for_truncation_and_fatal_causes() {
    assert_eq!(StopCause::MaxTokens.wait_seconds(30), 0);
    assert_eq!(StopCause::MaxTokens.wait_seconds(u64::MAX), 0);
    assert_eq!(StopCause::ContextLengthExceeded.wait_seconds(30), 0);
    assert_eq!(StopCause::CostLimitReached.wait_seconds(30), 0);
}

#[test]
fn wait_is_the_configured_backoff_for_other_retryable_causes() {
    assert_eq!(StopCause::ResourceExhausted.wait_seconds(30), 30);
    assert_eq!(StopCause::RateLimited.wait_seconds(45), 45);
    assert_eq!(StopCause::Overloaded.wait_seconds(0), 0);
    assert_eq!(StopCause::Unavailable.wait_seconds(u64::MAX), u64::MAX);
}

#[test]
fn reasons_are_the_fixed_texts() {
    assert_eq!(
        StopCause::MaxTokens.reason(),
        "Detected stop_reason=max_tokens. Please continue output from where you left off."
    );
    assert_eq!(
        StopCause::ResourceExhausted.reason(),
        "Detected retryable API error (RESOURCE_EXHAUSTED). Please continue working."
    );
    assert_eq!(
        StopCause::RateLimited.reason(),
        "Detected API rate limit (HTTP 429). Please continue working after wait."
    );
    assert_eq!(
        StopCause::Overloaded.reason(),
        "Detected server overload (HTTP 503/529). Please continue working after wait."
    );
    assert_eq!(
        StopCause::Unavailable.reason(),
        "Detected network/service unavailability. Please continue working after wait."
    );
    assert_eq!(
        StopCause::ContextLengthExceeded.reason(),
        "Context length exceeded. Cannot retry - please use /compact to reduce context."
    );
    assert_eq!(
        StopCause::CostLimitReached.reason(),
        "Cost/spending limit reached. Cannot retry - please check your budget settings."
    );
}

#[test]
fn truncation_reason_mentions_continuation() {
    assert!(StopCause::MaxTokens.reason().contains("continue"));
}

#[test]
fn allow_and_no_match_give_no_action() {
    assert!(action_for(DetectionOutcome::Allow, 30).is_none());
    assert!(action_for(DetectionOutcome::NoMatch, 30).is_none());
}

#[test]
fn fatal_block_gives_no_action() {
    assert!(action_for(DetectionOutcome::Block(StopCause::ContextLengthExceeded), 30).is_none());
    assert!(action_for(DetectionOutcome::Block(StopCause::CostLimitReached), 30).is_none());
}

#[test]
fn retryable_block_gives_a_block_action() {
    let action = action_for(DetectionOutcome::Block(StopCause::RateLimited), 17).expect("action");
    assert_eq!(action.wait_seconds, 17);
    assert_eq!(action.output.decision, "block");
    assert_eq!(
        action.output.reason,
        "Detected API rate limit (HTTP 429). Please continue working after wait."
    );
}

#[test]
fn truncation_action_does_not_wait() {
    let action = action_for(DetectionOutcome::Block(StopCause::MaxTokens), 30).expect("action");
    assert_eq!(action.wait_seconds, 0);
    assert_eq!(action.output.decision, "block");
    assert!(action.output.reason.contains("continue output"));
}

#[test]
fn an_action_exists_exactly_for_retryable_causes() {
    for cause in ALL {
        let action = action_for(DetectionOutcome::Block(cause), 9);
        assert_eq!(action.is_some(), cause.is_retryable());
        if let Some(action) = action {
            assert_eq!(action.wait_seconds, cause.wait_seconds(9));
            assert_eq!(action.output.reason, cause.reason());
        }
    }
}
