use cc_goto_work::cause::{DetectionOutcome, StopCause};
use cc_goto_work::detect::{
    detect, detect_fatal_errors, detect_http_status, detect_raw_fallback,
    detect_stop_reason_boundary, detect_structured_error, RAW_FALLBACK_LINES, RECENT_ERROR_LINES,
};
use cc_goto_work::line::TranscriptLine;
use cc_goto_work::policy::decide_action;

const FILLER: &str = r#"{"type":"user","message":{"content":"hello"}}"#;
const EXHAUSTED: &str = r#"{"type":"error","error":{"type":"RESOURCE_EXHAUSTED"}}"#;
const CONTEXT: &str = r#"{"type":"error","error":{"type":"context_length_exceeded"}}"#;
const END_TURN: &str = r#"{"type":"assistant","message":{"stop_reason":"end_turn"}}"#;

fn parsed(texts: &[&str]) -> Vec<TranscriptLine> {
    texts.iter().map(|t| TranscriptLine::parse(t)).collect()
}

fn with_fillers(first: TranscriptLine, filler: TranscriptLine, n: usize) -> Vec<TranscriptLine> {
    let mut lines = vec![first];
    for _ in 0..n {
        lines.push(filler.clone());
    }
    lines
}

#[test]
fn window_sizes() {
    assert_eq!(RECENT_ERROR_LINES, 5);
    assert_eq!(RAW_FALLBACK_LINES, 8);
}

#[test]
fn empty_transcript_matches_nothing() {
    let lines: Vec<TranscriptLine> = Vec::new();
    assert_eq!(detect(&lines, false), DetectionOutcome::NoMatch);
    assert_eq!(detect_fatal_errors(&lines, false), DetectionOutcome::NoMatch);
    assert_eq!(
        detect_stop_reason_boundary(&lines, false),
        DetectionOutcome::NoMatch
    );
    assert_eq!(
        detect_structured_error(&lines, false),
        DetectionOutcome::NoMatch
    );
    assert_eq!(detect_http_status(&lines, false), DetectionOutcome::NoMatch);
    assert_eq!(detect_raw_fallback(&lines, false), DetectionOutcome::NoMatch);
    assert!(decide_action(&lines, false, 30).is_none());
}

#[test]
fn fatal_outranks_an_older_retryable_error() {
    let lines = parsed(&[EXHAUSTED, CONTEXT]);
    assert_eq!(
        detect(&lines, false),
        DetectionOutcome::Block(StopCause::ContextLengthExceeded)
    );
    assert!(decide_action(&lines, false, 30).is_none());
}

#[test]
fn fatal_outranks_a_newer_end_turn() {
    let lines = parsed(&[CONTEXT, END_TURN]);
    assert_eq!(
        detect(&lines, false),
        DetectionOutcome::Block(StopCause::ContextLengthExceeded)
    );
    assert!(decide_action(&lines, true, 30).is_none());
}

#[test]
fn fatal_outranks_a_newer_retryable_error_and_max_tokens() {
    let lines = parsed(&[
        CONTEXT,
        EXHAUSTED,
        r#"{"type":"assistant","message":{"stop_reason":"max_tokens"}}"#,
    ]);
    assert_eq!(
        detect(&lines, false),
        DetectionOutcome::Block(StopCause::ContextLengthExceeded)
    );
    assert!(decide_action(&lines, false, 30).is_none());
}

#[test]
fn fatal_is_found_anywhere_in_the_window() {
    let lines = with_fillers(
        TranscriptLine::parse(CONTEXT),
        TranscriptLine::parse(FILLER),
        40,
    );
    assert_eq!(
        detect(&lines, false),
        DetectionOutcome::Block(StopCause::ContextLengthExceeded)
    );
}

#[test]
fn newest_fatal_line_gives_the_cause() {
    let lines = parsed(&[
        r#"{"type":"error","error":{"type":"x","message":"cost limit"}}"#,
        CONTEXT,
    ]);
    assert_eq!(
        detect_fatal_errors(&lines, false),
        DetectionOutcome::Block(StopCause::ContextLengthExceeded)
    );
    let lines = parsed(&[
        CONTEXT,
        r#"{"type":"error","error":{"type":"x","message":"cost limit"}}"#,
    ]);
    assert_eq!(
        detect_fatal_errors(&lines, false),
        DetectionOutcome::Block(StopCause::CostLimitReached)
    );
}

#[test]
fn fatal_in_raw_text_of_an_unparsed_line() {
    let lines = vec![TranscriptLine::parse("boom: CONTEXT_LENGTH_EXCEEDED")];
    assert!(lines[0].json.is_none());
    assert_eq!(
        detect(&lines, false),
        DetectionOutcome::Block(StopCause::ContextLengthExceeded)
    );
}

#[test]
fn fatal_phrase_in_raw_text_outranks_everything() {
    let lines = vec![
        TranscriptLine::parse("Error: cost limit reached"),
        TranscriptLine::parse(EXHAUSTED),
        TranscriptLine::parse(END_TURN),
    ];
    assert_eq!(
        detect(&lines, false),
        DetectionOutcome::Block(StopCause::CostLimitReached)
    );
    assert!(decide_action(&lines, false, 30).is_none());
}

#[test]
fn fatal_phrase_in_the_text_of_a_json_line_counts() {
    let lines = parsed(&[r#"{"type":"assistant","note":"over budget"}"#]);
    assert!(lines[0].json.is_some());
    assert_eq!(
        detect_fatal_errors(&lines, false),
        DetectionOutcome::Block(StopCause::CostLimitReached)
    );
}

#[test]
fn fatal_fields_are_read_before_the_raw_text() {
    let lines = parsed(&[
        r#"{"error":{"type":"x","message":"cost limit"},"note":"context_length"}"#,
    ]);
    assert_eq!(
        detect_fatal_errors(&lines, false),
        DetectionOutcome::Block(StopCause::CostLimitReached)
    );
}

#[test]
fn fatal_type_is_read_before_fatal_message() {
    let lines = parsed(&[
        r#"{"error":{"type":"context_window","message":"budget"}}"#,
    ]);
    assert_eq!(
        detect_fatal_errors(&lines, false),
        DetectionOutcome::Block(StopCause::ContextLengthExceeded)
    );
}

#[test]
fn end_turn_hides_older_errors_however_near() {
    for n in 0..12 {
        let mut lines = vec![TranscriptLine::parse(EXHAUSTED)];
        for _ in 0..n {
            lines.push(TranscriptLine::parse(FILLER));
        }
        lines.push(TranscriptLine::parse(END_TURN));
        assert_eq!(detect(&lines, false), DetectionOutcome::Allow);
        assert!(decide_action(&lines, false, 30).is_none());
    }
}

#[test]
fn end_turn_hides_newer_errors_too() {
    let lines = parsed(&[END_TURN, EXHAUSTED]);
    assert_eq!(detect(&lines, false), DetectionOutcome::Allow);
}

#[test]
fn newest_stop_reason_decides() {
    let lines = parsed(&[
        END_TURN,
        r#"{"type":"assistant","message":{"stop_reason":"max_tokens"}}"#,
    ]);
    assert_eq!(
        detect(&lines, false),
        DetectionOutcome::Block(StopCause::MaxTokens)
    );
    let lines = parsed(&[
        r#"{"type":"assistant","message":{"stop_reason":"max_tokens"}}"#,
        END_TURN,
    ]);
    assert_eq!(detect(&lines, false), DetectionOutcome::Allow);
}

#[test]
fn stop_reason_of_the_message_is_read_before_the_top_level_one() {
    let lines = parsed(&[
        r#"{"stop_reason":"end_turn","message":{"stop_reason":"max_tokens"}}"#,
    ]);
    assert_eq!(
        detect_stop_reason_boundary(&lines, false),
        DetectionOutcome::Block(StopCause::MaxTokens)
    );
    let lines = parsed(&[r#"{"stop_reason":"Stop_Sequence"}"#]);
    assert_eq!(
        detect_stop_reason_boundary(&lines, false),
        DetectionOutcome::Allow
    );
    let lines = parsed(&[r#"{"stop_reason":"max_tokens","message":{"stop_reason":7}}"#]);
    assert_eq!(
        detect_stop_reason_boundary(&lines, false),
        DetectionOutcome::Block(StopCause::MaxTokens)
    );
}

#[test]
fn stop_reason_error_defers_to_the_error_detectors() {
    let lines = parsed(&[
        EXHAUSTED,
        r#"{"type":"assistant","message":{"stop_reason":"error"}}"#,
    ]);
    assert_eq!(
        detect_stop_reason_boundary(&lines, false),
        DetectionOutcome::NoMatch
    );
    assert_eq!(
        detect(&lines, false),
        DetectionOutcome::Block(StopCause::ResourceExhausted)
    );
}

#[test]
fn stop_reason_error_hides_an_older_end_turn() {
    let lines = parsed(&[
        END_TURN,
        r#"{"type":"assistant","message":{"stop_reason":"error"}}"#,
    ]);
    assert_eq!(detect(&lines, false), DetectionOutcome::NoMatch);
}

#[test]
fn unknown_stop_reason_allows() {
    let lines = parsed(&[
        EXHAUSTED,
        r#"{"type":"assistant","message":{"stop_reason":"tool_use"}}"#,
    ]);
    assert_eq!(detect(&lines, false), DetectionOutcome::Allow);
}

#[test]
fn structured_window_boundary() {
    let inside = with_fillers(
        TranscriptLine::parse(EXHAUSTED),
        TranscriptLine::parse(FILLER),
        RECENT_ERROR_LINES - 1,
    );
    assert_eq!(
        detect_structured_error(&inside, false),
        DetectionOutcome::Block(StopCause::ResourceExhausted)
    );
    let outside = with_fillers(
        TranscriptLine::parse(EXHAUSTED),
        TranscriptLine::parse(FILLER),
        RECENT_ERROR_LINES,
    );
    assert_eq!(
        detect_structured_error(&outside, false),
        DetectionOutcome::NoMatch
    );
    let further = with_fillers(
        TranscriptLine::parse(EXHAUSTED),
        TranscriptLine::parse(FILLER),
        RECENT_ERROR_LINES + 1,
    );
    assert_eq!(
        detect_structured_error(&further, false),
        DetectionOutcome::NoMatch
    );
}

#[test]
fn http_window_boundary() {
    let error = r#"{"type":"error","status":429,"message":"Rate limited"}"#;
    let inside = with_fillers(
        TranscriptLine::parse(error),
        TranscriptLine::parse(FILLER),
        RECENT_ERROR_LINES - 1,
    );
    assert_eq!(
        detect_http_status(&inside, false),
        DetectionOutcome::Block(StopCause::RateLimited)
    );
    let outside = with_fillers(
        TranscriptLine::parse(error),
        TranscriptLine::parse(FILLER),
        RECENT_ERROR_LINES,
    );
    assert_eq!(detect_http_status(&outside, false), DetectionOutcome::NoMatch);
}

#[test]
fn raw_window_boundary() {
    let inside = with_fillers(
        TranscriptLine::unparsed("RESOURCE_EXHAUSTED"),
        TranscriptLine::unparsed("normal line"),
        RAW_FALLBACK_LINES - 1,
    );
    assert_eq!(
        detect_raw_fallback(&inside, false),
        DetectionOutcome::Block(StopCause::ResourceExhausted)
    );
    let outside = with_fillers(
        TranscriptLine::unparsed("RESOURCE_EXHAUSTED"),
        TranscriptLine::unparsed("normal line"),
        RAW_FALLBACK_LINES,
    );
    assert_eq!(detect_raw_fallback(&outside, false), DetectionOutcome::NoMatch);
    let further = with_fillers(
        TranscriptLine::unparsed("RESOURCE_EXHAUSTED"),
        TranscriptLine::unparsed("normal line"),
        RAW_FALLBACK_LINES + 1,
    );
    assert_eq!(detect_raw_fallback(&further, false), DetectionOutcome::NoMatch);
}

#[test]
fn aged_structured_error_is_not_picked_up_by_the_raw_window() {
    // Older than the structured window, still inside the raw-text window.
    for n in RECENT_ERROR_LINES..RAW_FALLBACK_LINES {
        let lines = with_fillers(
            TranscriptLine::parse(EXHAUSTED),
            TranscriptLine::parse(FILLER),
            n,
        );
        assert_eq!(detect(&lines, false), DetectionOutcome::NoMatch);
        assert!(decide_action(&lines, false, 30).is_none());
    }
}

#[test]
fn raw_detector_skips_lines_that_are_json() {
    let lines = vec![TranscriptLine::parse(r#"{"note":"RESOURCE_EXHAUSTED"}"#)];
    assert!(lines[0].json.is_some());
    assert_eq!(detect_raw_fallback(&lines, false), DetectionOutcome::NoMatch);
    assert_eq!(detect(&lines, false), DetectionOutcome::NoMatch);
}

#[test]
fn structured_detector_needs_an_error_entry() {
    let lines = parsed(&[r#"{"type":"assistant","error":{"type":"RESOURCE_EXHAUSTED"}}"#]);
    assert_eq!(
        detect_structured_error(&lines, false),
        DetectionOutcome::NoMatch
    );
    let lines = parsed(&[r#"{"type":"ERROR","error":{"type":"RESOURCE_EXHAUSTED"}}"#]);
    assert_eq!(
        detect_structured_error(&lines, false),
        DetectionOutcome::Block(StopCause::ResourceExhausted)
    );
}

#[test]
fn structured_detector_reads_the_message_after_the_type() {
    let lines = parsed(&[
        r#"{"type":"error","error":{"type":"api_error","message":"Server is overloaded"}}"#,
    ]);
    assert_eq!(
        detect_structured_error(&lines, false),
        DetectionOutcome::Block(StopCause::Overloaded)
    );
    let lines = parsed(&[
        r#"{"type":"error","error":{"type":"unavailable","message":"RESOURCE_EXHAUSTED"}}"#,
    ]);
    assert_eq!(
        detect_structured_error(&lines, false),
        DetectionOutcome::Block(StopCause::Unavailable)
    );
}

#[test]
fn newest_structured_error_in_the_window_wins() {
    let lines = parsed(&[
        EXHAUSTED,
        r#"{"type":"error","error":{"type":"overloaded_error"}}"#,
        FILLER,
    ]);
    assert_eq!(
        detect_structured_error(&lines, false),
        DetectionOutcome::Block(StopCause::Overloaded)
    );
}

#[test]
fn http_status_under_every_spelling() {
    for key in ["status", "status_code", "http_status", "statusCode"] {
        let top = format!(r#"{{"type":"error","{}":429}}"#, key);
        let lines = vec![TranscriptLine::parse(&top)];
        assert_eq!(
            detect(&lines, false),
            DetectionOutcome::Block(StopCause::RateLimited)
        );
        let action = decide_action(&lines, false, 42).expect("should block");
        assert_eq!(action.wait_seconds, 42);

        let nested = format!(r#"{{"type":"error","error":{{"{}":429}}}}"#, key);
        let lines = vec![TranscriptLine::parse(&nested)];
        assert_eq!(
            detect(&lines, false),
            DetectionOutcome::Block(StopCause::RateLimited)
        );
        let action = decide_action(&lines, false, 42).expect("should block");
        assert_eq!(action.wait_seconds, 42);
    }
}

#[test]
fn http_status_needs_an_error_like_entry() {
    let lines = parsed(&[r#"{"type":"assistant","status":429}"#]);
    assert_eq!(detect_http_status(&lines, false), DetectionOutcome::NoMatch);
    let lines = parsed(&[r#"{"error":null,"status":529}"#]);
    assert_eq!(
        detect_http_status(&lines, false),
        DetectionOutcome::Block(StopCause::Overloaded)
    );
    let lines = parsed(&[r#"{"type":"Error","status":503}"#]);
    assert_eq!(
        detect_http_status(&lines, false),
        DetectionOutcome::Block(StopCause::Overloaded)
    );
}

#[test]
fn first_status_found_is_the_one_that_counts() {
    let lines = parsed(&[r#"{"type":"error","status":200,"error":{"status_code":429}}"#]);
    assert_eq!(detect_http_status(&lines, false), DetectionOutcome::NoMatch);
    let lines = parsed(&[r#"{"type":"error","status":"429","error":{"status":503}}"#]);
    assert_eq!(
        detect_http_status(&lines, false),
        DetectionOutcome::Block(StopCause::Overloaded)
    );
    let lines = parsed(&[r#"{"type":"error","status_code":429,"error":{"status":503}}"#]);
    assert_eq!(
        detect_http_status(&lines, false),
        DetectionOutcome::Block(StopCause::Overloaded)
    );
}

#[test]
fn status_that_is_no_integer_is_passed_over() {
    let lines = parsed(&[r#"{"type":"error","status":429.0}"#]);
    assert_eq!(detect_http_status(&lines, false), DetectionOutcome::NoMatch);
    let lines = parsed(&[r#"{"type":"error","status":18446744073709551615,"statusCode":529}"#]);
    assert_eq!(
        detect_http_status(&lines, false),
        DetectionOutcome::Block(StopCause::Overloaded)
    );
}

#[test]
fn structured_error_outranks_http_status() {
    let lines = parsed(&[
        r#"{"type":"error","status":429}"#,
        r#"{"type":"error","error":{"type":"overloaded_error"}}"#,
    ]);
    assert_eq!(
        detect(&lines, false),
        DetectionOutcome::Block(StopCause::Overloaded)
    );
    let lines = parsed(&[
        r#"{"type":"error","error":{"type":"overloaded_error"}}"#,
        r#"{"type":"error","status":429}"#,
    ]);
    assert_eq!(
        detect(&lines, false),
        DetectionOutcome::Block(StopCause::Overloaded)
    );
}

#[test]
fn http_status_outranks_raw_text() {
    let lines = vec![
        TranscriptLine::parse(r#"{"type":"error","status":429}"#),
        TranscriptLine::parse("plain RESOURCE_EXHAUSTED"),
    ];
    assert_eq!(
        detect(&lines, false),
        DetectionOutcome::Block(StopCause::RateLimited)
    );
}

#[test]
fn hook_flag_changes_nothing() {
    let cases: [&[&str]; 5] = [
        &[EXHAUSTED],
        &[CONTEXT],
        &[END_TURN],
        &[FILLER],
        &["HTTP 503"],
    ];
    for texts in cases {
        let lines = parsed(texts);
        assert_eq!(detect(&lines, true), detect(&lines, false));
        let with = decide_action(&lines, true, 30);
        let without = decide_action(&lines, false, 30);
        assert_eq!(with.is_some(), without.is_some());
        if let (Some(a), Some(b)) = (with, without) {
            assert_eq!(a.wait_seconds, b.wait_seconds);
            assert_eq!(a.output.decision, b.output.decision);
            assert_eq!(a.output.reason, b.output.reason);
        }
    }
}

#[test]
fn block_action_carries_decision_and_reason() {
    let lines = parsed(&[EXHAUSTED]);
    let action = decide_action(&lines, true, 7).expect("should block");
    assert_eq!(action.wait_seconds, 7);
    assert_eq!(action.output.decision, "block");
    assert_eq!(
        action.output.reason,
        "Detected retryable API error (RESOURCE_EXHAUSTED). Please continue working."
    );
}

#[test]
fn max_tokens_action_mentions_continuation() {
    let lines = parsed(&[r#"{"type":"assistant","message":{"stop_reason":"max_tokens"}}"#]);
    let action = decide_action(&lines, false, 30).expect("should block");
    assert_eq!(action.wait_seconds, 0);
    assert!(action.output.reason.contains("continue"));
}
