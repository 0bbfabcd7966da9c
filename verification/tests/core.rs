use airec::encoder::doctor_verdict;
use airec::error::{AirecError, ErrorCode, ErrorData};
use airec::event::{Event, StopReason, TargetSummary, Timestamp};
use airec::model::{FailurePolicy, WindowInfo};
use airec::records::{FailureRecord, SuccessRecord};
use airec::resolve::{aggregate_failures, match_process, match_title, sanitize_classified, sanitize_file_stem};
use airec::pipeline_run::{PipelineInput, PipelineRun, PipelineStage};
use airec::session::{
    first_frame_failure, pipeline_completion, pipeline_failure_messages, tick_decision, target_lost_event,
    FirstFrameResult, PipelineMessage, SessionAggregator, SessionOutcome, TickDecision,
};

#[test]
fn prd_error_exit_codes_are_stable() {
    let cases = [
        (ErrorCode::TargetNotFound, 2),
        (ErrorCode::AmbiguousTarget, 2),
        (ErrorCode::CaptureInitFailed, 3),
        (ErrorCode::EncoderUnavailable, 3),
        (ErrorCode::FirstFrameTimeout, 3),
        (ErrorCode::NoActiveSession, 4),
        (ErrorCode::SessionAmbiguous, 4),
        (ErrorCode::OutputIoError, 5),
        (ErrorCode::PartialFailure, 6),
        (ErrorCode::AbortedOnFailure, 6),
        (ErrorCode::PermissionDenied, 7),
        (ErrorCode::TargetLost, 8),
    ];
    for (code, expected) in cases {
        assert_eq!(code.exit_code(), expected);
    }
}

#[test]
fn code_serialization_matches_contract() {
    assert_eq!(format!("\"{}\"", ErrorCode::FirstFrameTimeout.wire_name()), "\"FIRST_FRAME_TIMEOUT\"");
    assert_eq!(format!("\"{}\"", ErrorCode::TargetLost.wire_name()), "\"TARGET_LOST\"");
}

#[test]
fn every_stop_reason_has_stable_wire_value_and_classification() {
    let cases = [
        (StopReason::Requested, "requested", true),
        (StopReason::DurationLimit, "duration_limit", true),
        (StopReason::MaxDuration, "max_duration", true),
        (StopReason::TargetLost, "target_lost", false),
        (StopReason::Error, "error", false),
        (StopReason::AbortedOnFailure, "aborted_on_failure", false),
    ];
    for (reason, wire, intended) in cases {
        assert_eq!(format!("\"{}\"", reason.wire_name()), format!("\"{wire}\""));
        assert_eq!(reason.is_intended(), intended);
    }
}

fn window(hwnd: isize, title: &str, process: &str) -> WindowInfo {
    WindowInfo {
        hwnd,
        title: title.into(),
        process: process.into(),
        pid: 1,
        width: 800,
        height: 600,
        minimized: false,
    }
}

#[test]
fn ambiguous_title_has_candidates_and_exit_two() {
    let windows = [window(1, "MyApp - A", "app.exe"), window(2, "MyApp - B", "app.exe")];
    let error = match_title(&windows, "MyApp").unwrap_err();
    assert_eq!(error.code, ErrorCode::AmbiguousTarget);
    assert_eq!(error.exit_code(), 2);
    match &error.data {
        ErrorData::Candidates { candidates, .. } => assert_eq!(candidates.len(), 2),
        other => panic!("unexpected data {other:?}"),
    }
}

#[test]
fn process_matching_is_case_insensitive_and_can_return_multiple() {
    let windows = [window(1, "A", "APP.EXE"), window(2, "B", "app.exe")];
    assert_eq!(match_process(&windows, "App.exe").unwrap().len(), 2);
}

#[test]
fn failure_policy_maps_to_exact_aggregate_error() {
    let failures = [FailureRecord {
        target: "monitor-2".into(),
        code: ErrorCode::CaptureInitFailed,
        message: "no WGC".into(),
    }];
    let continued = aggregate_failures(FailurePolicy::Continue, &[], &failures).unwrap();
    assert_eq!(continued.code, ErrorCode::PartialFailure);
    assert_eq!(continued.exit_code(), 6);
    let aborted = aggregate_failures(FailurePolicy::Abort, &[], &failures).unwrap();
    assert_eq!(aborted.code, ErrorCode::AbortedOnFailure);
    match &aborted.data {
        ErrorData::Aggregate { stop_reason, .. } => assert_eq!(stop_reason.wire_name(), "aborted_on_failure"),
        other => panic!("unexpected data {other:?}"),
    }
}

#[test]
fn aggregate_failures_is_none_without_failures() {
    let successes = [SuccessRecord { target: "monitor-1".into(), file: "a.mp4".into() }];
    assert!(aggregate_failures(FailurePolicy::Continue, &successes, &[]).is_none());
    assert!(aggregate_failures(FailurePolicy::Abort, &successes, &[]).is_none());
}

#[test]
fn filename_sanitization_is_windows_safe() {
    assert_eq!(sanitize_file_stem(" My App: Settings / β "), "my-app-settings-β");
    assert_eq!(sanitize_file_stem("<>:\"/\\|?*"), "");
}

#[test]
fn unique_title_match_returns_the_window() {
    let windows = [window(1, "Editor", "code.exe"), window(2, "Terminal", "term.exe")];
    assert_eq!(match_title(&windows, "Term").unwrap().hwnd, 2);
    assert_eq!(match_title(&windows, "term").unwrap_err().code, ErrorCode::TargetNotFound);
    let error = match_title(&windows, "browser").unwrap_err();
    assert_eq!(error.code, ErrorCode::TargetNotFound);
}

// A scripted pipeline: what a target's source yields and how its run ends.
enum Script {
    NoFirstFrame { alive: bool },
    Frames { alive: bool },
}

fn now() -> Timestamp {
    Timestamp("2026-07-22T10:00:00.000Z".into())
}

/// Feeds the messages that one pipeline sends to the session, ticking every `step_ns`
/// until `duration_ns`, or until `abort` asks it to stop.
fn pipeline_messages(target: &str, script: &Script, duration_ns: u128, abort: bool) -> Vec<PipelineMessage> {
    let session = String::from("test");
    let target = String::from(target);
    let mut messages = Vec::new();
    match script {
        Script::NoFirstFrame { alive } => {
            let failure = first_frame_failure(FirstFrameResult::Empty, *alive).unwrap();
            let (event, record) = pipeline_failure_messages(&session, &target, failure, now());
            messages.push(event);
            messages.push(record);
        }
        Script::Frames { alive } => {
            assert!(first_frame_failure(FirstFrameResult::Arrived, *alive).is_none());
            messages.push(PipelineMessage::FirstFrame(TargetSummary {
                kind: "monitor".into(),
                title: None,
                file: target.clone(),
            }));
            let requested = if abort { Some(StopReason::AbortedOnFailure) } else { None };
            let mut elapsed: u128 = 0;
            let mut frames: u64 = 0;
            let stop_reason = loop {
                match tick_decision(requested, elapsed, Some(duration_ns), 1_000_000_000, *alive) {
                    TickDecision::Continue => {
                        frames += 1;
                        elapsed += 16_000_000;
                    }
                    TickDecision::Stop(reason) => break reason,
                    TickDecision::TargetLost => {
                        messages.push(PipelineMessage::Event(target_lost_event(&session, &target, now())));
                        break StopReason::TargetLost;
                    }
                }
            };
            messages.push(PipelineMessage::Event(Event::Saved {
                ts: now(),
                session: session.clone(),
                target: target.clone(),
                file: target.clone(),
                stop_reason,
                duration_ms: (elapsed / 1_000_000) as u64,
                frames,
                size_bytes: 0,
            }));
            messages.push(pipeline_completion(target.clone(), target.clone(), stop_reason));
        }
    }
    messages
}

fn run_scripted(scripts: &[(&str, Script)], duration_ms: u64, policy: FailurePolicy) -> SessionOutcome {
    let mut aggregator = SessionAggregator::new("test".into(), scripts.len(), policy);
    let duration_ns = u128::from(duration_ms) * 1_000_000;
    let mut abort = false;
    // Failing pipelines report first; the others follow, told to abort if the policy asked.
    let mut order: Vec<&(&str, Script)> = scripts.iter().filter(|(_, s)| matches!(s, Script::NoFirstFrame { .. })).collect();
    order.extend(scripts.iter().filter(|(_, s)| matches!(s, Script::Frames { .. })));
    for (target, script) in order {
        for message in pipeline_messages(target, script, duration_ns, abort) {
            let action = aggregator.receive(message, now());
            abort |= action.request_abort;
        }
    }
    aggregator.finish(now())
}

#[test]
fn first_frame_timeout_is_structured_capture_failure() {
    let outcome = run_scripted(&[("monitor-1.mp4", Script::NoFirstFrame { alive: true })], 1, FailurePolicy::Continue);
    assert_eq!(outcome.exit_code, 3);
    assert!(outcome
        .events
        .iter()
        .any(|event| matches!(event, Event::Error { code: ErrorCode::FirstFrameTimeout, .. })));
}

#[test]
fn duration_limit_repeats_static_frame_and_saves_intentionally() {
    let outcome = run_scripted(&[("monitor-1.mp4", Script::Frames { alive: true })], 35, FailurePolicy::Continue);
    assert_eq!(outcome.exit_code, 0);
    assert!(outcome.events.iter().any(|event| matches!(event, Event::Saved { stop_reason: StopReason::DurationLimit, frames, .. } if *frames >= 1)));
}

#[test]
fn target_loss_is_unintended_and_nonzero() {
    let outcome = run_scripted(&[("monitor-1.mp4", Script::Frames { alive: false })], 50, FailurePolicy::Continue);
    assert_ne!(outcome.exit_code, 0);
    assert!(outcome
        .events
        .iter()
        .any(|event| matches!(event, Event::TargetLost { stop_reason: StopReason::TargetLost, .. })));
}

#[test]
fn continue_policy_saves_good_target_and_reports_partial_failure() {
    let outcome = run_scripted(
        &[("good.mp4", Script::Frames { alive: true }), ("bad.mp4", Script::NoFirstFrame { alive: true })],
        35,
        FailurePolicy::Continue,
    );
    assert_eq!(outcome.exit_code, 6);
    assert!(outcome
        .events
        .iter()
        .any(|event| matches!(event, Event::Saved { stop_reason: StopReason::DurationLimit, .. })));
    assert!(outcome
        .events
        .iter()
        .any(|event| matches!(event, Event::Error { code: ErrorCode::PartialFailure, .. })));
}

#[test]
fn abort_policy_finalizes_other_target_with_aborted_reason() {
    let outcome = run_scripted(
        &[("good.mp4", Script::Frames { alive: true }), ("bad.mp4", Script::NoFirstFrame { alive: true })],
        100,
        FailurePolicy::Abort,
    );
    assert_eq!(outcome.exit_code, 6);
    assert!(outcome
        .events
        .iter()
        .any(|event| matches!(event, Event::Saved { stop_reason: StopReason::AbortedOnFailure, .. })));
    assert!(outcome
        .events
        .iter()
        .any(|event| matches!(event, Event::Error { code: ErrorCode::AbortedOnFailure, .. })));
}

#[test]
fn started_is_published_once_every_target_has_started() {
    let outcome = run_scripted(
        &[("a.mp4", Script::Frames { alive: true }), ("b.mp4", Script::Frames { alive: true })],
        20,
        FailurePolicy::Continue,
    );
    let started: Vec<&Event> = outcome.events.iter().filter(|event| matches!(event, Event::Started { .. })).collect();
    assert_eq!(started.len(), 1);
    assert_eq!(outcome.exit_code, 0);
    assert!(outcome.error.is_none());
}

#[test]
fn failed_session_error_names_the_first_failure() {
    let outcome = run_scripted(&[("monitor-1.mp4", Script::NoFirstFrame { alive: false })], 1, FailurePolicy::Continue);
    let error = outcome.error.unwrap();
    assert_eq!(error.code, ErrorCode::CaptureInitFailed);
    assert_eq!(error.message, "target was lost before the first frame");
}

#[test]
fn new_error_keeps_its_parts() {
    let error = AirecError::new(ErrorCode::OutputIoError, "disk full".into(), ErrorData::Empty);
    assert_eq!(error.code, ErrorCode::OutputIoError);
    assert_eq!(error.message, "disk full");
    assert_eq!(error.exit_code(), 5);
}

#[test]
fn doctor_verdict_names_the_missing_capability() {
    assert!(doctor_verdict(true, true, "{}".to_string()).is_ok());
    let capture = doctor_verdict(false, true, "{\"wgc_supported\":false}".to_string()).unwrap_err();
    assert_eq!(capture.code, ErrorCode::CaptureInitFailed);
    assert_eq!(capture.message, "Windows Graphics Capture is unavailable");
    assert!(matches!(capture.data, ErrorData::Json(ref text) if text == "{\"wgc_supported\":false}"));
    let neither = doctor_verdict(false, false, "{}".to_string()).unwrap_err();
    assert_eq!(neither.code, ErrorCode::CaptureInitFailed);
    let encoder = doctor_verdict(true, false, "{}".to_string()).unwrap_err();
    assert_eq!(encoder.code, ErrorCode::EncoderUnavailable);
    assert_eq!(encoder.message, "no H.264 Media Foundation encoder is available");
    assert_eq!(encoder.code.exit_code(), 3);
}

#[test]
fn pipeline_reports_one_last_word_after_saving() {
    let mut run = PipelineRun::new("s".to_string(), "out.mp4".to_string());
    let summary = TargetSummary { kind: "monitor".into(), title: None, file: "out.mp4".into() };
    let now = || Timestamp("2025-01-01T00:00:00Z".to_string());
    let first = run.step(PipelineInput::FirstFrame { result: FirstFrameResult::Arrived, target_alive: true, summary, now: now() });
    assert!(matches!(first.as_slice(), [PipelineMessage::FirstFrame(_)]));
    assert!(run.step(PipelineInput::Tick { decision: TickDecision::Continue, now: now() }).is_empty());
    assert!(run.step(PipelineInput::Tick { decision: TickDecision::Stop(StopReason::Requested), now: now() }).is_empty());
    assert_eq!(run.stage, PipelineStage::Finishing(StopReason::Requested));
    let last = run.step(PipelineInput::Finished { file: "out.mp4".into(), duration_ms: 5, frames: 2, size_bytes: 9, now: now() });
    assert!(matches!(&last[0], PipelineMessage::Event(Event::Saved { stop_reason: StopReason::Requested, frames: 2, .. })));
    assert!(matches!(&last[1], PipelineMessage::Complete(record) if record.target == "out.mp4" && record.file == "out.mp4"));
    assert_eq!(run.stage, PipelineStage::Done);
    assert!(run.step(PipelineInput::Tick { decision: TickDecision::Continue, now: now() }).is_empty());
}

#[test]
fn pipeline_without_a_first_frame_fails_once() {
    let mut run = PipelineRun::new("s".to_string(), "w.mp4".to_string());
    let summary = TargetSummary { kind: "window".into(), title: Some("w".into()), file: "w.mp4".into() };
    let sent = run.step(PipelineInput::FirstFrame {
        result: FirstFrameResult::Empty,
        target_alive: false,
        summary,
        now: Timestamp("2025-01-01T00:00:00Z".to_string()),
    });
    assert_eq!(sent.len(), 2);
    assert!(matches!(&sent[1], PipelineMessage::Failure(record) if record.code == ErrorCode::CaptureInitFailed));
    assert_eq!(run.stage, PipelineStage::Done);
}

#[test]
fn classified_stem_joins_separator_runs_and_trims() {
    let text: Vec<char> = " Ab:: C ".chars().collect();
    let alphanumeric: Vec<bool> = text.iter().map(|c| c.is_alphanumeric()).collect();
    let lowered: Vec<Vec<char>> = text.iter().map(|c| c.to_lowercase().collect()).collect();
    let stem: String = sanitize_classified(&alphanumeric, &lowered).into_iter().collect();
    assert_eq!(stem, "ab-c");
    let long: Vec<bool> = vec![true; 90];
    let forms: Vec<Vec<char>> = vec![vec!['x']; 90];
    assert_eq!(sanitize_classified(&long, &forms).len(), 80);
}

fn saved_after(duration_ms: u64) -> Event {
    Event::Saved {
        ts: Timestamp("2025-01-01T00:00:00Z".to_string()),
        session: "s".into(),
        target: "t".into(),
        file: "t.mp4".into(),
        stop_reason: StopReason::Requested,
        duration_ms,
        frames: 1,
        size_bytes: 1,
    }
}

#[test]
fn video_ends_at_the_longest_saved_recording() {
    assert_eq!(airec::reporting::video_end_ms(&[]), 0);
    let events = vec![saved_after(1200), saved_after(3400), saved_after(900)];
    assert_eq!(airec::reporting::video_end_ms(&events), 3400);
}
