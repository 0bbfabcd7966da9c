use airec::cli::{normalize_input_event, output_path, parse_duration, parse_hwnd, pipe_display_name, push_windows_argument, target_specs, TargetArgs};
use airec::error::{AirecError, ErrorCode, ErrorData};
use airec::event::{Event, StopReason, Timestamp};
use airec::model::{CaptureTarget, EffectColor, FailurePolicy, InputEvent, MouseButton, Quality};
use airec::options::{resolve_recording_options, DefaultsConfig, EffectsConfig, RecordingArgs, SizeChecks};
use airec::records::FailureRecord;
use airec::reporting::{aggregate_startup_failures, startup_error, startup_stops};
use airec::session::SessionOutcome;
use airec::settings::{parse_color, FailureArg, QualityArg};

#[test]
fn display_name_matches_prd() {
    assert_eq!(pipe_display_name("a1b2"), r"\\.\pipe\airec-a1b2");
}

#[test]
fn duration_parser_supports_cli_contract() {
    assert_eq!(parse_duration("30s").unwrap(), 30_000);
    assert_eq!(parse_duration("2m").unwrap(), 120_000);
    assert_eq!(parse_duration("150ms").unwrap(), 150);
    assert!(parse_duration("30").is_err());
}

#[test]
fn duration_parser_reports_the_refused_text() {
    let error = parse_duration("forever").unwrap_err();
    assert_eq!(error.code, ErrorCode::CaptureInitFailed);
    match error.data {
        ErrorData::Duration { duration } => assert_eq!(duration, "forever"),
        other => panic!("unexpected data {other:?}"),
    }
    assert_eq!(parse_duration("1h").unwrap(), 3_600_000);
}

fn no_targets() -> TargetArgs {
    TargetArgs { monitor: Vec::new(), window: Vec::new(), window_handle: Vec::new(), process: Vec::new() }
}

#[test]
fn default_target_is_primary_monitor() {
    let targets = target_specs(&no_targets()).unwrap();
    assert_eq!(targets.len(), 1);
    assert!(matches!(targets[0], CaptureTarget::PrimaryMonitor));
}

#[test]
fn repeated_targets_and_hex_hwnd_parse() {
    let handle = parse_hwnd("0x1a2b").unwrap();
    assert_eq!(handle, 0x1a2b);
    let args = TargetArgs {
        monitor: vec!["1".into(), "2".into()],
        window: vec!["App".into()],
        window_handle: vec![handle],
        process: Vec::new(),
    };
    assert_eq!(args.monitor, ["1", "2"]);
    assert_eq!(args.window_handle, [0x1a2b]);
    let targets = target_specs(&args).unwrap();
    assert_eq!(targets.len(), 4);
    assert!(matches!(targets[0], CaptureTarget::Monitor(1)));
    assert!(matches!(targets[1], CaptureTarget::Monitor(2)));
    assert!(matches!(&targets[2], CaptureTarget::WindowTitle(title) if title == "App"));
    assert!(matches!(targets[3], CaptureTarget::WindowHandle(0x1a2b)));
}

#[test]
fn hwnd_parses_decimal_and_refuses_garbage() {
    assert_eq!(parse_hwnd("6699").unwrap(), 6699);
    assert!(parse_hwnd("window").is_err());
    assert!(parse_hwnd("0xzz").is_err());
}

#[test]
fn monitor_all_selects_every_monitor() {
    let args = TargetArgs { monitor: vec!["all".into()], ..no_targets() };
    let targets = target_specs(&args).unwrap();
    assert!(matches!(targets[0], CaptureTarget::AllMonitors));
    let bad = TargetArgs { monitor: vec!["second".into()], ..no_targets() };
    assert_eq!(target_specs(&bad).unwrap_err().code, ErrorCode::TargetNotFound);
}

fn timestamp() -> Timestamp {
    Timestamp("2026-07-22T10:00:00.000Z".into())
}

fn startup_failure() -> Vec<(String, AirecError)> {
    vec![("monitor-2".into(), AirecError::new(ErrorCode::CaptureInitFailed, "startup".into(), ErrorData::Empty))]
}

fn saved(target: &str, stop_reason: StopReason) -> Event {
    Event::Saved {
        ts: timestamp(),
        session: "test".into(),
        target: target.into(),
        file: target.into(),
        stop_reason,
        duration_ms: 1,
        frames: 1,
        size_bytes: 1,
    }
}

#[test]
fn startup_failure_and_finalized_target_loss_are_partial_failure() {
    let outcome = SessionOutcome {
        events: vec![saved("lost.mp4", StopReason::TargetLost)],
        exit_code: 8,
        error: Some(AirecError::new(
            ErrorCode::TargetLost,
            "runtime".into(),
            ErrorData::Target { target: "lost.mp4".into() },
        )),
    };
    let aggregate = aggregate_startup_failures(&startup_failure(), &outcome).unwrap();
    assert_eq!(aggregate.code, ErrorCode::PartialFailure);
    match aggregate.data {
        ErrorData::Partial { successes, failures } => {
            assert_eq!(successes.len(), 0);
            assert_eq!(failures.len(), 2);
            assert_eq!(failures[1].code.wire_name(), "TARGET_LOST");
        }
        other => panic!("unexpected data {other:?}"),
    }
}

#[test]
fn startup_failure_is_not_aggregated_when_nothing_was_saved() {
    let outcome = SessionOutcome {
        events: vec![Event::Error {
            ts: timestamp(),
            session: "test".into(),
            target: Some("lost.mp4".into()),
            code: ErrorCode::CaptureInitFailed,
            message: "runtime".into(),
            data: ErrorData::Empty,
            stop_reason: Some(StopReason::Error),
        }],
        exit_code: 3,
        error: Some(AirecError::new(
            ErrorCode::CaptureInitFailed,
            "runtime".into(),
            ErrorData::Target { target: "lost.mp4".into() },
        )),
    };
    assert!(aggregate_startup_failures(&startup_failure(), &outcome).is_none());
}

#[test]
fn partial_failure_merges_startup_and_runtime_failures() {
    let outcome = SessionOutcome {
        events: vec![saved("good.mp4", StopReason::DurationLimit)],
        exit_code: 6,
        error: Some(AirecError::new(
            ErrorCode::PartialFailure,
            "runtime".into(),
            ErrorData::Aggregate {
                successes: Vec::new(),
                failures: vec![FailureRecord {
                    target: "monitor-3".into(),
                    code: ErrorCode::CaptureInitFailed,
                    message: "no frame".into(),
                }],
                stop_reason: StopReason::Error,
            },
        )),
    };
    let aggregate = aggregate_startup_failures(&startup_failure(), &outcome).unwrap();
    assert_eq!(aggregate.code, ErrorCode::PartialFailure);
    match aggregate.data {
        ErrorData::Partial { successes, failures } => {
            assert_eq!(successes.len(), 1);
            assert_eq!(failures.len(), 2);
        }
        other => panic!("unexpected data {other:?}"),
    }
}

#[test]
fn input_events_are_normalized_to_the_first_video_frame() {
    let event = InputEvent::Click { t_ms: 350, button: MouseButton::Left, x: 10, y: 20, double: false };
    assert!(matches!(normalize_input_event(event, 250), Some(InputEvent::Click { t_ms: 100, .. })));
    assert!(normalize_input_event(InputEvent::Move { t_ms: 249, x: 0, y: 0 }, 250).is_none());
}

fn recording() -> RecordingArgs {
    RecordingArgs {
        out: None,
        out_dir: None,
        fps: None,
        quality: None,
        cursor: false,
        no_cursor: false,
        effects: false,
        no_effects: false,
        click_color_left: None,
        click_color_right: None,
        click_duration_ms: None,
        drag_color: None,
        drag_duration_ms: None,
        trail_color: None,
        trail_duration_ms: None,
        drag_threshold_px: None,
        drag_threshold_ms: None,
        max_duration: None,
        on_failure: None,
        event_log: None,
        verbose: false,
    }
}

fn no_defaults() -> DefaultsConfig {
    DefaultsConfig { fps: None, quality: None, cursor: None, effects: None, max_duration: None, on_failure: None }
}

fn no_effects() -> EffectsConfig {
    EffectsConfig {
        click_color_left: None,
        click_color_right: None,
        click_duration_ms: None,
        drag_color: None,
        drag_duration_ms: None,
        trail_color: None,
        trail_duration_ms: None,
        drag_threshold_px: None,
        drag_threshold_ms: None,
    }
}

const SIZES_OK: SizeChecks = SizeChecks { click: true, drag: true, trail: true };

fn setting(error: &AirecError) -> (String, String, Option<String>) {
    match &error.data {
        ErrorData::Setting { component, key, value } => (component.clone(), key.clone(), value.clone()),
        other => panic!("unexpected data {other:?}"),
    }
}

#[test]
fn config_values_apply_when_cli_values_are_absent() {
    let defaults = DefaultsConfig {
        fps: Some(24),
        quality: Some("high".into()),
        cursor: Some(false),
        effects: Some(false),
        max_duration: Some("2m".into()),
        on_failure: Some("abort".into()),
    };
    let effects = EffectsConfig {
        click_color_left: Some("#112233".into()),
        drag_threshold_px: Some(9),
        drag_threshold_ms: Some(275),
        ..no_effects()
    };
    let options = resolve_recording_options(&recording(), &defaults, &effects, SIZES_OK).unwrap();
    assert_eq!(options.fps, 24);
    assert_eq!(options.quality, Quality::High);
    assert!(!options.cursor);
    assert!(!options.effects);
    assert_eq!(options.max_duration_ms, 120_000);
    assert_eq!(options.failure_policy, FailurePolicy::Abort);
    assert_eq!(options.click_left_color, EffectColor::rgb(0x11, 0x22, 0x33));
    assert_eq!(options.input.drag_threshold_pixels, 9);
    assert_eq!(options.input.drag_threshold_ms, 275);
}

#[test]
fn explicit_cli_values_override_config_including_boolean_enables() {
    let args = RecordingArgs {
        fps: Some(60),
        quality: Some(QualityArg::Low),
        cursor: true,
        effects: true,
        on_failure: Some(FailureArg::Continue),
        ..recording()
    };
    let defaults = DefaultsConfig {
        fps: Some(12),
        quality: Some("high".into()),
        cursor: Some(false),
        effects: Some(false),
        on_failure: Some("abort".into()),
        ..no_defaults()
    };
    let options = resolve_recording_options(&args, &defaults, &no_effects(), SIZES_OK).unwrap();
    assert_eq!(options.fps, 60);
    assert_eq!(options.quality, Quality::Low);
    assert!(options.cursor);
    assert!(options.effects);
    assert_eq!(options.failure_policy, FailurePolicy::Continue);
}

#[test]
fn fps_above_sixty_is_rejected() {
    let args = RecordingArgs { fps: Some(61), max_duration: Some("1s".into()), ..recording() };
    assert!(resolve_recording_options(&args, &no_defaults(), &no_effects(), SIZES_OK).is_err());
}

#[test]
fn malformed_effect_color_is_a_stable_config_error() {
    let effects = EffectsConfig { click_color_left: Some("yellow".into()), ..no_effects() };
    let error = resolve_recording_options(&recording(), &no_defaults(), &effects, SIZES_OK).unwrap_err();
    assert_eq!(error.code, ErrorCode::CaptureInitFailed);
    let (component, key, _) = setting(&error);
    assert_eq!(component, "config");
    assert_eq!(key, "effects.click_color_left");
}

#[test]
fn malformed_config_duration_has_config_error_envelope() {
    let defaults = DefaultsConfig { max_duration: Some("forever".into()), ..no_defaults() };
    let error = resolve_recording_options(&recording(), &defaults, &no_effects(), SIZES_OK).unwrap_err();
    assert_eq!(error.code, ErrorCode::CaptureInitFailed);
    let (component, key, value) = setting(&error);
    assert_eq!(component, "config");
    assert_eq!(key, "defaults.max_duration");
    assert_eq!(value.as_deref(), Some("forever"));
}

#[test]
fn malformed_cli_color_is_attributed_to_cli() {
    let args = RecordingArgs { click_color_left: Some("yellow".into()), ..recording() };
    let error = resolve_recording_options(&args, &no_defaults(), &no_effects(), SIZES_OK).unwrap_err();
    assert_eq!(error.code, ErrorCode::CaptureInitFailed);
    let (component, key, _) = setting(&error);
    assert_eq!(component, "cli");
    assert_eq!(key, "effects.click_color_left");
}

#[test]
fn defaults_apply_when_nothing_is_configured() {
    let options = resolve_recording_options(&recording(), &no_defaults(), &no_effects(), SIZES_OK).unwrap();
    assert_eq!(options.fps, 30);
    assert_eq!(options.quality, Quality::Medium);
    assert!(options.cursor);
    assert!(options.effects);
    assert_eq!(options.max_duration_ms, 1_800_000);
    assert_eq!(options.failure_policy, FailurePolicy::Continue);
    assert_eq!(options.click_left_color, EffectColor::rgb(0xFF, 0xD4, 0x00));
}

#[test]
fn refused_effect_size_names_its_key() {
    let sizes = SizeChecks { click: true, drag: true, trail: false };
    let error = resolve_recording_options(&recording(), &no_defaults(), &no_effects(), sizes).unwrap_err();
    let (component, key, _) = setting(&error);
    assert_eq!(component, "config");
    assert_eq!(key, "effects.trail_size");
}

#[test]
fn unknown_configured_quality_is_refused() {
    let defaults = DefaultsConfig { quality: Some("ultra".into()), ..no_defaults() };
    let error = resolve_recording_options(&recording(), &defaults, &no_effects(), SIZES_OK).unwrap_err();
    assert_eq!(setting(&error).1, "defaults.quality");
}

#[test]
fn output_path_prefers_file_then_directory_then_timestamp() {
    assert_eq!(output_path(Some("a.mp4".into()), Some("dir".into()), "t"), ("a.mp4".to_string(), false));
    assert_eq!(output_path(None, Some("dir".into()), "t"), ("dir".to_string(), true));
    let (path, directory) = output_path(None, None, "20260722-100000");
    assert_eq!(path, "airec-20260722-100000");
    assert!(directory);
}

#[test]
fn windows_arguments_are_quoted() {
    let mut line: Vec<u16> = Vec::new();
    let argument: Vec<u16> = "a \"b\"".encode_utf16().collect();
    push_windows_argument(&mut line, &argument);
    assert_eq!(String::from_utf16(&line).unwrap(), "\"a \\\"b\\\"\"");
}

#[test]
fn colors_need_exactly_six_hex_digits() {
    assert_eq!(parse_color("#FF4081", "drag", "effects").unwrap(), EffectColor { red: 0xFF, green: 0x40, blue: 0x81 });
    assert_eq!(parse_color("#00e5ff", "trail", "effects").unwrap(), EffectColor { red: 0, green: 0xe5, blue: 0xff });
    for value in ["#+f+f+f", "FF4081", "#FF408", "#FF40811", "#GG0000", "#ff 000", "#\u{e9}1234", "#1\u{e9}234"] {
        let error = parse_color(value, "drag", "effects").unwrap_err();
        assert_eq!(error.code, ErrorCode::CaptureInitFailed);
        assert_eq!(error.message, "invalid effects value drag: must use #RRGGBB");
    }
}

#[test]
fn startup_errors_follow_the_failure_policy() {
    let failure = AirecError::new(ErrorCode::CaptureInitFailed, "no encoder".into(), ErrorData::Empty);
    let failures = vec![("monitor-1".to_string(), failure)];
    assert!(startup_stops(FailurePolicy::Abort, 1));
    assert!(!startup_stops(FailurePolicy::Abort, 0));
    assert!(!startup_stops(FailurePolicy::Continue, 3));
    let aborted = startup_error(FailurePolicy::Abort, &failures, 1).unwrap();
    assert_eq!(aborted.code, ErrorCode::AbortedOnFailure);
    assert_eq!(aborted.message, "session aborted because a target failed to initialize");
    let first = startup_error(FailurePolicy::Continue, &failures, 0).unwrap();
    assert_eq!(first.code, ErrorCode::CaptureInitFailed);
    assert_eq!(first.message, "no encoder");
    assert!(startup_error(FailurePolicy::Continue, &failures, 1).is_none());
    let none = startup_error(FailurePolicy::Continue, &[], 0).unwrap();
    assert_eq!(none.code, ErrorCode::TargetNotFound);
    assert_eq!(none.message, "no capture targets");
    assert!(startup_error(FailurePolicy::Abort, &[], 2).is_none());
}
