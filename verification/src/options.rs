//! The recording options of a session: command-line values first, then the configuration
//! file's, then the built-in defaults, each checked in a fixed order.
use vstd::prelude::*;
use crate::cli::{duration_millis, parse_duration};
use crate::error::{AirecError, ErrorCode, ErrorData};
use crate::model::{
    EffectColor, FailurePolicy, InputOptions, Quality, DEFAULT_CLICK_DURATION_MS, DEFAULT_DRAG_DURATION_MS,
    DEFAULT_DRAG_THRESHOLD_MS, DEFAULT_DRAG_THRESHOLD_PIXELS, DEFAULT_MAX_INPUT_HISTORY_EVENTS,
    DEFAULT_MOVE_THROTTLE_MS, DEFAULT_TRAIL_DURATION_MS,
};
use crate::settings::{
    FailureArg, QualityArg, config_value_error, failure_from_arg, is_value_error,
    parse_failure_policy, parse_quality, quality_from_arg, resolve_color, resolve_positive_u32,
    resolve_positive_u64, spec_parse_color,
};

verus! {

/// The recording values given on the command line (effect sizes are checked by the caller).
pub struct RecordingArgs {
    pub out: Option<String>,
    pub out_dir: Option<String>,
    pub fps: Option<u32>,
    pub quality: Option<QualityArg>,
    pub cursor: bool,
    pub no_cursor: bool,
    pub effects: bool,
    pub no_effects: bool,
    pub click_color_left: Option<String>,
    pub click_color_right: Option<String>,
    pub click_duration_ms: Option<u64>,
    pub drag_color: Option<String>,
    pub drag_duration_ms: Option<u64>,
    pub trail_color: Option<String>,
    pub trail_duration_ms: Option<u64>,
    pub drag_threshold_px: Option<u32>,
    pub drag_threshold_ms: Option<u64>,
    pub max_duration: Option<String>,
    pub on_failure: Option<FailureArg>,
    pub event_log: Option<String>,
    pub verbose: bool,
}

/// The `[defaults]` table of the configuration file.
pub struct DefaultsConfig {
    pub fps: Option<u32>,
    pub quality: Option<String>,
    pub cursor: Option<bool>,
    pub effects: Option<bool>,
    pub max_duration: Option<String>,
    pub on_failure: Option<String>,
}

/// The `[effects]` table of the configuration file (effect sizes are checked by the caller).
pub struct EffectsConfig {
    pub click_color_left: Option<String>,
    pub click_color_right: Option<String>,
    pub click_duration_ms: Option<u64>,
    pub drag_color: Option<String>,
    pub drag_duration_ms: Option<u64>,
    pub trail_color: Option<String>,
    pub trail_duration_ms: Option<u64>,
    pub drag_threshold_px: Option<u32>,
    pub drag_threshold_ms: Option<u64>,
}

/// Whether each effect size, once chosen, is a positive finite number.
#[derive(Clone, Copy, Debug, PartialEq, Eq, Structural)]
pub struct SizeChecks {
    pub click: bool,
    pub drag: bool,
    pub trail: bool,
}

/// The resolved recording options.
#[derive(Clone, Debug)]
pub struct RecordingSettings {
    pub fps: u32,
    pub quality: Quality,
    pub cursor: bool,
    pub effects: bool,
    pub click_left_color: EffectColor,
    pub click_right_color: EffectColor,
    pub click_duration_ms: u64,
    pub drag_color: EffectColor,
    pub drag_duration_ms: u64,
    pub trail_color: EffectColor,
    pub trail_duration_ms: u64,
    pub input: InputOptions,
    pub max_duration_ms: u64,
    pub failure_policy: FailurePolicy,
    pub event_log: Option<String>,
    pub verbose: bool,
}

/// Why a setting was refused.
pub enum SettingsProblem {
    /// `invalid {component} value {key}: {message}`
    Value { component: Seq<char>, key: Seq<char>, message: Seq<char> },
    /// The command-line `--max-duration` could not be read.
    CliDuration { value: Seq<char> },
    /// The configured `defaults.max_duration` could not be read.
    ConfigDuration { value: Seq<char> },
}

pub open spec fn first_some<T>(cli: Option<T>, config: Option<T>, default: T) -> T {
    match cli {
        Some(value) => value,
        None => match config {
            Some(value) => value,
            None => default,
        },
    }
}

pub open spec fn spec_fps(args: RecordingArgs, defaults: DefaultsConfig) -> u32 {
    first_some(args.fps, defaults.fps, 30u32)
}

pub open spec fn quality_choice(args: RecordingArgs, defaults: DefaultsConfig) -> Option<Quality> {
    match args.quality {
        Some(QualityArg::Low) => Some(Quality::Low),
        Some(QualityArg::Medium) => Some(Quality::Medium),
        Some(QualityArg::High) => Some(Quality::High),
        None => match defaults.quality {
            Some(text) => if text@ == "low"@ {
                Some(Quality::Low)
            } else if text@ == "medium"@ {
                Some(Quality::Medium)
            } else if text@ == "high"@ {
                Some(Quality::High)
            } else {
                None
            },
            None => Some(Quality::Medium),
        },
    }
}

pub open spec fn policy_choice(args: RecordingArgs, defaults: DefaultsConfig) -> Option<FailurePolicy> {
    match args.on_failure {
        Some(FailureArg::Continue) => Some(FailurePolicy::Continue),
        Some(FailureArg::Abort) => Some(FailurePolicy::Abort),
        None => match defaults.on_failure {
            Some(text) => if text@ == "continue"@ {
                Some(FailurePolicy::Continue)
            } else if text@ == "abort"@ {
                Some(FailurePolicy::Abort)
            } else {
                None
            },
            None => Some(FailurePolicy::Continue),
        },
    }
}

/// A switch on by `--x`, off by `--no-x`, else as configured, else on.
pub open spec fn switch(on: bool, off: bool, config: Option<bool>) -> bool {
    if on {
        true
    } else if off {
        false
    } else {
        first_some(None, config, true)
    }
}

/// The color chosen for `key`, or why it was refused.
pub open spec fn color_choice(cli: Option<String>, config: Option<String>, default: EffectColor, key: Seq<char>) -> Result<EffectColor, SettingsProblem> {
    match cli {
        Some(text) => match spec_parse_color(text@) {
            Some(color) => Ok(color),
            None => Err(SettingsProblem::Value { component: "cli"@, key, message: "must use #RRGGBB"@ }),
        },
        None => match config {
            Some(text) => match spec_parse_color(text@) {
                Some(color) => Ok(color),
                None => Err(SettingsProblem::Value { component: "config"@, key, message: "must use #RRGGBB"@ }),
            },
            None => Ok(default),
        },
    }
}

/// A positive count chosen for `key`, or why it was refused.
pub open spec fn positive_choice(cli: Option<u64>, config: Option<u64>, default: u64, key: Seq<char>) -> Result<u64, SettingsProblem> {
    let value = first_some(cli, config, default);
    if value > 0 {
        Ok(value)
    } else {
        Err(SettingsProblem::Value { component: "config"@, key, message: "must be greater than zero"@ })
    }
}

pub open spec fn size_problem(valid: bool, key: Seq<char>) -> Option<SettingsProblem> {
    if valid {
        None
    } else {
        Some(SettingsProblem::Value { component: "config"@, key, message: "must be greater than zero"@ })
    }
}

pub open spec fn problem_of<T>(choice: Result<T, SettingsProblem>) -> Option<SettingsProblem> {
    match choice {
        Ok(_) => None,
        Err(problem) => Some(problem),
    }
}

pub open spec fn threshold_pixels_choice(args: RecordingArgs, effects: EffectsConfig) -> Result<u64, SettingsProblem> {
    positive_choice(
        match args.drag_threshold_px {
            Some(v) => Some(v as u64),
            None => None,
        },
        match effects.drag_threshold_px {
            Some(v) => Some(v as u64),
            None => None,
        },
        DEFAULT_DRAG_THRESHOLD_PIXELS as u64,
        "effects.drag_threshold_px"@,
    )
}

/// The maximum duration in milliseconds, or why it was refused: the command line's, else the
/// configured one, else thirty minutes.
pub open spec fn max_duration_choice(args: RecordingArgs, defaults: DefaultsConfig) -> Result<u64, SettingsProblem> {
    match args.max_duration {
        Some(text) => match duration_millis(text@) {
            Some(millis) => Ok(millis),
            None => Err(SettingsProblem::CliDuration { value: text@ }),
        },
        None => match defaults.max_duration {
            Some(text) => match duration_millis(text@) {
                Some(millis) => Ok(millis),
                None => Err(SettingsProblem::ConfigDuration { value: text@ }),
            },
            None => Ok(1800000),
        },
    }
}

/// The first setting refused, in the order the settings are checked.
pub open spec fn first_problem(args: RecordingArgs, defaults: DefaultsConfig, effects: EffectsConfig, sizes: SizeChecks) -> Option<SettingsProblem> {
    let fps = spec_fps(args, defaults);
    if !(1 <= fps <= 60) {
        Some(SettingsProblem::Value { component: "config"@, key: "defaults.fps"@, message: "must be between 1 and 60"@ })
    } else if quality_choice(args, defaults) is None {
        Some(SettingsProblem::Value { component: "config"@, key: "defaults.quality"@, message: "must be low, medium, or high"@ })
    } else if policy_choice(args, defaults) is None {
        Some(SettingsProblem::Value { component: "config"@, key: "defaults.on_failure"@, message: "must be continue or abort"@ })
    } else if problem_of(color_choice(args.click_color_left, effects.click_color_left, EffectColor { red: 0xFF, green: 0xD4, blue: 0x00 }, "effects.click_color_left"@)) is Some {
        problem_of(color_choice(args.click_color_left, effects.click_color_left, EffectColor { red: 0xFF, green: 0xD4, blue: 0x00 }, "effects.click_color_left"@))
    } else if problem_of(color_choice(args.click_color_right, effects.click_color_right, EffectColor { red: 0x00, green: 0xA2, blue: 0xFF }, "effects.click_color_right"@)) is Some {
        problem_of(color_choice(args.click_color_right, effects.click_color_right, EffectColor { red: 0x00, green: 0xA2, blue: 0xFF }, "effects.click_color_right"@))
    } else if !sizes.click {
        size_problem(false, "effects.click_size"@)
    } else if problem_of(positive_choice(args.click_duration_ms, effects.click_duration_ms, DEFAULT_CLICK_DURATION_MS, "effects.click_duration_ms"@)) is Some {
        problem_of(positive_choice(args.click_duration_ms, effects.click_duration_ms, DEFAULT_CLICK_DURATION_MS, "effects.click_duration_ms"@))
    } else if problem_of(color_choice(args.drag_color, effects.drag_color, EffectColor { red: 0xFF, green: 0x40, blue: 0x81 }, "effects.drag_color"@)) is Some {
        problem_of(color_choice(args.drag_color, effects.drag_color, EffectColor { red: 0xFF, green: 0x40, blue: 0x81 }, "effects.drag_color"@))
    } else if !sizes.drag {
        size_problem(false, "effects.drag_size"@)
    } else if problem_of(positive_choice(args.drag_duration_ms, effects.drag_duration_ms, DEFAULT_DRAG_DURATION_MS, "effects.drag_duration_ms"@)) is Some {
        problem_of(positive_choice(args.drag_duration_ms, effects.drag_duration_ms, DEFAULT_DRAG_DURATION_MS, "effects.drag_duration_ms"@))
    } else if problem_of(color_choice(args.trail_color, effects.trail_color, EffectColor { red: 0x00, green: 0xE5, blue: 0xFF }, "effects.trail_color"@)) is Some {
        problem_of(color_choice(args.trail_color, effects.trail_color, EffectColor { red: 0x00, green: 0xE5, blue: 0xFF }, "effects.trail_color"@))
    } else if !sizes.trail {
        size_problem(false, "effects.trail_size"@)
    } else if problem_of(positive_choice(args.trail_duration_ms, effects.trail_duration_ms, DEFAULT_TRAIL_DURATION_MS, "effects.trail_duration_ms"@)) is Some {
        problem_of(positive_choice(args.trail_duration_ms, effects.trail_duration_ms, DEFAULT_TRAIL_DURATION_MS, "effects.trail_duration_ms"@))
    } else if problem_of(threshold_pixels_choice(args, effects)) is Some {
        problem_of(threshold_pixels_choice(args, effects))
    } else if problem_of(positive_choice(args.drag_threshold_ms, effects.drag_threshold_ms, DEFAULT_DRAG_THRESHOLD_MS, "effects.drag_threshold_ms"@)) is Some {
        problem_of(positive_choice(args.drag_threshold_ms, effects.drag_threshold_ms, DEFAULT_DRAG_THRESHOLD_MS, "effects.drag_threshold_ms"@))
    } else {
        problem_of(max_duration_choice(args, defaults))
    }
}

/// Whether `error` is the report of `problem`.
pub open spec fn reports(error: AirecError, problem: SettingsProblem) -> bool {
    match problem {
        SettingsProblem::Value { component, key, message } => is_value_error(error, component, key, message),
        SettingsProblem::CliDuration { value } => {
            &&& error.code == ErrorCode::CaptureInitFailed
            &&& error.data matches ErrorData::Duration { duration } && duration@ == value
        },
        SettingsProblem::ConfigDuration { value } => {
            &&& error.code == ErrorCode::CaptureInitFailed
            &&& error.data matches ErrorData::Setting { component, key, value: Some(text) }
            &&& component@ == "config"@
            &&& key@ == "defaults.max_duration"@
            &&& text@ == value
        },
    }
}

/// The settings when no setting was refused.
pub open spec fn spec_settings(settings: RecordingSettings, args: RecordingArgs, defaults: DefaultsConfig, effects: EffectsConfig) -> bool {
    &&& settings.fps == spec_fps(args, defaults)
    &&& settings.quality == quality_choice(args, defaults)->Some_0
    &&& settings.failure_policy == policy_choice(args, defaults)->Some_0
    &&& settings.cursor == switch(args.cursor, args.no_cursor, defaults.cursor)
    &&& settings.effects == switch(args.effects, args.no_effects, defaults.effects)
    &&& settings.click_left_color == color_choice(args.click_color_left, effects.click_color_left, EffectColor { red: 0xFF, green: 0xD4, blue: 0x00 }, "effects.click_color_left"@)->Ok_0
    &&& settings.click_right_color == color_choice(args.click_color_right, effects.click_color_right, EffectColor { red: 0x00, green: 0xA2, blue: 0xFF }, "effects.click_color_right"@)->Ok_0
    &&& settings.click_duration_ms == first_some(args.click_duration_ms, effects.click_duration_ms, DEFAULT_CLICK_DURATION_MS)
    &&& settings.drag_color == color_choice(args.drag_color, effects.drag_color, EffectColor { red: 0xFF, green: 0x40, blue: 0x81 }, "effects.drag_color"@)->Ok_0
    &&& settings.drag_duration_ms == first_some(args.drag_duration_ms, effects.drag_duration_ms, DEFAULT_DRAG_DURATION_MS)
    &&& settings.trail_color == color_choice(args.trail_color, effects.trail_color, EffectColor { red: 0x00, green: 0xE5, blue: 0xFF }, "effects.trail_color"@)->Ok_0
    &&& settings.trail_duration_ms == first_some(args.trail_duration_ms, effects.trail_duration_ms, DEFAULT_TRAIL_DURATION_MS)
    &&& settings.input == (InputOptions {
        drag_threshold_pixels: first_some(args.drag_threshold_px, effects.drag_threshold_px, DEFAULT_DRAG_THRESHOLD_PIXELS),
        drag_threshold_ms: first_some(args.drag_threshold_ms, effects.drag_threshold_ms, DEFAULT_DRAG_THRESHOLD_MS),
        move_throttle_ms: DEFAULT_MOVE_THROTTLE_MS,
        max_history_events: DEFAULT_MAX_INPUT_HISTORY_EVENTS,
    })
    &&& settings.max_duration_ms == max_duration_choice(args, defaults)->Ok_0
    &&& settings.event_log == args.event_log
    &&& settings.verbose == args.verbose
}

fn optional_text(value: &Option<String>) -> (text: Option<&str>)
    ensures
        match value {
            Some(s) => text is Some && text->Some_0@ == s@,
            None => text is None,
        },
{
    match value {
        Some(s) => Some(s.as_str()),
        None => None,
    }
}

/// Resolves the recording options, or reports the first setting refused (see
/// [`first_problem`] for the order).
#[verifier::rlimit(40)]
pub fn resolve_recording_options(
    recording: &RecordingArgs,
    defaults: &DefaultsConfig,
    effects: &EffectsConfig,
    sizes: SizeChecks,
) -> (result: Result<RecordingSettings, AirecError>)
    requires
    ensures
        match first_problem(*recording, *defaults, *effects, sizes) {
            Some(problem) => result is Err && reports(result->Err_0, problem),
            None => result is Ok && spec_settings(result->Ok_0, *recording, *defaults, *effects),
        },
{
    proof {
        reveal_strlit("low");
        reveal_strlit("medium");
        reveal_strlit("high");
        reveal_strlit("continue");
        reveal_strlit("abort");
    }
    let fps: u32 = match recording.fps {
        Some(value) => value,
        None => match defaults.fps {
            Some(value) => value,
            None => 30,
        },
    };
    if !(1 <= fps && fps <= 60) {
        return Err(config_value_error("defaults.fps", "must be between 1 and 60"));
    }
    let quality = match recording.quality {
        Some(value) => quality_from_arg(value),
        None => match &defaults.quality {
            Some(text) => match parse_quality(text.as_str()) {
                Ok(quality) => quality,
                Err(error) => return Err(error),
            },
            None => Quality::Medium,
        },
    };
    let failure_policy = match recording.on_failure {
        Some(value) => failure_from_arg(value),
        None => match &defaults.on_failure {
            Some(text) => match parse_failure_policy(text.as_str()) {
                Ok(policy) => policy,
                Err(error) => return Err(error),
            },
            None => FailurePolicy::Continue,
        },
    };
    let cursor = if recording.cursor {
        true
    } else if recording.no_cursor {
        false
    } else {
        match defaults.cursor {
            Some(value) => value,
            None => true,
        }
    };
    let effects_enabled = if recording.effects {
        true
    } else if recording.no_effects {
        false
    } else {
        match defaults.effects {
            Some(value) => value,
            None => true,
        }
    };
    let click_left_color = match resolve_color(
        optional_text(&recording.click_color_left),
        optional_text(&effects.click_color_left),
        EffectColor::default_left_click(),
        "effects.click_color_left",
    ) {
        Ok(color) => color,
        Err(error) => return Err(error),
    };
    let click_right_color = match resolve_color(
        optional_text(&recording.click_color_right),
        optional_text(&effects.click_color_right),
        EffectColor::default_right_click(),
        "effects.click_color_right",
    ) {
        Ok(color) => color,
        Err(error) => return Err(error),
    };
    if !sizes.click {
        return Err(config_value_error("effects.click_size", "must be greater than zero"));
    }
    let click_duration_ms = match resolve_positive_u64(
        recording.click_duration_ms,
        effects.click_duration_ms,
        DEFAULT_CLICK_DURATION_MS,
        "effects.click_duration_ms",
    ) {
        Ok(value) => value,
        Err(error) => return Err(error),
    };
    let drag_color = match resolve_color(
        optional_text(&recording.drag_color),
        optional_text(&effects.drag_color),
        EffectColor::default_drag(),
        "effects.drag_color",
    ) {
        Ok(color) => color,
        Err(error) => return Err(error),
    };
    if !sizes.drag {
        return Err(config_value_error("effects.drag_size", "must be greater than zero"));
    }
    let drag_duration_ms = match resolve_positive_u64(
        recording.drag_duration_ms,
        effects.drag_duration_ms,
        DEFAULT_DRAG_DURATION_MS,
        "effects.drag_duration_ms",
    ) {
        Ok(value) => value,
        Err(error) => return Err(error),
    };
    let trail_color = match resolve_color(
        optional_text(&recording.trail_color),
        optional_text(&effects.trail_color),
        EffectColor::default_trail(),
        "effects.trail_color",
    ) {
        Ok(color) => color,
        Err(error) => return Err(error),
    };
    if !sizes.trail {
        return Err(config_value_error("effects.trail_size", "must be greater than zero"));
    }
    let trail_duration_ms = match resolve_positive_u64(
        recording.trail_duration_ms,
        effects.trail_duration_ms,
        DEFAULT_TRAIL_DURATION_MS,
        "effects.trail_duration_ms",
    ) {
        Ok(value) => value,
        Err(error) => return Err(error),
    };
    let drag_threshold_pixels = match resolve_positive_u32(
        recording.drag_threshold_px,
        effects.drag_threshold_px,
        DEFAULT_DRAG_THRESHOLD_PIXELS,
        "effects.drag_threshold_px",
    ) {
        Ok(value) => value,
        Err(error) => return Err(error),
    };
    let drag_threshold_ms = match resolve_positive_u64(
        recording.drag_threshold_ms,
        effects.drag_threshold_ms,
        DEFAULT_DRAG_THRESHOLD_MS,
        "effects.drag_threshold_ms",
    ) {
        Ok(value) => value,
        Err(error) => return Err(error),
    };
    let max_duration_ms = match &recording.max_duration {
        Some(text) => match parse_duration(text.as_str()) {
            Ok(millis) => millis,
            Err(error) => return Err(error),
        },
        None => match &defaults.max_duration {
            Some(text) => match parse_duration(text.as_str()) {
                Ok(millis) => millis,
                Err(error) => {
                    return Err(
                        AirecError::new(
                            ErrorCode::CaptureInitFailed,
                            error.message,
                            ErrorData::Setting {
                                component: String::from_str("config"),
                                key: String::from_str("defaults.max_duration"),
                                value: Some(text.clone()),
                            },
                        ),
                    );
                },
            },
            None => 30 * 60 * 1000,
        },
    };
    let event_log = match &recording.event_log {
        Some(path) => Some(path.clone()),
        None => None,
    };
    let mut input = InputOptions::default();
    input.drag_threshold_pixels = drag_threshold_pixels;
    input.drag_threshold_ms = drag_threshold_ms;
    Ok(
        RecordingSettings {
            fps,
            quality,
            cursor,
            effects: effects_enabled,
            click_left_color,
            click_right_color,
            click_duration_ms,
            drag_color,
            drag_duration_ms,
            trail_color,
            trail_duration_ms,
            input,
            max_duration_ms,
            failure_policy,
            event_log,
            verbose: recording.verbose,
        },
    )
}

} // verus!
