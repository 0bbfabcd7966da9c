//! Recording settings from command-line values, configuration defaults and built-in defaults.
use vstd::prelude::*;
use crate::error::{AirecError, ErrorCode, ErrorData};
use crate::model::{
    CaptureTarget, EffectColor, FailurePolicy, InputOptions, Quality, DEFAULT_CLICK_DURATION_MS,
    DEFAULT_DRAG_DURATION_MS, DEFAULT_DRAG_THRESHOLD_MS, DEFAULT_DRAG_THRESHOLD_PIXELS,
    DEFAULT_MAX_INPUT_HISTORY_EVENTS, DEFAULT_MOVE_THROTTLE_MS, DEFAULT_TRAIL_DURATION_MS,
};
use crate::text::{chars_of, eq_ignore_ascii_case, spec_eq_ignore_ascii_case};

verus! {

/// The `--quality` choices.
#[derive(Clone, Copy, Debug, PartialEq, Eq, Structural)]
pub enum QualityArg {
    Low,
    Medium,
    High,
}

/// The `--on-failure` choices.
#[derive(Clone, Copy, Debug, PartialEq, Eq, Structural)]
pub enum FailureArg {
    Continue,
    Abort,
}

pub fn quality_from_arg(value: QualityArg) -> (quality: Quality)
    ensures
        quality == match value {
            QualityArg::Low => Quality::Low,
            QualityArg::Medium => Quality::Medium,
            QualityArg::High => Quality::High,
        },
{
    match value {
        QualityArg::Low => Quality::Low,
        QualityArg::Medium => Quality::Medium,
        QualityArg::High => Quality::High,
    }
}

pub fn failure_from_arg(value: FailureArg) -> (policy: FailurePolicy)
    ensures
        policy == match value {
            FailureArg::Continue => FailurePolicy::Continue,
            FailureArg::Abort => FailurePolicy::Abort,
        },
{
    match value {
        FailureArg::Continue => FailurePolicy::Continue,
        FailureArg::Abort => FailurePolicy::Abort,
    }
}

/// Whether two texts are the same characters.
pub fn text_is(value: &str, expected: &str) -> (same: bool)
    ensures
        same == (value@ == expected@),
{
    let left = chars_of(value);
    let right = chars_of(expected);
    if left.len() != right.len() {
        return false;
    }
    let mut i: usize = 0;
    while i < left.len()
        invariant
            left@ == value@,
            right@ == expected@,
            left@.len() == right@.len(),
            i <= left@.len(),
            forall|j: int| 0 <= j < i ==> left@[j] == right@[j],
        decreases left@.len() - i,
    {
        if left[i] != right[i] {
            return false;
        }
        i += 1;
    }
    assert(left@ =~= right@);
    true
}

/// Whether `error` reports an invalid `component` value for `key`, with `message`.
pub open spec fn is_value_error(error: AirecError, component: Seq<char>, key: Seq<char>, message: Seq<char>) -> bool {
    &&& error.code == ErrorCode::CaptureInitFailed
    &&& error.message@ == "invalid "@ + component + " value "@ + key + ": "@ + message
    &&& error.data matches ErrorData::Setting { component: c, key: k, value: None }
    &&& c@ == component
    &&& k@ == key
}

/// `invalid {component} value {key}: {message}`, with the component and key as data.
pub fn value_error(component: &str, key: &str, message: &str) -> (error: AirecError)
    ensures
        is_value_error(error, component@, key@, message@),
{
    let text = String::from_str("invalid ").concat(component).concat(" value ").concat(key).concat(": ").concat(
        message,
    );
    AirecError::new(
        ErrorCode::CaptureInitFailed,
        text,
        ErrorData::Setting {
            component: String::from_str(component),
            key: String::from_str(key),
            value: None,
        },
    )
}

/// A value error attributed to the configuration file.
pub fn config_value_error(key: &str, message: &str) -> (error: AirecError)
    ensures
        is_value_error(error, "config"@, key@, message@),
{
    value_error("config", key, message)
}

/// `defaults.quality` from the configuration file.
pub fn parse_quality(value: &str) -> (result: Result<Quality, AirecError>)
    ensures
        value@ == "low"@ ==> result == Ok::<Quality, AirecError>(Quality::Low),
        value@ == "medium"@ ==> result == Ok::<Quality, AirecError>(Quality::Medium),
        value@ == "high"@ ==> result == Ok::<Quality, AirecError>(Quality::High),
        value@ != "low"@ && value@ != "medium"@ && value@ != "high"@ ==> result is Err && is_value_error(
            result->Err_0,
            "config"@,
            "defaults.quality"@,
            "must be low, medium, or high"@,
        ),
{
    proof {
        reveal_strlit("low");
        reveal_strlit("medium");
        reveal_strlit("high");
        assert("low"@.len() == 3 && "medium"@.len() == 6 && "high"@.len() == 4);
    }
    if text_is(value, "low") {
        Ok(Quality::Low)
    } else if text_is(value, "medium") {
        Ok(Quality::Medium)
    } else if text_is(value, "high") {
        Ok(Quality::High)
    } else {
        Err(config_value_error("defaults.quality", "must be low, medium, or high"))
    }
}

/// `defaults.on_failure` from the configuration file.
pub fn parse_failure_policy(value: &str) -> (result: Result<FailurePolicy, AirecError>)
    ensures
        value@ == "continue"@ ==> result == Ok::<FailurePolicy, AirecError>(FailurePolicy::Continue),
        value@ == "abort"@ ==> result == Ok::<FailurePolicy, AirecError>(FailurePolicy::Abort),
        value@ != "continue"@ && value@ != "abort"@ ==> result is Err && is_value_error(
            result->Err_0,
            "config"@,
            "defaults.on_failure"@,
            "must be continue or abort"@,
        ),
{
    proof {
        reveal_strlit("continue");
        reveal_strlit("abort");
        assert("continue"@.len() == 8 && "abort"@.len() == 5);
    }
    if text_is(value, "continue") {
        Ok(FailurePolicy::Continue)
    } else if text_is(value, "abort") {
        Ok(FailurePolicy::Abort)
    } else {
        Err(config_value_error("defaults.on_failure", "must be continue or abort"))
    }
}

/// The value of a hexadecimal digit, or -1.
pub open spec fn hex_value(c: char) -> int {
    if '0' <= c && c <= '9' {
        c as int - '0' as int
    } else if 'a' <= c && c <= 'f' {
        c as int - 'a' as int + 10
    } else if 'A' <= c && c <= 'F' {
        c as int - 'A' as int + 10
    } else {
        -1
    }
}

/// Two hexadecimal digits read as a byte, high digit first.
pub open spec fn hex_pair(high: char, low: char) -> Option<u8> {
    if hex_value(high) >= 0 && hex_value(low) >= 0 {
        Some((16 * hex_value(high) + hex_value(low)) as u8)
    } else {
        None
    }
}

/// The color written `#RRGGBB`: `#` and exactly six hexadecimal digits, read in pairs.
pub open spec fn spec_parse_color(value: Seq<char>) -> Option<EffectColor> {
    if value.len() == 7 && value[0] == '#' && (forall|i: int| 1 <= i < 7 ==> (value[i] as u32) < 128)
        && hex_pair(value[1], value[2]) is Some && hex_pair(value[3], value[4]) is Some && hex_pair(
        value[5],
        value[6],
    ) is Some {
        Some(
            EffectColor {
                red: hex_pair(value[1], value[2])->Some_0,
                green: hex_pair(value[3], value[4])->Some_0,
                blue: hex_pair(value[5], value[6])->Some_0,
            },
        )
    } else {
        None
    }
}

fn hex_digit(c: char) -> (value: Option<u8>)
    ensures
        hex_value(c) >= 0 ==> value == Some(hex_value(c) as u8),
        hex_value(c) < 0 ==> value is None,
{
    if '0' <= c && c <= '9' {
        Some((c as u32 - '0' as u32) as u8)
    } else if 'a' <= c && c <= 'f' {
        Some((c as u32 - 'a' as u32 + 10) as u8)
    } else if 'A' <= c && c <= 'F' {
        Some((c as u32 - 'A' as u32 + 10) as u8)
    } else {
        None
    }
}

fn parse_hex_pair(high: char, low: char) -> (value: Option<u8>)
    ensures
        value == hex_pair(high, low),
{
    match (hex_digit(high), hex_digit(low)) {
        (Some(h), Some(l)) => Some(h * 16 + l),
        _ => None,
    }
}

/// An effect color written `#RRGGBB`; anything else is a value error for `component` and
/// `key`.
pub fn parse_color(value: &str, key: &str, component: &str) -> (result: Result<EffectColor, AirecError>)
    ensures
        spec_parse_color(value@) is Some ==> result == Ok::<EffectColor, AirecError>(
            spec_parse_color(value@)->Some_0,
        ),
        spec_parse_color(value@) is None ==> result is Err && is_value_error(
            result->Err_0,
            component@,
            key@,
            "must use #RRGGBB"@,
        ),
{
    let chars = chars_of(value);
    if chars.len() != 7 || chars[0] != '#' {
        return Err(value_error(component, key, "must use #RRGGBB"));
    }
    let mut i: usize = 1;
    while i < 7
        invariant
            1 <= i <= 7,
            chars@ == value@,
            chars@.len() == 7,
            forall|j: int| 1 <= j < i ==> (chars@[j] as u32) < 128,
        decreases 7 - i,
    {
        if chars[i] as u32 >= 128 {
            return Err(value_error(component, key, "must use #RRGGBB"));
        }
        i += 1;
    }
    let red = parse_hex_pair(chars[1], chars[2]);
    let green = parse_hex_pair(chars[3], chars[4]);
    let blue = parse_hex_pair(chars[5], chars[6]);
    match (red, green, blue) {
        (Some(red), Some(green), Some(blue)) => Ok(EffectColor::rgb(red, green, blue)),
        _ => Err(value_error(component, key, "must use #RRGGBB")),
    }
}

/// The command-line color if given, else the configured one, else `default`.
pub fn resolve_color(cli: Option<&str>, config: Option<&str>, default: EffectColor, key: &str) -> (result: Result<EffectColor, AirecError>)
    ensures
        match cli {
            Some(value) => match spec_parse_color(value@) {
                Some(color) => result == Ok::<EffectColor, AirecError>(color),
                None => result is Err && is_value_error(result->Err_0, "cli"@, key@, "must use #RRGGBB"@),
            },
            None => match config {
                Some(value) => match spec_parse_color(value@) {
                    Some(color) => result == Ok::<EffectColor, AirecError>(color),
                    None => result is Err && is_value_error(
                        result->Err_0,
                        "config"@,
                        key@,
                        "must use #RRGGBB"@,
                    ),
                },
                None => result == Ok::<EffectColor, AirecError>(default),
            },
        },
{
    if let Some(value) = cli {
        parse_color(value, key, "cli")
    } else if let Some(value) = config {
        parse_color(value, key, "config")
    } else {
        Ok(default)
    }
}

/// The command-line value if given, else the configured one, else `default`; it must be
/// positive.
pub fn resolve_positive_u64(cli: Option<u64>, config: Option<u64>, default: u64, key: &str) -> (result: Result<u64, AirecError>)
    ensures
        ({
            let value = match cli {
                Some(v) => v,
                None => match config {
                    Some(v) => v,
                    None => default,
                },
            };
            &&& value > 0 ==> result == Ok::<u64, AirecError>(value)
            &&& value == 0 ==> result is Err && is_value_error(
                result->Err_0,
                "config"@,
                key@,
                "must be greater than zero"@,
            )
        }),
{
    let value = match cli {
        Some(v) => v,
        None => match config {
            Some(v) => v,
            None => default,
        },
    };
    if value > 0 {
        Ok(value)
    } else {
        Err(config_value_error(key, "must be greater than zero"))
    }
}

/// As [`resolve_positive_u64`], for `u32` values.
pub fn resolve_positive_u32(cli: Option<u32>, config: Option<u32>, default: u32, key: &str) -> (result: Result<u32, AirecError>)
    ensures
        ({
            let value = match cli {
                Some(v) => v,
                None => match config {
                    Some(v) => v,
                    None => default,
                },
            };
            &&& value > 0 ==> result == Ok::<u32, AirecError>(value)
            &&& value == 0 ==> result is Err && is_value_error(
                result->Err_0,
                "config"@,
                key@,
                "must be greater than zero"@,
            )
        }),
{
    let value = match cli {
        Some(v) => v,
        None => match config {
            Some(v) => v,
            None => default,
        },
    };
    if value > 0 {
        Ok(value)
    } else {
        Err(config_value_error(key, "must be greater than zero"))
    }
}

} // verus!
