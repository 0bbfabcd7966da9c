//! Command-line values: durations, window handles, capture targets and output locations.
use vstd::prelude::*;
use crate::error::{AirecError, ErrorCode, ErrorData};
use crate::model::{CaptureTarget, InputEvent};
use crate::numbers::{
    parse_isize_hex, parse_isize_text, parse_u64_text, parse_usize_text, signed_reading, unsigned_reading,
};
use crate::text::{chars_of, eq_ignore_ascii_case, spec_eq_ignore_ascii_case, string_from_chars};

verus! {

/// Where the leading run of ASCII digits of `text` ends.
pub open spec fn digit_run_end(text: Seq<char>) -> int
    decreases text.len(),
{
    if text.len() == 0 {
        0
    } else if '0' <= text[0] && text[0] <= '9' {
        1 + digit_run_end(text.skip(1))
    } else {
        0
    }
}

proof fn lemma_digit_run(text: Seq<char>)
    ensures
        0 <= digit_run_end(text) <= text.len(),
        forall|i: int| 0 <= i < digit_run_end(text) ==> '0' <= #[trigger] text[i] && text[i] <= '9',
        digit_run_end(text) < text.len() ==> !('0' <= text[digit_run_end(text)] && text[digit_run_end(text)] <= '9'),
    decreases text.len(),
{
    if text.len() > 0 && '0' <= text[0] && text[0] <= '9' {
        lemma_digit_run(text.skip(1));
        assert forall|i: int| 0 <= i < digit_run_end(text) implies '0' <= #[trigger] text[i] && text[i] <= '9' by {
            if i > 0 {
                assert(text[i] == text.skip(1)[i - 1]);
            }
        }
        if digit_run_end(text) < text.len() {
            assert(text[digit_run_end(text)] == text.skip(1)[digit_run_end(text.skip(1))]);
        }
    }
}

/// `amount * factor`, or `u64::MAX` where that does not fit.
pub open spec fn saturating_product(amount: u64, factor: u64) -> u64 {
    if amount * factor > u64::MAX {
        u64::MAX
    } else {
        (amount * factor) as u64
    }
}

/// The milliseconds a duration such as `30s` stands for: a number, then `ms`, `s`, `m` or `h`.
pub open spec fn duration_millis(text: Seq<char>) -> Option<u64> {
    let split = digit_run_end(text);
    match unsigned_reading(text.take(split), 10, u64::MAX as nat) {
        Some(amount) => {
            let unit = text.skip(split);
            if unit == "ms"@ {
                Some(amount as u64)
            } else if unit == "s"@ {
                Some(saturating_product(amount as u64, 1000))
            } else if unit == "m"@ {
                Some(saturating_product(amount as u64, 60000))
            } else if unit == "h"@ {
                Some(saturating_product(amount as u64, 3600000))
            } else {
                None
            }
        },
        None => None,
    }
}

fn saturating_times(amount: u64, factor: u64) -> (product: u64)
    requires
        factor > 0,
    ensures
        product == saturating_product(amount, factor),
{
    if amount > u64::MAX / factor {
        proof {
            assert(amount * factor > u64::MAX) by (nonlinear_arith)
                requires
                    amount > u64::MAX / factor,
                    factor > 0,
            ;
        }
        u64::MAX
    } else {
        proof {
            assert(amount * factor <= u64::MAX) by (nonlinear_arith)
                requires
                    amount <= u64::MAX / factor,
                    factor > 0,
            ;
        }
        amount * factor
    }
}

fn tail_is(chars: &Vec<char>, start: usize, expected: &str) -> (same: bool)
    requires
        start <= chars@.len(),
    ensures
        same == (chars@.skip(start as int) == expected@),
{
    let wanted = chars_of(expected);
    if chars.len() - start != wanted.len() {
        assert(chars@.skip(start as int).len() != expected@.len());
        return false;
    }
    let total = chars.len();
    let mut i: usize = 0;
    while i < wanted.len()
        invariant
            wanted@ == expected@,
            total == chars@.len(),
            start <= chars@.len(),
            chars@.len() - start == wanted@.len(),
            i <= wanted@.len(),
            forall|j: int| 0 <= j < i ==> chars@[start + j] == wanted@[j],
        decreases wanted@.len() - i,
    {
        if chars[start + i] != wanted[i] {
            assert(chars@.skip(start as int)[i as int] != expected@[i as int]);
            return false;
        }
        i += 1;
    }
    assert(chars@.skip(start as int) =~= expected@);
    true
}

/// Reads a duration such as `30s`, `2m` or `150ms` as milliseconds; longer ones saturate.
pub fn parse_duration(value: &str) -> (result: Result<u64, AirecError>)
    ensures
        match duration_millis(value@) {
            Some(millis) => result == Ok::<u64, AirecError>(millis),
            None => {
                &&& result is Err
                &&& result->Err_0.code == ErrorCode::CaptureInitFailed
                &&& result->Err_0.data matches ErrorData::Duration { duration } && duration@ == value@
                &&& unsigned_reading(value@.take(digit_run_end(value@)), 10, u64::MAX as nat) is None
                    ==> result->Err_0.message@.take(("invalid duration '"@ + value@ + "': "@).len() as int)
                    == "invalid duration '"@ + value@ + "': "@
                &&& unsigned_reading(value@.take(digit_run_end(value@)), 10, u64::MAX as nat) is Some
                    ==> result->Err_0.message@ == "duration '"@ + value@ + "' must end in ms, s, m, or h"@
            },
        },
{
    let chars = chars_of(value);
    proof {
        lemma_digit_run(value@);
    }
    let mut split: usize = 0;
    while split < chars.len() && '0' <= chars[split] && chars[split] <= '9'
        invariant
            chars@ == value@,
            split <= digit_run_end(value@),
            forall|i: int| 0 <= i < digit_run_end(value@) ==> '0' <= #[trigger] value@[i] && value@[i] <= '9',
            digit_run_end(value@) <= value@.len(),
            digit_run_end(value@) < value@.len() ==> !('0' <= value@[digit_run_end(value@)]
                && value@[digit_run_end(value@)] <= '9'),
        decreases value@.len() - split,
    {
        split += 1;
    }
    assert(split == digit_run_end(value@));
    let number = string_from_chars(vstd::slice::slice_subrange(chars.as_slice(), 0, split));
    assert(number@ =~= value@.take(split as int));
    let amount = match parse_u64_text(number.as_str()) {
        Ok(amount) => amount,
        Err(reason) => {
            let message = String::from_str("invalid duration '").concat(value).concat("': ").concat(
                reason.as_str(),
            );
            let ghost lead = "invalid duration '"@ + value@ + "': "@;
            assert(message@.take(lead.len() as int) =~= lead);
            return Err(
                AirecError::new(
                    ErrorCode::CaptureInitFailed,
                    message,
                    ErrorData::Duration { duration: String::from_str(value) },
                ),
            );
        },
    };
    let millis = if tail_is(&chars, split, "ms") {
        amount
    } else if tail_is(&chars, split, "s") {
        saturating_times(amount, 1000)
    } else if tail_is(&chars, split, "m") {
        saturating_times(amount, 60000)
    } else if tail_is(&chars, split, "h") {
        saturating_times(amount, 3600000)
    } else {
        let message = String::from_str("duration '").concat(value).concat("' must end in ms, s, m, or h");
        return Err(
            AirecError::new(
                ErrorCode::CaptureInitFailed,
                message,
                ErrorData::Duration { duration: String::from_str(value) },
            ),
        );
    };
    Ok(millis)
}

/// A window handle written in decimal, or in hexadecimal after `0x` or `0X`.
pub open spec fn hwnd_reading(value: Seq<char>) -> Option<int> {
    if value.len() >= 2 && value[0] == '0' && (value[1] == 'x' || value[1] == 'X') {
        signed_reading(value.skip(2), 16, isize::MIN as int, isize::MAX as int)
    } else {
        signed_reading(value, 10, isize::MIN as int, isize::MAX as int)
    }
}

/// Reads a `--window-handle` value; the error is the standard library's message.
pub fn parse_hwnd(value: &str) -> (result: Result<isize, String>)
    ensures
        match hwnd_reading(value@) {
            Some(handle) => result == Ok::<isize, String>(handle as isize),
            None => result is Err,
        },
{
    let chars = chars_of(value);
    if chars.len() >= 2 && chars[0] == '0' && (chars[1] == 'x' || chars[1] == 'X') {
        let hex = string_from_chars(vstd::slice::slice_subrange(chars.as_slice(), 2, chars.len()));
        assert(hex@ =~= value@.skip(2));
        parse_isize_hex(hex.as_str())
    } else {
        parse_isize_text(value)
    }
}

/// The capture target a `--monitor` value names: `all` in any case, or a monitor index.
pub open spec fn monitor_target(text: Seq<char>) -> Option<CaptureTarget> {
    if spec_eq_ignore_ascii_case(text, "all"@) {
        Some(CaptureTarget::AllMonitors)
    } else {
        match unsigned_reading(text, 10, usize::MAX as nat) {
            Some(index) => Some(CaptureTarget::Monitor(index as usize)),
            None => None,
        }
    }
}

/// The requested capture targets.
pub struct TargetArgs {
    pub monitor: Vec<String>,
    pub window: Vec<String>,
    pub window_handle: Vec<isize>,
    pub process: Vec<String>,
}

/// Monitors, then window titles, window handles and processes, each in the order given; the
/// primary monitor when nothing was asked for.
pub open spec fn spec_target_specs(args: TargetArgs) -> Seq<CaptureTarget> {
    let listed = Seq::new(args.monitor@.len(), |i: int| monitor_target(args.monitor@[i]@)->Some_0) + Seq::new(
        args.window@.len(),
        |i: int| CaptureTarget::WindowTitle(args.window@[i]),
    ) + Seq::new(args.window_handle@.len(), |i: int| CaptureTarget::WindowHandle(args.window_handle@[i]))
        + Seq::new(args.process@.len(), |i: int| CaptureTarget::Process(args.process@[i]));
    if listed.len() == 0 {
        seq![CaptureTarget::PrimaryMonitor]
    } else {
        listed
    }
}

/// The capture targets to resolve; the first `--monitor` value that is neither `all` nor an
/// index is a target-not-found error that carries it.
pub fn target_specs(args: &TargetArgs) -> (result: Result<Vec<CaptureTarget>, AirecError>)
    ensures
        (forall|i: int| 0 <= i < args.monitor@.len() ==> #[trigger] monitor_target(args.monitor@[i]@) is Some)
            ==> result is Ok && result->Ok_0@ == spec_target_specs(*args),
        forall|i: int|
            0 <= i < args.monitor@.len() && #[trigger] monitor_target(args.monitor@[i]@) is None && (forall|j: int|
                0 <= j < i ==> monitor_target(args.monitor@[j]@) is Some) ==> {
                &&& result is Err
                &&& result->Err_0.code == ErrorCode::TargetNotFound
                &&& result->Err_0.data == (ErrorData::Monitor { monitor: args.monitor@[i] })
            },
{
    let mut targets: Vec<CaptureTarget> = Vec::new();
    let mut i: usize = 0;
    while i < args.monitor.len()
        invariant
            i <= args.monitor@.len(),
            targets@.len() == i,
            forall|j: int| 0 <= j < i ==> #[trigger] monitor_target(args.monitor@[j]@) is Some,
            forall|j: int| 0 <= j < i ==> #[trigger] targets@[j] == monitor_target(args.monitor@[j]@)->Some_0,
        decreases args.monitor@.len() - i,
    {
        let monitor = &args.monitor[i];
        proof {
            reveal_strlit("all");
        }
        if eq_ignore_ascii_case(monitor.as_str(), "all") {
            targets.push(CaptureTarget::AllMonitors);
        } else {
            match parse_usize_text(monitor.as_str()) {
                Ok(index) => targets.push(CaptureTarget::Monitor(index)),
                Err(reason) => {
                    assert(forall|j: int| 0 <= j < i ==> monitor_target(args.monitor@[j]@) is Some);
                    return Err(
                        AirecError::new(
                            ErrorCode::TargetNotFound,
                            reason,
                            ErrorData::Monitor { monitor: monitor.clone() },
                        ),
                    );
                },
            }
        }
        i += 1;
    }
    let ghost monitors = targets@;
    let mut k: usize = 0;
    while k < args.window.len()
        invariant
            k <= args.window@.len(),
            targets@ == monitors + Seq::new(k as nat, |j: int| CaptureTarget::WindowTitle(args.window@[j])),
        decreases args.window@.len() - k,
    {
        targets.push(CaptureTarget::WindowTitle(args.window[k].clone()));
        k += 1;
        assert(targets@ =~= monitors + Seq::new(k as nat, |j: int| CaptureTarget::WindowTitle(args.window@[j])));
    }
    let ghost with_windows = targets@;
    let mut k: usize = 0;
    while k < args.window_handle.len()
        invariant
            k <= args.window_handle@.len(),
            targets@ == with_windows + Seq::new(k as nat, |j: int| CaptureTarget::WindowHandle(args.window_handle@[j])),
        decreases args.window_handle@.len() - k,
    {
        targets.push(CaptureTarget::WindowHandle(args.window_handle[k]));
        k += 1;
        assert(targets@ =~= with_windows + Seq::new(
            k as nat,
            |j: int| CaptureTarget::WindowHandle(args.window_handle@[j]),
        ));
    }
    let ghost with_handles = targets@;
    let mut k: usize = 0;
    while k < args.process.len()
        invariant
            k <= args.process@.len(),
            targets@ == with_handles + Seq::new(k as nat, |j: int| CaptureTarget::Process(args.process@[j])),
        decreases args.process@.len() - k,
    {
        targets.push(CaptureTarget::Process(args.process[k].clone()));
        k += 1;
        assert(targets@ =~= with_handles + Seq::new(k as nat, |j: int| CaptureTarget::Process(args.process@[j])));
    }
    if targets.len() == 0 {
        targets.push(CaptureTarget::PrimaryMonitor);
    }
    proof {
        let listed = Seq::new(args.monitor@.len(), |i: int| monitor_target(args.monitor@[i]@)->Some_0) + Seq::new(
            args.window@.len(),
            |i: int| CaptureTarget::WindowTitle(args.window@[i]),
        ) + Seq::new(args.window_handle@.len(), |i: int| CaptureTarget::WindowHandle(args.window_handle@[i]))
            + Seq::new(args.process@.len(), |i: int| CaptureTarget::Process(args.process@[i]));
        assert(monitors =~= Seq::new(args.monitor@.len(), |i: int| monitor_target(args.monitor@[i]@)->Some_0));
        if listed.len() == 0 {
            assert(targets@ =~= seq![CaptureTarget::PrimaryMonitor]);
        } else {
            assert(targets@ =~= listed);
        }
    }
    Ok(targets)
}

/// The recording's output: `--out` as a file, `--out-dir` as a directory, else a directory named
/// after the start time (`airec-{timestamp}`).
pub fn output_path(out: Option<String>, out_dir: Option<String>, timestamp: &str) -> (location: (String, bool))
    ensures
        out is Some ==> location == (out->Some_0, false),
        out is None && out_dir is Some ==> location == (out_dir->Some_0, true),
        out is None && out_dir is None ==> location.0@ == "airec-"@ + timestamp@ && location.1,
{
    match out {
        Some(path) => (path, false),
        None => match out_dir {
            Some(path) => (path, true),
            None => (String::from_str("airec-").concat(timestamp), true),
        },
    }
}

/// An input event moved onto the video timeline that starts at `origin_ms`: none before the
/// first frame arrived (`origin_ms == u64::MAX`) or for events that happened before it.
pub open spec fn spec_normalize(event: InputEvent, origin_ms: u64) -> Option<InputEvent> {
    if origin_ms == u64::MAX || event.spec_time() < origin_ms {
        None
    } else {
        let t = (event.spec_time() - origin_ms) as u64;
        Some(
            match event {
                InputEvent::Click { button, x, y, double, .. } => InputEvent::Click { t_ms: t, button, x, y, double },
                InputEvent::DragStart { button, x, y, .. } => InputEvent::DragStart { t_ms: t, button, x, y },
                InputEvent::DragEnd { button, x, y, .. } => InputEvent::DragEnd { t_ms: t, button, x, y },
                InputEvent::Move { x, y, .. } => InputEvent::Move { t_ms: t, x, y },
            },
        )
    }
}

pub fn normalize_input_event(event: InputEvent, origin_ms: u64) -> (normalized: Option<InputEvent>)
    ensures
        normalized == spec_normalize(event, origin_ms),
{
    if origin_ms == u64::MAX {
        return None;
    }
    match event {
        InputEvent::Click { t_ms, button, x, y, double } => match t_ms.checked_sub(origin_ms) {
            Some(t) => Some(InputEvent::Click { t_ms: t, button, x, y, double }),
            None => None,
        },
        InputEvent::DragStart { t_ms, button, x, y } => match t_ms.checked_sub(origin_ms) {
            Some(t) => Some(InputEvent::DragStart { t_ms: t, button, x, y }),
            None => None,
        },
        InputEvent::DragEnd { t_ms, button, x, y } => match t_ms.checked_sub(origin_ms) {
            Some(t) => Some(InputEvent::DragEnd { t_ms: t, button, x, y }),
            None => None,
        },
        InputEvent::Move { t_ms, x, y } => match t_ms.checked_sub(origin_ms) {
            Some(t) => Some(InputEvent::Move { t_ms: t, x, y }),
            None => None,
        },
    }
}

/// `\\.\pipe\airec-{session}`: the named pipe of a session.
pub fn pipe_display_name(session: &str) -> (name: String)
    ensures
        name@ == "\\\\.\\pipe\\airec-"@ + session@,
{
    String::from_str("\\\\.\\pipe\\airec-").concat(session)
}

/// `count` copies of `unit`.
pub open spec fn repeated(unit: u16, count: nat) -> Seq<u16> {
    Seq::new(count, |i: int| unit)
}

/// The rest of a quoted Windows argument, with `pending` backslashes not yet written: each run
/// of backslashes is doubled, plus one, before a quote; doubled before the closing quote; and
/// kept as it is before any other character.
pub open spec fn quoted_rest(argument: Seq<u16>, pending: nat) -> Seq<u16>
    decreases argument.len(),
{
    if argument.len() == 0 {
        repeated(92, 2 * pending) + seq![34u16]
    } else if argument[0] == 92 {
        quoted_rest(argument.skip(1), pending + 1)
    } else if argument[0] == 34 {
        repeated(92, 2 * pending + 1) + seq![34u16] + quoted_rest(argument.skip(1), 0)
    } else {
        repeated(92, pending) + seq![argument[0]] + quoted_rest(argument.skip(1), 0)
    }
}

fn push_repeated(out: &mut Vec<u16>, unit: u16, count: usize)
    ensures
        final(out)@ == old(out)@ + repeated(unit, count as nat),
{
    let ghost start = out@;
    let mut i: usize = 0;
    while i < count
        invariant
            i <= count,
            out@ == start + repeated(unit, i as nat),
        decreases count - i,
    {
        out.push(unit);
        i += 1;
        assert(out@ =~= start + repeated(unit, i as nat));
    }
}

/// Appends `argument` (UTF-16) to a Windows command line as one double-quoted argument.
pub fn push_windows_argument(command_line: &mut Vec<u16>, argument: &[u16])
    requires
        2 * argument@.len() + 1 <= usize::MAX,
    ensures
        final(command_line)@ == old(command_line)@ + seq![34u16] + quoted_rest(argument@, 0),
{
    let ghost start = old(command_line)@;
    command_line.push(34);
    assert(argument@.skip(0) =~= argument@);
    assert(command_line@ =~= start + seq![34u16]);
    let mut backslashes: usize = 0;
    let mut i: usize = 0;
    while i < argument.len()
        invariant
            i <= argument@.len(),
            backslashes <= i,
            2 * argument@.len() + 1 <= usize::MAX,
            command_line@ + quoted_rest(argument@.skip(i as int), backslashes as nat) == start + seq![34u16]
                + quoted_rest(argument@, 0),
        decreases argument@.len() - i,
    {
        let unit = argument[i];
        let ghost rest = argument@.skip(i as int);
        let ghost pending = backslashes as nat;
        let ghost before = command_line@;
        assert(rest[0] == unit);
        assert(rest.skip(1) =~= argument@.skip(i + 1));
        if unit == 92 {
            backslashes += 1;
        } else if unit == 34 {
            push_repeated(command_line, 92, backslashes * 2 + 1);
            command_line.push(unit);
            backslashes = 0;
            assert(quoted_rest(rest, pending) == repeated(92, 2 * pending + 1) + seq![34u16] + quoted_rest(rest.skip(1), 0));
            assert(command_line@ + quoted_rest(rest.skip(1), 0) =~= before + quoted_rest(rest, pending));
        } else {
            push_repeated(command_line, 92, backslashes);
            command_line.push(unit);
            backslashes = 0;
            assert(quoted_rest(rest, pending) == repeated(92, pending) + seq![unit] + quoted_rest(rest.skip(1), 0));
            assert(command_line@ + quoted_rest(rest.skip(1), 0) =~= before + quoted_rest(rest, pending));
        }
        i += 1;
    }
    assert(argument@.skip(argument@.len() as int) =~= Seq::<u16>::empty());
    let ghost before = command_line@;
    push_repeated(command_line, 92, backslashes * 2);
    command_line.push(34);
    assert(command_line@ =~= before + quoted_rest(Seq::<u16>::empty(), backslashes as nat));
}

} // verus!
