use vstd::prelude::*;
use crate::event::StopReason;
use crate::model::{MonitorInfo, WindowInfo};
use crate::records::{
    FailureEntry, FailureRecord, SuccessRecord, duplicate_entries, duplicate_failures, duplicate_successes,
};
use crate::model::{duplicate_monitors, duplicate_windows};

verus! {

/// Stable machine-readable error codes.
#[derive(Clone, Copy, Debug, PartialEq, Eq, Structural)]
pub enum ErrorCode {
    TargetNotFound,
    AmbiguousTarget,
    CaptureInitFailed,
    EncoderUnavailable,
    FirstFrameTimeout,
    NoActiveSession,
    SessionAmbiguous,
    OutputIoError,
    PartialFailure,
    AbortedOnFailure,
    PermissionDenied,
    TargetLost,
}

impl ErrorCode {
    /// The process exit status that accompanies each code.
    pub open spec fn spec_exit_code(self) -> i32 {
        match self {
            ErrorCode::TargetNotFound | ErrorCode::AmbiguousTarget => 2,
            ErrorCode::CaptureInitFailed
            | ErrorCode::EncoderUnavailable
            | ErrorCode::FirstFrameTimeout => 3,
            ErrorCode::NoActiveSession | ErrorCode::SessionAmbiguous => 4,
            ErrorCode::OutputIoError => 5,
            ErrorCode::PartialFailure | ErrorCode::AbortedOnFailure => 6,
            ErrorCode::PermissionDenied => 7,
            ErrorCode::TargetLost => 8,
        }
    }

    #[verifier::when_used_as_spec(spec_exit_code)]
    pub fn exit_code(self) -> (code: i32)
        ensures
            code == self.spec_exit_code(),
    {
        match self {
            ErrorCode::TargetNotFound | ErrorCode::AmbiguousTarget => 2,
            ErrorCode::CaptureInitFailed
            | ErrorCode::EncoderUnavailable
            | ErrorCode::FirstFrameTimeout => 3,
            ErrorCode::NoActiveSession | ErrorCode::SessionAmbiguous => 4,
            ErrorCode::OutputIoError => 5,
            ErrorCode::PartialFailure | ErrorCode::AbortedOnFailure => 6,
            ErrorCode::PermissionDenied => 7,
            ErrorCode::TargetLost => 8,
        }
    }

    /// The SCREAMING_SNAKE_CASE name that the JSON contract uses for each code.
    pub open spec fn spec_wire_name(self) -> Seq<char> {
        match self {
            ErrorCode::TargetNotFound => "TARGET_NOT_FOUND"@,
            ErrorCode::AmbiguousTarget => "AMBIGUOUS_TARGET"@,
            ErrorCode::CaptureInitFailed => "CAPTURE_INIT_FAILED"@,
            ErrorCode::EncoderUnavailable => "ENCODER_UNAVAILABLE"@,
            ErrorCode::FirstFrameTimeout => "FIRST_FRAME_TIMEOUT"@,
            ErrorCode::NoActiveSession => "NO_ACTIVE_SESSION"@,
            ErrorCode::SessionAmbiguous => "SESSION_AMBIGUOUS"@,
            ErrorCode::OutputIoError => "OUTPUT_IO_ERROR"@,
            ErrorCode::PartialFailure => "PARTIAL_FAILURE"@,
            ErrorCode::AbortedOnFailure => "ABORTED_ON_FAILURE"@,
            ErrorCode::PermissionDenied => "PERMISSION_DENIED"@,
            ErrorCode::TargetLost => "TARGET_LOST"@,
        }
    }

    pub fn wire_name(self) -> (name: &'static str)
        ensures
            name@ == self.spec_wire_name(),
    {
        match self {
            ErrorCode::TargetNotFound => "TARGET_NOT_FOUND",
            ErrorCode::AmbiguousTarget => "AMBIGUOUS_TARGET",
            ErrorCode::CaptureInitFailed => "CAPTURE_INIT_FAILED",
            ErrorCode::EncoderUnavailable => "ENCODER_UNAVAILABLE",
            ErrorCode::FirstFrameTimeout => "FIRST_FRAME_TIMEOUT",
            ErrorCode::NoActiveSession => "NO_ACTIVE_SESSION",
            ErrorCode::SessionAmbiguous => "SESSION_AMBIGUOUS",
            ErrorCode::OutputIoError => "OUTPUT_IO_ERROR",
            ErrorCode::PartialFailure => "PARTIAL_FAILURE",
            ErrorCode::AbortedOnFailure => "ABORTED_ON_FAILURE",
            ErrorCode::PermissionDenied => "PERMISSION_DENIED",
            ErrorCode::TargetLost => "TARGET_LOST",
        }
    }
}

} // verus!

verus! {

/// Structured detail attached to an error or to a target-loss event.
///
/// Each variant names the JSON object that front ends publish for it.
#[derive(Clone, Debug)]
pub enum ErrorData {
    /// `{}`
    Empty,
    /// `{"query": query, "candidates": candidates}`; the query is absent where `None`.
    Candidates { query: Option<String>, candidates: Vec<WindowInfo> },
    /// `{"target": target}`
    Target { target: String },
    /// `{"target": target, "failures": failures}`
    TargetFailures { target: String, failures: Vec<FailureRecord> },
    /// `{"successes": successes, "failures": failures, "stop_reason": stop_reason}`
    Aggregate { successes: Vec<SuccessRecord>, failures: Vec<FailureRecord>, stop_reason: StopReason },
    /// `{"successes": successes, "failures": failures}`
    Partial { successes: Vec<SuccessRecord>, failures: Vec<FailureEntry> },
    /// `{"failures": failures, "stop_reason": "aborted_on_failure"}`
    Aborted { failures: Vec<FailureEntry> },
    /// `{"cause": cause}`
    Cause { cause: String },
    /// `{"component": component, "key": key}` and, where present, `"value": value`.
    Setting { component: String, key: String, value: Option<String> },
    /// `{"duration": duration}`
    Duration { duration: String },
    /// `{"monitor": monitor}`
    Monitor { monitor: String },
    /// `{"width": width, "height": height}`
    Dimensions { width: u32, height: u32 },
    /// `{"component": component, "operation": operation, "input": input}`
    Operation { component: String, operation: String, input: String },
    /// `{"session": session}`
    Session { session: String },
    /// `{"sessions": sessions}`
    Sessions { sessions: Vec<String> },
    /// `{"hardware": hardware, "software": software}`
    Encoders { hardware: String, software: String },
    /// `{"software": software}`
    Software { software: String },
    /// `{"component": component}`
    Component { component: String },
    /// `{"index": index, "candidates": candidates}`
    MonitorCandidates { index: usize, candidates: Vec<MonitorInfo> },
    /// `{"hwnd": hwnd, "candidates": candidates}`
    HandleCandidates { hwnd: isize, candidates: Vec<WindowInfo> },
    /// `{"targets": targets}`
    TargetCount { targets: usize },
    /// `{"fps": fps}`
    Fps { fps: u32 },
    /// `{"max_width": max_width}`, `null` where `None`.
    MaxWidth { max_width: Option<u32> },
    /// Any other JSON object, as its serialized text.
    Json(String),
}

#[derive(Clone, Debug)]
pub struct AirecError {
    pub code: ErrorCode,
    pub message: String,
    pub data: ErrorData,
}

/// The mathematical form of [`ErrorData`]: each list is taken by its contents.
pub enum ErrorDataView {
    Empty,
    Candidates { query: Option<String>, candidates: Seq<WindowInfo> },
    Target { target: String },
    TargetFailures { target: String, failures: Seq<FailureRecord> },
    Aggregate { successes: Seq<SuccessRecord>, failures: Seq<FailureRecord>, stop_reason: StopReason },
    Partial { successes: Seq<SuccessRecord>, failures: Seq<FailureEntry> },
    Aborted { failures: Seq<FailureEntry> },
    Cause { cause: String },
    Setting { component: String, key: String, value: Option<String> },
    Duration { duration: String },
    Monitor { monitor: String },
    Dimensions { width: u32, height: u32 },
    Operation { component: String, operation: String, input: String },
    Session { session: String },
    Sessions { sessions: Seq<String> },
    Encoders { hardware: String, software: String },
    Software { software: String },
    Component { component: String },
    MonitorCandidates { index: usize, candidates: Seq<MonitorInfo> },
    HandleCandidates { hwnd: isize, candidates: Seq<WindowInfo> },
    TargetCount { targets: usize },
    Fps { fps: u32 },
    MaxWidth { max_width: Option<u32> },
    Json(String),
}

impl View for ErrorData {
    type V = ErrorDataView;

    open spec fn view(&self) -> ErrorDataView {
        match self {
            ErrorData::Empty => ErrorDataView::Empty,
            ErrorData::Candidates { query, candidates } => ErrorDataView::Candidates {
                query: *query,
                candidates: candidates@,
            },
            ErrorData::Target { target } => ErrorDataView::Target { target: *target },
            ErrorData::TargetFailures { target, failures } => ErrorDataView::TargetFailures {
                target: *target,
                failures: failures@,
            },
            ErrorData::Aggregate { successes, failures, stop_reason } => ErrorDataView::Aggregate {
                successes: successes@,
                failures: failures@,
                stop_reason: *stop_reason,
            },
            ErrorData::Partial { successes, failures } => ErrorDataView::Partial {
                successes: successes@,
                failures: failures@,
            },
            ErrorData::Aborted { failures } => ErrorDataView::Aborted { failures: failures@ },
            ErrorData::Cause { cause } => ErrorDataView::Cause { cause: *cause },
            ErrorData::Setting { component, key, value } => ErrorDataView::Setting {
                component: *component,
                key: *key,
                value: *value,
            },
            ErrorData::Duration { duration } => ErrorDataView::Duration { duration: *duration },
            ErrorData::Monitor { monitor } => ErrorDataView::Monitor { monitor: *monitor },
            ErrorData::Dimensions { width, height } => ErrorDataView::Dimensions {
                width: *width,
                height: *height,
            },
            ErrorData::Operation { component, operation, input } => ErrorDataView::Operation {
                component: *component,
                operation: *operation,
                input: *input,
            },
            ErrorData::Session { session } => ErrorDataView::Session { session: *session },
            ErrorData::Sessions { sessions } => ErrorDataView::Sessions { sessions: sessions@ },
            ErrorData::Encoders { hardware, software } => ErrorDataView::Encoders {
                hardware: *hardware,
                software: *software,
            },
            ErrorData::Software { software } => ErrorDataView::Software { software: *software },
            ErrorData::Component { component } => ErrorDataView::Component { component: *component },
            ErrorData::MonitorCandidates { index, candidates } => ErrorDataView::MonitorCandidates {
                index: *index,
                candidates: candidates@,
            },
            ErrorData::HandleCandidates { hwnd, candidates } => ErrorDataView::HandleCandidates {
                hwnd: *hwnd,
                candidates: candidates@,
            },
            ErrorData::TargetCount { targets } => ErrorDataView::TargetCount { targets: *targets },
            ErrorData::Fps { fps } => ErrorDataView::Fps { fps: *fps },
            ErrorData::MaxWidth { max_width } => ErrorDataView::MaxWidth { max_width: *max_width },
            ErrorData::Json(text) => ErrorDataView::Json(*text),
        }
    }
}

fn duplicate_text(text: &Option<String>) -> (copy: Option<String>)
    ensures
        copy == *text,
{
    match text {
        Some(text) => Some(text.clone()),
        None => None,
    }
}

/// A copy of a list of texts.
pub fn duplicate_texts(texts: &[String]) -> (copy: Vec<String>)
    ensures
        copy@ == texts@,
{
    let mut copy: Vec<String> = Vec::new();
    let mut index: usize = 0;
    while index < texts.len()
        invariant
            index <= texts@.len(),
            copy@ == texts@.subrange(0, index as int),
        decreases texts@.len() - index,
    {
        copy.push(texts[index].clone());
        index += 1;
    }
    copy
}

impl ErrorData {
    pub fn duplicate(&self) -> (copy: ErrorData)
        ensures
            copy@ == self@,
    {
        match self {
            ErrorData::Empty => ErrorData::Empty,
            ErrorData::Candidates { query, candidates } => ErrorData::Candidates {
                query: duplicate_text(query),
                candidates: duplicate_windows(candidates.as_slice()),
            },
            ErrorData::Target { target } => ErrorData::Target { target: target.clone() },
            ErrorData::TargetFailures { target, failures } => ErrorData::TargetFailures {
                target: target.clone(),
                failures: duplicate_failures(failures.as_slice()),
            },
            ErrorData::Aggregate { successes, failures, stop_reason } => ErrorData::Aggregate {
                successes: duplicate_successes(successes.as_slice()),
                failures: duplicate_failures(failures.as_slice()),
                stop_reason: *stop_reason,
            },
            ErrorData::Partial { successes, failures } => ErrorData::Partial {
                successes: duplicate_successes(successes.as_slice()),
                failures: duplicate_entries(failures.as_slice()),
            },
            ErrorData::Aborted { failures } => ErrorData::Aborted {
                failures: duplicate_entries(failures.as_slice()),
            },
            ErrorData::Cause { cause } => ErrorData::Cause { cause: cause.clone() },
            ErrorData::Setting { component, key, value } => ErrorData::Setting {
                component: component.clone(),
                key: key.clone(),
                value: duplicate_text(value),
            },
            ErrorData::Duration { duration } => ErrorData::Duration { duration: duration.clone() },
            ErrorData::Monitor { monitor } => ErrorData::Monitor { monitor: monitor.clone() },
            ErrorData::Dimensions { width, height } => ErrorData::Dimensions {
                width: *width,
                height: *height,
            },
            ErrorData::Operation { component, operation, input } => ErrorData::Operation {
                component: component.clone(),
                operation: operation.clone(),
                input: input.clone(),
            },
            ErrorData::Session { session } => ErrorData::Session { session: session.clone() },
            ErrorData::Sessions { sessions } => ErrorData::Sessions { sessions: duplicate_texts(sessions.as_slice()) },
            ErrorData::Encoders { hardware, software } => ErrorData::Encoders {
                hardware: hardware.clone(),
                software: software.clone(),
            },
            ErrorData::Software { software } => ErrorData::Software { software: software.clone() },
            ErrorData::Component { component } => ErrorData::Component { component: component.clone() },
            ErrorData::MonitorCandidates { index, candidates } => ErrorData::MonitorCandidates {
                index: *index,
                candidates: duplicate_monitors(candidates.as_slice()),
            },
            ErrorData::HandleCandidates { hwnd, candidates } => ErrorData::HandleCandidates {
                hwnd: *hwnd,
                candidates: duplicate_windows(candidates.as_slice()),
            },
            ErrorData::TargetCount { targets } => ErrorData::TargetCount { targets: *targets },
            ErrorData::Fps { fps } => ErrorData::Fps { fps: *fps },
            ErrorData::MaxWidth { max_width } => ErrorData::MaxWidth { max_width: *max_width },
            ErrorData::Json(text) => ErrorData::Json(text.clone()),
        }
    }
}

/// The mathematical form of [`AirecError`].
pub struct AirecErrorView {
    pub code: ErrorCode,
    pub message: String,
    pub data: ErrorDataView,
}

impl View for AirecError {
    type V = AirecErrorView;

    open spec fn view(&self) -> AirecErrorView {
        AirecErrorView { code: self.code, message: self.message, data: self.data@ }
    }
}

impl AirecError {
    pub fn duplicate(&self) -> (copy: AirecError)
        ensures
            copy@ == self@,
    {
        AirecError { code: self.code, message: self.message.clone(), data: self.data.duplicate() }
    }

    pub fn new(code: ErrorCode, message: String, data: ErrorData) -> (error: AirecError)
        ensures
            error.code == code,
            error.message == message,
            error.data == data,
    {
        AirecError { code, message, data }
    }

    pub open spec fn spec_exit_code(&self) -> i32 {
        self.code.spec_exit_code()
    }

    #[verifier::when_used_as_spec(spec_exit_code)]
    pub fn exit_code(&self) -> (code: i32)
        ensures
            code == self.code.spec_exit_code(),
    {
        self.code.exit_code()
    }
}

} // verus!
