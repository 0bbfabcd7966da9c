use vstd::prelude::*;
use crate::error::{ErrorCode, ErrorData, ErrorDataView};

verus! {

/// An RFC 3339 timestamp with millisecond precision, in UTC.
#[derive(Clone, Debug)]
pub struct Timestamp(pub String);

impl Timestamp {
    pub fn duplicate(&self) -> (copy: Timestamp)
        ensures
            copy == *self,
    {
        Timestamp(self.0.clone())
    }
}

/// Why a target's recording ended.
#[derive(Clone, Copy, Debug, PartialEq, Eq, Structural)]
pub enum StopReason {
    Requested,
    DurationLimit,
    MaxDuration,
    TargetLost,
    Error,
    AbortedOnFailure,
}

impl StopReason {
    /// Requested, duration-limited and max-duration endings are intended; all others are not.
    pub open spec fn spec_is_intended(self) -> bool {
        self is Requested || self is DurationLimit || self is MaxDuration
    }

    #[verifier::when_used_as_spec(spec_is_intended)]
    pub fn is_intended(self) -> (intended: bool)
        ensures
            intended == self.spec_is_intended(),
    {
        match self {
            StopReason::Requested | StopReason::DurationLimit | StopReason::MaxDuration => true,
            _ => false,
        }
    }

    /// The snake_case name that the JSON contract uses for each reason.
    pub open spec fn spec_wire_name(self) -> Seq<char> {
        match self {
            StopReason::Requested => "requested"@,
            StopReason::DurationLimit => "duration_limit"@,
            StopReason::MaxDuration => "max_duration"@,
            StopReason::TargetLost => "target_lost"@,
            StopReason::Error => "error"@,
            StopReason::AbortedOnFailure => "aborted_on_failure"@,
        }
    }

    pub fn wire_name(self) -> (name: &'static str)
        ensures
            name@ == self.spec_wire_name(),
    {
        match self {
            StopReason::Requested => "requested",
            StopReason::DurationLimit => "duration_limit",
            StopReason::MaxDuration => "max_duration",
            StopReason::TargetLost => "target_lost",
            StopReason::Error => "error",
            StopReason::AbortedOnFailure => "aborted_on_failure",
        }
    }

    /// The variant's Rust name, as debug output spells it.
    pub open spec fn spec_variant_name(self) -> Seq<char> {
        match self {
            StopReason::Requested => "Requested"@,
            StopReason::DurationLimit => "DurationLimit"@,
            StopReason::MaxDuration => "MaxDuration"@,
            StopReason::TargetLost => "TargetLost"@,
            StopReason::Error => "Error"@,
            StopReason::AbortedOnFailure => "AbortedOnFailure"@,
        }
    }

    pub fn variant_name(self) -> (name: &'static str)
        ensures
            name@ == self.spec_variant_name(),
    {
        match self {
            StopReason::Requested => "Requested",
            StopReason::DurationLimit => "DurationLimit",
            StopReason::MaxDuration => "MaxDuration",
            StopReason::TargetLost => "TargetLost",
            StopReason::Error => "Error",
            StopReason::AbortedOnFailure => "AbortedOnFailure",
        }
    }
}

#[derive(Clone, Debug)]
pub enum EventTarget {
    File(String),
    Named(String),
}

impl EventTarget {
    /// Both kinds display as the name they carry.
    pub fn display(&self) -> (text: String)
        ensures
            text@ == match self {
                EventTarget::File(value) => value@,
                EventTarget::Named(value) => value@,
            },
    {
        match self {
            EventTarget::File(value) => value.clone(),
            EventTarget::Named(value) => value.clone(),
        }
    }
}

/// One target of a `started` event.
#[derive(Clone, Debug)]
pub struct TargetSummary {
    pub kind: String,
    pub title: Option<String>,
    pub file: String,
}

impl TargetSummary {
    pub fn duplicate(&self) -> (copy: TargetSummary)
        ensures
            copy == *self,
    {
        let title = match &self.title {
            Some(title) => Some(title.clone()),
            None => None,
        };
        TargetSummary { kind: self.kind.clone(), title, file: self.file.clone() }
    }
}

pub fn duplicate_summaries(summaries: &[TargetSummary]) -> (copy: Vec<TargetSummary>)
    ensures
        copy@ == summaries@,
{
    let mut copy: Vec<TargetSummary> = Vec::new();
    let mut index: usize = 0;
    while index < summaries.len()
        invariant
            index <= summaries@.len(),
            copy@ == summaries@.subrange(0, index as int),
        decreases summaries@.len() - index,
    {
        copy.push(summaries[index].duplicate());
        index += 1;
    }
    copy
}

/// The stdout JSONL contract. Session-wide events carry no target.
#[derive(Debug)]
pub enum Event {
    Started { ts: Timestamp, session: String, target: Option<String>, targets: Vec<TargetSummary> },
    Heartbeat {
        ts: Timestamp,
        session: String,
        target: String,
        elapsed_ms: u64,
        frames: u64,
        dropped: u64,
        minimized: Option<bool>,
    },
    TargetLost { ts: Timestamp, session: String, target: String, stop_reason: StopReason, data: ErrorData },
    Saved {
        ts: Timestamp,
        session: String,
        target: String,
        file: String,
        stop_reason: StopReason,
        duration_ms: u64,
        frames: u64,
        size_bytes: u64,
    },
    Error {
        ts: Timestamp,
        session: String,
        target: Option<String>,
        code: ErrorCode,
        message: String,
        data: ErrorData,
        stop_reason: Option<StopReason>,
    },
}

/// The mathematical form of [`Event`]: lists are taken by their contents.
pub enum EventView {
    Started { ts: Timestamp, session: String, target: Option<String>, targets: Seq<TargetSummary> },
    Heartbeat {
        ts: Timestamp,
        session: String,
        target: String,
        elapsed_ms: u64,
        frames: u64,
        dropped: u64,
        minimized: Option<bool>,
    },
    TargetLost { ts: Timestamp, session: String, target: String, stop_reason: StopReason, data: ErrorDataView },
    Saved {
        ts: Timestamp,
        session: String,
        target: String,
        file: String,
        stop_reason: StopReason,
        duration_ms: u64,
        frames: u64,
        size_bytes: u64,
    },
    Error {
        ts: Timestamp,
        session: String,
        target: Option<String>,
        code: ErrorCode,
        message: String,
        data: ErrorDataView,
        stop_reason: Option<StopReason>,
    },
}

impl View for Event {
    type V = EventView;

    open spec fn view(&self) -> EventView {
        match self {
            Event::Started { ts, session, target, targets } => EventView::Started {
                ts: *ts,
                session: *session,
                target: *target,
                targets: targets@,
            },
            Event::Heartbeat { ts, session, target, elapsed_ms, frames, dropped, minimized } =>
                EventView::Heartbeat {
                ts: *ts,
                session: *session,
                target: *target,
                elapsed_ms: *elapsed_ms,
                frames: *frames,
                dropped: *dropped,
                minimized: *minimized,
            },
            Event::TargetLost { ts, session, target, stop_reason, data } => EventView::TargetLost {
                ts: *ts,
                session: *session,
                target: *target,
                stop_reason: *stop_reason,
                data: data@,
            },
            Event::Saved { ts, session, target, file, stop_reason, duration_ms, frames, size_bytes } =>
                EventView::Saved {
                ts: *ts,
                session: *session,
                target: *target,
                file: *file,
                stop_reason: *stop_reason,
                duration_ms: *duration_ms,
                frames: *frames,
                size_bytes: *size_bytes,
            },
            Event::Error { ts, session, target, code, message, data, stop_reason } => EventView::Error {
                ts: *ts,
                session: *session,
                target: *target,
                code: *code,
                message: *message,
                data: data@,
                stop_reason: *stop_reason,
            },
        }
    }
}

/// The contents of a list of events.
pub open spec fn events_view(events: Seq<Event>) -> Seq<EventView> {
    events.map_values(|event: Event| event@)
}

} // verus!
