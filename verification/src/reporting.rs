//! The errors a session front end reports: runtime errors as events, and startup failures
//! merged with what the session itself reported.
use vstd::prelude::*;
use crate::error::{AirecError, AirecErrorView, ErrorCode, ErrorData, ErrorDataView};
use crate::event::{Event, EventView, StopReason, Timestamp, events_view};
use crate::model::FailurePolicy;
use crate::records::{FailureEntry, SuccessRecord};
use crate::session::SessionOutcome;

verus! {

/// The stop reason an error event carries for each code.
pub open spec fn error_event_stop_reason(code: ErrorCode) -> Option<StopReason> {
    match code {
        ErrorCode::AbortedOnFailure => Some(StopReason::AbortedOnFailure),
        ErrorCode::CaptureInitFailed | ErrorCode::EncoderUnavailable | ErrorCode::FirstFrameTimeout
        | ErrorCode::OutputIoError | ErrorCode::PartialFailure => Some(StopReason::Error),
        _ => None,
    }
}

/// The session-wide `error` event that reports `error`.
pub fn error_to_event(session: &str, error: &AirecError, ts: Timestamp) -> (event: Event)
    ensures
        event@ == (EventView::Error {
            ts,
            session: event@->Error_session,
            target: None,
            code: error.code,
            message: error.message,
            data: error.data@,
            stop_reason: error_event_stop_reason(error.code),
        }),
        event@->Error_session@ == session@,
{
    let stop_reason = match error.code {
        ErrorCode::AbortedOnFailure => Some(StopReason::AbortedOnFailure),
        ErrorCode::CaptureInitFailed | ErrorCode::EncoderUnavailable | ErrorCode::FirstFrameTimeout
        | ErrorCode::OutputIoError | ErrorCode::PartialFailure => Some(StopReason::Error),
        _ => None,
    };
    Event::Error {
        ts,
        session: String::from_str(session),
        target: None,
        code: error.code,
        message: error.message.clone(),
        data: error.data.duplicate(),
        stop_reason,
    }
}

/// The failure entry of a target that failed to start.
pub open spec fn startup_entry(failure: (String, AirecError)) -> FailureEntry {
    FailureEntry { target: Some(failure.0), code: failure.1.code, message: failure.1.message }
}

pub open spec fn startup_entries(failures: Seq<(String, AirecError)>) -> Seq<FailureEntry> {
    Seq::new(failures.len(), |i: int| startup_entry(failures[i]))
}

/// The failures a runtime error lists, or the error itself as one failure (with the target it
/// names, if any).
pub open spec fn runtime_entries(error: Option<AirecErrorView>) -> Seq<FailureEntry> {
    match error {
        None => Seq::empty(),
        Some(error) => match error.data {
            ErrorDataView::TargetFailures { failures, .. } => failures.map_values(|record: crate::records::FailureRecord| record.spec_entry()),
            ErrorDataView::Aggregate { failures, .. } => failures.map_values(|record: crate::records::FailureRecord| record.spec_entry()),
            ErrorDataView::Partial { failures, .. } => failures,
            ErrorDataView::Aborted { failures } => failures,
            ErrorDataView::Target { target } => seq![FailureEntry { target: Some(target), code: error.code, message: error.message }],
            _ => seq![FailureEntry { target: None, code: error.code, message: error.message }],
        },
    }
}

/// The recordings among `events` that ended on purpose.
pub open spec fn intended_successes(events: Seq<EventView>) -> Seq<SuccessRecord>
    decreases events.len(),
{
    if events.len() == 0 {
        Seq::empty()
    } else {
        let rest = intended_successes(events.drop_last());
        match events.last() {
            EventView::Saved { target, file, stop_reason, .. } => if stop_reason.spec_is_intended() {
                rest.push(SuccessRecord { target, file })
            } else {
                rest
            },
            _ => rest,
        }
    }
}

/// Whether some event reports a saved recording.
pub open spec fn any_saved(events: Seq<EventView>) -> bool {
    exists|i: int| 0 <= i < events.len() && #[trigger] events[i] is Saved
}

fn startup_failure_entries(startup_failures: &[(String, AirecError)]) -> (entries: Vec<FailureEntry>)
    ensures
        entries@ == startup_entries(startup_failures@),
{
    let mut entries: Vec<FailureEntry> = Vec::new();
    let mut i: usize = 0;
    while i < startup_failures.len()
        invariant
            i <= startup_failures@.len(),
            entries@ == startup_entries(startup_failures@.take(i as int)),
        decreases startup_failures@.len() - i,
    {
        let (target, error) = &startup_failures[i];
        entries.push(FailureEntry { target: Some(target.clone()), code: error.code, message: error.message.clone() });
        i += 1;
        assert(entries@ =~= startup_entries(startup_failures@.take(i as int)));
    }
    assert(startup_failures@.take(startup_failures@.len() as int) =~= startup_failures@);
    entries
}

fn runtime_failure_entries(error: &Option<AirecError>) -> (entries: Vec<FailureEntry>)
    ensures
        entries@ == runtime_entries(crate::session::error_view(*error)),
{
    match error {
        None => Vec::new(),
        Some(error) => match &error.data {
            ErrorData::TargetFailures { failures, .. } | ErrorData::Aggregate { failures, .. } => {
                let mut entries: Vec<FailureEntry> = Vec::new();
                let mut i: usize = 0;
                while i < failures.len()
                    invariant
                        i <= failures@.len(),
                        entries@ == failures@.take(i as int).map_values(
                            |record: crate::records::FailureRecord| record.spec_entry(),
                        ),
                    decreases failures@.len() - i,
                {
                    entries.push(failures[i].to_entry());
                    i += 1;
                    assert(entries@ =~= failures@.take(i as int).map_values(
                        |record: crate::records::FailureRecord| record.spec_entry(),
                    ));
                }
                assert(failures@.take(failures@.len() as int) =~= failures@);
                entries
            },
            ErrorData::Partial { failures, .. } | ErrorData::Aborted { failures } => {
                crate::records::duplicate_entries(failures.as_slice())
            },
            ErrorData::Target { target } => {
                let mut entries: Vec<FailureEntry> = Vec::new();
                entries.push(
                    FailureEntry { target: Some(target.clone()), code: error.code, message: error.message.clone() },
                );
                assert(entries@ =~= runtime_entries(crate::session::error_view(Some(*error))));
                entries
            },
            _ => {
                let mut entries: Vec<FailureEntry> = Vec::new();
                entries.push(FailureEntry { target: None, code: error.code, message: error.message.clone() });
                assert(entries@ =~= runtime_entries(crate::session::error_view(Some(*error))));
                entries
            },
        },
    }
}

/// After a session in which some targets failed to start, the partial failure that merges
/// those startup failures with the session's own: reported only where some recording was
/// saved. The successes are the recordings that ended on purpose.
pub fn aggregate_startup_failures(startup_failures: &[(String, AirecError)], outcome: &SessionOutcome) -> (result: Option<AirecError>)
    ensures
        result is Some <==> (startup_failures@.len() > 0 && any_saved(events_view(outcome.events@))),
        result is Some ==> {
            let error = result->Some_0;
            &&& error.code == ErrorCode::PartialFailure
            &&& error.message@ == "one or more targets failed after at least one recording finalized"@
            &&& error.data@ == (ErrorDataView::Partial {
                successes: intended_successes(events_view(outcome.events@)),
                failures: startup_entries(startup_failures@) + runtime_entries(crate::session::error_view(outcome.error)),
            })
        },
{
    if startup_failures.len() == 0 {
        return None;
    }
    let ghost events = events_view(outcome.events@);
    let mut has_saved = false;
    let mut successes: Vec<SuccessRecord> = Vec::new();
    let mut i: usize = 0;
    while i < outcome.events.len()
        invariant
            i <= outcome.events@.len(),
            events == events_view(outcome.events@),
            has_saved == any_saved(events.take(i as int)),
            successes@ == intended_successes(events.take(i as int)),
        decreases outcome.events@.len() - i,
    {
        let ghost before = events.take(i as int);
        let ghost after = events.take(i + 1);
        assert(after.drop_last() =~= before);
        assert(after.last() == outcome.events@[i as int]@);
        match &outcome.events[i] {
            Event::Saved { target, file, stop_reason, .. } => {
                has_saved = true;
                assert(after[i as int] is Saved);
                if stop_reason.is_intended() {
                    successes.push(SuccessRecord { target: target.clone(), file: file.clone() });
                }
            },
            _ => {
                assert(!(after.last() is Saved));
                assert forall|j: int| 0 <= j < after.len() && #[trigger] after[j] is Saved implies j < i by {}
            },
        }
        i += 1;
    }
    assert(events.take(outcome.events@.len() as int) =~= events);
    if !has_saved {
        return None;
    }
    let mut failed = startup_failure_entries(startup_failures);
    let mut runtime = runtime_failure_entries(&outcome.error);
    failed.append(&mut runtime);
    Some(
        AirecError::new(
            ErrorCode::PartialFailure,
            String::from_str("one or more targets failed after at least one recording finalized"),
            ErrorData::Partial { successes, failures: failed },
        ),
    )
}

/// The error that ends a session whose policy is to abort when a target fails to start.
pub fn startup_abort_error(startup_failures: &[(String, AirecError)]) -> (error: AirecError)
    ensures
        error.code == ErrorCode::AbortedOnFailure,
        error.message@ == "session aborted because a target failed to initialize"@,
        error.data@ == (ErrorDataView::Aborted { failures: startup_entries(startup_failures@) }),
{
    let failures = startup_failure_entries(startup_failures);
    AirecError::new(
        ErrorCode::AbortedOnFailure,
        String::from_str("session aborted because a target failed to initialize"),
        ErrorData::Aborted { failures },
    )
}

/// Whether startup stops preparing further targets: under the abort policy, once one failed.
pub fn startup_stops(policy: FailurePolicy, failures: usize) -> (stops: bool)
    ensures
        stops == (policy == FailurePolicy::Abort && failures > 0),
{
    match policy {
        FailurePolicy::Abort => failures > 0,
        FailurePolicy::Continue => false,
    }
}

/// The error that ends a session before it records, if any, once `started` pipelines have
/// started and `startup_failures` lists the targets that failed: the abort error when a target
/// failed under the abort policy; otherwise, when no pipeline started, the first failure, or a
/// target-not-found error when there was no target at all.
pub fn startup_error(policy: FailurePolicy, startup_failures: &[(String, AirecError)], started: usize) -> (error:
    Option<AirecError>)
    ensures
        policy == FailurePolicy::Abort && startup_failures@.len() > 0 ==> error is Some && {
            let e = error->Some_0;
            &&& e.code == ErrorCode::AbortedOnFailure
            &&& e.message@ == "session aborted because a target failed to initialize"@
            &&& e.data@ == (ErrorDataView::Aborted { failures: startup_entries(startup_failures@) })
        },
        !(policy == FailurePolicy::Abort && startup_failures@.len() > 0) && started == 0 && startup_failures@.len()
            > 0 ==> error is Some && error->Some_0@ == startup_failures@[0].1@,
        !(policy == FailurePolicy::Abort && startup_failures@.len() > 0) && started == 0 && startup_failures@.len()
            == 0 ==> error is Some && {
            let e = error->Some_0;
            &&& e.code == ErrorCode::TargetNotFound
            &&& e.message@ == "no capture targets"@
            &&& e.data@ == (ErrorDataView::Candidates { query: None, candidates: Seq::empty() })
        },
        !(policy == FailurePolicy::Abort && startup_failures@.len() > 0) && started > 0 ==> error is None,
{
    if startup_stops(policy, startup_failures.len()) {
        return Some(startup_abort_error(startup_failures));
    }
    if started > 0 {
        return None;
    }
    if startup_failures.len() > 0 {
        return Some(startup_failures[0].1.duplicate());
    }
    Some(
        AirecError::new(
            ErrorCode::TargetNotFound,
            String::from_str("no capture targets"),
            ErrorData::Candidates { query: None, candidates: Vec::new() },
        ),
    )
}

/// The longest `duration_ms` among the `Saved` events, zero when there is none: where the
/// recorded video ends on the session's timeline.
pub open spec fn spec_video_end_ms(events: Seq<Event>) -> u64
    decreases events.len(),
{
    if events.len() == 0 {
        0
    } else {
        let earlier = spec_video_end_ms(events.drop_last());
        match events.last() {
            Event::Saved { duration_ms, .. } => if duration_ms > earlier {
                duration_ms
            } else {
                earlier
            },
            _ => earlier,
        }
    }
}

pub fn video_end_ms(events: &[Event]) -> (end: u64)
    ensures
        end == spec_video_end_ms(events@),
{
    let mut end: u64 = 0;
    let mut i: usize = 0;
    while i < events.len()
        invariant
            i <= events@.len(),
            end == spec_video_end_ms(events@.take(i as int)),
        decreases events@.len() - i,
    {
        assert(events@.take(i + 1).drop_last() =~= events@.take(i as int));
        match &events[i] {
            Event::Saved { duration_ms, .. } => {
                if *duration_ms > end {
                    end = *duration_ms;
                }
            },
            _ => {},
        }
        i += 1;
    }
    assert(events@.take(events@.len() as int) =~= events@);
    end
}

} // verus!
