//! What a detached session publishes about itself and answers on its control pipe.
use vstd::prelude::*;
use crate::cli::pipe_display_name;
use crate::error::{AirecError, ErrorCode, ErrorData, ErrorDataView, duplicate_texts};
use crate::event::{Event, EventView, StopReason, duplicate_summaries, events_view};
use crate::model::ResolvedTarget;

verus! {

/// A request on a session's control pipe.
#[derive(Clone, Copy, Debug, PartialEq, Eq, Structural)]
pub enum ControlRequest {
    Status,
    Stop,
}

#[derive(Clone, Copy, Debug, PartialEq, Eq, Structural)]
pub enum SessionState {
    Starting,
    Recording,
    Stopping,
    Finished,
    Failed,
}

/// The progress of one target.
#[derive(Clone, Debug)]
pub struct TargetSnapshot {
    pub target: String,
    pub file: String,
    pub elapsed_ms: u64,
    pub frames: u64,
    pub dropped: u64,
    pub minimized: bool,
    pub stop_reason: Option<StopReason>,
}

/// The published state of a session.
#[derive(Clone, Debug)]
pub struct SessionSnapshot {
    pub session: String,
    pub state: SessionState,
    pub pipe: String,
    pub targets: Vec<TargetSnapshot>,
    pub updated_at: String,
}

/// The answer on a session's control pipe.
pub enum ControlResponse {
    Status { session: SessionSnapshot },
    Events { events: Vec<Event>, exit_code: i32 },
    Error { code: ErrorCode, message: String },
}

impl TargetSnapshot {
    pub fn duplicate(&self) -> (copy: TargetSnapshot)
        ensures
            copy == *self,
    {
        TargetSnapshot {
            target: self.target.clone(),
            file: self.file.clone(),
            elapsed_ms: self.elapsed_ms,
            frames: self.frames,
            dropped: self.dropped,
            minimized: self.minimized,
            stop_reason: self.stop_reason,
        }
    }
}

/// The snapshot of a session that is starting: every target at zero, none stopped.
pub fn initial_snapshot(session: String, targets: &[ResolvedTarget], now: String) -> (snapshot: SessionSnapshot)
    ensures
        snapshot.session == session,
        snapshot.state == SessionState::Starting,
        snapshot.pipe@ == "\\\\.\\pipe\\airec-"@ + session@,
        snapshot.updated_at == now,
        snapshot.targets@.len() == targets@.len(),
        forall|i: int|
            0 <= i < targets@.len() ==> #[trigger] snapshot.targets@[i] == (TargetSnapshot {
                target: targets@[i].id,
                file: targets@[i].output,
                elapsed_ms: 0,
                frames: 0,
                dropped: 0,
                minimized: targets@[i].minimized,
                stop_reason: None,
            }),
{
    let mut snapshots: Vec<TargetSnapshot> = Vec::new();
    let mut i: usize = 0;
    while i < targets.len()
        invariant
            i <= targets@.len(),
            snapshots@.len() == i,
            forall|j: int|
                0 <= j < i ==> #[trigger] snapshots@[j] == (TargetSnapshot {
                    target: targets@[j].id,
                    file: targets@[j].output,
                    elapsed_ms: 0,
                    frames: 0,
                    dropped: 0,
                    minimized: targets@[j].minimized,
                    stop_reason: None,
                }),
        decreases targets@.len() - i,
    {
        let target = &targets[i];
        snapshots.push(
            TargetSnapshot {
                target: target.id.clone(),
                file: target.output.clone(),
                elapsed_ms: 0,
                frames: 0,
                dropped: 0,
                minimized: target.minimized,
                stop_reason: None,
            },
        );
        i += 1;
    }
    let pipe = pipe_display_name(session.as_str());
    SessionSnapshot { session, state: SessionState::Starting, pipe, targets: snapshots, updated_at: now }
}

/// The first target whose file is `file`, or the number of targets if none is.
pub open spec fn target_index(targets: Seq<TargetSnapshot>, file: Seq<char>) -> int
    decreases targets.len(),
{
    if targets.len() == 0 {
        0
    } else if targets[0].file@ == file {
        0
    } else {
        1 + target_index(targets.skip(1), file)
    }
}

proof fn lemma_target_index(targets: Seq<TargetSnapshot>, file: Seq<char>)
    ensures
        0 <= target_index(targets, file) <= targets.len(),
        target_index(targets, file) < targets.len() ==> targets[target_index(targets, file)].file@ == file,
        forall|j: int| 0 <= j < target_index(targets, file) ==> (#[trigger] targets[j]).file@ != file,
    decreases targets.len(),
{
    if targets.len() > 0 && targets[0].file@ != file {
        lemma_target_index(targets.skip(1), file);
        assert forall|j: int| 0 <= j < target_index(targets, file) implies (#[trigger] targets[j]).file@ != file by {
            if j > 0 {
                assert(targets[j] == targets.skip(1)[j - 1]);
            }
        }
    }
}

/// The snapshot after an event: `started` marks the session recording; a heartbeat or a saved
/// recording updates the first target with that file; other events change nothing but the
/// time of the update.
pub open spec fn apply_event(snapshot: SessionSnapshot, targets: Seq<TargetSnapshot>, event: EventView, now: String) -> (SessionState, Seq<TargetSnapshot>) {
    match event {
        EventView::Started { .. } => (SessionState::Recording, targets),
        EventView::Heartbeat { target, elapsed_ms, frames, dropped, minimized, .. } => {
            let i = target_index(targets, target@);
            if i < targets.len() {
                (
                    snapshot.state,
                    targets.update(
                        i,
                        TargetSnapshot {
                            elapsed_ms,
                            frames,
                            dropped,
                            minimized: match minimized {
                                Some(value) => value,
                                None => false,
                            },
                            ..targets[i]
                        },
                    ),
                )
            } else {
                (snapshot.state, targets)
            }
        },
        EventView::Saved { target, stop_reason, duration_ms, frames, .. } => {
            let i = target_index(targets, target@);
            if i < targets.len() {
                (
                    snapshot.state,
                    targets.update(
                        i,
                        TargetSnapshot { elapsed_ms: duration_ms, frames, stop_reason: Some(stop_reason), ..targets[i] },
                    ),
                )
            } else {
                (snapshot.state, targets)
            }
        },
        _ => (snapshot.state, targets),
    }
}

fn find_target(targets: &Vec<TargetSnapshot>, file: &String) -> (index: usize)
    ensures
        index == target_index(targets@, file@),
{
    proof {
        lemma_target_index(targets@, file@);
    }
    let mut i: usize = 0;
    while i < targets.len()
        invariant
            i <= targets@.len(),
            i <= target_index(targets@, file@),
            0 <= target_index(targets@, file@) <= targets@.len(),
            target_index(targets@, file@) < targets@.len() ==> targets@[target_index(targets@, file@)].file@ == file@,
            forall|j: int| 0 <= j < target_index(targets@, file@) ==> (#[trigger] targets@[j]).file@ != file@,
        decreases targets@.len() - i,
    {
        if targets[i].file == *file {
            return i;
        }
        i += 1;
    }
    i
}

/// Records an event in the published snapshot (see [`apply_event`]).
pub fn update_state(snapshot: &mut SessionSnapshot, event: &Event, now: String)
    ensures
        final(snapshot).session == old(snapshot).session,
        final(snapshot).pipe == old(snapshot).pipe,
        final(snapshot).updated_at == now,
        (final(snapshot).state, final(snapshot).targets@) == apply_event(*old(snapshot), old(snapshot).targets@, event@, now),
{
    snapshot.updated_at = now;
    match event {
        Event::Started { .. } => {
            snapshot.state = SessionState::Recording;
        },
        Event::Heartbeat { target, elapsed_ms, frames, dropped, minimized, .. } => {
            let index = find_target(&snapshot.targets, target);
            if index < snapshot.targets.len() {
                let current = snapshot.targets[index].duplicate();
                let minimized = match minimized {
                    Some(value) => *value,
                    None => false,
                };
                snapshot.targets.set(
                    index,
                    TargetSnapshot { elapsed_ms: *elapsed_ms, frames: *frames, dropped: *dropped, minimized, ..current },
                );
            }
        },
        Event::Saved { target, stop_reason, duration_ms, frames, .. } => {
            let index = find_target(&snapshot.targets, target);
            if index < snapshot.targets.len() {
                let current = snapshot.targets[index].duplicate();
                snapshot.targets.set(
                    index,
                    TargetSnapshot {
                        elapsed_ms: *duration_ms,
                        frames: *frames,
                        stop_reason: Some(*stop_reason),
                        ..current
                    },
                );
            }
        },
        _ => {},
    }
}

/// The final state of a session that exited with `exit_code`.
pub fn finish_snapshot(snapshot: &mut SessionSnapshot, exit_code: i32, now: String)
    ensures
        final(snapshot).session == old(snapshot).session,
        final(snapshot).pipe == old(snapshot).pipe,
        final(snapshot).targets == old(snapshot).targets,
        final(snapshot).state == if exit_code == 0 {
            SessionState::Finished
        } else {
            SessionState::Failed
        },
        final(snapshot).updated_at == now,
{
    snapshot.state = if exit_code == 0 {
        SessionState::Finished
    } else {
        SessionState::Failed
    };
    snapshot.updated_at = now;
}

/// A copy of an event.
pub fn duplicate_event(event: &Event) -> (copy: Event)
    ensures
        copy@ == event@,
{
    match event {
        Event::Started { ts, session, target, targets } => Event::Started {
            ts: ts.duplicate(),
            session: session.clone(),
            target: match target {
                Some(t) => Some(t.clone()),
                None => None,
            },
            targets: duplicate_summaries(targets.as_slice()),
        },
        Event::Heartbeat { ts, session, target, elapsed_ms, frames, dropped, minimized } => Event::Heartbeat {
            ts: ts.duplicate(),
            session: session.clone(),
            target: target.clone(),
            elapsed_ms: *elapsed_ms,
            frames: *frames,
            dropped: *dropped,
            minimized: *minimized,
        },
        Event::TargetLost { ts, session, target, stop_reason, data } => Event::TargetLost {
            ts: ts.duplicate(),
            session: session.clone(),
            target: target.clone(),
            stop_reason: *stop_reason,
            data: data.duplicate(),
        },
        Event::Saved { ts, session, target, file, stop_reason, duration_ms, frames, size_bytes } => Event::Saved {
            ts: ts.duplicate(),
            session: session.clone(),
            target: target.clone(),
            file: file.clone(),
            stop_reason: *stop_reason,
            duration_ms: *duration_ms,
            frames: *frames,
            size_bytes: *size_bytes,
        },
        Event::Error { ts, session, target, code, message, data, stop_reason } => Event::Error {
            ts: ts.duplicate(),
            session: session.clone(),
            target: match target {
                Some(t) => Some(t.clone()),
                None => None,
            },
            code: *code,
            message: message.clone(),
            data: data.duplicate(),
            stop_reason: *stop_reason,
        },
    }
}

/// Whether an event reports how a target ended.
pub open spec fn is_final_event(event: EventView) -> bool {
    event is TargetLost || event is Saved || event is Error
}

/// The events a stop request is answered with: those that report how targets ended.
pub open spec fn final_events(events: Seq<EventView>) -> Seq<EventView>
    decreases events.len(),
{
    if events.len() == 0 {
        Seq::empty()
    } else if is_final_event(events.last()) {
        final_events(events.drop_last()).push(events.last())
    } else {
        final_events(events.drop_last())
    }
}

/// The answer to a stop request once the session has exited with `exit_code`.
pub fn stop_response(events: &[Event], exit_code: i32) -> (response: ControlResponse)
    ensures
        response matches ControlResponse::Events { events: answered, exit_code: code } && code == exit_code
            && events_view(answered@) == final_events(events_view(events@)),
{
    let ghost all = events_view(events@);
    let mut answered: Vec<Event> = Vec::new();
    let mut i: usize = 0;
    while i < events.len()
        invariant
            i <= events@.len(),
            all == events_view(events@),
            events_view(answered@) == final_events(all.take(i as int)),
        decreases events@.len() - i,
    {
        let ghost before = all.take(i as int);
        let ghost previous = answered@;
        assert(all.take(i + 1).drop_last() =~= before);
        assert(all.take(i + 1).last() == events@[i as int]@);
        match &events[i] {
            Event::TargetLost { .. } | Event::Saved { .. } | Event::Error { .. } => {
                answered.push(duplicate_event(&events[i]));
                assert(answered@.drop_last() == previous);
                assert(events_view(answered@) =~= events_view(previous).push(events@[i as int]@));
            },
            _ => {},
        }
        i += 1;
    }
    assert(all.take(events@.len() as int) =~= all);
    ControlResponse::Events { events: answered, exit_code }
}

/// The session a stop request goes to: the one asked for, if it is active; else the only
/// active session.
pub fn choose_stop_session(requested: Option<String>, active: &[SessionSnapshot]) -> (result: Result<String, AirecError>)
    ensures
        requested is Some && (exists|i: int| 0 <= i < active@.len() && (#[trigger] active@[i]).session@ == requested->Some_0@)
            ==> result == Ok::<String, AirecError>(requested->Some_0),
        requested is Some && !(exists|i: int| 0 <= i < active@.len() && (#[trigger] active@[i]).session@ == requested->Some_0@)
            ==> {
            &&& result is Err
            &&& result->Err_0.code == ErrorCode::NoActiveSession
            &&& result->Err_0.message@ == "session '"@ + requested->Some_0@ + "' is not active"@
            &&& result->Err_0.data == (ErrorData::Session { session: requested->Some_0 })
        },
        requested is None && active@.len() == 0 ==> {
            &&& result is Err
            &&& result->Err_0.code == ErrorCode::NoActiveSession
            &&& result->Err_0.message@ == "no active recording session"@
            &&& result->Err_0.data == ErrorData::Empty
        },
        requested is None && active@.len() == 1 ==> result == Ok::<String, AirecError>(active@[0].session),
        requested is None && active@.len() > 1 ==> {
            &&& result is Err
            &&& result->Err_0.code == ErrorCode::SessionAmbiguous
            &&& result->Err_0.message@ == "more than one recording session is active"@
            &&& result->Err_0.data@ == (ErrorDataView::Sessions {
                sessions: Seq::new(active@.len(), |i: int| active@[i].session),
            })
        },
{
    match requested {
        Some(session) => {
            let mut i: usize = 0;
            while i < active.len()
                invariant
                    i <= active@.len(),
                    requested == Some(session),
                    forall|j: int| 0 <= j < i ==> (#[trigger] active@[j]).session@ != session@,
                decreases active@.len() - i,
            {
                if active[i].session == session {
                    assert(active@[i as int].session@ == session@);
                    return Ok(session);
                }
                i += 1;
            }
            let message = String::from_str("session '").concat(session.as_str()).concat("' is not active");
            Err(AirecError::new(ErrorCode::NoActiveSession, message, ErrorData::Session { session }))
        },
        None => {
            if active.len() == 0 {
                Err(
                    AirecError::new(
                        ErrorCode::NoActiveSession,
                        String::from_str("no active recording session"),
                        ErrorData::Empty,
                    ),
                )
            } else if active.len() == 1 {
                Ok(active[0].session.clone())
            } else {
                let mut sessions: Vec<String> = Vec::new();
                let mut i: usize = 0;
                while i < active.len()
                    invariant
                        i <= active@.len(),
                        sessions@ == Seq::new(i as nat, |j: int| active@[j].session),
                    decreases active@.len() - i,
                {
                    sessions.push(active[i].session.clone());
                    i += 1;
                    assert(sessions@ =~= Seq::new(i as nat, |j: int| active@[j].session));
                }
                Err(
                    AirecError::new(
                        ErrorCode::SessionAmbiguous,
                        String::from_str("more than one recording session is active"),
                        ErrorData::Sessions { sessions },
                    ),
                )
            }
        },
    }
}

/// What the answer to a stop request means for `session`: the events and exit status, or the
/// session's error.
pub fn stop_outcome(session: &str, response: ControlResponse) -> (result: Result<(Vec<Event>, i32), AirecError>)
    ensures
        match response {
            ControlResponse::Events { events, exit_code } => result matches Ok((answered, code)) && code == exit_code
                && answered == events,
            ControlResponse::Error { code, message } => {
                &&& result is Err
                &&& result->Err_0.code == code
                &&& result->Err_0.message == message
                &&& result->Err_0.data matches ErrorData::Session { session: s } && s@ == session@
            },
            ControlResponse::Status { .. } => {
                &&& result is Err
                &&& result->Err_0.code == ErrorCode::CaptureInitFailed
                &&& result->Err_0.message@ == "invalid stop response"@
                &&& result->Err_0.data == ErrorData::Empty
            },
        },
{
    match response {
        ControlResponse::Events { events, exit_code } => Ok((events, exit_code)),
        ControlResponse::Error { code, message } => Err(
            AirecError::new(code, message, ErrorData::Session { session: String::from_str(session) }),
        ),
        ControlResponse::Status { .. } => Err(
            AirecError::new(ErrorCode::CaptureInitFailed, String::from_str("invalid stop response"), ErrorData::Empty),
        ),
    }
}

/// How a detached session's start is going, as its published state shows.
pub enum StartProgress {
    /// The session reported `started`: the event at this index.
    Started(usize),
    /// The session ended before starting, with this exit status.
    Ended(i32),
    /// Nothing decided yet.
    Waiting,
}

/// The first `started` event, if any.
pub open spec fn first_started(events: Seq<EventView>) -> int
    decreases events.len(),
{
    if events.len() == 0 {
        0
    } else if events[0] is Started {
        0
    } else {
        1 + first_started(events.skip(1))
    }
}

proof fn lemma_first_started(events: Seq<EventView>)
    ensures
        0 <= first_started(events) <= events.len(),
        first_started(events) < events.len() ==> events[first_started(events)] is Started,
        forall|j: int| 0 <= j < first_started(events) ==> !(#[trigger] events[j] is Started),
    decreases events.len(),
{
    if events.len() > 0 && !(events[0] is Started) {
        lemma_first_started(events.skip(1));
        assert forall|j: int| 0 <= j < first_started(events) implies !(#[trigger] events[j] is Started) by {
            if j > 0 {
                assert(events[j] == events.skip(1)[j - 1]);
            }
        }
    }
}

/// A started session is reported by its first `started` event; a session that finished or
/// failed first ends the start with its exit status (3 if it wrote none).
pub fn start_progress(events: &[Event], state: SessionState, exit_code: Option<i32>) -> (progress: StartProgress)
    ensures
        ({
            let all = events_view(events@);
            &&& first_started(all) < all.len() ==> progress == StartProgress::Started(first_started(all) as usize)
            &&& first_started(all) == all.len() && (state == SessionState::Failed || state == SessionState::Finished)
                ==> progress == StartProgress::Ended(match exit_code {
                Some(code) => code,
                None => 3,
            })
            &&& first_started(all) == all.len() && !(state == SessionState::Failed || state == SessionState::Finished)
                ==> progress == StartProgress::Waiting
        }),
{
    let ghost all = events_view(events@);
    proof {
        lemma_first_started(all);
    }
    let mut i: usize = 0;
    while i < events.len()
        invariant
            i <= events@.len(),
            all == events_view(events@),
            i <= first_started(all),
            0 <= first_started(all) <= all.len(),
            first_started(all) < all.len() ==> all[first_started(all)] is Started,
            forall|j: int| 0 <= j < first_started(all) ==> !(#[trigger] all[j] is Started),
        decreases events@.len() - i,
    {
        if let Event::Started { .. } = &events[i] {
            assert(all[i as int] is Started);
            return StartProgress::Started(i);
        }
        assert(!(all[i as int] is Started));
        i += 1;
    }
    match state {
        SessionState::Failed | SessionState::Finished => StartProgress::Ended(
            match exit_code {
                Some(code) => code,
                None => 3,
            },
        ),
        _ => StartProgress::Waiting,
    }
}

} // verus!
