use vstd::prelude::*;
use crate::error::{AirecError, AirecErrorView, ErrorCode, ErrorData, ErrorDataView};
use crate::event::{Event, EventView, StopReason, TargetSummary, Timestamp, duplicate_summaries, events_view};
use crate::model::FailurePolicy;
use crate::records::{FailureRecord, SuccessRecord};
use crate::resolve::{aggregate_code, aggregate_failures, aggregate_message, aggregate_stop_reason};

verus! {

/// What a target's pipeline reports to the session.
pub enum PipelineMessage {
    /// The target delivered its first frame.
    FirstFrame(TargetSummary),
    /// An event to publish as it is.
    Event(Event),
    /// The target ended without success.
    Failure(FailureRecord),
    /// The target ended on purpose and its file is complete.
    Complete(SuccessRecord),
}

/// The result of a whole recording session.
pub struct SessionOutcome {
    pub events: Vec<Event>,
    pub exit_code: i32,
    pub error: Option<AirecError>,
}

/// What the session front end does after a message was taken in.
pub struct ReceiveAction {
    /// How many events were appended to the session's event list and must be published.
    pub new_events: usize,
    /// Whether the remaining targets must be told to stop with `aborted_on_failure`.
    pub request_abort: bool,
}

pub open spec fn text_view(texts: Seq<String>) -> Seq<Seq<char>> {
    texts.map_values(|text: String| text@)
}

/// The set of targets whose startup is resolved, after `name` resolved.
pub open spec fn with_startup(resolved: Seq<Seq<char>>, name: Seq<char>) -> Seq<Seq<char>> {
    if resolved.contains(name) {
        resolved
    } else {
        resolved.push(name)
    }
}

pub open spec fn error_view(error: Option<AirecError>) -> Option<AirecErrorView> {
    match error {
        Some(e) => Some(e@),
        None => None,
    }
}

/// The error that ends a session, given what its targets reported.
///
/// No failure: none. Every target failed, and either there was one target or the policy is
/// to continue: the first failure, with all failures listed. Otherwise: the policy's summary.
pub open spec fn session_error(
    error: Option<AirecErrorView>,
    policy: FailurePolicy,
    target_count: int,
    successes: Seq<SuccessRecord>,
    failures: Seq<FailureRecord>,
) -> bool {
    if failures.len() == 0 {
        error is None
    } else if successes.len() == 0 && (target_count == 1 || policy is Continue) {
        error == Some(
            AirecErrorView {
                code: failures[0].code,
                message: failures[0].message,
                data: ErrorDataView::TargetFailures { target: failures[0].target, failures },
            },
        )
    } else {
        &&& error is Some
        &&& error->0.code == aggregate_code(policy)
        &&& error->0.message@ == aggregate_message(policy)
        &&& error->0.data == (ErrorDataView::Aggregate {
            successes,
            failures,
            stop_reason: aggregate_stop_reason(policy),
        })
    }
}

/// The stop reason published beside a session-wide error.
pub open spec fn error_stop_reason(code: ErrorCode) -> StopReason {
    if code == ErrorCode::AbortedOnFailure {
        StopReason::AbortedOnFailure
    } else {
        StopReason::Error
    }
}

/// A failure record left for a pipeline whose thread panicked.
pub open spec fn is_thread_panic(record: FailureRecord) -> bool {
    &&& record.target@ == "pipeline-thread"@
    &&& record.code == ErrorCode::CaptureInitFailed
    &&& record.message@ == "pipeline thread panicked"@
}

fn contains_text(texts: &Vec<String>, name: &String) -> (found: bool)
    ensures
        found == text_view(texts@).contains(name@),
{
    let mut index: usize = 0;
    while index < texts.len()
        invariant
            index <= texts@.len(),
            forall|j: int| 0 <= j < index ==> texts@[j]@ != name@,
        decreases texts@.len() - index,
    {
        if texts[index] == *name {
            assert(text_view(texts@)[index as int] == name@);
            return true;
        }
        index += 1;
    }
    assert(!text_view(texts@).contains(name@)) by {
        if text_view(texts@).contains(name@) {
            let k = choose|k: int| 0 <= k < text_view(texts@).len() && text_view(texts@)[k] == name@;
            assert(texts@[k]@ == name@);
        }
    }
    false
}

/// Collects what the pipelines of one session report and decides what the session publishes.
pub struct SessionAggregator {
    pub session: String,
    pub target_count: usize,
    pub failure_policy: FailurePolicy,
    pub events: Vec<Event>,
    pub started_targets: Vec<TargetSummary>,
    pub successes: Vec<SuccessRecord>,
    pub failures: Vec<FailureRecord>,
    pub completed: usize,
    pub started_emitted: bool,
    pub startup_targets: Vec<String>,
    /// How many `started` events arrived from pipelines and were forwarded as they are.
    pub forwarded_started: Ghost<nat>,
}

/// The number of `started` events in `events`.
pub open spec fn started_count(events: Seq<Event>) -> nat
    decreases events.len(),
{
    if events.len() == 0 {
        0
    } else {
        started_count(events.drop_last()) + if events.last() is Started {
            1nat
        } else {
            0nat
        }
    }
}

proof fn lemma_started_count_push(events: Seq<Event>, event: Event)
    ensures
        started_count(events.push(event)) == started_count(events) + if event is Started {
            1nat
        } else {
            0nat
        },
{
    assert(events.push(event).drop_last() =~= events);
}

impl SessionAggregator {
    pub open spec fn wf(&self) -> bool {
        &&& text_view(self.startup_targets@).no_duplicates()
        &&& self.completed <= self.target_count
        &&& started_count(self.events@) == self.forwarded_started@ + if self.started_emitted {
            1nat
        } else {
            0nat
        }
    }

    /// A session of `target_count` pipelines that has heard nothing yet.
    pub fn new(session: String, target_count: usize, failure_policy: FailurePolicy) -> (aggregator:
        SessionAggregator)
        ensures
            aggregator.wf(),
            aggregator.session == session,
            aggregator.target_count == target_count,
            aggregator.failure_policy == failure_policy,
            aggregator.events@.len() == 0,
            aggregator.started_targets@.len() == 0,
            aggregator.successes@.len() == 0,
            aggregator.failures@.len() == 0,
            aggregator.completed == 0,
            !aggregator.started_emitted,
            aggregator.startup_targets@.len() == 0,
            aggregator.forwarded_started@ == 0,
    {
        let aggregator = SessionAggregator {
            session,
            target_count,
            failure_policy,
            events: Vec::new(),
            started_targets: Vec::new(),
            successes: Vec::new(),
            failures: Vec::new(),
            completed: 0,
            started_emitted: false,
            startup_targets: Vec::new(),
            forwarded_started: Ghost(0),
        };
        assert(text_view(aggregator.startup_targets@) =~= Seq::<Seq<char>>::empty());
        aggregator
    }

    /// Whether every target has either delivered a first frame or failed.
    pub open spec fn startup_resolved(&self) -> bool {
        self.startup_targets@.len() == self.target_count
    }

    fn mark_startup(&mut self, name: &String)
        requires
            old(self).wf(),
        ensures
            final(self).wf(),
            text_view(final(self).startup_targets@) == with_startup(
                text_view(old(self).startup_targets@),
                name@,
            ),
            final(self).session == old(self).session,
            final(self).target_count == old(self).target_count,
            final(self).failure_policy == old(self).failure_policy,
            final(self).events == old(self).events,
            final(self).started_targets == old(self).started_targets,
            final(self).successes == old(self).successes,
            final(self).failures == old(self).failures,
            final(self).completed == old(self).completed,
            final(self).started_emitted == old(self).started_emitted,
            final(self).forwarded_started == old(self).forwarded_started,
    {
        if !contains_text(&self.startup_targets, name) {
            let ghost before = text_view(self.startup_targets@);
            self.startup_targets.push(name.clone());
            assert(text_view(self.startup_targets@) =~= before.push(name@));
        }
    }

    /// Takes in one pipeline message. Events are appended to `events`; once every target's
    /// startup is resolved and at least one target delivered a frame, a single `started`
    /// event follows.
    pub fn receive(&mut self, message: PipelineMessage, now: Timestamp) -> (action: ReceiveAction)
        requires
            old(self).wf(),
            old(self).completed < old(self).target_count,
        ensures
            final(self).wf(),
            final(self).session == old(self).session,
            final(self).target_count == old(self).target_count,
            final(self).failure_policy == old(self).failure_policy,
            match message {
                PipelineMessage::FirstFrame(summary) => {
                    &&& final(self).started_targets@ == old(self).started_targets@.push(summary)
                    &&& final(self).successes@ == old(self).successes@
                    &&& final(self).failures@ == old(self).failures@
                    &&& final(self).completed == old(self).completed
                    &&& text_view(final(self).startup_targets@) == with_startup(
                        text_view(old(self).startup_targets@),
                        summary.file@,
                    )
                },
                PipelineMessage::Event(_) => {
                    &&& final(self).started_targets@ == old(self).started_targets@
                    &&& final(self).successes@ == old(self).successes@
                    &&& final(self).failures@ == old(self).failures@
                    &&& final(self).completed == old(self).completed
                    &&& final(self).startup_targets@ == old(self).startup_targets@
                },
                PipelineMessage::Failure(failure) => {
                    &&& final(self).started_targets@ == old(self).started_targets@
                    &&& final(self).successes@ == old(self).successes@
                    &&& final(self).failures@ == old(self).failures@.push(failure)
                    &&& final(self).completed == old(self).completed + 1
                    &&& text_view(final(self).startup_targets@) == with_startup(
                        text_view(old(self).startup_targets@),
                        failure.target@,
                    )
                },
                PipelineMessage::Complete(success) => {
                    &&& final(self).started_targets@ == old(self).started_targets@
                    &&& final(self).successes@ == old(self).successes@.push(success)
                    &&& final(self).failures@ == old(self).failures@
                    &&& final(self).completed == old(self).completed + 1
                    &&& final(self).startup_targets@ == old(self).startup_targets@
                },
            },
            ({
                let forwarded = match message {
                    PipelineMessage::Event(event) => events_view(old(self).events@).push(event@),
                    _ => events_view(old(self).events@),
                };
                let starts = !old(self).started_emitted && final(self).startup_resolved()
                    && final(self).started_targets@.len() > 0;
                &&& final(self).started_emitted == (old(self).started_emitted || starts)
                &&& starts ==> events_view(final(self).events@) == forwarded.push(
                    EventView::Started {
                        ts: now,
                        session: old(self).session,
                        target: None,
                        targets: final(self).started_targets@,
                    },
                )
                &&& !starts ==> events_view(final(self).events@) == forwarded
            }),
            action.new_events == final(self).events@.len() - old(self).events@.len(),
            old(self).events@.len() <= final(self).events@.len(),
            final(self).events@.take(old(self).events@.len() as int) == old(self).events@,
            action.request_abort == (message is Failure && old(self).failure_policy
                == FailurePolicy::Abort),
            final(self).forwarded_started@ == old(self).forwarded_started@ + if message matches PipelineMessage::Event(
                event,
            ) && event is Started {
                1nat
            } else {
                0nat
            },
    {
        let ghost old_events = self.events@;
        let before = self.events.len();
        let mut request_abort = false;
        match message {
            PipelineMessage::FirstFrame(summary) => {
                self.mark_startup(&summary.file);
                self.started_targets.push(summary);
            },
            PipelineMessage::Event(event) => {
                let ghost pushed = event;
                self.events.push(event);
                assert(events_view(self.events@) =~= events_view(old_events).push(
                    self.events@.last()@,
                ));
                proof {
                    lemma_started_count_push(old_events, pushed);
                }
                self.forwarded_started = Ghost(
                    self.forwarded_started@ + if pushed is Started {
                        1nat
                    } else {
                        0nat
                    },
                );
            },
            PipelineMessage::Failure(failure) => {
                self.mark_startup(&failure.target);
                self.failures.push(failure);
                self.completed = self.completed + 1;
                if self.failure_policy == FailurePolicy::Abort {
                    request_abort = true;
                }
            },
            PipelineMessage::Complete(success) => {
                self.successes.push(success);
                self.completed = self.completed + 1;
            },
        }
        let ghost forwarded = events_view(self.events@);
        if !self.started_emitted && self.startup_targets.len() == self.target_count
            && self.started_targets.len() > 0 {
            let targets = duplicate_summaries(self.started_targets.as_slice());
            let started = Event::Started {
                ts: now,
                session: self.session.clone(),
                target: None,
                targets,
            };
            let ghost earlier = self.events@;
            self.events.push(started);
            assert(events_view(self.events@) =~= forwarded.push(self.events@.last()@));
            proof {
                lemma_started_count_push(earlier, self.events@.last());
            }
            self.started_emitted = true;
        }
        ReceiveAction { new_events: self.events.len() - before, request_abort }
    }

    /// Records a pipeline whose thread ended by panicking.
    pub fn record_panicked_pipeline(&mut self)
        requires
            old(self).wf(),
        ensures
            final(self).wf(),
            final(self).failures@.len() == old(self).failures@.len() + 1,
            final(self).failures@.drop_last() == old(self).failures@,
            is_thread_panic(final(self).failures@.last()),
            final(self).session == old(self).session,
            final(self).target_count == old(self).target_count,
            final(self).failure_policy == old(self).failure_policy,
            final(self).events@ == old(self).events@,
            final(self).successes@ == old(self).successes@,
            final(self).started_targets@ == old(self).started_targets@,
            final(self).startup_targets@ == old(self).startup_targets@,
            final(self).completed == old(self).completed,
            final(self).started_emitted == old(self).started_emitted,
            final(self).forwarded_started == old(self).forwarded_started,
    {
        self.failures.push(
            FailureRecord {
                target: String::from_str("pipeline-thread"),
                code: ErrorCode::CaptureInitFailed,
                message: String::from_str("pipeline thread panicked"),
            },
        );
        assert(self.failures@.drop_last() =~= old(self).failures@);
    }

    /// Ends the session: the error that summarizes its failures, published after all other
    /// events, and the exit status that goes with it.
    pub fn finish(self, now: Timestamp) -> (outcome: SessionOutcome)
        ensures
            session_error(
                error_view(outcome.error),
                self.failure_policy,
                self.target_count as int,
                self.successes@,
                self.failures@,
            ),
            outcome.exit_code == match outcome.error {
                Some(e) => e.code.spec_exit_code(),
                None => 0,
            },
            outcome.error is None ==> outcome.events@ == self.events@,
            self.events@.len() <= outcome.events@.len(),
            outcome.events@.take(self.events@.len() as int) == self.events@,
            started_count(outcome.events@) == started_count(self.events@),
            outcome.error matches Some(e) ==> events_view(outcome.events@) == events_view(
                self.events@,
            ).push(
                EventView::Error {
                    ts: now,
                    session: self.session,
                    target: None,
                    code: e.code,
                    message: e.message,
                    data: e.data@,
                    stop_reason: Some(error_stop_reason(e.code)),
                },
            ),
    {
        let SessionAggregator { session, target_count, failure_policy, events, successes, failures, .. } =
            self;
        let mut events = events;
        let error = if failures.len() == 0 {
            None
        } else if successes.len() == 0 && (target_count == 1 || failure_policy
            == FailurePolicy::Continue) {
            let first_code = failures[0].code;
            let first_message = failures[0].message.clone();
            let first_target = failures[0].target.clone();
            Some(
                AirecError::new(
                    first_code,
                    first_message,
                    ErrorData::TargetFailures { target: first_target, failures },
                ),
            )
        } else {
            aggregate_failures(failure_policy, successes.as_slice(), failures.as_slice())
        };
        match &error {
            Some(e) => {
                let stop_reason = if e.code == ErrorCode::AbortedOnFailure {
                    StopReason::AbortedOnFailure
                } else {
                    StopReason::Error
                };
                let ghost before = events_view(events@);
                let ghost earlier = events@;
                events.push(
                    Event::Error {
                        ts: now,
                        session,
                        target: None,
                        code: e.code,
                        message: e.message.clone(),
                        data: e.data.duplicate(),
                        stop_reason: Some(stop_reason),
                    },
                );
                assert(events_view(events@) =~= before.push(events@.last()@));
                proof {
                    lemma_started_count_push(earlier, events@.last());
                }
            },
            None => {},
        }
        let exit_code = match &error {
            Some(e) => e.exit_code(),
            None => 0,
        };
        SessionOutcome { events, exit_code, error }
    }
}

/// The outcome of a session that was given no targets.
pub fn no_targets_outcome(session: String, now: Timestamp) -> (outcome: SessionOutcome)
    ensures
        outcome.exit_code == 2,
        outcome.error matches Some(e) && e.code == ErrorCode::TargetNotFound
            && e.message@ == "no capture targets"@
            && e.data@ == (ErrorDataView::Candidates { query: None, candidates: Seq::empty() }),
        outcome.events@.len() == 1,
        outcome.events@[0]@ == (EventView::Error {
            ts: now,
            session,
            target: None,
            code: ErrorCode::TargetNotFound,
            message: outcome.error->0.message,
            data: outcome.error->0.data@,
            stop_reason: None,
        }),
{
    let error = AirecError::new(
        ErrorCode::TargetNotFound,
        String::from_str("no capture targets"),
        ErrorData::Candidates { query: None, candidates: Vec::new() },
    );
    let event = Event::Error {
        ts: now,
        session,
        target: None,
        code: error.code,
        message: error.message.clone(),
        data: error.data.duplicate(),
        stop_reason: None,
    };
    let mut events: Vec<Event> = Vec::new();
    events.push(event);
    let exit_code = error.exit_code();
    SessionOutcome { events, exit_code, error: Some(error) }
}

/// How a pipeline's wait for its first frame ended.
pub enum FirstFrameResult {
    /// A frame arrived.
    Arrived,
    /// The wait ended without a frame.
    Empty,
    /// The frame source failed.
    Failed(AirecError),
}

/// Why a pipeline stopped without a recording.
pub struct PipelineFailure {
    pub code: ErrorCode,
    pub message: String,
    pub stop_reason: StopReason,
}

/// Classifies the first-frame wait. A lost target is a capture failure; a live target that
/// sent nothing timed out; a source error keeps its code and message.
pub fn first_frame_failure(result: FirstFrameResult, target_alive: bool) -> (failure: Option<
    PipelineFailure,
>)
    ensures
        match result {
            FirstFrameResult::Arrived => failure is None,
            FirstFrameResult::Empty => {
                &&& failure is Some
                &&& !target_alive ==> {
                    &&& failure->0.code == ErrorCode::CaptureInitFailed
                    &&& failure->0.message@ == "target was lost before the first frame"@
                    &&& failure->0.stop_reason == StopReason::TargetLost
                }
                &&& target_alive ==> {
                    &&& failure->0.code == ErrorCode::FirstFrameTimeout
                    &&& failure->0.message@ == "first frame did not arrive within 30 seconds"@
                    &&& failure->0.stop_reason == StopReason::Error
                }
            },
            FirstFrameResult::Failed(error) => {
                &&& failure is Some
                &&& failure->0.code == error.code
                &&& failure->0.message == error.message
                &&& failure->0.stop_reason == StopReason::Error
            },
        },
{
    match result {
        FirstFrameResult::Arrived => None,
        FirstFrameResult::Empty => {
            if !target_alive {
                Some(
                    PipelineFailure {
                        code: ErrorCode::CaptureInitFailed,
                        message: String::from_str("target was lost before the first frame"),
                        stop_reason: StopReason::TargetLost,
                    },
                )
            } else {
                Some(
                    PipelineFailure {
                        code: ErrorCode::FirstFrameTimeout,
                        message: String::from_str("first frame did not arrive within 30 seconds"),
                        stop_reason: StopReason::Error,
                    },
                )
            }
        },
        FirstFrameResult::Failed(error) => Some(
            PipelineFailure { code: error.code, message: error.message, stop_reason: StopReason::Error },
        ),
    }
}

/// The two messages a failing pipeline sends: a target error event, then its failure record.
pub fn pipeline_failure_messages(
    session: &String,
    target: &String,
    failure: PipelineFailure,
    now: Timestamp,
) -> (messages: (PipelineMessage, PipelineMessage))
    ensures
        messages.0 matches PipelineMessage::Event(event) && event@ == (EventView::Error {
            ts: now,
            session: *session,
            target: Some(*target),
            code: failure.code,
            message: failure.message,
            data: ErrorDataView::Target { target: *target },
            stop_reason: Some(failure.stop_reason),
        }),
        messages.1 matches PipelineMessage::Failure(record) && record == (FailureRecord {
            target: *target,
            code: failure.code,
            message: failure.message,
        }),
{
    let event = Event::Error {
        ts: now,
        session: session.clone(),
        target: Some(target.clone()),
        code: failure.code,
        message: failure.message.clone(),
        data: ErrorData::Target { target: target.clone() },
        stop_reason: Some(failure.stop_reason),
    };
    let record = FailureRecord { target: target.clone(), code: failure.code, message: failure.message };
    (PipelineMessage::Event(event), PipelineMessage::Failure(record))
}

/// The stop that time alone calls for: the requested duration first, then the ceiling.
pub open spec fn spec_automatic_stop(elapsed_ns: u128, duration_ns: Option<u128>, max_duration_ns: u128) -> Option<StopReason> {
    if duration_ns is Some && elapsed_ns >= duration_ns->0 {
        Some(StopReason::DurationLimit)
    } else if elapsed_ns >= max_duration_ns {
        Some(StopReason::MaxDuration)
    } else {
        None
    }
}

#[verifier::when_used_as_spec(spec_automatic_stop)]
pub fn automatic_stop(elapsed_ns: u128, duration_ns: Option<u128>, max_duration_ns: u128) -> (reason:
    Option<StopReason>)
    ensures
        reason == spec_automatic_stop(elapsed_ns, duration_ns, max_duration_ns),
{
    match duration_ns {
        Some(duration) if elapsed_ns >= duration => Some(StopReason::DurationLimit),
        _ => if elapsed_ns >= max_duration_ns {
            Some(StopReason::MaxDuration)
        } else {
            None
        },
    }
}

/// What a recording pipeline does before it takes its next frame.
#[derive(Clone, Copy, Debug, PartialEq, Eq, Structural)]
pub enum TickDecision {
    /// Keep recording.
    Continue,
    /// Finalize the file with this reason.
    Stop(StopReason),
    /// The target disappeared: publish `target_lost`, then finalize.
    TargetLost,
}

/// A requested stop wins over a timed stop, which wins over a lost target.
pub open spec fn spec_tick_decision(
    requested: Option<StopReason>,
    elapsed_ns: u128,
    duration_ns: Option<u128>,
    max_duration_ns: u128,
    target_alive: bool,
) -> TickDecision {
    if requested is Some {
        TickDecision::Stop(requested->0)
    } else if spec_automatic_stop(elapsed_ns, duration_ns, max_duration_ns) is Some {
        TickDecision::Stop(spec_automatic_stop(elapsed_ns, duration_ns, max_duration_ns)->0)
    } else if !target_alive {
        TickDecision::TargetLost
    } else {
        TickDecision::Continue
    }
}

pub fn tick_decision(
    requested: Option<StopReason>,
    elapsed_ns: u128,
    duration_ns: Option<u128>,
    max_duration_ns: u128,
    target_alive: bool,
) -> (decision: TickDecision)
    ensures
        decision == spec_tick_decision(requested, elapsed_ns, duration_ns, max_duration_ns, target_alive),
{
    if let Some(reason) = requested {
        return TickDecision::Stop(reason);
    }
    if let Some(reason) = automatic_stop(elapsed_ns, duration_ns, max_duration_ns) {
        return TickDecision::Stop(reason);
    }
    if !target_alive {
        TickDecision::TargetLost
    } else {
        TickDecision::Continue
    }
}

/// The event that announces a closed window.
pub fn target_lost_event(session: &String, target: &String, now: Timestamp) -> (event: Event)
    ensures
        event@ is TargetLost,
        event@->TargetLost_ts == now,
        event@->TargetLost_session == *session,
        event@->TargetLost_target == *target,
        event@->TargetLost_stop_reason == StopReason::TargetLost,
        event@->TargetLost_data is Cause,
        event@->TargetLost_data->cause@ == "window_closed"@,
{
    Event::TargetLost {
        ts: now,
        session: session.clone(),
        target: target.clone(),
        stop_reason: StopReason::TargetLost,
        data: ErrorData::Cause { cause: String::from_str("window_closed") },
    }
}

/// What a pipeline reports after its file was finalized: success for an intended stop,
/// otherwise a failure (`aborted_on_failure` keeps its own code).
pub fn pipeline_completion(target: String, file: String, stop_reason: StopReason) -> (message:
    PipelineMessage)
    ensures
        stop_reason.spec_is_intended() ==> message == PipelineMessage::Complete(
            SuccessRecord { target, file },
        ),
        !stop_reason.spec_is_intended() ==> {
            &&& message is Failure
            &&& message->Failure_0.target == target
            &&& message->Failure_0.code == (if stop_reason == StopReason::AbortedOnFailure {
                ErrorCode::AbortedOnFailure
            } else {
                ErrorCode::CaptureInitFailed
            })
            &&& message->Failure_0.message@ == "pipeline ended with "@ + stop_reason.spec_variant_name()
        },
{
    if stop_reason.is_intended() {
        PipelineMessage::Complete(SuccessRecord { target, file })
    } else {
        let code = if stop_reason == StopReason::AbortedOnFailure {
            ErrorCode::AbortedOnFailure
        } else {
            ErrorCode::CaptureInitFailed
        };
        let message = String::from_str("pipeline ended with ").concat(stop_reason.variant_name());
        PipelineMessage::Failure(FailureRecord { target, code, message })
    }
}

/// Records a stop request unless one is already pending; the first request wins.
pub fn set_stop(slot: &mut Option<StopReason>, reason: StopReason)
    ensures
        *final(slot) == (match *old(slot) {
            Some(pending) => Some(pending),
            None => Some(reason),
        }),
{
    if slot.is_none() {
        *slot = Some(reason);
    }
}

} // verus!
