//! The decisions of one target's recording pipeline, as a state machine: from what happened to
//! the pipeline, the messages it sends the session and where it stands next.
use vstd::prelude::*;
use crate::error::AirecError;
use crate::event::{Event, EventView, StopReason, TargetSummary, Timestamp};
use crate::session::{
    FirstFrameResult, PipelineFailure, PipelineMessage, TickDecision, first_frame_failure, pipeline_completion,
    pipeline_failure_messages, target_lost_event,
};

verus! {

/// Where a target's pipeline stands.
#[derive(Clone, Copy, Debug, PartialEq, Eq, Structural)]
pub enum PipelineStage {
    /// Waiting for the first frame.
    AwaitingFirstFrame,
    /// Writing frames.
    Recording,
    /// Stopped for this reason; the encoder is finishing the file.
    Finishing(StopReason),
    /// The pipeline has said its last word.
    Done,
}

/// What happened to a pipeline since its last step.
pub enum PipelineInput {
    /// The wait for the first frame ended with `result`, the target being alive or not.
    FirstFrame { result: FirstFrameResult, target_alive: bool, summary: TargetSummary, now: Timestamp },
    /// The check before the next frame decided `decision`.
    Tick { decision: TickDecision, now: Timestamp },
    /// A heartbeat event is due.
    Heartbeat(Event),
    /// Reading a frame, writing it or finishing the file failed.
    Failed { error: AirecError, now: Timestamp },
    /// The encoder finished the file.
    Finished { file: String, duration_ms: u64, frames: u64, size_bytes: u64, now: Timestamp },
}

/// A target's pipeline: the session and target it reports for, and where it stands.
pub struct PipelineRun {
    pub session: String,
    pub target: String,
    pub stage: PipelineStage,
}

/// A message that ends what a pipeline reports: its completion or its failure.
pub open spec fn is_last_word(message: PipelineMessage) -> bool {
    message is Complete || message is Failure
}

/// How one step's `messages` go with its stages: nothing after the last word; before it, no last
/// word; and the step that ends the pipeline sends exactly one last word, as its last message.
pub open spec fn step_sends_well(before: PipelineStage, after: PipelineStage, messages: Seq<PipelineMessage>) -> bool {
    &&& before == PipelineStage::Done ==> after == PipelineStage::Done && messages.len() == 0
    &&& after != PipelineStage::Done ==> forall|i: int| 0 <= i < messages.len() ==> !is_last_word(#[trigger] messages[i])
    &&& before != PipelineStage::Done && after == PipelineStage::Done ==> {
        &&& messages.len() > 0
        &&& is_last_word(messages.last())
        &&& forall|i: int| 0 <= i < messages.len() - 1 ==> !is_last_word(#[trigger] messages[i])
    }
}

impl PipelineRun {
    /// A pipeline waiting for its first frame.
    pub fn new(session: String, target: String) -> (run: PipelineRun)
        ensures
            run.session == session,
            run.target == target,
            run.stage == PipelineStage::AwaitingFirstFrame,
    {
        PipelineRun { session, target, stage: PipelineStage::AwaitingFirstFrame }
    }

    /// Takes in what happened and gives the messages to send, in order.
    ///
    /// Waiting for the first frame, the first frame starts the recording and is announced,
    /// while a missing one fails the pipeline. Recording, a tick that stops starts finishing
    /// (announcing a lost target first), a heartbeat is forwarded, and a failure fails the
    /// pipeline. Finishing, a finished file is announced as saved, followed by the completion
    /// or failure that its stop reason calls for, and a failure fails the pipeline. Any other
    /// input changes nothing.
    pub fn step(&mut self, input: PipelineInput) -> (messages: Vec<PipelineMessage>)
        ensures
            final(self).session == old(self).session,
            final(self).target == old(self).target,
            step_sends_well(old(self).stage, final(self).stage, messages@),
            match (old(self).stage, input) {
                (PipelineStage::AwaitingFirstFrame, PipelineInput::FirstFrame { result, target_alive, summary, now }) => {
                    match result {
                        FirstFrameResult::Arrived => {
                            &&& final(self).stage == PipelineStage::Recording
                            &&& messages@ == seq![PipelineMessage::FirstFrame(summary)]
                        },
                        _ => {
                            &&& final(self).stage == PipelineStage::Done
                            &&& messages@.len() == 2
                            &&& messages@[0] is Event
                            &&& messages@[0]->Event_0@ is Error
                            &&& messages@[1] is Failure
                            &&& messages@[1]->Failure_0.target == old(self).target
                        },
                    }
                },
                (PipelineStage::Recording, PipelineInput::Tick { decision, now }) => match decision {
                    TickDecision::Continue => final(self).stage == PipelineStage::Recording && messages@.len()
                        == 0,
                    TickDecision::Stop(reason) => final(self).stage == PipelineStage::Finishing(reason)
                        && messages@.len() == 0,
                    TickDecision::TargetLost => {
                        &&& final(self).stage == PipelineStage::Finishing(StopReason::TargetLost)
                        &&& messages@.len() == 1
                        &&& messages@[0] is Event
                        &&& messages@[0]->Event_0@ is TargetLost
                        &&& messages@[0]->Event_0@->TargetLost_ts == now
                        &&& messages@[0]->Event_0@->TargetLost_session == old(self).session
                        &&& messages@[0]->Event_0@->TargetLost_target == old(self).target
                        &&& messages@[0]->Event_0@->TargetLost_stop_reason == StopReason::TargetLost
                        &&& messages@[0]->Event_0@->TargetLost_data is Cause
                        &&& messages@[0]->Event_0@->TargetLost_data->cause@ == "window_closed"@
                    },
                },
                (PipelineStage::Recording, PipelineInput::Heartbeat(event)) => {
                    &&& final(self).stage == PipelineStage::Recording
                    &&& messages@ == seq![PipelineMessage::Event(event)]
                },
                (PipelineStage::Recording, PipelineInput::Failed { error, now })
                | (PipelineStage::Finishing(_), PipelineInput::Failed { error, now }) => {
                    &&& final(self).stage == PipelineStage::Done
                    &&& messages@.len() == 2
                    &&& messages@[0] is Event
                    &&& messages@[0]->Event_0@ is Error
                    &&& messages@[0]->Event_0@->Error_code == error.code
                    &&& messages@[1] is Failure
                    &&& messages@[1]->Failure_0.target == old(self).target
                    &&& messages@[1]->Failure_0.code == error.code
                    &&& messages@[1]->Failure_0.message == error.message
                },
                (PipelineStage::Finishing(reason), PipelineInput::Finished { file, duration_ms, frames, size_bytes, now }) => {
                    &&& final(self).stage == PipelineStage::Done
                    &&& messages@.len() == 2
                    &&& messages@[0] is Event
                    &&& messages@[0]->Event_0@ == (EventView::Saved {
                        ts: now,
                        session: old(self).session,
                        target: old(self).target,
                        file,
                        stop_reason: reason,
                        duration_ms,
                        frames,
                        size_bytes,
                    })
                    &&& reason.spec_is_intended() ==> messages@[1] == PipelineMessage::Complete(
                        crate::records::SuccessRecord { target: old(self).target, file },
                    )
                    &&& !reason.spec_is_intended() ==> messages@[1] is Failure
                        && messages@[1]->Failure_0.target == old(self).target
                },
                _ => final(self).stage == old(self).stage && messages@.len() == 0,
            },
    {
        let mut messages: Vec<PipelineMessage> = Vec::new();
        match (self.stage, input) {
            (PipelineStage::AwaitingFirstFrame, PipelineInput::FirstFrame { result, target_alive, summary, now }) => {
                match first_frame_failure(result, target_alive) {
                    None => {
                        messages.push(PipelineMessage::FirstFrame(summary));
                        self.stage = PipelineStage::Recording;
                    },
                    Some(failure) => {
                        let (event, record) = pipeline_failure_messages(&self.session, &self.target, failure, now);
                        messages.push(event);
                        messages.push(record);
                        self.stage = PipelineStage::Done;
                    },
                }
            },
            (PipelineStage::Recording, PipelineInput::Tick { decision, now }) => match decision {
                TickDecision::Continue => {},
                TickDecision::Stop(reason) => {
                    self.stage = PipelineStage::Finishing(reason);
                },
                TickDecision::TargetLost => {
                    messages.push(PipelineMessage::Event(target_lost_event(&self.session, &self.target, now)));
                    self.stage = PipelineStage::Finishing(StopReason::TargetLost);
                },
            },
            (PipelineStage::Recording, PipelineInput::Heartbeat(event)) => {
                messages.push(PipelineMessage::Event(event));
            },
            (PipelineStage::Recording, PipelineInput::Failed { error, now })
            | (PipelineStage::Finishing(_), PipelineInput::Failed { error, now }) => {
                let failure = PipelineFailure {
                    code: error.code,
                    message: error.message,
                    stop_reason: StopReason::Error,
                };
                let (event, record) = pipeline_failure_messages(&self.session, &self.target, failure, now);
                messages.push(event);
                messages.push(record);
                self.stage = PipelineStage::Done;
            },
            (PipelineStage::Finishing(reason), PipelineInput::Finished { file, duration_ms, frames, size_bytes, now }) => {
                let saved = Event::Saved {
                    ts: now,
                    session: self.session.clone(),
                    target: self.target.clone(),
                    file: file.clone(),
                    stop_reason: reason,
                    duration_ms,
                    frames,
                    size_bytes,
                };
                messages.push(PipelineMessage::Event(saved));
                messages.push(pipeline_completion(self.target.clone(), file, reason));
                self.stage = PipelineStage::Done;
            },
            _ => {},
        }
        messages
    }
}

/// The messages of steps `parts`, sent in turn.
pub open spec fn sent_in_turn(parts: Seq<Seq<PipelineMessage>>) -> Seq<PipelineMessage>
    decreases parts.len(),
{
    if parts.len() == 0 {
        Seq::empty()
    } else {
        sent_in_turn(parts.drop_last()) + parts.last()
    }
}

/// A pipeline that steps through `stages`, sending `parts[i]` on its step from `stages[i]` to
/// `stages[i + 1]`, sends no completion or failure until it is done, and once done has sent
/// exactly one, as its last message.
pub proof fn lemma_one_last_word(stages: Seq<PipelineStage>, parts: Seq<Seq<PipelineMessage>>)
    requires
        stages.len() == parts.len() + 1,
        stages[0] != PipelineStage::Done,
        forall|i: int| 0 <= i < parts.len() ==> step_sends_well(stages[i], stages[i + 1], #[trigger] parts[i]),
    ensures
        ({
            let sent = sent_in_turn(parts);
            &&& stages.last() != PipelineStage::Done ==> forall|i: int|
                0 <= i < sent.len() ==> !is_last_word(#[trigger] sent[i])
            &&& stages.last() == PipelineStage::Done ==> {
                &&& sent.len() > 0
                &&& is_last_word(sent.last())
                &&& forall|i: int| 0 <= i < sent.len() - 1 ==> !is_last_word(#[trigger] sent[i])
            }
        }),
    decreases parts.len(),
{
    if parts.len() > 0 {
        let fewer = parts.drop_last();
        let earlier = stages.drop_last();
        assert forall|i: int| 0 <= i < fewer.len() implies step_sends_well(earlier[i], earlier[i + 1], #[trigger] fewer[i]) by {
            assert(fewer[i] == parts[i]);
            assert(earlier[i] == stages[i]);
            assert(earlier[i + 1] == stages[i + 1]);
        }
        lemma_one_last_word(earlier, fewer);
        let n = parts.len() - 1;
        let before = stages[n];
        let last = parts[n];
        assert(step_sends_well(before, stages[n + 1], last));
        assert(earlier.last() == before);
        let head = sent_in_turn(fewer);
        let sent = sent_in_turn(parts);
        assert(sent == head + last);
        if before == PipelineStage::Done {
            assert(last.len() == 0);
            assert(sent =~= head);
        } else {
            assert forall|i: int| 0 <= i < sent.len() && (stages.last() != PipelineStage::Done || i < sent.len() - 1)
                implies !is_last_word(#[trigger] sent[i]) by {
                if i < head.len() {
                    assert(sent[i] == head[i]);
                } else {
                    assert(sent[i] == last[i - head.len()]);
                }
            }
            if stages.last() == PipelineStage::Done {
                assert(sent.last() == last.last());
            }
        }
    }
}

} // verus!
