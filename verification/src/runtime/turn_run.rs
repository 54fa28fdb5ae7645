//! A turn from start to end: what a thread is entered with, which step comes next, and what is made
//! of the state once it is durable.
//!
//! The state goes to storage before anything is announced: what the outside world is told has
//! happened is on disk.

use crate::agent::{
    AgentEvent, AgentEventView, Envelope, EnvelopeBody, EnvelopeView, PendingApproval,
    PendingApprovalView, ResumePoint, ResumePointView, ThreadId, ToolExecutionState,
    ToolExecutionStateView,
};
use crate::ids::{MessageId, Timestamp, TurnId};
use crate::llm::{ToolCall, ToolCallView};
use crate::persist::{self, StoredCheckpoint};
use crate::runtime::agent_loop::{
    self, AgentLoop, EnvelopeOutcome, EnvelopeOutcomeView, LoopStep, LoopStepView, LoopView,
    TurnEnd, TurnEndView, WindUp, WindUpView,
};
use crate::runtime::turn::CallLedger;
use crate::task::TaskId;
use crate::text;
use std::collections::VecDeque;
use vstd::multiset::Multiset;
use vstd::prelude::*;

verus! {

/// The end of a run: the state to store, and what is owed once it is.
#[derive(Debug, PartialEq, Eq)]
pub struct TurnFinish {
    pub resume_point: ResumePoint,
    pub suspended_at: Timestamp,
    pub owed: TurnEnd,
    /// The session was already exiting.
    pub exit_acquired: bool,
    /// The thread waits for an approval.
    pub suspended: bool,
}

/// The content of a [`TurnFinish`].
#[verifier::ext_equal]
pub struct TurnFinishView {
    pub resume_point: ResumePointView,
    pub suspended_at: Timestamp,
    pub owed: TurnEndView,
    pub exit_acquired: bool,
    pub suspended: bool,
}

impl View for TurnFinish {
    type V = TurnFinishView;

    open spec fn view(&self) -> TurnFinishView {
        TurnFinishView {
            resume_point: self.resume_point@,
            suspended_at: self.suspended_at,
            owed: self.owed@,
            exit_acquired: self.exit_acquired,
            suspended: self.suspended,
        }
    }
}

impl DeepView for TurnFinish {
    type V = TurnFinishView;

    open spec fn deep_view(&self) -> TurnFinishView {
        self@
    }
}

impl Clone for TurnFinish {
    fn clone(&self) -> (res: Self)
        ensures
            res@ == self@,
    {
        TurnFinish {
            resume_point: self.resume_point.clone(),
            suspended_at: self.suspended_at,
            owed: self.owed.clone(),
            exit_acquired: self.exit_acquired,
            suspended: self.suspended,
        }
    }
}

/// What a run produced, distinguishing suspension from normal completion.
#[derive(Debug, PartialEq, Eq)]
pub enum TurnOutcome {
    /// The agent is idle.
    Completed,
    /// The thread waits for an approval.
    Suspended,
    /// The turn is not over: this thread dispatched sub-agent calls and is parked until their answers
    /// arrive. Only replies may reach it meanwhile.
    AwaitingReplies(TurnId),
    /// The envelope was handed back unconsumed. It is held until the turn in flight has wound up, then
    /// delivered again in the order it arrived.
    Deferred {
        envelope: Envelope,
        /// The turn still owed answers, where the wind-up could not finish. The envelope only stays
        /// held while the thread is known to be waiting.
        awaiting: Option<TurnId>,
    },
    /// The session was already exiting.
    ExitAcquired,
}

/// The content of a [`TurnOutcome`].
#[verifier::ext_equal]
pub enum TurnOutcomeView {
    Completed,
    Suspended,
    AwaitingReplies(TurnId),
    Deferred { envelope: EnvelopeView, awaiting: Option<TurnId> },
    ExitAcquired,
}

impl View for TurnOutcome {
    type V = TurnOutcomeView;

    open spec fn view(&self) -> TurnOutcomeView {
        match self {
            TurnOutcome::Completed => TurnOutcomeView::Completed,
            TurnOutcome::Suspended => TurnOutcomeView::Suspended,
            TurnOutcome::AwaitingReplies(a) => TurnOutcomeView::AwaitingReplies(*a),
            TurnOutcome::Deferred { envelope, awaiting } => TurnOutcomeView::Deferred {
                envelope: envelope@,
                awaiting: *awaiting,
            },
            TurnOutcome::ExitAcquired => TurnOutcomeView::ExitAcquired,
        }
    }
}

impl DeepView for TurnOutcome {
    type V = TurnOutcomeView;

    open spec fn deep_view(&self) -> TurnOutcomeView {
        self@
    }
}

impl Clone for TurnOutcome {
    fn clone(&self) -> (res: Self)
        ensures
            res@ == self@,
    {
        match self {
            TurnOutcome::Completed => TurnOutcome::Completed,
            TurnOutcome::Suspended => TurnOutcome::Suspended,
            TurnOutcome::AwaitingReplies(a) => TurnOutcome::AwaitingReplies(*a),
            TurnOutcome::Deferred { envelope, awaiting } => TurnOutcome::Deferred {
                envelope: envelope.clone(),
                awaiting: *awaiting,
            },
            TurnOutcome::ExitAcquired => TurnOutcome::ExitAcquired,
        }
    }
}

/// How a run starts.
#[derive(Debug, PartialEq, Eq)]
pub enum TurnStart {
    /// The thread goes on from here.
    Proceed {
        resume_point: ResumePoint,
        suspended_at: Timestamp,
        /// Store the state before anything else, so that a snapshot taken mid-turn already contains the
        /// prompt.
        save_first: bool,
    },
    /// The run is over before it began.
    Stop {
        finish: TurnFinish,
        /// The envelope that was handed back.
        deferred: Option<Envelope>,
        awaiting: Option<TurnId>,
        /// The turn to ask to stop.
        cancel: Option<TurnId>,
    },
}

/// The content of a [`TurnStart`].
#[verifier::ext_equal]
pub enum TurnStartView {
    Proceed { resume_point: ResumePointView, suspended_at: Timestamp, save_first: bool },
    Stop { finish: TurnFinishView, deferred: Option<EnvelopeView>, awaiting: Option<TurnId>, cancel: Option<TurnId> },
}

impl View for TurnStart {
    type V = TurnStartView;

    open spec fn view(&self) -> TurnStartView {
        match self {
            TurnStart::Proceed { resume_point, suspended_at, save_first } => TurnStartView::Proceed {
                resume_point: resume_point@,
                suspended_at: *suspended_at,
                save_first: *save_first,
            },
            TurnStart::Stop { finish, deferred, awaiting, cancel } => TurnStartView::Stop {
                finish: finish@,
                deferred: deferred.deep_view(),
                awaiting: *awaiting,
                cancel: *cancel,
            },
        }
    }
}

impl DeepView for TurnStart {
    type V = TurnStartView;

    open spec fn deep_view(&self) -> TurnStartView {
        self@
    }
}

impl Clone for TurnStart {
    fn clone(&self) -> (res: Self)
        ensures
            res@ == self@,
    {
        match self {
            TurnStart::Proceed { resume_point, suspended_at, save_first } => TurnStart::Proceed {
                resume_point: resume_point.clone(),
                suspended_at: *suspended_at,
                save_first: *save_first,
            },
            TurnStart::Stop { finish, deferred, awaiting, cancel } => TurnStart::Stop {
                finish: finish.clone(),
                deferred: deferred.clone(),
                awaiting: *awaiting,
                cancel: *cancel,
            },
        }
    }
}

/// What comes next in a run.
#[derive(Debug, PartialEq, Eq)]
pub enum TurnStep {
    /// Call the model.
    Generate,
    /// Run a batch of tool calls.
    Execute(ToolExecutionState),
    /// The run ends here.
    Finish(TurnFinish),
}

/// The content of a [`TurnStep`].
#[verifier::ext_equal]
pub enum TurnStepView {
    Generate,
    Execute(ToolExecutionStateView),
    Finish(TurnFinishView),
}

impl View for TurnStep {
    type V = TurnStepView;

    open spec fn view(&self) -> TurnStepView {
        match self {
            TurnStep::Generate => TurnStepView::Generate,
            TurnStep::Execute(a) => TurnStepView::Execute(a@),
            TurnStep::Finish(a) => TurnStepView::Finish(a@),
        }
    }
}

impl DeepView for TurnStep {
    type V = TurnStepView;

    open spec fn deep_view(&self) -> TurnStepView {
        self@
    }
}

impl Clone for TurnStep {
    fn clone(&self) -> (res: Self)
        ensures
            res@ == self@,
    {
        match self {
            TurnStep::Generate => TurnStep::Generate,
            TurnStep::Execute(a) => TurnStep::Execute(a.clone()),
            TurnStep::Finish(a) => TurnStep::Finish(a.clone()),
        }
    }
}

/// Where a step left the run.
#[derive(Debug, PartialEq, Eq)]
pub enum TurnProgress {
    /// The run goes on from here.
    Continue {
        resume_point: ResumePoint,
        suspended_at: Timestamp,
    },
    /// The run ends here.
    Finish(TurnFinish),
}

/// The content of a [`TurnProgress`].
#[verifier::ext_equal]
pub enum TurnProgressView {
    Continue { resume_point: ResumePointView, suspended_at: Timestamp },
    Finish(TurnFinishView),
}

impl View for TurnProgress {
    type V = TurnProgressView;

    open spec fn view(&self) -> TurnProgressView {
        match self {
            TurnProgress::Continue { resume_point, suspended_at } => TurnProgressView::Continue {
                resume_point: resume_point@,
                suspended_at: *suspended_at,
            },
            TurnProgress::Finish(a) => TurnProgressView::Finish(a@),
        }
    }
}

impl DeepView for TurnProgress {
    type V = TurnProgressView;

    open spec fn deep_view(&self) -> TurnProgressView {
        self@
    }
}

impl Clone for TurnProgress {
    fn clone(&self) -> (res: Self)
        ensures
            res@ == self@,
    {
        match self {
            TurnProgress::Continue { resume_point, suspended_at } => TurnProgress::Continue {
                resume_point: resume_point.clone(),
                suspended_at: *suspended_at,
            },
            TurnProgress::Finish(a) => TurnProgress::Finish(a.clone()),
        }
    }
}

impl TurnFinishView {
    /// Whether the turn is announced to be over. A suspension is announced too, but parks the turn.
    pub open spec fn announces_ending(self) -> bool {
        self.owed.event is Some && !self.suspended
    }

    /// Whether sub-agents still owe the thread answers.
    pub open spec fn awaits_replies(self) -> bool {
        match self.resume_point {
            ResumePointView::ToolExecution(state) => state.pending_replies.len() > 0,
            _ => false,
        }
    }
}

impl TurnFinish {
    /// Whether the turn is announced to be over.
    pub fn announces_ending(&self) -> (res: bool)
        ensures
            res == self@.announces_ending(),
    {
        self.owed.event.is_some() && !self.suspended
    }

    /// Whether sub-agents still owe the thread answers.
    pub fn awaits_replies(&self) -> (res: bool)
        ensures
            res == self@.awaits_replies(),
    {
        match &self.resume_point {
            ResumePoint::ToolExecution(state) => state.pending_replies.len() > 0,
            _ => false,
        }
    }
}

/// The end of a run at this point, with this owed.
pub open spec fn finish_at(
    resume_point: ResumePointView,
    suspended_at: Timestamp,
    owed: TurnEndView,
) -> TurnFinishView {
    TurnFinishView { resume_point, suspended_at, owed, exit_acquired: false, suspended: false }
}

/// The end of a run that wound up: it waits, or its turn is over.
pub open spec fn finish_after_wind_up(res: WindUpView, suspended_at: Timestamp) -> TurnFinishView {
    match res {
        WindUpView::Waiting(point) => finish_at(point, suspended_at, TurnEndView::nothing()),
        WindUpView::Ended(end) => finish_at(ResumePointView::Generation, suspended_at, end),
    }
}

/// The run once an envelope was taken: events raised from now on carry the turn of the work it
/// opened.
pub open spec fn refreshed(run: LoopView) -> LoopView {
    LoopView { turn: run.thread_turn(), ..run }
}

/// How a run starts, given what the thread was entered with and what became of its envelope.
///
/// An envelope that was taken lets the run proceed; a user's prompt is stored first. One that was not
/// for this thread ends the run. One that was refused means that the turn in flight has just been
/// asked to stop, so it winds up right here: the envelope has to come back to a thread that no longer
/// holds the old turn's work, or it would be refused forever.
pub open spec fn turn_started(
    entered: LoopView,
    calls: Multiset<Seq<char>>,
    point: ResumePointView,
    suspended_at: Timestamp,
    envelope: Option<EnvelopeView>,
    after: LoopView,
    calls_after: Multiset<Seq<char>>,
    start: TurnStartView,
) -> bool {
    match envelope {
        None => {
            &&& after == entered
            &&& calls_after == calls
            &&& start == (TurnStartView::Proceed {
                resume_point: point,
                suspended_at,
                save_first: false,
            })
        },
        Some(envelope) => exists|taken: LoopView, outcome: EnvelopeOutcomeView| #[trigger]
            agent_loop::envelope_handled(
                entered,
                calls,
                point,
                envelope,
                taken,
                calls_after,
                outcome,
            ) && match outcome {
                EnvelopeOutcomeView::Next(next) => {
                    &&& after == refreshed(taken)
                    &&& start == (TurnStartView::Proceed {
                        resume_point: next,
                        suspended_at,
                        save_first: envelope.body is Task,
                    })
                },
                EnvelopeOutcomeView::Done(next, owed) => {
                    &&& after == taken
                    &&& start == (TurnStartView::Stop {
                        finish: finish_at(next, suspended_at, owed),
                        deferred: None,
                        awaiting: None,
                        cancel: None,
                    })
                },
                EnvelopeOutcomeView::Deferred { envelope: held, resume_point, cancel } => exists|
                    res: WindUpView,
                | #[trigger]
                    agent_loop::wound_up(taken, resume_point, after, res) && start == (
                    TurnStartView::Stop {
                        finish: finish_after_wind_up(res, suspended_at),
                        deferred: Some(held),
                        awaiting: if res is Waiting {
                            Some(taken.turn)
                        } else {
                            None
                        },
                        cancel,
                    }),
            },
    }
}

/// What a thread parked on an approval shows whoever decides.
pub open spec fn approval_request(
    run: LoopView,
    parent_message_id: MessageId,
    calls: Seq<ToolCallView>,
    suspended_at: Timestamp,
    task_id: Option<Seq<char>>,
) -> PendingApprovalView {
    PendingApprovalView {
        thread_id: run.thread_id,
        agent_name: run.name,
        parent_message_id,
        calls,
        suspended_at,
        task_id,
    }
}

/// What comes next in a run. A session that is exiting ends it where it stands; a turn that was asked
/// to stop winds up. Both are looked at before every step: the request can arrive while the thread is
/// mid-turn.
pub open spec fn step_chosen(
    before: LoopView,
    point: ResumePointView,
    suspended_at: Timestamp,
    exiting: bool,
    cancelled: bool,
    task_id: Option<Seq<char>>,
    after: LoopView,
    step: TurnStepView,
) -> bool {
    if exiting {
        &&& after == before
        &&& step == TurnStepView::Finish(
            TurnFinishView {
                exit_acquired: true,
                ..finish_at(point, suspended_at, TurnEndView::nothing())
            },
        )
    } else if cancelled {
        exists|res: WindUpView| #[trigger]
            agent_loop::wound_up(before, point, after, res) && step == TurnStepView::Finish(
                finish_after_wind_up(res, suspended_at),
            )
    } else {
        &&& after == before
        &&& step == (match point {
            ResumePointView::Generation => TurnStepView::Generate,
            ResumePointView::ToolExecution(state) => TurnStepView::Execute(state),
            ResumePointView::PendingApproval {
                parent_message_id,
                pending_approval_calls,
                pending_calls,
            } => TurnStepView::Finish(
                if pending_approval_calls.len() > 0 {
                    TurnFinishView {
                        suspended: true,
                        ..finish_at(
                            point,
                            suspended_at,
                            TurnEndView {
                                event: Some(
                                    AgentEventView::Suspended(
                                        approval_request(
                                            before,
                                            parent_message_id,
                                            pending_approval_calls,
                                            suspended_at,
                                            task_id,
                                        ),
                                    ),
                                ),
                                reply: None,
                            },
                        )
                    }
                } else {
                    finish_at(point, suspended_at, TurnEndView::nothing())
                },
            ),
        })
    }
}

/// Where a call to the model left the run. A batch that needs an approval is suspended from now on.
pub open spec fn after_generation_step(
    step: LoopStepView,
    suspended_at: Timestamp,
    now: Timestamp,
) -> TurnProgressView {
    match step {
        LoopStepView::Next(point) => TurnProgressView::Continue {
            resume_point: point,
            suspended_at: if point is PendingApproval {
                now
            } else {
                suspended_at
            },
        },
        LoopStepView::Done(point, end) => TurnProgressView::Finish(
            finish_at(point, suspended_at, end),
        ),
    }
}

/// Where a batch of tool calls left the run. It ends here while sub-agents owe answers.
pub open spec fn after_tools_step(step: LoopStepView, suspended_at: Timestamp) -> TurnProgressView {
    match step {
        LoopStepView::Next(point) => if point is ToolExecution {
            TurnProgressView::Finish(finish_at(point, suspended_at, TurnEndView::nothing()))
        } else {
            TurnProgressView::Continue { resume_point: point, suspended_at }
        },
        LoopStepView::Done(point, end) => TurnProgressView::Finish(
            finish_at(point, suspended_at, end),
        ),
    }
}

/// What a run produced, given whether its state was stored. A failed write never announced a
/// suspension, and left a stale checkpoint behind; going idle beats parking on a picture that is no
/// longer true.
pub open spec fn run_outcome(finish: TurnFinishView, turn: TurnId, persisted: bool) ->
    TurnOutcomeView {
    if finish.exit_acquired {
        TurnOutcomeView::ExitAcquired
    } else if finish.suspended && persisted {
        TurnOutcomeView::Suspended
    } else if finish.awaits_replies() && persisted {
        TurnOutcomeView::AwaitingReplies(turn)
    } else {
        TurnOutcomeView::Completed
    }
}

/// The turn that is over once a run finished: the root's, where an ending was announced and the state
/// is stored. A sub-agent thread finishes its own work many times within one turn.
pub open spec fn closed_turn(
    run: LoopView,
    finish: TurnFinishView,
    persisted: bool,
    is_root: bool,
) -> Option<TurnId> {
    if finish.announces_ending() && persisted && is_root {
        Some(run.thread_turn())
    } else {
        None
    }
}

/// The run once its state was stored, or could not be: what is owed is announced, or the failure is.
pub open spec fn settled(run: LoopView, saved: Result<(), Seq<char>>, owed: TurnEndView) -> LoopView {
    match saved {
        Err(error) => run.announcing(AgentEventView::PersistFailed(error)),
        Ok(()) => match owed.event {
            Some(event) => run.announcing(event),
            None => run,
        },
    }
}

/// What a run comes to with its first write, given whether its state was stored: it goes on where it
/// was. A turn whose prompt is not stored has no beginning, so the model is not asked to continue it.
pub open spec fn first_write_outcome(persisted: bool) -> Option<TurnOutcomeView> {
    if persisted {
        None
    } else {
        Some(TurnOutcomeView::Completed)
    }
}

/// The result of a write, by its content.
pub open spec fn write_result(saved: Result<(), String>) -> Result<(), Seq<char>> {
    match saved {
        Ok(()) => Ok(()),
        Err(error) => Err(error@),
    }
}

/// Whether a thread is the root of a session: the only one whose turn endings end the turn itself.
pub fn is_root_thread(session_id: &str, thread_id: &ThreadId) -> (res: bool)
    ensures
        res == (thread_id@ == session_id@),
{
    text::same_text(thread_id.as_str(), session_id)
}

/// What a run comes to with its first write: `None` where it goes on.
pub fn after_first_write(persisted: bool) -> (res: Option<TurnOutcome>)
    ensures
        res.deep_view() == first_write_outcome(persisted),
{
    if persisted {
        None
    } else {
        Some(TurnOutcome::Completed)
    }
}

/// The end of a run that wound up.
fn wind_up_finish(res: WindUp, suspended_at: Timestamp) -> (finish: TurnFinish)
    ensures
        finish@ == finish_after_wind_up(res@, suspended_at),
{
    match res {
        WindUp::Waiting(resume_point) => TurnFinish {
            resume_point,
            suspended_at,
            owed: TurnEnd::default(),
            exit_acquired: false,
            suspended: false,
        },
        WindUp::Ended(owed) => TurnFinish {
            resume_point: ResumePoint::Generation,
            suspended_at,
            owed,
            exit_acquired: false,
            suspended: false,
        },
    }
}

impl AgentLoop {
    /// Start a run: enter the thread, and take the envelope it was woken with.
    pub fn start_turn(
        &mut self,
        calls: &mut CallLedger,
        stored: Option<StoredCheckpoint>,
        envelope: Option<Envelope>,
    ) -> (res: TurnStart)
        ensures
            final(self).same_agent(*old(self)),
            turn_started(
                agent_loop::entered(old(self)@, stored.deep_view()),
                old(calls)@,
                match stored.deep_view() {
                    Some(stored) => persist::restored_resume_point(stored.resume_point),
                    None => ResumePointView::Generation,
                },
                match stored.deep_view() {
                    Some(stored) => stored.suspended_at,
                    None => Timestamp { nanoseconds: 0 },
                },
                envelope.deep_view(),
                final(self)@,
                final(calls)@,
                res@,
            ),
    {
        let (resume_point, suspended_at) = self.enter(stored);
        let ghost entered = self@;
        match envelope {
            None => TurnStart::Proceed { resume_point, suspended_at, save_first: false },
            Some(envelope) => {
                let save_first = match &envelope.body {
                    EnvelopeBody::Task { .. } => true,
                    _ => false,
                };
                let outcome = self.handle_envelope(calls, resume_point, envelope);
                let ghost taken = self@;
                let ghost handled = outcome@;
                match outcome {
                    EnvelopeOutcome::Next(resume_point) => {
                        self.turn = self.thread_turn();
                        assert(self@ =~= refreshed(taken));
                        TurnStart::Proceed { resume_point, suspended_at, save_first }
                    },
                    EnvelopeOutcome::Done(resume_point, owed) => TurnStart::Stop {
                        finish: TurnFinish {
                            resume_point,
                            suspended_at,
                            owed,
                            exit_acquired: false,
                            suspended: false,
                        },
                        deferred: None,
                        awaiting: None,
                        cancel: None,
                    },
                    EnvelopeOutcome::Deferred { envelope, resume_point, cancel } => {
                        let turn = self.turn;
                        let wound = self.wind_up(resume_point);
                        let ghost res = wound@;
                        assert(agent_loop::wound_up(taken, resume_point@, self@, res));
                        let awaiting: Option<TurnId> = match &wound {
                            WindUp::Waiting(_) => Some(turn),
                            WindUp::Ended(_) => None,
                        };
                        let finish = wind_up_finish(wound, suspended_at);
                        TurnStart::Stop { finish, deferred: Some(envelope), awaiting, cancel }
                    },
                }
            },
        }
    }

    /// Choose what comes next in a run.
    pub fn next_step(
        &mut self,
        resume_point: ResumePoint,
        suspended_at: Timestamp,
        exiting: bool,
        cancelled: bool,
        task_id: Option<TaskId>,
    ) -> (res: TurnStep)
        ensures
            final(self).same_agent(*old(self)),
            step_chosen(
                old(self)@,
                resume_point@,
                suspended_at,
                exiting,
                cancelled,
                task_id.deep_view(),
                final(self)@,
                res@,
            ),
    {
        if exiting {
            return TurnStep::Finish(
                TurnFinish {
                    resume_point,
                    suspended_at,
                    owed: TurnEnd::default(),
                    exit_acquired: true,
                    suspended: false,
                },
            );
        }
        if cancelled {
            let wound = self.wind_up(resume_point);
            let ghost res = wound@;
            assert(agent_loop::wound_up(old(self)@, resume_point@, self@, res));
            return TurnStep::Finish(wind_up_finish(wound, suspended_at));
        }
        match resume_point {
            ResumePoint::Generation => TurnStep::Generate,
            ResumePoint::ToolExecution(state) => TurnStep::Execute(state),
            ResumePoint::PendingApproval {
                parent_message_id,
                pending_approval_calls,
                pending_calls,
            } => {
                let mut owed = TurnEnd::default();
                let suspended = pending_approval_calls.len() > 0;
                if suspended {
                    let calls = listed(&pending_approval_calls);
                    owed.event = Some(
                        AgentEvent::Suspended(
                            PendingApproval {
                                thread_id: self.thread_id.id.clone(),
                                agent_name: self.agent.name.clone(),
                                parent_message_id,
                                calls,
                                suspended_at,
                                task_id,
                            },
                        ),
                    );
                }
                TurnStep::Finish(
                    TurnFinish {
                        resume_point: ResumePoint::PendingApproval {
                            parent_message_id,
                            pending_approval_calls,
                            pending_calls,
                        },
                        suspended_at,
                        owed,
                        exit_acquired: false,
                        suspended,
                    },
                )
            },
        }
    }

    /// Once a thread's state was stored, or could not be: announce what is owed, and return whether it
    /// is stored and the reply that is to be sent. The reply goes last, always: it is what lets the
    /// caller move on, so anything this thread wants seen must already be out before it goes.
    pub fn settle_write(&mut self, saved: Result<(), String>, owed: TurnEnd) -> (res: (
        bool,
        Option<Envelope>,
    ))
        ensures
            final(self).same_agent(*old(self)),
            final(self)@ == settled(old(self)@, write_result(saved), owed@),
            res.0 == saved is Ok,
            res.1.deep_view() == (if saved is Ok {
                owed@.reply
            } else {
                None
            }),
    {
        match saved {
            Err(error) => {
                self.announce(AgentEvent::PersistFailed(error));
                (false, None)
            },
            Ok(()) => {
                match owed.event {
                    Some(event) => {
                        self.announce(event);
                    },
                    None => {},
                }
                (true, owed.reply)
            },
        }
    }

    /// What the run produced, and the turn that is over with it.
    pub fn turn_outcome(&self, finish: &TurnFinish, turn: TurnId, persisted: bool, is_root: bool) -> (
    res: (TurnOutcome, Option<TurnId>))
        ensures
            res.0@ == run_outcome(finish@, turn, persisted),
            res.1 == closed_turn(self@, finish@, persisted, is_root),
    {
        let close: Option<TurnId> = if finish.announces_ending() && persisted && is_root {
            Some(self.thread_turn())
        } else {
            None
        };
        let outcome = if finish.exit_acquired {
            TurnOutcome::ExitAcquired
        } else if finish.suspended && persisted {
            TurnOutcome::Suspended
        } else if finish.awaits_replies() && persisted {
            TurnOutcome::AwaitingReplies(turn)
        } else {
            TurnOutcome::Completed
        };
        (outcome, close)
    }

    /// What a run that was over before it began produced, and the turn that is over with it. An
    /// envelope that was handed back is held; one that was not for this thread leaves it idle.
    pub fn stop_outcome(
        &self,
        finish: &TurnFinish,
        deferred: Option<Envelope>,
        awaiting: Option<TurnId>,
        persisted: bool,
        is_root: bool,
    ) -> (res: (TurnOutcome, Option<TurnId>))
        ensures
            res.0@ == (match deferred.deep_view() {
                Some(envelope) => TurnOutcomeView::Deferred { envelope, awaiting },
                None => TurnOutcomeView::Completed,
            }),
            res.1 == closed_turn(self@, finish@, persisted, is_root),
    {
        let close: Option<TurnId> = if finish.announces_ending() && persisted && is_root {
            Some(self.thread_turn())
        } else {
            None
        };
        let outcome = match deferred {
            Some(envelope) => TurnOutcome::Deferred { envelope, awaiting },
            None => TurnOutcome::Completed,
        };
        (outcome, close)
    }
}

/// The calls as a list.
fn listed(calls: &VecDeque<ToolCall>) -> (res: Vec<ToolCall>)
    ensures
        res.deep_view() == calls.deep_view(),
{
    let mut list: Vec<ToolCall> = Vec::new();
    let n: usize = calls.len();
    let mut i: usize = 0;
    while i < n
        invariant
            i <= n,
            n == calls@.len(),
            list@.len() == i,
            forall|j: int| 0 <= j < i ==> (#[trigger] list@[j])@ == calls@[j]@,
        decreases n - i,
    {
        list.push(calls[i].clone());
        i += 1;
    }
    assert(list.deep_view() =~= calls.deep_view());
    list
}

/// Where a call to the model left the run.
pub fn after_generation(step: LoopStep, suspended_at: Timestamp, now: Timestamp) -> (res:
    TurnProgress)
    ensures
        res@ == after_generation_step(step@, suspended_at, now),
{
    match step {
        LoopStep::Next(resume_point) => {
            let since = match &resume_point {
                ResumePoint::PendingApproval { .. } => now,
                _ => suspended_at,
            };
            TurnProgress::Continue { resume_point, suspended_at: since }
        },
        LoopStep::Done(resume_point, owed) => TurnProgress::Finish(
            TurnFinish { resume_point, suspended_at, owed, exit_acquired: false, suspended: false },
        ),
    }
}

/// Where a batch of tool calls left the run.
pub fn after_tools(step: LoopStep, suspended_at: Timestamp) -> (res: TurnProgress)
    ensures
        res@ == after_tools_step(step@, suspended_at),
{
    match step {
        LoopStep::Next(resume_point) => {
            let waits = match &resume_point {
                ResumePoint::ToolExecution(_) => true,
                _ => false,
            };
            if waits {
                TurnProgress::Finish(
                    TurnFinish {
                        resume_point,
                        suspended_at,
                        owed: TurnEnd::default(),
                        exit_acquired: false,
                        suspended: false,
                    },
                )
            } else {
                TurnProgress::Continue { resume_point, suspended_at }
            }
        },
        LoopStep::Done(resume_point, owed) => TurnProgress::Finish(
            TurnFinish { resume_point, suspended_at, owed, exit_acquired: false, suspended: false },
        ),
    }
}

/// A turn whose state could not be stored is never announced to be over, is never closed, and sends no
/// reply: all that goes out is that the write failed.
pub proof fn law_nothing_is_announced_before_it_is_stored(
    run: LoopView,
    finish: TurnFinishView,
    error: Seq<char>,
    turn: TurnId,
    is_root: bool,
)
    ensures
        settled(run, Err(error), finish.owed) == run.announcing(
            AgentEventView::PersistFailed(error),
        ),
        closed_turn(run, finish, false, is_root) is None,
        run_outcome(finish, turn, false) == TurnOutcomeView::Completed || run_outcome(
            finish,
            turn,
            false,
        ) == TurnOutcomeView::ExitAcquired,
{
}

/// A user's task is stored before anything else comes of it. Where it cannot be, the failed write is the
/// only thing that goes out, and the run is over: the model is never called for a turn whose beginning
/// is not stored, and no ending is announced.
pub proof fn law_a_task_that_cannot_be_stored_starts_nothing(
    before: LoopView,
    calls: Multiset<Seq<char>>,
    suspended_at: Timestamp,
    envelope: EnvelopeView,
    after: LoopView,
    calls_after: Multiset<Seq<char>>,
    start: TurnStartView,
    error: Seq<char>,
)
    requires
        envelope.body is Task,
        turn_started(
            before,
            calls,
            ResumePointView::Generation,
            suspended_at,
            Some(envelope),
            after,
            calls_after,
            start,
        ),
    ensures
        start == (TurnStartView::Proceed {
            resume_point: ResumePointView::Generation,
            suspended_at,
            save_first: true,
        }),
        after.events == before.events,
        settled(after, Err(error), TurnEndView::nothing()) == after.announcing(
            AgentEventView::PersistFailed(error),
        ),
        first_write_outcome(false) == Some(TurnOutcomeView::Completed),
{
}

/// A suspension parks its turn rather than ending it, and so does a batch whose answers are still owed:
/// neither closes the turn.
pub proof fn law_a_parked_turn_stays_open(
    before: LoopView,
    point: ResumePointView,
    suspended_at: Timestamp,
    task_id: Option<Seq<char>>,
    after: LoopView,
    finish: TurnFinishView,
    batch: ToolExecutionStateView,
    persisted: bool,
    is_root: bool,
)
    requires
        step_chosen(
            before,
            point,
            suspended_at,
            false,
            false,
            task_id,
            after,
            TurnStepView::Finish(finish),
        ),
    ensures
        point is PendingApproval,
        closed_turn(after, finish, persisted, is_root) is None,
        after_tools_step(
            LoopStepView::Next(ResumePointView::ToolExecution(batch)),
            suspended_at,
        ) matches TurnProgressView::Finish(waiting) && closed_turn(
            after,
            waiting,
            persisted,
            is_root,
        ) is None,
{
}

/// An envelope that a thread refused is handed back as it came: nothing of it is taken.
pub proof fn law_a_refused_envelope_comes_back_unchanged(
    entered: LoopView,
    calls: Multiset<Seq<char>>,
    point: ResumePointView,
    suspended_at: Timestamp,
    envelope: EnvelopeView,
    after: LoopView,
    calls_after: Multiset<Seq<char>>,
    finish: TurnFinishView,
    held: EnvelopeView,
    awaiting: Option<TurnId>,
    cancel: Option<TurnId>,
)
    requires
        turn_started(
            entered,
            calls,
            point,
            suspended_at,
            Some(envelope),
            after,
            calls_after,
            TurnStartView::Stop { finish, deferred: Some(held), awaiting, cancel },
        ),
    ensures
        held == envelope,
        calls_after == calls,
        awaiting is Some == finish.awaits_replies(),
{
}

}
