//! One agent's driver: which thread it works on next, what it holds back, and what it leaves behind
//! when it exits.

use crate::agent::{
    AgentEvent, AgentEventView, Envelope, EnvelopeBody, EnvelopeBodyView, EnvelopeView, Receiver,
    ReceiverView, ResumeDecision, ResumeDecisionView, Sender, SenderView, ThreadId,
};
use crate::ids::TurnId;
use crate::runtime::turn::TurnGate;
use crate::runtime::turn_run::{TurnOutcome, TurnOutcomeView};
use crate::text;
use std::collections::VecDeque;
use vstd::prelude::*;

verus! {

/// How long an aborted turn waits for in-flight tool calls to observe their cancellation, tear down
/// their work and settle with partial output, in milliseconds.
pub const TOOL_ABORT_GRACE_MS: u64 = 2000;

/// How long the root waits for a cancelled turn's sub-agents to answer before giving up on them, in
/// milliseconds. Only the wind-up wait is capped: a turn that is running normally may sit on a
/// sub-agent for as long as that sub-agent needs.
pub const WIND_UP_LIMIT_MS: u64 = 30000;

/// What a driver can be told.
#[derive(Debug, Clone, Copy, PartialEq, Eq, Structural)]
pub enum AgentControl {
    /// Stop what is running.
    Abort,
    /// Stop working on a background task for good.
    StopScope,
    /// Shut down gracefully.
    Exit,
}

/// A thread that waits for sub-agents to answer, and the turn it waits for.
#[derive(Debug, PartialEq, Eq)]
pub struct AwaitedTurn {
    pub thread_id: ThreadId,
    pub turn: TurnId,
}

/// The content of an [`AwaitedTurn`].
#[verifier::ext_equal]
pub struct AwaitedTurnView {
    pub thread_id: Seq<char>,
    pub turn: TurnId,
}

impl View for AwaitedTurn {
    type V = AwaitedTurnView;

    open spec fn view(&self) -> AwaitedTurnView {
        AwaitedTurnView { thread_id: self.thread_id@, turn: self.turn }
    }
}

impl DeepView for AwaitedTurn {
    type V = AwaitedTurnView;

    open spec fn deep_view(&self) -> AwaitedTurnView {
        self@
    }
}

/// A driver between two runs.
pub struct DriverState {
    /// The thread to continue without waiting for an envelope; what is left here at the end is
    /// recorded as unfinished.
    pub active_thread: Option<ThreadId>,
    /// The answer to an approval that the driver was started with.
    pub pending_resume: Option<Envelope>,
    /// The thread parked on an approval. Kept so that an exit can record it as unfinished.
    pub suspended_thread: Option<ThreadId>,
    /// Envelopes that were refused because a turn was still winding up, in arrival order.
    pub deferred: VecDeque<Envelope>,
    /// The thread parked waiting on sub-agent answers. While one is set, only what arrives on the wire
    /// may reach the agent: replaying a held envelope would walk straight back into the refusal.
    pub awaiting_replies: Option<AwaitedTurn>,
}

/// The content of a [`DriverState`].
#[verifier::ext_equal]
pub struct DriverView {
    pub active_thread: Option<Seq<char>>,
    pub pending_resume: Option<EnvelopeView>,
    pub suspended_thread: Option<Seq<char>>,
    pub deferred: Seq<EnvelopeView>,
    pub awaiting_replies: Option<AwaitedTurnView>,
}

impl View for DriverState {
    type V = DriverView;

    open spec fn view(&self) -> DriverView {
        DriverView {
            active_thread: self.active_thread.deep_view(),
            pending_resume: self.pending_resume.deep_view(),
            suspended_thread: self.suspended_thread.deep_view(),
            deferred: self.deferred.deep_view(),
            awaiting_replies: self.awaiting_replies.deep_view(),
        }
    }
}

/// What a driver does next.
pub enum Work {
    /// Run a thread, with an envelope or without.
    Run { thread_id: ThreadId, envelope: Option<Envelope> },
    /// Wait for an envelope or a command.
    Wait,
}

/// What a driver does next, by its content.
pub enum WorkView {
    Run { thread_id: Seq<char>, envelope: Option<EnvelopeView> },
    Wait,
}

impl View for Work {
    type V = WorkView;

    open spec fn view(&self) -> WorkView {
        match self {
            Work::Run { thread_id, envelope } => WorkView::Run {
                thread_id: thread_id@,
                envelope: envelope.deep_view(),
            },
            Work::Wait => WorkView::Wait,
        }
    }
}

/// What ended a wait.
pub enum WaitEvent {
    /// A command, or that nobody can send one any more.
    Control(Option<AgentControl>),
    /// An envelope, or that nobody can send one any more.
    Envelope(Option<Envelope>),
    /// The wait for a cancelled turn's sub-agents ran out.
    TimedOut,
}

/// What a driver does after a wait.
pub enum WaitNext {
    /// Run a thread with the envelope that arrived.
    Run { thread_id: ThreadId, envelope: Envelope },
    /// Look for work again.
    Again,
    /// Say that a cancelled turn's sub-agents did not answer, then look for work again.
    GiveUp { thread_id: ThreadId, turn: TurnId, event: AgentEvent },
    /// Shut down.
    Exit,
}

/// What a driver does after a wait, by its content.
pub enum WaitNextView {
    Run { thread_id: Seq<char>, envelope: EnvelopeView },
    Again,
    GiveUp { thread_id: Seq<char>, turn: TurnId, event: AgentEventView },
    Exit,
}

impl View for WaitNext {
    type V = WaitNextView;

    open spec fn view(&self) -> WaitNextView {
        match self {
            WaitNext::Run { thread_id, envelope } => WaitNextView::Run {
                thread_id: thread_id@,
                envelope: envelope@,
            },
            WaitNext::Again => WaitNextView::Again,
            WaitNext::GiveUp { thread_id, turn, event } => WaitNextView::GiveUp {
                thread_id: thread_id@,
                turn: *turn,
                event: event@,
            },
            WaitNext::Exit => WaitNextView::Exit,
        }
    }
}

/// The envelope that a resume decision becomes, so that the first run drops straight from the approval
/// into the batch without asking again.
pub open spec fn resume_envelope(
    id: Seq<char>,
    agent_name: Seq<char>,
    thread_id: Seq<char>,
    decision: ResumeDecisionView,
) -> EnvelopeView {
    EnvelopeView {
        id,
        from: SenderView::User,
        to: ReceiverView { name: agent_name, thread_id },
        reply_to: None,
        body: EnvelopeBodyView::Resume(decision),
    }
}

/// A driver at its start. A decision for the active thread takes that thread's place; a decision
/// without one is discarded.
pub open spec fn started_driver(
    agent_name: Seq<char>,
    active: Option<Seq<char>>,
    decision: Option<ResumeDecisionView>,
    envelope_id: Seq<char>,
) -> DriverView {
    let resume = match (active, decision) {
        (Some(thread_id), Some(decision)) => Some(
            resume_envelope(envelope_id, agent_name, thread_id, decision),
        ),
        _ => None,
    };
    DriverView {
        active_thread: if resume is Some {
            None
        } else {
            active
        },
        pending_resume: resume,
        suspended_thread: None,
        deferred: Seq::empty(),
        awaiting_replies: None,
    }
}

impl DriverView {
    /// The driver once it is on a thread.
    pub open spec fn working_on(self, thread_id: Seq<char>) -> Self {
        DriverView { active_thread: Some(thread_id), ..self }
    }

    /// What the driver does next, and the driver once it does: the decision it was started with, then
    /// the thread to continue, then the oldest held envelope, unless a thread waits for replies.
    pub open spec fn next(self) -> (WorkView, DriverView) {
        if self.pending_resume is Some {
            let envelope = self.pending_resume->0;
            (
                WorkView::Run { thread_id: envelope.to.thread_id, envelope: Some(envelope) },
                DriverView { pending_resume: None, ..self }.working_on(envelope.to.thread_id),
            )
        } else if self.active_thread is Some {
            (WorkView::Run { thread_id: self.active_thread->0, envelope: None }, self)
        } else if self.awaiting_replies is None && self.deferred.len() > 0 {
            let envelope = self.deferred[0];
            (
                WorkView::Run { thread_id: envelope.to.thread_id, envelope: Some(envelope) },
                DriverView { deferred: self.deferred.drop_first(), ..self }.working_on(
                    envelope.to.thread_id,
                ),
            )
        } else {
            (WorkView::Wait, self)
        }
    }

    /// What a wait leads to, and the driver after it.
    ///
    /// An exit puts a parked thread back, so that it is recorded as unfinished. An abort with nothing
    /// running drives a parked thread back in, where the turn being stopped is its own: no envelope is
    /// coming to wake it. A wait that ran out says that the turn is unwritten, not that it is
    /// finished.
    pub open spec fn after_wait(self, event: WaitEvent, parked_cancelled: bool) -> (
        WaitNextView,
        DriverView,
    ) {
        match event {
            WaitEvent::Control(Some(AgentControl::Abort)) => (
                WaitNextView::Again,
                if self.suspended_thread is Some && parked_cancelled {
                    DriverView {
                        active_thread: self.suspended_thread,
                        suspended_thread: None,
                        ..self
                    }
                } else {
                    self
                },
            ),
            WaitEvent::Control(_) => (
                WaitNextView::Exit,
                DriverView { active_thread: self.suspended_thread, suspended_thread: None, ..self },
            ),
            WaitEvent::Envelope(Some(envelope)) => (
                WaitNextView::Run { thread_id: envelope@.to.thread_id, envelope: envelope@ },
                DriverView { suspended_thread: None, ..self }.working_on(envelope@.to.thread_id),
            ),
            WaitEvent::Envelope(None) => (WaitNextView::Exit, self),
            WaitEvent::TimedOut => match self.awaiting_replies {
                Some(awaited) => (
                    WaitNextView::GiveUp {
                        thread_id: awaited.thread_id,
                        turn: awaited.turn,
                        event: AgentEventView::PersistFailed(
                            "sub-agents did not finish saving after the turn was stopped"@,
                        ),
                    },
                    DriverView { awaiting_replies: None, ..self },
                ),
                None => (WaitNextView::Again, self),
            },
        }
    }

    /// The driver after a run, and whether it shuts down.
    ///
    /// `interrupted` says that a command arrived during the run, `exiting` that it was an exit, and
    /// `turn_cancelled` that the thread's turn was asked to stop. A thread that suspended parks, unless
    /// the driver is exiting, in which case it stays active so that it is recorded, or the abort was
    /// the user taking the turn back, which nothing but a wind-up ends.
    pub open spec fn after_run(
        self,
        thread_id: Seq<char>,
        outcome: Option<TurnOutcomeView>,
        interrupted: bool,
        exiting: bool,
        turn_cancelled: bool,
    ) -> (DriverView, bool) {
        let idle = DriverView { active_thread: None, ..self };
        let stops = interrupted && exiting;
        match outcome {
            Some(TurnOutcomeView::ExitAcquired) => if interrupted {
                (DriverView { awaiting_replies: None, ..idle }, stops)
            } else {
                (idle, true)
            },
            Some(TurnOutcomeView::Completed) => (
                DriverView { awaiting_replies: None, ..idle },
                stops,
            ),
            Some(TurnOutcomeView::AwaitingReplies(turn)) => (
                DriverView { awaiting_replies: Some(AwaitedTurnView { thread_id, turn }), ..idle },
                stops,
            ),
            Some(TurnOutcomeView::Deferred { envelope, awaiting }) => (
                DriverView {
                    awaiting_replies: match awaiting {
                        Some(turn) => Some(AwaitedTurnView { thread_id, turn }),
                        None => None,
                    },
                    deferred: self.deferred.push(envelope),
                    ..idle
                },
                stops,
            ),
            Some(TurnOutcomeView::Suspended) => if interrupted && (exiting || turn_cancelled) {
                (self, stops)
            } else {
                (DriverView { suspended_thread: self.active_thread, ..idle }, stops)
            },
            None => (idle, stops),
        }
    }
}

/// What a command does to a run in progress.
#[derive(Debug, Clone, Copy, PartialEq, Eq, Structural)]
pub struct Interruption {
    /// The run is cancelled.
    pub cancel: bool,
    /// The driver shuts down once the run is over.
    pub exit: bool,
}

/// What a command does to a run in progress. An exit lets the run go on: it is followed by an abort
/// once the caller runs out of patience. Nobody left to command cancels it.
pub open spec fn interruption_of(command: Option<AgentControl>) -> Interruption {
    match command {
        Some(AgentControl::Abort) | None => Interruption { cancel: true, exit: false },
        Some(AgentControl::Exit) => Interruption { cancel: false, exit: true },
        Some(AgentControl::StopScope) => Interruption { cancel: true, exit: true },
    }
}

/// What a command does to a run in progress.
pub fn interrupt(command: Option<AgentControl>) -> (res: Interruption)
    ensures
        res == interruption_of(command),
{
    match command {
        Some(AgentControl::Abort) | None => Interruption { cancel: true, exit: false },
        Some(AgentControl::Exit) => Interruption { cancel: false, exit: true },
        Some(AgentControl::StopScope) => Interruption { cancel: true, exit: true },
    }
}

impl DriverState {
    /// A driver at its start. `envelope_id` is for the envelope that a decision becomes.
    pub fn new(
        agent_name: &str,
        active: Option<ThreadId>,
        decision: Option<ResumeDecision>,
        envelope_id: String,
    ) -> (res: Self)
        ensures
            res@ == started_driver(
                agent_name@,
                active.deep_view(),
                decision.deep_view(),
                envelope_id@,
            ),
    {
        let (active_thread, pending_resume) = match (active, decision) {
            (Some(thread_id), Some(decision)) => (
                None,
                Some(
                    Envelope {
                        id: envelope_id,
                        from: Sender::User,
                        to: Receiver { name: agent_name.to_owned(), thread_id },
                        reply_to: None,
                        body: EnvelopeBody::Resume(decision),
                    },
                ),
            ),
            (active, _) => (active, None),
        };
        let deferred: VecDeque<Envelope> = VecDeque::new();
        assert(deferred.deep_view() =~= Seq::empty());
        DriverState {
            active_thread,
            pending_resume,
            suspended_thread: None,
            deferred,
            awaiting_replies: None,
        }
    }

    /// What to do next.
    pub fn next_work(&mut self) -> (res: Work)
        ensures
            (res@, final(self)@) == old(self)@.next(),
    {
        match self.pending_resume.take() {
            Some(envelope) => {
                let thread_id = envelope.to.thread_id.clone();
                self.active_thread = Some(thread_id.clone());
                assert(self@ =~= old(self)@.next().1);
                return Work::Run { thread_id, envelope: Some(envelope) };
            },
            None => {},
        }
        match &self.active_thread {
            Some(active) => {
                let thread_id = active.clone();
                assert(self@ =~= old(self)@.next().1);
                return Work::Run { thread_id, envelope: None };
            },
            None => {},
        }
        let waits = self.awaiting_replies.is_some();
        if !waits {
            let ghost held = self.deferred.deep_view();
            match self.deferred.pop_front() {
                Some(envelope) => {
                    let thread_id = envelope.to.thread_id.clone();
                    self.active_thread = Some(thread_id.clone());
                    proof {
                        assert(held[0] == envelope@);
                        assert(self.deferred.deep_view() =~= held.drop_first());
                        assert(self@ =~= old(self)@.next().1);
                    }
                    return Work::Run { thread_id, envelope: Some(envelope) };
                },
                None => {},
            }
        }
        assert(self@ =~= old(self)@);
        Work::Wait
    }

    /// Whether the wait for replies is capped: the root waits for a turn that was asked to stop.
    pub fn wind_up_is_capped(&self, session_id: &str, gate: &TurnGate) -> (res: bool)
        ensures
            res == match self@.awaiting_replies {
                Some(awaited) => awaited.thread_id == session_id@ && gate.stops(awaited.turn),
                None => false,
            },
    {
        match &self.awaiting_replies {
            Some(awaited) => text::same_text(awaited.thread_id.as_str(), session_id)
                && gate.is_cancelled(awaited.turn),
            None => false,
        }
    }

    /// Go on from a wait. `parked_cancelled` says whether the turn of the parked thread was asked to
    /// stop.
    pub fn on_wait(&mut self, event: WaitEvent, parked_cancelled: bool) -> (res: WaitNext)
        ensures
            (res@, final(self)@) == old(self)@.after_wait(event, parked_cancelled),
    {
        match event {
            WaitEvent::Control(command) => match command {
                Some(AgentControl::Abort) => {
                    if parked_cancelled {
                        match self.suspended_thread.take() {
                            Some(parked) => {
                                self.active_thread = Some(parked);
                            },
                            None => {},
                        }
                    }
                    assert(self@ =~= old(self)@.after_wait(event, parked_cancelled).1);
                    WaitNext::Again
                },
                _ => {
                    self.active_thread = self.suspended_thread.take();
                    assert(self@ =~= old(self)@.after_wait(event, parked_cancelled).1);
                    WaitNext::Exit
                },
            },
            WaitEvent::Envelope(arrived) => match arrived {
                Some(envelope) => {
                    self.suspended_thread = None;
                    let thread_id = envelope.to.thread_id.clone();
                    self.active_thread = Some(thread_id.clone());
                    assert(self@ =~= old(self)@.after_wait(event, parked_cancelled).1);
                    WaitNext::Run { thread_id, envelope }
                },
                None => WaitNext::Exit,
            },
            WaitEvent::TimedOut => match self.awaiting_replies.take() {
                Some(awaited) => {
                    assert(self@ =~= old(self)@.after_wait(event, parked_cancelled).1);
                    WaitNext::GiveUp {
                        thread_id: awaited.thread_id,
                        turn: awaited.turn,
                        event: AgentEvent::PersistFailed(
                            "sub-agents did not finish saving after the turn was stopped".to_owned(),
                        ),
                    }
                },
                None => {
                    assert(self@ =~= old(self)@);
                    WaitNext::Again
                },
            },
        }
    }

    /// Go on from a run; returns whether the driver shuts down. `None` for a run that failed.
    pub fn on_outcome(
        &mut self,
        thread_id: ThreadId,
        outcome: Option<TurnOutcome>,
        interrupted: bool,
        exiting: bool,
        turn_cancelled: bool,
    ) -> (res: bool)
        ensures
            (final(self)@, res) == old(self)@.after_run(
                thread_id@,
                outcome.deep_view(),
                interrupted,
                exiting,
                turn_cancelled,
            ),
    {
        let ghost expected = self@.after_run(
            thread_id@,
            outcome.deep_view(),
            interrupted,
            exiting,
            turn_cancelled,
        );
        let stops = interrupted && exiting;
        match outcome {
            Some(TurnOutcome::ExitAcquired) => {
                self.active_thread = None;
                if interrupted {
                    self.awaiting_replies = None;
                    assert(self@ =~= expected.0);
                    stops
                } else {
                    assert(self@ =~= expected.0);
                    true
                }
            },
            Some(TurnOutcome::Completed) => {
                self.active_thread = None;
                self.awaiting_replies = None;
                assert(self@ =~= expected.0);
                stops
            },
            Some(TurnOutcome::AwaitingReplies(turn)) => {
                self.active_thread = None;
                self.awaiting_replies = Some(AwaitedTurn { thread_id, turn });
                assert(self@ =~= expected.0);
                stops
            },
            Some(TurnOutcome::Deferred { envelope, awaiting }) => {
                self.active_thread = None;
                // The queue only holds the envelope while this thread is known to be waiting, so the
                // wait has to be recorded before it goes back.
                self.awaiting_replies = match awaiting {
                    Some(turn) => Some(AwaitedTurn { thread_id, turn }),
                    None => None,
                };
                let ghost held = self.deferred.deep_view();
                self.deferred.push_back(envelope);
                assert(self.deferred.deep_view() =~= held.push(envelope@));
                assert(self@ =~= expected.0);
                stops
            },
            Some(TurnOutcome::Suspended) => {
                if !(interrupted && (exiting || turn_cancelled)) {
                    self.suspended_thread = self.active_thread.take();
                }
                assert(self@ =~= expected.0);
                stops
            },
            None => {
                self.active_thread = None;
                assert(self@ =~= expected.0);
                stops
            },
        }
    }

    /// What the driver leaves behind: the envelopes it held, then those nobody took, and the thread it
    /// did not finish.
    pub fn leave(self, remaining: Vec<Envelope>) -> (res: (Vec<Envelope>, Option<ThreadId>))
        ensures
            res.0.deep_view() == self@.deferred + remaining.deep_view(),
            res.1.deep_view() == self@.active_thread,
    {
        let ghost held = self.deferred.deep_view();
        let mut queue = self.deferred;
        let mut envelopes: Vec<Envelope> = Vec::new();
        assert(envelopes.deep_view() + queue.deep_view() =~= held);
        while queue.len() > 0
            invariant
                envelopes.deep_view() + queue.deep_view() == held,
            decreases queue@.len(),
        {
            let ghost before = queue.deep_view();
            let ghost done = envelopes.deep_view();
            match queue.pop_front() {
                Some(envelope) => {
                    envelopes.push(envelope);
                    proof {
                        assert(before =~= seq![envelope@] + queue.deep_view());
                        assert(envelopes.deep_view() =~= done.push(envelope@));
                        assert(envelopes.deep_view() + queue.deep_view() =~= done + before);
                    }
                },
                None => {},
            }
        }
        assert(envelopes.deep_view() =~= held);
        let mut rest = remaining;
        let ghost untaken = rest.deep_view();
        envelopes.append(&mut rest);
        assert(envelopes.deep_view() =~= held + untaken);
        (envelopes, self.active_thread)
    }
}

/// A held envelope waits for the replies: after a run refused an envelope while answers are still
/// owed, the driver waits for the wire instead of handing the envelope out again, and goes on holding
/// it behind everything it already held.
pub proof fn law_a_held_envelope_waits_for_the_replies(
    driver: DriverView,
    thread_id: Seq<char>,
    envelope: EnvelopeView,
    turn: TurnId,
    interrupted: bool,
    exiting: bool,
    turn_cancelled: bool,
)
    requires
        driver.pending_resume is None,
    ensures
        ({
            let outcome = TurnOutcomeView::Deferred { envelope, awaiting: Some(turn) };
            let after = driver.after_run(
                thread_id,
                Some(outcome),
                interrupted,
                exiting,
                turn_cancelled,
            ).0;
            &&& after.deferred == driver.deferred.push(envelope)
            &&& after.next() == (WorkView::Wait, after)
        }),
{
}

/// Held envelopes are handed out in the order they arrived, and none is handed out while a thread
/// waits for replies.
pub proof fn law_held_envelopes_keep_their_order(driver: DriverView)
    requires
        driver.pending_resume is None,
        driver.active_thread is None,
        driver.deferred.len() > 0,
    ensures
        driver.awaiting_replies is Some ==> driver.next() == (WorkView::Wait, driver),
        driver.awaiting_replies is None ==> driver.next().0 == (WorkView::Run {
            thread_id: driver.deferred[0].to.thread_id,
            envelope: Some(driver.deferred[0]),
        }),
        driver.awaiting_replies is None ==> driver.next().1.deferred
            == driver.deferred.drop_first(),
{
}

/// A thread parked on an approval survives a graceful exit: the driver leaves it behind as unfinished,
/// whether the exit arrives while it is parked or while it suspends.
pub proof fn law_a_parked_thread_survives_an_exit(
    driver: DriverView,
    thread_id: Seq<char>,
    parked_cancelled: bool,
    turn_cancelled: bool,
)
    requires
        driver.active_thread == Some(thread_id),
    ensures
        ({
            let parked = driver.after_run(
                thread_id,
                Some(TurnOutcomeView::Suspended),
                false,
                false,
                turn_cancelled,
            ).0;
            let exit = WaitEvent::Control(Some(AgentControl::Exit));
            &&& parked.suspended_thread == Some(thread_id)
            &&& parked.after_wait(exit, parked_cancelled).1.active_thread == Some(thread_id)
        }),
        driver.after_run(
            thread_id,
            Some(TurnOutcomeView::Suspended),
            true,
            true,
            turn_cancelled,
        ).0.active_thread == Some(thread_id),
{
}

}
