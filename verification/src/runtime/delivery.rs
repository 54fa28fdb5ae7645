//! Handing envelopes to the threads they are addressed to, and keeping what can no longer be handed
//! over.

use crate::agent::{
    AgentState, Envelope, EnvelopeBody, EnvelopeBodyView, EnvelopeView, HistoryEntry,
    PendingApproval, PendingApprovalView, ThreadId,
};
use crate::execution::{ExecutionIdentity, ExecutionIdentityView};
use crate::ids::{self, TurnId};
use crate::llm::Message;
use crate::message_view;
use crate::persist::{AgentRuntimeSnapshot, RuntimeSnapshotView, StoredCheckpoint};
use crate::runtime::error::SendCommandError;
use crate::runtime::recovery;
use crate::runtime::scopes::{self, Executions, ExecutionsView};
use crate::runtime::turn::{CallLedger, TurnGate};
use crate::task::TaskId;
use crate::text;
use vstd::multiset::Multiset;
use vstd::prelude::*;

verus! {

/// How far a session is with exiting. It only ever goes on.
#[derive(Debug, Clone, Copy, PartialEq, Eq, Structural)]
pub enum ExitPhase {
    /// The session runs.
    Running,
    /// It is exiting: what still arrives is kept for the next process.
    Exiting,
    /// It has exited: its runtime state was stored for the last time, so nothing more can be kept.
    Exited,
}

/// Whether a session is exiting. There is one barrier per session, which everyone who takes a step or
/// asks shares: it cannot be copied.
#[derive(Debug, PartialEq, Eq, Structural)]
pub struct ExitBarrier {
    pub phase: ExitPhase,
}

/// A step of a session's exit.
pub enum ExitStep {
    /// Somebody lets the session exit.
    Enter,
    /// The session's runtime state was stored for the last time.
    Finish,
}

impl ExitPhase {
    /// The phase after a step.
    pub open spec fn after(self, step: ExitStep) -> Self {
        match step {
            ExitStep::Enter => if self is Running {
                ExitPhase::Exiting
            } else {
                self
            },
            ExitStep::Finish => ExitPhase::Exited,
        }
    }

    /// The phase after some steps.
    pub open spec fn after_all(self, steps: Seq<ExitStep>) -> Self
        decreases steps.len(),
    {
        if steps.len() == 0 {
            self
        } else {
            self.after_all(steps.drop_last()).after(steps.last())
        }
    }
}

/// Whoever takes the steps, a session that runs is made to exit once: only the first step finds it
/// running, so only that one can be what made it exit, and from then on everyone sees it exiting. An
/// exit never goes back.
pub proof fn law_an_exit_is_entered_once(steps: Seq<ExitStep>, i: int)
    requires
        0 <= i < steps.len(),
    ensures
        ExitPhase::Running.after_all(steps.take(i)) is Running <==> i == 0,
        !(ExitPhase::Running.after_all(steps.take(i + 1)) is Running),
        ExitPhase::Running.after_all(steps.take(i)) is Exited ==> ExitPhase::Running.after_all(
            steps.take(i + 1),
        ) is Exited,
    decreases i,
{
    if i > 0 {
        law_an_exit_is_entered_once(steps, i - 1);
    } else {
        assert(steps.take(0) =~= Seq::empty());
    }
    assert(steps.take(i + 1).drop_last() =~= steps.take(i));
}

impl ExitBarrier {
    /// A session that is not exiting.
    pub fn new() -> (res: Self)
        ensures
            res.phase is Running,
    {
        ExitBarrier { phase: ExitPhase::Running }
    }

    /// Let the session exit. Says whether this is what made it exit.
    pub fn enter_exiting(&mut self) -> (res: bool)
        ensures
            res == (old(self).phase is Running),
            final(self).phase == old(self).phase.after(ExitStep::Enter),
    {
        match self.phase {
            ExitPhase::Running => {
                self.phase = ExitPhase::Exiting;
                true
            },
            _ => false,
        }
    }

    /// The session's runtime state was stored for the last time.
    pub fn finish(&mut self)
        ensures
            final(self).phase == old(self).phase.after(ExitStep::Finish),
    {
        self.phase = ExitPhase::Exited;
    }

    /// Whether the session is exiting, or has exited.
    pub fn is_exiting(&self) -> (res: bool)
        ensures
            res == !(self.phase is Running),
    {
        match self.phase {
            ExitPhase::Running => false,
            _ => true,
        }
    }
}

impl Default for ExitBarrier {
    fn default() -> (res: Self)
        ensures
            res.phase is Running,
    {
        ExitBarrier::new()
    }
}

/// A message that is being sent: what has to be taken back if it cannot be.
#[derive(Debug)]
pub struct Sending {
    /// The turn it opens.
    pub opened: Option<TurnId>,
    /// The thread it makes answer a call.
    pub dispatched: Option<ThreadId>,
    /// The approval it decides.
    pub answered: Option<PendingApproval>,
}

/// The content of a [`Sending`].
#[verifier::ext_equal]
pub struct SendingView {
    pub opened: Option<TurnId>,
    pub dispatched: Option<Seq<char>>,
    pub answered: Option<PendingApprovalView>,
}

impl View for Sending {
    type V = SendingView;

    open spec fn view(&self) -> SendingView {
        SendingView {
            opened: self.opened,
            dispatched: self.dispatched.deep_view(),
            answered: self.answered.deep_view(),
        }
    }
}

/// What the books of a session say.
#[verifier::ext_equal]
pub struct Books {
    pub gate: TurnGate,
    pub owing: Multiset<Seq<char>>,
    pub executions: ExecutionsView,
}

impl Books {
    /// Why a message is refused before anything is entered.
    pub open spec fn send_fault(self, envelope: EnvelopeView) -> Option<SendCommandError> {
        match envelope.body {
            EnvelopeBodyView::Task { message_id, .. } => match self.gate.opened(
                ids::turn_opened_by(message_id),
            ) {
                Some(_) => None,
                None => Some(SendCommandError::TurnAlreadyActive),
            },
            EnvelopeBodyView::ToolCall { .. } => if self.owing.count(envelope.to.thread_id) > 0 {
                Some(SendCommandError::ThreadBusy)
            } else {
                None
            },
            EnvelopeBodyView::Reply { .. } => None,
            EnvelopeBodyView::Resume(decision) => self.executions.decision_fault(
                envelope.to,
                decision,
            ),
        }
    }

    /// The books once a message that is not refused is being sent: the turn it opens, the answer it
    /// asks for and the approval it decides are entered, so that nothing can act on the envelope before
    /// they are.
    pub open spec fn entered(self, envelope: EnvelopeView) -> Self {
        match envelope.body {
            EnvelopeBodyView::Task { message_id, .. } => Books {
                gate: self.gate.opened(ids::turn_opened_by(message_id))->0,
                ..self
            },
            EnvelopeBodyView::ToolCall { .. } => Books {
                owing: self.owing.insert(envelope.to.thread_id),
                ..self
            },
            EnvelopeBodyView::Reply { .. } => self,
            EnvelopeBodyView::Resume(decision) => Books {
                executions: self.executions.without(
                    scopes::for_batch(envelope.to.thread_id, decision.parent_message_id),
                ),
                ..self
            },
        }
    }

    /// What has to be taken back if a message cannot be sent.
    pub open spec fn sending(self, envelope: EnvelopeView) -> SendingView {
        SendingView {
            opened: match envelope.body {
                EnvelopeBodyView::Task { message_id, .. } => Some(ids::turn_opened_by(message_id)),
                _ => None,
            },
            dispatched: match envelope.body {
                EnvelopeBodyView::ToolCall { .. } => Some(envelope.to.thread_id),
                _ => None,
            },
            answered: match envelope.body {
                EnvelopeBodyView::Resume(decision) => scopes::waiting_batch(
                    self.executions.approvals,
                    envelope.to.thread_id,
                    decision.parent_message_id,
                ),
                _ => None,
            },
        }
    }

    /// The books once a message that could not be sent is taken back.
    pub open spec fn taken_back(self, sending: SendingView) -> Self {
        Books {
            gate: match sending.opened {
                Some(turn) => self.gate.closed(turn),
                None => self.gate,
            },
            owing: match sending.dispatched {
                Some(thread) => self.owing.remove(thread),
                None => self.owing,
            },
            ..self
        }
    }
}

/// Begin to send a message: enter the turn it opens, the answer it asks for, or the approval it decides.
pub fn begin_send(
    envelope: &Envelope,
    gate: &mut TurnGate,
    calls: &mut CallLedger,
    executions: &mut Executions,
) -> (res: Result<Sending, SendCommandError>)
    requires
        old(gate).well_formed(),
        old(executions)@.well_formed(),
    ensures
        final(gate).well_formed(),
        final(executions)@.well_formed(),
        ({
            let before = Books {
                gate: *old(gate),
                owing: old(calls)@,
                executions: old(executions)@,
            };
            let after = Books {
                gate: *final(gate),
                owing: final(calls)@,
                executions: final(executions)@,
            };
            match before.send_fault(envelope@) {
                Some(fault) => res == Err::<Sending, SendCommandError>(fault) && after == before,
                None => {
                    &&& res matches Ok(sending) && sending@ == before.sending(envelope@)
                    &&& after == before.entered(envelope@)
                },
            }
        }),
{
    match &envelope.body {
        EnvelopeBody::Task { message_id, .. } => {
            let turn = TurnId::from(*message_id);
            match gate.open(turn) {
                Ok(_) => Ok(Sending { opened: Some(turn), dispatched: None, answered: None }),
                Err(_) => Err(SendCommandError::TurnAlreadyActive),
            }
        },
        EnvelopeBody::ToolCall { .. } => {
            if calls.try_begin(&envelope.to.thread_id) {
                Ok(
                    Sending {
                        opened: None,
                        dispatched: Some(envelope.to.thread_id.clone()),
                        answered: None,
                    },
                )
            } else {
                Err(SendCommandError::ThreadBusy)
            }
        },
        EnvelopeBody::Reply { .. } => Ok(
            Sending { opened: None, dispatched: None, answered: None },
        ),
        EnvelopeBody::Resume(decision) => match executions.admit_decision(&envelope.to, decision) {
            Ok(approval) => Ok(
                Sending { opened: None, dispatched: None, answered: Some(approval) },
            ),
            Err(fault) => Err(fault),
        },
    }
}

/// Finish sending a message. One that could not be delivered takes back exactly what it entered.
pub fn finish_send(
    sending: Sending,
    sent: Result<(), SendCommandError>,
    gate: &mut TurnGate,
    calls: &mut CallLedger,
) -> (res: Result<(), SendCommandError>)
    requires
        old(gate).well_formed(),
    ensures
        res == sent,
        final(gate).well_formed(),
        ({
            let before = Books {
                gate: *old(gate),
                owing: old(calls)@,
                executions: ExecutionsView::idle(),
            };
            let after = Books {
                gate: *final(gate),
                owing: final(calls)@,
                executions: ExecutionsView::idle(),
            };
            after == (if sent is Err {
                before.taken_back(sending@)
            } else {
                before
            })
        }),
{
    if sent.is_err() {
        match sending.opened {
            Some(turn) => {
                gate.close(turn);
            },
            None => {},
        }
        match &sending.dispatched {
            Some(thread) => {
                calls.end(thread);
            },
            None => {},
        }
    }
    sent
}

/// A message that could not be delivered leaves the turn slot and the ledger as they were.
pub proof fn law_a_failed_send_leaves_turn_and_ledger_alone(books: Books, envelope: EnvelopeView)
    requires
        books.gate.well_formed(),
        books.send_fault(envelope) is None,
    ensures
        books.entered(envelope).taken_back(books.sending(envelope)).gate == books.gate,
        books.entered(envelope).taken_back(books.sending(envelope)).owing == books.owing,
{
    let thread = envelope.to.thread_id;
    assert(books.owing.insert(thread).remove(thread) =~= books.owing);
}

/// The turn that a decided approval belongs to: the one its thread was last in, or else the one its
/// batch opened.
pub fn decided_turn(approval: &PendingApproval, stored: Option<TurnId>) -> (res: TurnId)
    ensures
        res == (match stored {
            Some(turn) => turn,
            None => ids::turn_opened_by(approval@.parent_message_id),
        }),
{
    match stored {
        Some(turn) => turn,
        None => TurnId::from(approval.parent_message_id),
    }
}

/// A call made on behalf of a background task: it must not reach its thread before the task's record
/// names the invocation.
#[derive(Debug)]
pub struct ScopeRecord {
    pub task_id: TaskId,
    pub identity: ExecutionIdentity,
}

/// Whose record has to be written before an envelope is delivered.
pub fn record_before_delivery(executions: &Executions, envelope: &Envelope) -> (res: Option<
    ScopeRecord,
>)
    ensures
        match res {
            Some(record) => {
                &&& envelope@.body is ToolCall
                &&& executions@.task_of(envelope@.to.thread_id) == Some(record.task_id@)
                &&& record.identity@ == (ExecutionIdentityView {
                    thread_id: envelope@.to.thread_id,
                    invocation_id: executions@.execution(envelope@.to.thread_id)->0.invocation_id,
                })
            },
            None => !(envelope@.body is ToolCall) || executions@.task_of(
                envelope@.to.thread_id,
            ) is None,
        },
{
    match &envelope.body {
        EnvelopeBody::ToolCall { .. } => match executions.execution(&envelope.to.thread_id) {
            Some(execution) => match execution.background_task() {
                Some(task) => Some(
                    ScopeRecord {
                        task_id: task.clone(),
                        identity: ExecutionIdentity {
                            thread_id: envelope.to.thread_id.id.clone(),
                            invocation_id: execution.invocation_id.clone(),
                        },
                    },
                ),
                None => None,
            },
            None => None,
        },
        _ => None,
    }
}

/// What to do with an envelope.
#[derive(Debug, Clone, Copy, PartialEq, Eq, Structural)]
pub enum Delivery {
    /// Keep it for the next process.
    Archive,
    /// Put it into the inbox of the driver that is running, once there is room.
    Send,
    /// Start the thread's driver first.
    StartAndSend,
}

/// What to do with an envelope for a thread: a session that is exiting keeps it, one that has exited can
/// no longer, one driver drives a thread, and an agent that is not known drives none.
pub open spec fn delivery_of(phase: ExitPhase, running: bool, known: bool) -> Result<
    Delivery,
    SendCommandError,
> {
    match phase {
        ExitPhase::Exited => Err(SendCommandError::ChannelClosed),
        ExitPhase::Exiting => Ok(Delivery::Archive),
        ExitPhase::Running => if running {
            Ok(Delivery::Send)
        } else if known {
            Ok(Delivery::StartAndSend)
        } else {
            Err(SendCommandError::AgentNotFound)
        },
    }
}

/// What to do with an envelope, given how far the session is with exiting, whether a driver of its thread
/// is running, and whether its agent is known.
pub fn begin_delivery(barrier: &ExitBarrier, running: bool, known: bool) -> (res: Result<
    Delivery,
    SendCommandError,
>)
    ensures
        res == delivery_of(barrier.phase, running, known),
{
    match barrier.phase {
        ExitPhase::Exited => Err(SendCommandError::ChannelClosed),
        ExitPhase::Exiting => Ok(Delivery::Archive),
        ExitPhase::Running => if running {
            Ok(Delivery::Send)
        } else if known {
            Ok(Delivery::StartAndSend)
        } else {
            Err(SendCommandError::AgentNotFound)
        },
    }
}

/// What to do with an envelope that waited for room in an inbox, given whether there is room now. Where
/// the session began to exit meanwhile, the envelope is kept, and never both kept and put into the
/// inbox.
pub fn end_delivery(barrier: &ExitBarrier, room: bool) -> (res: Result<Delivery, SendCommandError>)
    ensures
        res == (match barrier.phase {
            ExitPhase::Exited => Err(SendCommandError::ChannelClosed),
            ExitPhase::Exiting => Ok(Delivery::Archive),
            ExitPhase::Running => if room {
                Ok(Delivery::Send)
            } else {
                Err(SendCommandError::ChannelClosed)
            },
        }),
{
    match barrier.phase {
        ExitPhase::Exited => Err(SendCommandError::ChannelClosed),
        ExitPhase::Exiting => Ok(Delivery::Archive),
        ExitPhase::Running => if room {
            Ok(Delivery::Send)
        } else {
            Err(SendCommandError::ChannelClosed)
        },
    }
}

/// A session's runtime state once it keeps one more envelope.
pub open spec fn archived(snapshot: RuntimeSnapshotView, envelope: EnvelopeView) ->
    RuntimeSnapshotView {
    let thread = envelope.to.thread_id;
    RuntimeSnapshotView {
        drained_envelopes: snapshot.drained_envelopes.insert(
            thread,
            recovery::kept_for(snapshot.drained_envelopes, thread).push(envelope),
        ),
        ..snapshot
    }
}

/// Keep an envelope for the next process.
pub fn archive(snapshot: &mut AgentRuntimeSnapshot, envelope: Envelope)
    ensures
        final(snapshot)@ == archived(old(snapshot)@, envelope@),
{
    let ghost before = snapshot@;
    let thread = envelope.to.thread_id.id.clone();
    let mut kept = match snapshot.drained_envelopes.get(thread.as_str()) {
        Some(kept) => {
            assert(before.drained_envelopes[thread@] == kept.deep_view());
            let copy = kept.clone();
            assert(copy.deep_view() =~= kept.deep_view());
            copy
        },
        None => {
            let none: Vec<Envelope> = Vec::new();
            assert(none.deep_view() =~= Seq::empty());
            none
        },
    };
    let ghost listed = kept.deep_view();
    kept.push(envelope);
    assert(kept.deep_view() =~= listed.push(envelope@));
    snapshot.drained_envelopes.insert(thread, kept);
    assert(snapshot@.drained_envelopes =~= before.drained_envelopes.insert(
        thread@,
        kept.deep_view(),
    ));
    assert(snapshot@ =~= archived(before, envelope@));
}

/// A session's runtime state once a driver left.
pub open spec fn driver_left(
    snapshot: RuntimeSnapshotView,
    agent_name: Seq<char>,
    thread: Seq<char>,
    envelopes: Seq<EnvelopeView>,
    active: Option<Seq<char>>,
) -> RuntimeSnapshotView {
    RuntimeSnapshotView {
        agent_drained_envelopes: if envelopes.len() == 0 {
            snapshot.agent_drained_envelopes.remove(thread)
        } else {
            snapshot.agent_drained_envelopes.insert(thread, envelopes)
        },
        active_threads: match active {
            Some(unfinished) => snapshot.active_threads.insert(unfinished, agent_name),
            None => snapshot.active_threads.remove(thread),
        },
        ..snapshot
    }
}

/// Note what a driver leaves: the envelopes it did not take, and the thread it did not finish. A stopped
/// background invocation leaves nothing, since its cleanup decides what stays. Says whether anything was
/// noted and has to be stored.
pub fn save_agent_snapshot(
    snapshot: &mut AgentRuntimeSnapshot,
    executions: &Executions,
    agent_name: String,
    driver_thread: &ThreadId,
    envelopes: Vec<Envelope>,
    active_thread: Option<ThreadId>,
) -> (res: bool)
    ensures
        res == !(executions@.task_of(driver_thread@) is Some && executions@.stopped(
            driver_thread@,
        )),
        final(snapshot)@ == (if res {
            driver_left(
                old(snapshot)@,
                agent_name@,
                driver_thread@,
                envelopes.deep_view(),
                active_thread.deep_view(),
            )
        } else {
            old(snapshot)@
        }),
{
    let ghost before = snapshot@;
    let background = executions.task_of(driver_thread).is_some();
    if background && executions.execution_stopped(driver_thread) {
        return false;
    }
    if envelopes.len() == 0 {
        snapshot.agent_drained_envelopes.remove(driver_thread.as_str());
        assert(snapshot@.agent_drained_envelopes =~= before.agent_drained_envelopes.remove(
            driver_thread@,
        ));
    } else {
        snapshot.agent_drained_envelopes.insert(driver_thread.id.clone(), envelopes);
        assert(snapshot@.agent_drained_envelopes =~= before.agent_drained_envelopes.insert(
            driver_thread@,
            envelopes.deep_view(),
        ));
    }
    match active_thread {
        Some(thread) => {
            snapshot.active_threads.insert(thread.id, agent_name);
            assert(snapshot@.active_threads =~= before.active_threads.insert(
                thread@,
                agent_name@,
            ));
        },
        None => {
            snapshot.active_threads.remove(driver_thread.as_str());
            assert(snapshot@.active_threads =~= before.active_threads.remove(driver_thread@));
        },
    }
    true
}

/// Let go of a driver whose thread is done: it leaves nothing, and its invocation is over. Says whether
/// the session's runtime state has to be stored.
pub fn retire_foreground_driver(
    snapshot: &mut AgentRuntimeSnapshot,
    executions: &mut Executions,
    agent_name: String,
    thread_id: &ThreadId,
) -> (res: bool)
    ensures
        res == !(old(executions)@.task_of(thread_id@) is Some && old(executions)@.stopped(
            thread_id@,
        )),
        final(snapshot)@ == (if res {
            driver_left(old(snapshot)@, agent_name@, thread_id@, Seq::empty(), None)
        } else {
            old(snapshot)@
        }),
        final(executions)@ == (ExecutionsView {
            threads: old(executions)@.threads.remove(thread_id@),
            ..old(executions)@
        }),
{
    let none: Vec<Envelope> = Vec::new();
    assert(none.deep_view() =~= Seq::empty());
    let noted = save_agent_snapshot(snapshot, executions, agent_name, thread_id, none, None);
    executions.retire(thread_id);
    noted
}

/// What is kept for a thread is among what is put back.
proof fn lemma_kept_is_replayed(
    snapshot: RuntimeSnapshotView,
    threads: Seq<Seq<char>>,
    thread: Seq<char>,
    envelope: EnvelopeView,
)
    requires
        threads.contains(thread),
        recovery::kept_for(snapshot.agent_drained_envelopes, thread).contains(envelope)
            || recovery::kept_for(snapshot.drained_envelopes, thread).contains(envelope),
    ensures
        recovery::replayed_for(snapshot, threads).contains(envelope),
    decreases threads.len(),
{
    let before = recovery::replayed_for(snapshot, threads.drop_last());
    let inbox = recovery::kept_for(snapshot.agent_drained_envelopes, threads.last());
    let late = recovery::kept_for(snapshot.drained_envelopes, threads.last());
    let all = recovery::replayed_for(snapshot, threads);
    if threads.last() == thread {
        if inbox.contains(envelope) {
            let k = inbox.index_of(envelope);
            assert(all[before.len() + k] == envelope);
        } else {
            let k = late.index_of(envelope);
            assert(all[before.len() + inbox.len() + k] == envelope);
        }
    } else {
        let i = threads.index_of(thread);
        assert(threads.drop_last()[i] == thread);
        lemma_kept_is_replayed(snapshot, threads.drop_last(), thread, envelope);
        let k = before.index_of(envelope);
        assert(all[k] == envelope);
    }
}

/// Nothing is lost between two processes: an envelope that came too late is among what the next process
/// puts back, and so is every envelope that a driver had not taken; the thread it had not finished is
/// among those that go on.
pub proof fn law_what_is_kept_comes_back(
    snapshot: RuntimeSnapshotView,
    agent_name: Seq<char>,
    thread: Seq<char>,
    envelopes: Seq<EnvelopeView>,
    active: Option<Seq<char>>,
    late: EnvelopeView,
)
    requires
        snapshot.agent_drained_envelopes.dom().finite(),
        snapshot.drained_envelopes.dom().finite(),
    ensures
        recovery::replayed(archived(snapshot, late)).contains(late),
        forall|k: int|
            0 <= k < envelopes.len() ==> recovery::replayed(
                driver_left(snapshot, agent_name, thread, envelopes, active),
            ).contains(#[trigger] envelopes[k]),
        active is Some ==> driver_left(
            snapshot,
            agent_name,
            thread,
            envelopes,
            active,
        ).active_threads.contains_key(active->0),
{
    let kept = archived(snapshot, late);
    let to = late.to.thread_id;
    let threads = kept.agent_drained_envelopes.dom().union(kept.drained_envelopes.dom());
    text::lemma_in_order(threads);
    assert(threads.contains(to));
    assert(text::in_order(threads).to_set().contains(to));
    let list = recovery::kept_for(kept.drained_envelopes, to);
    assert(list[list.len() - 1] == late);
    lemma_kept_is_replayed(kept, text::in_order(threads), to, late);
    let left = driver_left(snapshot, agent_name, thread, envelopes, active);
    let left_threads = left.agent_drained_envelopes.dom().union(left.drained_envelopes.dom());
    assert forall|k: int| 0 <= k < envelopes.len() implies recovery::replayed(left).contains(
        #[trigger] envelopes[k],
    ) by {
        text::lemma_in_order(left_threads);
        assert(left_threads.contains(thread));
        assert(text::in_order(left_threads).to_set().contains(thread));
        assert(recovery::kept_for(left.agent_drained_envelopes, thread) == envelopes);
        lemma_kept_is_replayed(left, text::in_order(left_threads), thread, envelopes[k]);
    }
}

/// Copies of the messages of a history.
fn copy_messages(entries: &Vec<HistoryEntry>) -> (res: Vec<Message>)
    ensures
        res.deep_view() == message_view::messages_of(entries.deep_view()),
{
    let ghost all = entries.deep_view();
    let mut messages: Vec<Message> = Vec::new();
    let n: usize = entries.len();
    let mut i: usize = 0;
    while i < n
        invariant
            i <= n,
            n == entries@.len(),
            messages@.len() == i,
            forall|k: int| 0 <= k < i ==> (#[trigger] messages@[k])@ == entries@[k]@.message,
        decreases n - i,
    {
        messages.push(entries[i].message.clone());
        i += 1;
    }
    assert(messages.deep_view() =~= message_view::messages_of(all));
    messages
}

/// The messages of the session's root thread: those of the running thread, or else those that are
/// stored.
pub fn live_messages(running: Option<&AgentState>, stored: Option<&StoredCheckpoint>) -> (res: Vec<
    Message,
>)
    ensures
        res.deep_view() == message_view::messages_of(
            (match running {
                Some(state) => state@.messages,
                None => match stored {
                    Some(checkpoint) => checkpoint@.messages,
                    None => Seq::empty(),
                },
            }),
        ),
{
    match running {
        Some(state) => copy_messages(&state.messages),
        None => match stored {
            Some(checkpoint) => copy_messages(&checkpoint.messages),
            None => {
                let none: Vec<Message> = Vec::new();
                assert(none.deep_view() =~= message_view::messages_of(Seq::empty()));
                none
            },
        },
    }
}

/// Whether the turn a parked thread belongs to has been asked to stop. Its own agent cannot answer this,
/// since it is sitting idle with no turn in hand, so the thread's last stored message names the turn
/// instead.
pub fn thread_turn_cancelled(stored: Option<&StoredCheckpoint>, gate: &TurnGate) -> (res: bool)
    ensures
        res == match stored {
            Some(checkpoint) => match recovery::turn_of(checkpoint@) {
                Some(turn) => gate.stops(turn),
                None => false,
            },
            None => false,
        },
{
    match stored {
        Some(checkpoint) => match recovery::last_turn(checkpoint) {
            Some(turn) => gate.is_cancelled(turn),
            None => false,
        },
        None => false,
    }
}

}
