//! How an envelope is sent, and what is kept of it when a session exits.

use crate::agent::{AgentState, Envelope, EnvelopeBodyView, PendingApproval, ThreadId};
use crate::ids::TurnId;
use crate::laws::scopes;
use crate::llm::Message;
use crate::persist::{AgentRuntimeSnapshot, StoredCheckpoint};
use crate::runtime::delivery::{self, Delivery, ExitBarrier, ScopeRecord, Sending};
use crate::runtime::error::SendCommandError;
use crate::runtime::scopes::Executions;
use crate::runtime::turn::{CallLedger, TurnAlreadyActive, TurnGate};
use vstd::prelude::*;

verus! {

/// A session works on one turn: another is opened only where none is active, and an opened turn is not
/// asked to stop.
pub proof fn law_a_turn_is_opened_where_none_is_active(
    gate: &mut TurnGate,
    turn: TurnId,
    res: Result<(), TurnAlreadyActive>,
)
    requires
        call_ensures(TurnGate::open, (gate, turn), res),
    ensures
        res is Ok <==> old(gate).active is None,
        res is Ok ==> final(gate).active == Some(turn) && !final(gate).cancelled,
        res is Err ==> *final(gate) == *old(gate),
{
}

/// A turn is put back where none is active, and where it is active already; another is refused.
pub proof fn law_a_turn_is_put_back_where_it_fits(
    gate: &mut TurnGate,
    turn: TurnId,
    res: Result<(), String>,
)
    requires
        call_ensures(TurnGate::restore, (gate, turn), res),
    ensures
        res is Ok <==> old(gate).active is None || old(gate).active == Some(turn),
        res is Ok ==> final(gate).active == Some(turn),
        old(gate).active is Some ==> *final(gate) == *old(gate),
        res is Err ==> *final(gate) == *old(gate),
        res is Ok && old(gate).active is None ==> !final(gate).cancelled,
{
}

/// A request to stop reaches the turn it names while that is the active one, and no other. The turn
/// stays active until it is closed.
pub proof fn law_a_request_to_stop_reaches_its_turn(
    gate: &mut TurnGate,
    turn: TurnId,
    now: &TurnGate,
    then: &TurnGate,
    asked: TurnId,
    before: bool,
    after: bool,
)
    requires
        call_ensures(TurnGate::cancel, (gate, turn), ()),
        *then == *old(gate),
        *now == *final(gate),
        call_ensures(TurnGate::is_cancelled, (then, asked), before),
        call_ensures(TurnGate::is_cancelled, (now, asked), after),
    ensures
        final(gate).active == old(gate).active,
        after <==> before || (asked == turn && old(gate).active == Some(turn)),
        after ==> old(gate).active == Some(asked),
{
}

/// Stopping whatever is active stops the active turn.
pub proof fn law_the_active_turn_is_stopped(
    gate: &mut TurnGate,
    now: &TurnGate,
    asked: TurnId,
    after: bool,
)
    requires
        call_ensures(TurnGate::cancel_active, (gate,), ()),
        *now == *final(gate),
        call_ensures(TurnGate::is_cancelled, (now, asked), after),
    ensures
        final(gate).active == old(gate).active,
        after <==> old(gate).active == Some(asked),
{
}

/// Closing the active turn leaves none, with no request to stop; closing another changes nothing.
pub proof fn law_a_turn_is_closed_by_name(gate: &mut TurnGate, turn: TurnId)
    requires
        call_ensures(TurnGate::close, (gate, turn), ()),
    ensures
        old(gate).active == Some(turn) ==> final(gate).active is None && !final(gate).cancelled,
        old(gate).active != Some(turn) ==> *final(gate) == *old(gate),
{
}

/// A thread answers one call at a time: it is called where it owes nothing, and then it owes one answer.
pub proof fn law_a_thread_answers_one_call_at_a_time(
    calls: &mut CallLedger,
    thread: &ThreadId,
    res: bool,
    other: Seq<char>,
)
    requires
        call_ensures(CallLedger::try_begin, (calls, thread), res),
    ensures
        res <==> old(calls)@.count(thread@) == 0,
        final(calls)@.count(thread@) > 0,
        res ==> final(calls)@.count(thread@) == 1,
        other != thread@ ==> final(calls)@.count(other) == old(calls)@.count(other),
        !res ==> final(calls)@ == old(calls)@,
{
}

/// An answer settles one obligation of its thread and none of another's.
pub proof fn law_an_answer_settles_one_obligation(
    calls: &mut CallLedger,
    thread: &ThreadId,
    other: Seq<char>,
)
    requires
        call_ensures(CallLedger::end, (calls, thread), ()),
    ensures
        old(calls)@.count(thread@) > 0 ==> final(calls)@.count(thread@) == old(calls)@.count(
            thread@,
        ) - 1,
        old(calls)@.count(thread@) == 0 ==> final(calls)@.count(thread@) == 0,
        other != thread@ ==> final(calls)@.count(other) == old(calls)@.count(other),
{
}

/// Clearing a thread settles everything it owes and nothing that another does.
pub proof fn law_a_cleared_thread_owes_nothing(
    calls: &mut CallLedger,
    thread: &ThreadId,
    other: Seq<char>,
)
    requires
        call_ensures(CallLedger::clear, (calls, thread), ()),
    ensures
        final(calls)@.count(thread@) == 0,
        other != thread@ ==> final(calls)@.count(other) == old(calls)@.count(other),
{
}

/// A thread is at work on a call exactly where it owes an answer.
pub proof fn law_who_is_answering(calls: &CallLedger, thread: &ThreadId, res: bool)
    requires
        call_ensures(CallLedger::is_answering, (calls, thread), res),
    ensures
        res <==> calls@.count(thread@) > 0,
{
}

/// A task opens its turn before it is sent, and is refused while another turn is active. Nothing else of
/// the books changes.
pub proof fn law_a_task_opens_its_turn_before_it_is_sent(
    envelope: &Envelope,
    gate: &mut TurnGate,
    calls: &mut CallLedger,
    executions: &mut Executions,
    res: Result<Sending, SendCommandError>,
)
    requires
        call_ensures(delivery::begin_send, (envelope, gate, calls, executions), res),
        envelope@.body is Task,
    ensures
        final(calls)@ == old(calls)@,
        final(executions)@ == old(executions)@,
        old(gate).active is Some ==> res == Err::<Sending, SendCommandError>(
            SendCommandError::TurnAlreadyActive,
        ) && *final(gate) == *old(gate),
        old(gate).active is None ==> {
            &&& res matches Ok(sending) && sending@.opened == final(gate).active
                && sending@.dispatched is None && sending@.answered is None
            &&& final(gate).active matches Some(turn) && turn.value
                == envelope@.body->Task_message_id.value
            &&& !final(gate).cancelled
        },
{
}

/// A call makes its thread owe an answer before it is sent, and is refused while the thread owes one.
pub proof fn law_a_call_is_owed_an_answer_before_it_is_sent(
    envelope: &Envelope,
    gate: &mut TurnGate,
    calls: &mut CallLedger,
    executions: &mut Executions,
    res: Result<Sending, SendCommandError>,
)
    requires
        call_ensures(delivery::begin_send, (envelope, gate, calls, executions), res),
        envelope@.body is ToolCall,
    ensures
        *final(gate) == *old(gate),
        final(executions)@ == old(executions)@,
        old(calls)@.count(envelope@.to.thread_id) > 0 ==> res == Err::<Sending, SendCommandError>(
            SendCommandError::ThreadBusy,
        ) && final(calls)@ == old(calls)@,
        old(calls)@.count(envelope@.to.thread_id) == 0 ==> {
            &&& res matches Ok(sending) && sending@.dispatched == Some(envelope@.to.thread_id)
                && sending@.opened is None
            &&& final(calls)@ == old(calls)@.insert(envelope@.to.thread_id)
        },
{
}

/// A reply is never refused and changes nothing by being sent. A decision takes its approval with it,
/// which is handed on; it leaves turn and ledger alone.
pub proof fn law_answers_are_sent_freely(
    envelope: &Envelope,
    gate: &mut TurnGate,
    calls: &mut CallLedger,
    executions: &mut Executions,
    res: Result<Sending, SendCommandError>,
)
    requires
        call_ensures(delivery::begin_send, (envelope, gate, calls, executions), res),
        envelope@.body is Reply || envelope@.body is Resume,
    ensures
        *final(gate) == *old(gate),
        final(calls)@ == old(calls)@,
        envelope@.body is Reply ==> {
            &&& res matches Ok(sending) && sending@.opened is None && sending@.dispatched is None
                && sending@.answered is None
            &&& final(executions)@ == old(executions)@
        },
        res is Ok && envelope@.body is Resume ==> (
        res->Ok_0@.answered matches Some(approval) && approval.thread_id == envelope@.to.thread_id
            && old(executions)@.approvals.contains(approval)
            && !final(executions)@.approvals.contains(approval)),
{
    broadcast use vstd::seq_lib::group_filter_ensures;

    match envelope@.body {
        EnvelopeBodyView::Resume(decision) => {
            let before = old(executions)@.approvals;
            let which = crate::runtime::scopes::for_batch(
                envelope@.to.thread_id,
                decision.parent_message_id,
            );
            let found = before.filter(which);
            if found.len() > 0 {
                let one = found[0];
                assert(found.contains(one));
                before.lemma_filter_contains_rev(which, one);
                assert(which(one));
                let rest = before.filter(crate::runtime::scopes::others(which));
                if rest.contains(one) {
                    let k = rest.index_of(one);
                    assert(crate::runtime::scopes::others(which)(rest[k]));
                }
            }
        },
        _ => {},
    }
}

/// A send that failed is taken back: the turn it opened is closed and the answer it would have been owed
/// is owed no more. One that went through leaves everything as it was. Either way the outcome is handed
/// on.
pub proof fn law_a_failed_send_is_taken_back(
    sending: Sending,
    sent: Result<(), SendCommandError>,
    gate: &mut TurnGate,
    calls: &mut CallLedger,
    res: Result<(), SendCommandError>,
    other: Seq<char>,
)
    requires
        call_ensures(delivery::finish_send, (sending, sent, gate, calls), res),
    ensures
        res == sent,
        sent is Ok ==> *final(gate) == *old(gate) && final(calls)@ == old(calls)@,
        sent is Err && sending@.opened is Some && old(gate).active == sending@.opened
            ==> final(gate).active is None,
        sent is Err && (sending@.opened is None || old(gate).active != sending@.opened)
            ==> *final(gate) == *old(gate),
        sent is Err && sending@.dispatched is None ==> final(calls)@ == old(calls)@,
        sent is Err && sending@.dispatched is Some ==> {
            let thread = sending@.dispatched->0;
            &&& old(calls)@.count(thread) > 0 ==> final(calls)@.count(thread) == old(calls)@.count(
                thread,
            ) - 1
            &&& other != thread ==> final(calls)@.count(other) == old(calls)@.count(other)
        },
{
}

/// A decision goes to the turn that the thread is stored in, and to the one the asking message opened
/// where nothing is stored.
pub proof fn law_the_turn_of_a_decision(
    approval: &PendingApproval,
    stored: Option<TurnId>,
    res: TurnId,
)
    requires
        call_ensures(delivery::decided_turn, (approval, stored), res),
    ensures
        stored is Some ==> res == stored->0,
        stored is None ==> res.value == approval@.parent_message_id.value,
{
}

/// A call that works for a background task is recorded with the task before it is delivered, under the
/// thread and the invocation that work on it. Nothing else is.
pub proof fn law_background_calls_are_recorded_first(
    executions: &Executions,
    envelope: &Envelope,
    res: Option<ScopeRecord>,
    task: Seq<char>,
)
    requires
        call_ensures(delivery::record_before_delivery, (executions, envelope), res),
    ensures
        !(envelope@.body is ToolCall) ==> res is None,
        scopes::in_foreground(executions@, envelope@.to.thread_id) ==> res is None,
        envelope@.body is ToolCall && scopes::works_for(
            executions@,
            envelope@.to.thread_id,
            task,
        ) ==> (res matches Some(record) && record.task_id@ == task && record.identity@.thread_id
            == envelope@.to.thread_id && record.identity@.invocation_id
            == executions@.threads[envelope@.to.thread_id].stored.invocation_id),
{
}

/// An envelope is delivered while the session runs and somebody can take it, and kept while the session
/// exits. It is refused where the session has exited, and where a session that runs knows no such agent.
pub proof fn law_where_an_envelope_goes(
    barrier: &ExitBarrier,
    running: bool,
    known: bool,
    res: Result<Delivery, SendCommandError>,
)
    requires
        call_ensures(delivery::begin_delivery, (barrier, running, known), res),
    ensures
        barrier.phase is Exited ==> res == Err::<Delivery, SendCommandError>(
            SendCommandError::ChannelClosed,
        ),
        barrier.phase is Exiting ==> res == Ok::<Delivery, SendCommandError>(Delivery::Archive),
        barrier.phase is Running && running ==> res == Ok::<Delivery, SendCommandError>(
            Delivery::Send,
        ),
        barrier.phase is Running && !running && known ==> res == Ok::<Delivery, SendCommandError>(
            Delivery::StartAndSend,
        ),
        barrier.phase is Running && !running && !known ==> res == Err::<Delivery, SendCommandError>(
            SendCommandError::AgentNotFound,
        ),
{
}

/// After waiting for room an envelope is kept where the session started to exit meanwhile, and refused
/// where it has exited or nobody is there to take it.
pub proof fn law_where_an_envelope_goes_after_a_wait(
    barrier: &ExitBarrier,
    room: bool,
    res: Result<Delivery, SendCommandError>,
)
    requires
        call_ensures(delivery::end_delivery, (barrier, room), res),
    ensures
        barrier.phase is Exiting ==> res == Ok::<Delivery, SendCommandError>(Delivery::Archive),
        barrier.phase is Running && room ==> res == Ok::<Delivery, SendCommandError>(
            Delivery::Send,
        ),
        barrier.phase is Exited || (barrier.phase is Running && !room) ==> res == Err::<
            Delivery,
            SendCommandError,
        >(SendCommandError::ChannelClosed),
{
}

/// An exit is entered once, and only by the first who asks; it never goes back.
pub proof fn law_an_exit_begins_once(barrier: &mut ExitBarrier, res: bool)
    requires
        call_ensures(ExitBarrier::enter_exiting, (barrier,), res),
    ensures
        res <==> old(barrier).phase is Running,
        !(final(barrier).phase is Running),
        !res ==> final(barrier).phase == old(barrier).phase,
        res ==> final(barrier).phase is Exiting,
{
}

/// An envelope that comes too late is kept for its thread, behind those that came before it, and nothing
/// else changes.
pub proof fn law_a_late_envelope_is_kept(
    snapshot: &mut AgentRuntimeSnapshot,
    envelope: Envelope,
    other: Seq<char>,
)
    requires
        call_ensures(delivery::archive, (snapshot, envelope), ()),
    ensures
        ({
            let thread = envelope@.to.thread_id;
            let before = old(snapshot)@.drained_envelopes;
            let after = final(snapshot)@.drained_envelopes;
            &&& after.contains_key(thread)
            &&& after[thread].len() > 0
            &&& after[thread].last() == envelope@
            &&& before.contains_key(thread) ==> after[thread].drop_last() == before[thread]
            &&& !before.contains_key(thread) ==> after[thread].len() == 1
            &&& other != thread ==> (after.contains_key(other) <==> before.contains_key(other))
            &&& other != thread && before.contains_key(other) ==> after[other] == before[other]
        }),
        final(snapshot)@.agent_drained_envelopes == old(snapshot)@.agent_drained_envelopes,
        final(snapshot)@.active_threads == old(snapshot)@.active_threads,
{
    let thread = envelope@.to.thread_id;
    let before = old(snapshot)@.drained_envelopes;
    if before.contains_key(thread) {
        assert(final(snapshot)@.drained_envelopes[thread].drop_last() =~= before[thread]);
    }
}

/// What a driver leaves is kept: the envelopes it had not taken, for its thread and in order, and the
/// thread it had not finished, under its agent. A thread that it finished is at work no more. Only a
/// stopped member of a background task leaves nothing, and is told so.
pub proof fn law_what_a_driver_leaves_is_kept(
    snapshot: &mut AgentRuntimeSnapshot,
    executions: &Executions,
    agent: String,
    driver: &ThreadId,
    envelopes: Vec<Envelope>,
    unfinished: Option<ThreadId>,
    res: bool,
    other: Seq<char>,
)
    requires
        call_ensures(
            delivery::save_agent_snapshot,
            (snapshot, executions, agent, driver, envelopes, unfinished),
            res,
        ),
    ensures
        !res <==> executions@.threads.contains_key(driver@)
            && executions@.threads[driver@].stored.scope is Background
            && executions@.threads[driver@].cancelled,
        !res ==> final(snapshot)@ == old(snapshot)@,
        final(snapshot)@.drained_envelopes == old(snapshot)@.drained_envelopes,
        res && envelopes.deep_view().len() > 0
            ==> final(snapshot)@.agent_drained_envelopes.contains_key(driver@)
            && final(snapshot)@.agent_drained_envelopes[driver@] == envelopes.deep_view(),
        res && envelopes.deep_view().len() == 0
            ==> !final(snapshot)@.agent_drained_envelopes.contains_key(driver@),
        other != driver@ ==> (final(snapshot)@.agent_drained_envelopes.contains_key(other)
            <==> old(snapshot)@.agent_drained_envelopes.contains_key(other)),
        other != driver@ && old(snapshot)@.agent_drained_envelopes.contains_key(other)
            ==> final(snapshot)@.agent_drained_envelopes[other]
            == old(snapshot)@.agent_drained_envelopes[other],
        res && unfinished is Some ==> final(snapshot)@.active_threads
            == old(snapshot)@.active_threads.insert(unfinished->0@, agent@),
        res && unfinished is None ==> final(snapshot)@.active_threads
            == old(snapshot)@.active_threads.remove(driver@),
{
}

/// A driver that goes idle leaves no envelopes and no unfinished thread, and its work is forgotten.
pub proof fn law_an_idle_driver_leaves_nothing(
    snapshot: &mut AgentRuntimeSnapshot,
    executions: &mut Executions,
    agent: String,
    thread: &ThreadId,
    res: bool,
)
    requires
        call_ensures(
            delivery::retire_foreground_driver,
            (snapshot, executions, agent, thread),
            res,
        ),
    ensures
        final(executions)@.threads == old(executions)@.threads.remove(thread@),
        final(executions)@.approvals == old(executions)@.approvals,
        final(executions)@.background == old(executions)@.background,
        res ==> !final(snapshot)@.agent_drained_envelopes.contains_key(thread@)
            && !final(snapshot)@.active_threads.contains_key(thread@),
        res ==> final(snapshot)@.drained_envelopes == old(snapshot)@.drained_envelopes,
        !res ==> final(snapshot)@ == old(snapshot)@,
        !res <==> old(executions)@.threads.contains_key(thread@)
            && old(executions)@.threads[thread@].stored.scope is Background
            && old(executions)@.threads[thread@].cancelled,
{
}

/// The messages of a thread are those it works with while it runs, and those stored of it otherwise: all
/// of them, in order.
pub proof fn law_the_messages_of_a_thread(
    running: Option<&AgentState>,
    stored: Option<&StoredCheckpoint>,
    res: Vec<Message>,
    k: int,
)
    requires
        call_ensures(delivery::live_messages, (running, stored), res),
    ensures
        running matches Some(state) ==> res.deep_view().len() == state@.messages.len() && (0 <= k
            < state@.messages.len() ==> res.deep_view()[k] == state@.messages[k].message),
        running is None && stored is Some ==> res.deep_view().len() == stored->0@.messages.len() && (
        0 <= k < stored->0@.messages.len() ==> res.deep_view()[k]
            == stored->0@.messages[k].message),
        running is None && stored is None ==> res.deep_view().len() == 0,
{
}

/// A stored thread's turn counts as stopped exactly where it is the active turn and was asked to stop.
pub proof fn law_when_a_stored_turn_is_stopped(
    stored: Option<&StoredCheckpoint>,
    gate: &TurnGate,
    res: bool,
)
    requires
        call_ensures(delivery::thread_turn_cancelled, (stored, gate), res),
    ensures
        res <==> stored is Some && stored->0@.messages.len() > 0 && gate.cancelled && gate.active
            == Some(stored->0@.messages.last().turn_id),
{
}

}
