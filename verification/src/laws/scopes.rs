//! Who works for whom, who waits for a decision, and how a background task is stopped.

use crate::agent::{
    AgentEvent, AgentEventView, Envelope, EnvelopeBodyView, EnvelopeView, PendingApproval,
    PendingApprovalView, Receiver, ResumeDecision, SenderView, ThreadId,
};
use crate::execution::{CompletionTargetView, ProcessGroupIdView, ScopeAbort, StoredExecution};
use crate::laws::recovery;
use crate::laws::storage;
use crate::persist::AgentRuntimeSnapshot;
use crate::runtime::cleanup::{self, CleanupAttempts, CleanupNext, StopPlan};
use crate::runtime::error::SendCommandError;
use crate::runtime::scopes::{self, Emission, Executions, ExecutionsView};
use crate::runtime::turn::CallLedger;
use crate::task::{ScopeMember, ScopeMemberView, TaskId};
use crate::text;
use vstd::prelude::*;

verus! {

proof fn lemma_filtered(
    approvals: Seq<PendingApprovalView>,
    which: spec_fn(PendingApprovalView) -> bool,
    one: PendingApprovalView,
)
    ensures
        approvals.filter(which).contains(one) <==> approvals.contains(one) && which(one),
{
    broadcast use vstd::seq_lib::group_filter_ensures;

    if approvals.filter(which).contains(one) {
        let k = approvals.filter(which).index_of(one);
        approvals.lemma_filter_contains_rev(which, one);
        assert(which(approvals.filter(which)[k]));
    }
    if approvals.contains(one) && which(one) {
        let k = approvals.index_of(one);
        assert(approvals.filter(which).contains(approvals[k]));
    }
}

/// Whether a task works in the background on behalf of a thread.
pub open spec fn works_for(executions: ExecutionsView, thread: Seq<char>, task: Seq<char>) -> bool {
    executions.threads.contains_key(thread) && executions.threads[thread].stored.scope == (
    ProcessGroupIdView::Background { task_id: task })
}

/// Whether a thread works in the foreground, or not at all.
pub open spec fn in_foreground(executions: ExecutionsView, thread: Seq<char>) -> bool {
    executions.threads.contains_key(thread) ==> executions.threads[thread].stored.scope is Foreground
}

/// What is known of the work on a thread is what was registered for it.
pub proof fn law_the_execution_of_a_thread(
    executions: &Executions,
    thread: &ThreadId,
    execution: Option<&StoredExecution>,
    task: Option<TaskId>,
    stopped: bool,
)
    requires
        call_ensures(Executions::execution, (executions, thread), execution),
        call_ensures(Executions::task_of, (executions, thread), task),
        call_ensures(Executions::execution_stopped, (executions, thread), stopped),
    ensures
        executions@.threads.contains_key(thread@) ==> (execution matches Some(found) && found@
            == executions@.threads[thread@].stored && stopped
            == executions@.threads[thread@].cancelled),
        !executions@.threads.contains_key(thread@) ==> execution is None && task is None
            && !stopped,
        task matches Some(id) ==> works_for(executions@, thread@, id@),
        task is None ==> in_foreground(executions@, thread@),
{
}

/// An event of foreground work is published as it is, after the approvals that it makes void. An event
/// of background work is published only where a user has to see it: a request for approval and its
/// removal as they are, and a failed write as an error of the task.
pub proof fn law_what_is_published(
    executions: &mut Executions,
    thread: &ThreadId,
    event: AgentEvent,
    res: Emission,
    task: Seq<char>,
)
    requires
        call_ensures(Executions::emit_event, (executions, thread, event), res),
    ensures
        in_foreground(old(executions)@, thread@) ==> {
            &&& res.events.deep_view().len() > 0
            &&& res.events.deep_view().last() == event@
            &&& res.refresh is None
            &&& !ends(event@) ==> res.events.deep_view().len() == 1
        },
        works_for(old(executions)@, thread@, task) ==> {
            let closed = old(executions)@.background.contains_key(task)
                && old(executions)@.background[task].closed;
            &&& event@ is Suspended && closed ==> res.events.deep_view().len() == 0
                && res.refresh is None && final(executions)@ == old(executions)@
            &&& event@ is Suspended && !closed ==> res.events.deep_view() == seq![event@]
                && res.refresh.deep_view() == Some(task)
            &&& event@ is ApprovalRemoved || event@ is BackgroundError ==> res.events.deep_view()
                == seq![event@]
            &&& event@ matches AgentEventView::PersistFailed(message) ==> res.events.deep_view()
                == seq![AgentEventView::BackgroundError { task_id: task, message }]
            &&& forall|k: int|
                0 <= k < res.events.deep_view().len() ==> (#[trigger] res.events.deep_view()[k]
                    == event@ || res.events.deep_view()[k] is ApprovalRemoved
                    || res.events.deep_view()[k] is BackgroundError)
        },
{
}

/// Whether an event ends the waiting of its thread: the work was aborted, failed, or gave its final
/// answer.
pub open spec fn ends(event: AgentEventView) -> bool {
    match event {
        AgentEventView::Aborted(_) => true,
        AgentEventView::Error(_) => true,
        AgentEventView::LLMEnd(answer) => answer.tool_calls.len() == 0,
        _ => false,
    }
}

/// Whether these say that an approval is gone.
pub open spec fn removed(event: AgentEventView, approval: PendingApprovalView) -> bool {
    event == (AgentEventView::ApprovalRemoved {
        thread_id: approval.thread_id,
        parent_message_id: approval.parent_message_id,
        task_id: approval.task_id,
    })
}

/// A thread that ends its work waits for no decision any more, and each approval it had is announced as
/// removed; the approvals of other threads stay. A thread that asks for approval waits for it, and an
/// earlier request about the same batch is replaced. Nothing else changes who waits.
pub proof fn law_who_waits_after_an_event(
    executions: &mut Executions,
    thread: &ThreadId,
    event: AgentEvent,
    res: Emission,
    approval: PendingApprovalView,
)
    requires
        call_ensures(Executions::emit_event, (executions, thread, event), res),
    ensures
        final(executions)@.threads == old(executions)@.threads,
        final(executions)@.background == old(executions)@.background,
        final(executions)@.quarantined == old(executions)@.quarantined,
        ends(event@) ==> (final(executions)@.approvals.contains(approval)
            <==> old(executions)@.approvals.contains(approval) && approval.thread_id != thread@),
        ends(event@) && old(executions)@.approvals.contains(approval) && approval.thread_id
            == thread@ ==> exists|k: int|
            0 <= k < res.events.deep_view().len() && removed(
                #[trigger] res.events.deep_view()[k],
                approval,
            ),
        !ends(event@) && !(event@ is Suspended) ==> final(executions)@.approvals
            == old(executions)@.approvals,
        event@ is Suspended && res.events.deep_view().len() > 0 ==> {
            let asked = event@->Suspended_0;
            &&& final(executions)@.approvals.len() > 0
            &&& final(executions)@.approvals.last() == asked
            &&& final(executions)@.approvals.contains(approval) <==> approval == asked || (
            old(executions)@.approvals.contains(approval) && !(approval.thread_id
                == asked.thread_id && approval.parent_message_id == asked.parent_message_id))
        },
{
    let before = old(executions)@.approvals;
    if ends(event@) {
        let which = scopes::on_thread(thread@);
        lemma_filtered(before, scopes::others(which), approval);
        lemma_filtered(before, which, approval);
        if before.contains(approval) && approval.thread_id == thread@ {
            assert(which(approval));
            let gone = before.filter(which);
            let k = gone.index_of(approval);
            assert(scopes::removals(gone)[k] == scopes::removal(approval));
            assert(res.events.deep_view()[k] == scopes::removals(gone)[k]);
            assert(removed(res.events.deep_view()[k], approval));
        }
        assert(scopes::others(which)(approval) == !which(approval));
    }
    match event@ {
        AgentEventView::Suspended(asked) => {
            if res.events.deep_view().len() > 0 {
                let which = scopes::for_batch(asked.thread_id, asked.parent_message_id);
                let kept = before.filter(scopes::others(which));
                lemma_filtered(before, scopes::others(which), approval);
                assert(scopes::others(which)(approval) == !which(approval));
                let after = final(executions)@.approvals;
                assert(after == kept.push(asked));
                assert(after[after.len() - 1] == asked);
                if kept.contains(approval) {
                    let k = kept.index_of(approval);
                    assert(after[k] == approval);
                }
                if after.contains(approval) && approval != asked {
                    let k = after.index_of(approval);
                    assert(kept[k] == approval);
                }
            }
        },
        _ => {},
    }
}

/// A batch that waits for approval and is put on record replaces what was recorded of the same batch,
/// and leaves every other.
pub proof fn law_an_approval_is_put_on_record(
    executions: &mut Executions,
    asked: PendingApproval,
    approval: PendingApprovalView,
)
    requires
        call_ensures(Executions::insert_approval, (executions, asked), ()),
    ensures
        final(executions)@.approvals.contains(asked@),
        approval != asked@ ==> (final(executions)@.approvals.contains(approval)
            <==> old(executions)@.approvals.contains(approval) && !(approval.thread_id
            == asked@.thread_id && approval.parent_message_id == asked@.parent_message_id)),
        final(executions)@.threads == old(executions)@.threads,
{
    let before = old(executions)@.approvals;
    let which = scopes::for_batch(asked@.thread_id, asked@.parent_message_id);
    let kept = before.filter(scopes::others(which));
    lemma_filtered(before, scopes::others(which), approval);
    assert(scopes::others(which)(approval) == !which(approval));
    let after = final(executions)@.approvals;
    assert(after[after.len() - 1] == asked@);
    if kept.contains(approval) {
        let k = kept.index_of(approval);
        assert(after[k] == approval);
    }
    if after.contains(approval) && approval != asked@ {
        let k = after.index_of(approval);
        assert(kept[k] == approval);
    }
}

/// Whether a call is one of those that wait for approval.
pub open spec fn asked_about(approval: PendingApprovalView, id: Seq<char>) -> bool {
    exists|k: int| 0 <= k < approval.calls.len() && (#[trigger] approval.calls[k]).id == id
}

/// Whether a decision answers these calls: every call it names is one of them, and none twice.
pub open spec fn fits(approval: PendingApprovalView, decision: &ResumeDecision) -> bool {
    &&& forall|i: int|
        0 <= i < decision@.resolutions.len() ==> asked_about(
            approval,
            (#[trigger] decision@.resolutions[i]).0,
        )
    &&& forall|i: int, j: int|
        0 <= i < j < decision@.resolutions.len() ==> (#[trigger] decision@.resolutions[i]).0 != (
        #[trigger] decision@.resolutions[j]).0
}

/// A decision is taken where its batch waits for it, the agent is the one that asked, it names calls of
/// the batch alone and each once, and the thread was not stopped. It then waits no more; every other
/// approval does. A decision that is refused changes nothing.
pub proof fn law_which_decisions_are_taken(
    executions: &mut Executions,
    to: &Receiver,
    decision: &ResumeDecision,
    res: Result<PendingApproval, SendCommandError>,
    approval: PendingApprovalView,
)
    requires
        call_ensures(Executions::admit_decision, (executions, to, decision), res),
        old(executions)@.well_formed(),
    ensures
        ({
            let meant = approval.thread_id == to@.thread_id && approval.parent_message_id
                == decision@.parent_message_id;
            let stopped = old(executions)@.threads.contains_key(to@.thread_id)
                && old(executions)@.threads[to@.thread_id].cancelled;
            &&& old(executions)@.approvals.contains(approval) && meant ==> {
                &&& approval.agent_name == to@.name && fits(approval, decision) && !stopped ==> (
                res matches Ok(taken) && taken@ == approval)
                &&& approval.agent_name == to@.name && fits(approval, decision) && stopped ==> res
                    == Err::<PendingApproval, SendCommandError>(SendCommandError::ScopeClosed)
                &&& approval.agent_name != to@.name || !fits(approval, decision) ==> res == Err::<
                    PendingApproval,
                    SendCommandError,
                >(SendCommandError::StaleApproval)
            }
            &&& res is Ok ==> (final(executions)@.approvals.contains(approval)
                <==> old(executions)@.approvals.contains(approval) && !meant)
            &&& res is Err ==> final(executions)@ == old(executions)@
        }),
        final(executions)@.threads == old(executions)@.threads,
        final(executions)@.background == old(executions)@.background,
{
    broadcast use vstd::seq_lib::group_filter_ensures;

    let before = old(executions)@.approvals;
    let which = scopes::for_batch(to@.thread_id, decision@.parent_message_id);
    let found = before.filter(which);
    lemma_filtered(before, which, approval);
    lemma_filtered(before, scopes::others(which), approval);
    assert(scopes::others(which)(approval) == !which(approval));
    if before.contains(approval) && which(approval) {
        assert(found.len() > 0);
        let first = found[0];
        assert(found.contains(first));
        lemma_filtered(before, which, first);
        if first != approval {
            let i = before.index_of(first);
            let j = before.index_of(approval);
            if i < j {
                assert(scopes::for_batch(before[i].thread_id, before[i].parent_message_id)(
                    before[j],
                ));
            } else {
                assert(scopes::for_batch(before[j].thread_id, before[j].parent_message_id)(
                    before[i],
                ));
            }
        }
        assert(fits(approval, decision) == scopes::answers(
            approval.calls,
            decision@.resolutions,
        )) by {
            assert forall|id: Seq<char>| asked_about(approval, id)
                == #[trigger] scopes::asks_about(approval.calls, id) by {}
            if fits(approval, decision) {
                assert forall|i: int| 0 <= i < decision@.resolutions.len() implies scopes::asks_about(
                    approval.calls,
                    (#[trigger] decision@.resolutions[i]).0,
                ) by {
                    assert(asked_about(approval, decision@.resolutions[i].0));
                }
            }
            if scopes::answers(approval.calls, decision@.resolutions) {
                assert forall|i: int| 0 <= i < decision@.resolutions.len() implies asked_about(
                    approval,
                    (#[trigger] decision@.resolutions[i]).0,
                ) by {
                    assert(scopes::asks_about(approval.calls, decision@.resolutions[i].0));
                }
            }
        }
    }
}

/// A decision on a batch that nobody waits for is refused as stale.
pub proof fn law_a_decision_nobody_waits_for_is_stale(
    executions: &mut Executions,
    to: &Receiver,
    decision: &ResumeDecision,
    res: Result<PendingApproval, SendCommandError>,
)
    requires
        call_ensures(Executions::admit_decision, (executions, to, decision), res),
        forall|k: int|
            0 <= k < old(executions)@.approvals.len() ==> !((
            #[trigger] old(executions)@.approvals[k]).thread_id == to@.thread_id
                && old(executions)@.approvals[k].parent_message_id == decision@.parent_message_id),
    ensures
        res == Err::<PendingApproval, SendCommandError>(SendCommandError::StaleApproval),
        final(executions)@ == old(executions)@,
{
    broadcast use vstd::seq_lib::group_filter_ensures;

    let before = old(executions)@.approvals;
    let which = scopes::for_batch(to@.thread_id, decision@.parent_message_id);
    let found = before.filter(which);
    if found.len() > 0 {
        assert(found.contains(found[0]));
        lemma_filtered(before, which, found[0]);
        let k = before.index_of(found[0]);
        assert(which(before[k]));
    }
}

/// Whether new work for an envelope belongs to a background task: a call does where its caller does.
pub open spec fn called_for(
    executions: ExecutionsView,
    envelope: EnvelopeView,
    task: Seq<char>,
) -> bool {
    &&& envelope.body is ToolCall
    &&& envelope.from matches SenderView::Agent { thread_id, .. } && works_for(
        executions,
        thread_id,
        task,
    )
}

/// New work is registered under the envelope that asked for it. A task works in the foreground, in the
/// turn it opens, for nobody's call; a call works where its caller works, further down the caller's path,
/// and owes the caller an answer. A call whose caller is not known works in the foreground, in the turn
/// it was made in.
pub proof fn law_new_work_is_registered(
    executions: &mut Executions,
    envelope: &Envelope,
    res: Result<(), SendCommandError>,
    other: Seq<char>,
)
    requires
        call_ensures(Executions::register_execution, (executions, envelope), res),
        res is Ok,
        envelope@.body is Task || envelope@.body is ToolCall,
    ensures
        final(executions)@.approvals == old(executions)@.approvals,
        final(executions)@.quarantined == old(executions)@.quarantined,
        final(executions)@.threads.contains_key(envelope@.to.thread_id),
        other != envelope@.to.thread_id ==> (final(executions)@.threads.contains_key(other)
            <==> old(executions)@.threads.contains_key(other)),
        other != envelope@.to.thread_id && old(executions)@.threads.contains_key(other)
            ==> final(executions)@.threads[other] == old(executions)@.threads[other],
        ({
            let made = final(executions)@.threads[envelope@.to.thread_id];
            &&& !made.cancelled
            &&& made.stored.invocation_id == envelope@.id
            &&& envelope@.body matches EnvelopeBodyView::Task { message_id, .. } ==> {
                &&& made.stored.scope matches ProcessGroupIdView::Foreground { turn_id }
                    && turn_id.value == message_id.value
                &&& made.stored.completion is RootTurn
                &&& made.stored.agent_path == seq![envelope@.to.name]
            }
            &&& envelope@.body matches EnvelopeBodyView::ToolCall { call_id, turn_id, .. }
                ==> match envelope@.from {
                SenderView::Agent { name, thread_id } => {
                    &&& made.stored.completion matches CompletionTargetView::Caller(target)
                        && target.envelope_id == envelope@.id && target.sender_name == name
                        && target.sender_thread_id == thread_id && target.call_id == call_id
                    &&& old(executions)@.threads.contains_key(thread_id) ==> made.stored.scope
                        == old(executions)@.threads[thread_id].stored.scope
                        && made.stored.agent_path
                        == old(executions)@.threads[thread_id].stored.agent_path.push(
                        envelope@.to.name,
                    )
                    &&& !old(executions)@.threads.contains_key(thread_id) ==> made.stored.scope == (
                    ProcessGroupIdView::Foreground { turn_id }) && made.stored.agent_path == seq![
                        envelope@.to.name,
                    ]
                },
                SenderView::User => made.stored.completion is RootTurn && made.stored.scope == (
                ProcessGroupIdView::Foreground { turn_id }),
            }
        }),
{
}

/// Work for a background task joins it: whoever stops the task reaches it too. Work in the foreground
/// joins none.
pub proof fn law_background_work_joins_its_task(
    executions: &mut Executions,
    envelope: &Envelope,
    res: Result<(), SendCommandError>,
    task: Seq<char>,
)
    requires
        call_ensures(Executions::register_execution, (executions, envelope), res),
        res is Ok,
        old(executions)@.background.contains_key(task),
    ensures
        final(executions)@.background.contains_key(task),
        called_for(old(executions)@, envelope@, task) ==> {
            let members = final(executions)@.background[task].members;
            &&& members.len() == old(executions)@.background[task].members.len() + 1
            &&& members.drop_last() == old(executions)@.background[task].members
            &&& members.last().thread_id == envelope@.to.thread_id
            &&& members.last().invocation_id == envelope@.id
        },
        !called_for(old(executions)@, envelope@, task) ==> final(executions)@.background[task]
            == old(executions)@.background[task],
{
    if called_for(old(executions)@, envelope@, task) {
        let members = final(executions)@.background[task].members;
        assert(members.drop_last() =~= old(executions)@.background[task].members);
    }
}

/// New work is refused where it is a task and somebody waits for a decision, where its thread is still
/// being cleaned up, and where it would join a background task that is closed; nothing else stands in its
/// way, and what only continues work is never refused. Refused work changes nothing.
pub proof fn law_which_work_is_refused(
    executions: &mut Executions,
    envelope: &Envelope,
    res: Result<(), SendCommandError>,
)
    requires
        call_ensures(Executions::register_execution, (executions, envelope), res),
    ensures
        res is Err ==> final(executions)@ == old(executions)@,
        envelope@.body is Reply || envelope@.body is Resume ==> res is Ok && final(executions)@
            == old(executions)@,
        envelope@.body is Task && old(executions)@.approvals.len() > 0 ==> res == Err::<
            (),
            SendCommandError,
        >(SendCommandError::PendingApprovals),
        envelope@.body is Task && old(executions)@.approvals.len() == 0 ==> (res is Ok
            <==> !old(executions)@.quarantined.contains(envelope@.to.thread_id)),
        (envelope@.body is ToolCall || (envelope@.body is Task && old(executions)@.approvals.len()
            == 0)) && old(executions)@.quarantined.contains(envelope@.to.thread_id) ==> res
            == Err::<(), SendCommandError>(SendCommandError::AwaitingCleanup),
        envelope@.body is ToolCall && !old(executions)@.quarantined.contains(
            envelope@.to.thread_id,
        ) ==> {
            let closed = exists|task: Seq<char>|
                #![trigger old(executions)@.background.contains_key(task)]
                called_for(old(executions)@, envelope@, task)
                    && old(executions)@.background.contains_key(task)
                    && old(executions)@.background[task].closed;
            &&& closed ==> res == Err::<(), SendCommandError>(SendCommandError::ScopeClosed)
            &&& !closed ==> res is Ok
        },
{
    if envelope@.body is ToolCall {
        match old(executions)@.caller(envelope@) {
            Some(caller) => {
                match caller.background_task() {
                    Some(task) => {
                        assert(called_for(old(executions)@, envelope@, task));
                        assert(old(executions)@.background.contains_key(task)
                            == old(executions)@.background.contains_key(task));
                    },
                    None => {},
                }
            },
            None => {},
        }
    }
}

/// Aborting a turn stops what works in the foreground, and only that: the threads that are named are
/// exactly those that are marked, and background work goes on.
pub proof fn law_a_turn_is_stopped_without_the_background(
    executions: &mut Executions,
    res: Vec<String>,
    thread: Seq<char>,
)
    requires
        call_ensures(Executions::stop_foreground, (executions,), res),
    ensures
        final(executions)@.approvals == old(executions)@.approvals,
        final(executions)@.background == old(executions)@.background,
        final(executions)@.threads.contains_key(thread) <==> old(executions)@.threads.contains_key(
            thread,
        ),
        old(executions)@.threads.contains_key(thread) ==> {
            let before = old(executions)@.threads[thread];
            let after = final(executions)@.threads[thread];
            &&& after.stored == before.stored
            &&& before.stored.scope is Foreground ==> after.cancelled && res.deep_view().contains(
                thread,
            )
            &&& before.stored.scope is Background ==> after.cancelled == before.cancelled
                && !res.deep_view().contains(thread)
        },
        !old(executions)@.threads.contains_key(thread) ==> !res.deep_view().contains(thread),
{
    let threads = old(executions)@.foreground();
    text::lemma_in_order(threads);
    assert(res.deep_view().contains(thread) == res.deep_view().to_set().contains(thread));
    assert(final(executions)@.threads.contains_key(thread)
        == final(executions)@.threads.dom().contains(thread));
}

/// A task waits for approval exactly where one of its threads does.
pub proof fn law_when_a_task_waits_for_approval(
    executions: &Executions,
    task: &TaskId,
    res: bool,
    k: int,
)
    requires
        call_ensures(Executions::awaits_approval, (executions, task), res),
    ensures
        0 <= k < executions@.approvals.len() && executions@.approvals[k].task_id == Some(task@)
            ==> res,
        res ==> exists|i: int|
            0 <= i < executions@.approvals.len() && (#[trigger] executions@.approvals[i]).task_id
                == Some(task@),
{
}

/// Work that ends is forgotten, and nothing else with it.
pub proof fn law_ended_work_is_forgotten(
    executions: &mut Executions,
    thread: &ThreadId,
    other: Seq<char>,
)
    requires
        call_ensures(Executions::retire, (executions, thread), ()),
    ensures
        !final(executions)@.threads.contains_key(thread@),
        other != thread@ ==> (final(executions)@.threads.contains_key(other)
            <==> old(executions)@.threads.contains_key(other)),
        other != thread@ && old(executions)@.threads.contains_key(other)
            ==> final(executions)@.threads[other] == old(executions)@.threads[other],
        final(executions)@.approvals == old(executions)@.approvals,
        final(executions)@.background == old(executions)@.background,
{
}

/// Whether a thread is one of the members'.
pub open spec fn is_member(members: Seq<ScopeMemberView>, thread: Seq<char>) -> bool {
    exists|k: int| 0 <= k < members.len() && (#[trigger] members[k]).thread_id == thread
}

/// Stopping a background task stops all of its members and nothing else: their work is marked, their
/// threads are shut until the cleanup is done, and the approvals they waited for are withdrawn and
/// announced. Work and approvals of others stay.
pub proof fn law_stopping_a_task_stops_its_members(
    executions: &mut Executions,
    task: &TaskId,
    error: Option<String>,
    res: StopPlan,
    thread: Seq<char>,
    approval: PendingApprovalView,
)
    requires
        call_ensures(Executions::stop_scope, (executions, task, error), res),
        old(executions)@.background.contains_key(task@),
        !old(executions)@.background[task@].stopping,
    ensures
        ({
            let members = old(executions)@.background[task@].members;
            let ours = is_member(members, thread);
            &&& res matches StopPlan::Stop(stopped) && stopped.members.deep_view() == members && (
            old(executions)@.approvals.contains(approval) && is_member(members, approval.thread_id)
                ==> exists|k: int|
                0 <= k < stopped.revoked.deep_view().len() && {
                    let told = #[trigger] stopped.revoked.deep_view()[k];
                    &&& told.agent_name == approval.agent_name
                    &&& told.thread_id == approval.thread_id
                    &&& told.turn_id.value == approval.parent_message_id.value
                    &&& removed(told.event, approval)
                })
            &&& final(executions)@.threads.contains_key(thread)
                <==> old(executions)@.threads.contains_key(thread)
            &&& old(executions)@.threads.contains_key(thread) ==> {
                &&& final(executions)@.threads[thread].stored
                    == old(executions)@.threads[thread].stored
                &&& ours ==> final(executions)@.threads[thread].cancelled
                &&& !ours ==> final(executions)@.threads[thread]
                    == old(executions)@.threads[thread]
            }
            &&& final(executions)@.quarantined.contains(thread)
                <==> old(executions)@.quarantined.contains(thread) || ours
            &&& final(executions)@.approvals.contains(approval)
                <==> old(executions)@.approvals.contains(approval) && !is_member(
                members,
                approval.thread_id,
            )
            &&& final(executions)@.background.contains_key(task@)
            &&& final(executions)@.background[task@].closed
            &&& final(executions)@.background[task@].stopping
            &&& final(executions)@.background[task@].members == members
            &&& error is Some ==> final(executions)@.background[task@].reason == Some(error->0@)
            &&& error is None ==> final(executions)@.background[task@].reason
                == old(executions)@.background[task@].reason
        }),
{
    let before = old(executions)@.approvals;
    let members = old(executions)@.background[task@].members;
    let which = scopes::on_member(members);
    lemma_filtered(before, which, approval);
    lemma_filtered(before, scopes::others(which), approval);
    assert(which(approval) == is_member(members, approval.thread_id));
    assert(scopes::others(which)(approval) == !which(approval));
    assert(cleanup::member_threads(members).contains(thread) == is_member(members, thread));
    assert(final(executions)@.threads.contains_key(thread)
        == final(executions)@.threads.dom().contains(thread));
    match res {
        StopPlan::Stop(stopped) => {
            if before.contains(approval) && which(approval) {
                let gone = before.filter(which);
                let k = gone.index_of(approval);
                assert(stopped.revoked.deep_view()[k] == cleanup::revocation(approval));
                assert(removed(stopped.revoked.deep_view()[k].event, approval));
            }
        },
        _ => {},
    }
}

/// A task that nobody knows cannot be stopped, and one that is being stopped is waited for; neither
/// stops anything.
pub proof fn law_a_task_is_stopped_by_one(
    executions: &mut Executions,
    task: &TaskId,
    error: Option<String>,
    res: StopPlan,
)
    requires
        call_ensures(Executions::stop_scope, (executions, task, error), res),
    ensures
        !old(executions)@.background.contains_key(task@) ==> res is Unknown && final(executions)@
            == old(executions)@,
        old(executions)@.background.contains_key(task@) && old(executions)@.background[task@].stopping
            ==> res is Wait && final(executions)@.threads == old(executions)@.threads
            && final(executions)@.approvals == old(executions)@.approvals
            && final(executions)@.quarantined == old(executions)@.quarantined,
{
}

/// A scope is closed off in the name of its task, for the members that were stopped, and for the reason
/// that the task ended with.
pub proof fn law_a_scope_is_closed_off_for_its_reason(
    executions: &Executions,
    task: &TaskId,
    members: Vec<ScopeMember>,
    res: ScopeAbort,
)
    requires
        call_ensures(Executions::scope_abort, (executions, task, members), res),
    ensures
        res@.task_id == task@,
        res@.members == members.deep_view(),
        executions@.background.contains_key(task@) && executions@.background[task@].reason is Some
            ==> res@.reason == executions@.background[task@].reason->0,
        !(executions@.background.contains_key(task@) && executions@.background[task@].reason is Some)
            ==> res@.reason == "Killed by user"@,
{
}

/// A scope that was cleaned up is forgotten: its threads are free again, and the rest is as it was.
pub proof fn law_a_cleaned_scope_is_forgotten(
    executions: &mut Executions,
    scope: &ScopeAbort,
    thread: Seq<char>,
    task: Seq<char>,
)
    requires
        call_ensures(Executions::forget_scope, (executions, scope), ()),
    ensures
        final(executions)@.background.contains_key(task)
            <==> old(executions)@.background.contains_key(task) && task != scope@.task_id,
        final(executions)@.quarantined.contains(thread)
            <==> old(executions)@.quarantined.contains(thread) && !is_member(
            scope@.members,
            thread,
        ),
        final(executions)@.threads.contains_key(thread) <==> old(executions)@.threads.contains_key(
            thread,
        ) && !is_member(scope@.members, thread),
        final(executions)@.approvals == old(executions)@.approvals,
{
    assert(cleanup::member_threads(scope@.members).contains(thread) == is_member(
        scope@.members,
        thread,
    ));
    assert(final(executions)@.threads.contains_key(thread)
        == final(executions)@.threads.dom().contains(thread));
}

/// Discarding members settles what they owed and removes what they left, and nothing of others.
pub proof fn law_discarded_members_owe_nothing(
    members: &Vec<ScopeMember>,
    calls: &mut CallLedger,
    snapshot: &mut AgentRuntimeSnapshot,
    thread: Seq<char>,
    envelope: EnvelopeView,
)
    requires
        call_ensures(cleanup::discard_members, (members, calls, snapshot), ()),
    ensures
        is_member(members.deep_view(), thread) ==> final(calls)@.count(thread) == 0,
        !is_member(members.deep_view(), thread) ==> final(calls)@.count(thread)
            == old(calls)@.count(thread),
        storage::left_behind(envelope, members.deep_view(), Map::empty()) ==> recovery::gone(
            final(snapshot)@,
            envelope,
        ),
        !storage::left_behind(envelope, members.deep_view(), Map::empty()) ==> recovery::stays(
            old(snapshot)@,
            final(snapshot)@,
            envelope,
        ),
{
    storage::lemma_fenced(
        old(snapshot)@,
        members.deep_view(),
        Map::empty(),
        envelope,
        thread,
    );
    assert(scopes::works_on(members.deep_view(), thread) == is_member(
        members.deep_view(),
        thread,
    ));
}

/// A cleanup is done only once the scope is closed off and recorded. Until then it is tried again, each
/// time after twice the pause up to the longest, unless the session exits.
pub proof fn law_a_cleanup_is_tried_until_it_is_done(
    retry: &mut CleanupAttempts,
    closed_off: bool,
    recorded: bool,
    exiting: bool,
    res: CleanupNext,
)
    requires
        call_ensures(CleanupAttempts::after, (retry, closed_off, recorded, exiting), res),
    ensures
        res is Forget <==> closed_off && recorded,
        res is GiveUp <==> !(closed_off && recorded) && exiting,
        res matches CleanupNext::Retry(pause) ==> pause == old(retry).pause_ms,
        res is Retry && 2 * old(retry).pause_ms <= 5000 ==> final(retry).pause_ms == 2
            * old(retry).pause_ms,
        res is Retry && 2 * old(retry).pause_ms > 5000 ==> final(retry).pause_ms == 5000,
{
}

}
