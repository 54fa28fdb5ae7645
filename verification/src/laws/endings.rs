//! How work ends, and what is stored of it.

use crate::agent::{
    AbortedTargetView, AgentEventView, HistoryEntryView, ResumePoint, ResumePointView,
};
use crate::execution::StoredExecution;
use crate::ids::{Timestamp, TurnId};
use crate::laws::answers;
use crate::laws::results;
use crate::llm::{MessageView, ToolCallView, ToolOutputView};
use crate::persist::StoredCheckpoint;
use crate::runtime::agent_loop::{self, AgentLoop, LoopView, TurnEnd, WindUp, WindUpView};
use vstd::prelude::*;

verus! {

/// Whether this is the result of a call that never ran.
pub open spec fn never_ran(made: crate::llm::ToolMessageView, call: ToolCallView) -> bool {
    &&& made.id == call.id
    &&& made.name == call.name
    &&& made.outcome is Aborted
    &&& made.output == ToolOutputView::Failure("Tool execution was interrupted by the user"@)
    &&& made.started_at is None
}

/// The calls that have not run where a thread stands: those that were asked about first, and then those
/// that were ready.
pub open spec fn not_run(point: ResumePointView, k: int) -> ToolCallView {
    match point {
        ResumePointView::Generation => arbitrary(),
        ResumePointView::ToolExecution(state) => state.tool_calls[k].tool_call,
        ResumePointView::PendingApproval { pending_approval_calls, pending_calls, .. } => if k
            < pending_approval_calls.len() {
            pending_approval_calls[k]
        } else {
            pending_calls[k - pending_approval_calls.len()].tool_call
        },
    }
}

/// How many calls have not run where a thread stands.
pub open spec fn not_run_count(point: ResumePointView) -> nat {
    match point {
        ResumePointView::Generation => 0,
        ResumePointView::ToolExecution(state) => state.tool_calls.len(),
        ResumePointView::PendingApproval { pending_approval_calls, pending_calls, .. } =>
            pending_approval_calls.len() + pending_calls.len(),
    }
}

/// The results of calls that were stopped in a turn.
pub open spec fn stopped_in(turn: TurnId) -> spec_fn(HistoryEntryView) -> bool {
    |entry: HistoryEntryView|
        entry.turn_id == turn && match entry.message {
            MessageView::Tool(tool) => tool.outcome is Aborted,
            _ => false,
        }
}

proof fn lemma_aborted_calls(history: Seq<HistoryEntryView>, turn: TurnId)
    ensures
        ({
            let stopped = history.filter(stopped_in(turn));
            let caught = agent_loop::aborted_calls(history, turn);
            &&& caught.len() == stopped.len()
            &&& forall|k: int|
                0 <= k < stopped.len() ==> #[trigger] caught[k] == stopped[k].message->Tool_0.id
        }),
    decreases history.len(),
{
    reveal(Seq::filter);
    if history.len() > 0 {
        lemma_aborted_calls(history.drop_last(), turn);
    }
}

/// The calls that were stopped in the thread's turn are those whose results say so, in order.
pub proof fn law_stopped_calls_are_named(run: &AgentLoop, res: Vec<String>)
    requires
        call_ensures(AgentLoop::interrupted_calls, (run,), res),
        run@.state.current_turn is Some,
    ensures
        ({
            let stopped = run@.state.messages.filter(stopped_in(run@.state.current_turn->0));
            &&& res@.len() == stopped.len()
            &&& forall|k: int|
                0 <= k < stopped.len() ==> (#[trigger] res@[k])@ == stopped[k].message->Tool_0.id
        }),
{
    lemma_aborted_calls(run@.state.messages, run@.state.current_turn->0);
    assert forall|k: int| 0 <= k < res@.len() implies (#[trigger] res@[k])@ == res.deep_view()[k] by {
    }
}

/// A thread that winds up leaves no call behind: each one that has not run gets a result that says it
/// never will, in order. It waits on where sub-agents still owe it answers, for exactly those. Otherwise
/// its turn ends as aborted, naming the calls that were stopped, and a caller is told.
pub proof fn law_winding_up_leaves_no_call_behind(
    run: &mut AgentLoop,
    resume_point: ResumePoint,
    res: WindUp,
)
    requires
        call_ensures(AgentLoop::wind_up, (run, resume_point), res),
    ensures
        results::adds_results(old(run)@, final(run)@, not_run_count(resume_point@)),
        results::same_place(old(run)@, final(run)@),
        forall|k: int|
            0 <= k < not_run_count(resume_point@) ==> never_ran(
                results::result(old(run)@, final(run)@, k),
                #[trigger] not_run(resume_point@, k),
            ),
        match res@ {
            WindUpView::Waiting(left) => {
                &&& resume_point@ matches ResumePointView::ToolExecution(state)
                &&& state.pending_replies.len() > 0
                &&& left matches ResumePointView::ToolExecution(kept)
                &&& kept.pending_replies == state.pending_replies
                &&& kept.parent_message_id == state.parent_message_id
                &&& kept.tool_calls.len() == 0
                &&& final(run)@.reply_target == old(run)@.reply_target
            },
            WindUpView::Ended(end) => {
                &&& resume_point@ matches ResumePointView::ToolExecution(state)
                    ==> state.pending_replies.len() == 0
                &&& final(run)@.reply_target is None
                &&& answers::answers_caller(
                    old(run)@,
                    end,
                    ToolOutputView::Failure("Aborted by user"@),
                    true,
                )
                &&& end.event matches Some(AgentEventView::Aborted(target)) && (
                final(run)@.state.current_turn is Some ==> {
                    let stopped = final(run)@.state.messages.filter(
                        stopped_in(final(run)@.state.current_turn->0),
                    );
                    match target {
                        AbortedTargetView::Generation => stopped.len() == 0,
                        AbortedTargetView::ToolCalls(ids) => {
                            &&& ids.len() == stopped.len() && ids.len() > 0
                            &&& forall|k: int|
                                0 <= k < stopped.len() ==> #[trigger] ids[k]
                                    == stopped[k].message->Tool_0.id
                        },
                    }
                })
            },
        },
{
    let before = old(run)@;
    let after = final(run)@;
    let point = resume_point@;
    let records = agent_loop::unfinished(point);
    let between = if res@ is Waiting {
        after
    } else {
        choose|between: LoopView| #[trigger]
            agent_loop::recorded(before, between, records) && after == (LoopView {
                reply_target: None,
                ..between
            })
    };
    results::lemma_recorded_results(before, between, records);
    assert(records.len() == not_run_count(point));
    if res@ is Ended {
        lemma_aborted_calls(between.state.messages, between.thread_turn());
    }
    assert forall|k: int| 0 <= k < not_run_count(point) implies never_ran(
        results::result(before, after, k),
        #[trigger] not_run(point, k),
    ) by {
        let made = results::result(before, between, k);
        assert(results::added(before, after, k) == results::added(before, between, k));
        assert(made.id == records[k].id);
    }
    assert forall|k: int| 0 <= k < records.len() implies {
        let entry = #[trigger] results::added(before, after, k);
        &&& entry.message is Tool
        &&& before.state.current_turn is Some ==> before.state.current_turn == Some(entry.turn_id)
    } by {
        assert(results::added(before, after, k) == results::added(before, between, k));
    }
    assert forall|k: int| 0 <= k < records.len() implies results::result(before, after, k)
        == #[trigger] results::result(before, between, k) by {
        assert(results::added(before, after, k) == results::added(before, between, k));
    }
}

/// A stored thread is what was running: its history and recorded state, who waits for it, its place in
/// the tree and where it stands. Entering it again gives the same back.
pub proof fn law_storing_and_entering_give_the_thread_back(
    run: &AgentLoop,
    resume_point: ResumePoint,
    suspended_at: Timestamp,
    execution: Option<StoredExecution>,
    owed: &TurnEnd,
    stored: StoredCheckpoint,
    again: &mut AgentLoop,
    res: (ResumePoint, Timestamp),
)
    requires
        call_ensures(
            AgentLoop::checkpoint,
            (run, resume_point, suspended_at, execution, owed),
            stored,
        ),
        call_ensures(AgentLoop::enter, (again, Some(stored)), res),
    ensures
        stored.thread_id@ == run.thread_id.id@,
        stored.agent_name@ == run.agent.name@,
        stored.messages.deep_view() == run.agent.state.messages.deep_view(),
        stored.state.deep_view() == run.agent.state.state.deep_view(),
        stored.suspended_at == suspended_at,
        stored.reply_target.deep_view() == run.reply_target.deep_view(),
        final(again)@.state.messages == run@.state.messages,
        final(again)@.state.state == run@.state.state,
        final(again)@.reply_target == run@.reply_target,
        final(again)@.origin_thread == run@.origin_thread,
        final(again)@.name == old(again)@.name,
        final(again)@.events == old(again)@.events,
        run@.state.messages.len() > 0 ==> final(again)@.turn == run@.state.messages.last().turn_id
            && final(again)@.state.current_turn == Some(run@.state.messages.last().turn_id),
        run@.state.messages.len() == 0 ==> final(again)@.state.current_turn is None,
        res.0@ == resume_point@,
        res.1 == suspended_at,
{
    agent_loop::law_a_stored_thread_is_restored(
        run@,
        old(again)@,
        resume_point@,
        suspended_at,
        execution.deep_view(),
        owed@,
    );
    let view = stored@;
    assert(view.messages == stored.messages.deep_view());
    assert(view.state == stored.state.deep_view());
}

/// A thread that was never stored starts from nothing: no history, no state, nobody to answer.
pub proof fn law_an_unknown_thread_starts_from_nothing(
    run: &mut AgentLoop,
    res: (ResumePoint, Timestamp),
)
    requires
        call_ensures(AgentLoop::enter, (run, None::<StoredCheckpoint>), res),
    ensures
        final(run)@.state.messages.len() == 0,
        final(run)@.state.state.len() == 0,
        final(run)@.state.current_turn is None,
        final(run)@.reply_target is None,
        final(run)@.origin_thread is None,
        res.0@ is Generation,
{
}

}
