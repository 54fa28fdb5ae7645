//! How the calls of a batch are carried out.

use crate::agent::{
    AbortedTargetView, AgentEventView, EnvelopeBodyView, PendingToolCall, PendingToolCallView,
    ResumePointView, SenderView, ToolExecutionState,
};
use crate::ids::{self, Timestamp};
use crate::laws::answers;
use crate::laws::results;
use crate::llm::{ToolMessageView, ToolOutputView};
use crate::runtime::agent_loop::{self, AgentLoop, LoopStep, LoopStepView, LoopView};
use crate::runtime::error::SendCommandError;
use crate::runtime::tools::{
    self, RunningCallView, ToolAction, ToolRun, ToolRunView, ToolSettlement,
};
use crate::subagents::{self, SubAgentTool, SubAgentToolView, SubAgents};
use crate::text;
use std::sync::Arc;
use vstd::prelude::*;

verus! {

/// Whether a tool name stands for a sub-agent: the name with the prefix it is offered under, or the bare
/// name where that does not look like an offered one.
pub open spec fn names(called: Seq<char>, agent: Seq<char>) -> bool {
    ||| called == "agent__"@ + agent
    ||| called == agent && !("agent__"@.is_prefix_of(called))
}

proof fn lemma_names(called: Seq<char>, agent: Seq<char>)
    ensures
        names(called, agent) <==> subagents::bare_name(called) == agent,
{
    let prefix = "agent__"@;
    let n = prefix.len() as int;
    if prefix.len() <= called.len() && called.take(n) == prefix {
        assert(called =~= prefix + called.skip(n));
        assert((prefix + agent).skip(n) =~= agent);
        assert(prefix.is_prefix_of(called));
    } else {
        if prefix.is_prefix_of(called) {
            assert(called.take(n) =~= prefix);
        }
        if called == prefix + agent {
            assert(called.take(n) =~= prefix);
        }
    }
}

pub proof fn lemma_found(tools: Seq<SubAgentToolView>, called: Seq<char>, at: int)
    requires
        0 <= at < tools.len(),
        names(called, tools[at].name),
        forall|i: int| 0 <= i < at ==> !names(called, (#[trigger] tools[i]).name),
    ensures
        subagents::found(tools, called) == Some(tools[at]),
{
    lemma_names(called, tools[at].name);
    assert forall|i: int| 0 <= i < at implies (#[trigger] tools[i]).name != subagents::bare_name(
        called,
    ) by {
        lemma_names(called, tools[i].name);
    }
    lemma_named(tools, subagents::bare_name(called), at);
}

proof fn lemma_named(tools: Seq<SubAgentToolView>, bare: Seq<char>, at: int)
    requires
        0 <= at < tools.len(),
        tools[at].name == bare,
        forall|i: int| 0 <= i < at ==> (#[trigger] tools[i]).name != bare,
    ensures
        subagents::named(tools, bare) == Some(tools[at]),
    decreases at,
{
    if at > 0 {
        let rest = tools.drop_first();
        assert(tools[0].name != bare);
        assert(rest[at - 1] == tools[at]);
        assert forall|i: int| 0 <= i < at - 1 implies (#[trigger] rest[i]).name != bare by {
            assert(rest[i] == tools[i + 1]);
        }
        lemma_named(rest, bare, at - 1);
    }
}

pub proof fn lemma_not_found(tools: Seq<SubAgentToolView>, called: Seq<char>)
    requires
        forall|i: int| 0 <= i < tools.len() ==> !names(called, (#[trigger] tools[i]).name),
    ensures
        subagents::found(tools, called) is None,
{
    assert forall|i: int| 0 <= i < tools.len() implies (#[trigger] tools[i]).name
        != subagents::bare_name(called) by {
        lemma_names(called, tools[i].name);
    }
    lemma_not_named(tools, subagents::bare_name(called));
}

proof fn lemma_not_named(tools: Seq<SubAgentToolView>, bare: Seq<char>)
    requires
        forall|i: int| 0 <= i < tools.len() ==> (#[trigger] tools[i]).name != bare,
    ensures
        subagents::named(tools, bare) is None,
    decreases tools.len(),
{
    if tools.len() > 0 {
        let rest = tools.drop_first();
        assert(tools[0].name != bare);
        assert forall|i: int| 0 <= i < rest.len() implies (#[trigger] rest[i]).name != bare by {
            assert(rest[i] == tools[i + 1]);
        }
        lemma_not_named(rest, bare);
    }
}

/// A tool name finds the first sub-agent it stands for, and none where it stands for none.
pub proof fn law_a_tool_name_finds_its_sub_agent(
    subagents: &SubAgents,
    name: &str,
    res: Option<Arc<SubAgentTool>>,
    at: int,
)
    requires
        call_ensures(SubAgents::get, (subagents, name), res),
    ensures
        0 <= at < subagents@.len() && names(name@, subagents@[at].name) && (forall|i: int|
            0 <= i < at ==> !names(name@, (#[trigger] subagents@[i]).name)) ==> (res matches Some(
            found,
        ) && found@ == subagents@[at]),
        (forall|i: int|
            0 <= i < subagents@.len() ==> !names(name@, (#[trigger] subagents@[i]).name))
            ==> res is None,
{
    let tools = subagents@;
    if 0 <= at < tools.len() && names(name@, tools[at].name) && (forall|i: int|
        0 <= i < at ==> !names(name@, (#[trigger] tools[i]).name)) {
        lemma_found(tools, name@, at);
    }
    if forall|i: int| 0 <= i < tools.len() ==> !names(name@, (#[trigger] tools[i]).name) {
        lemma_not_found(tools, name@);
    }
}

/// A batch starts with all its calls ahead of it, in order, in the thread's turn.
pub proof fn law_a_batch_begins_with_all_its_calls(
    run: &AgentLoop,
    state: ToolExecutionState,
    res: ToolRun,
)
    requires
        call_ensures(AgentLoop::begin_tools, (run, state), res),
    ensures
        res@.calls == state.tool_calls.deep_view(),
        res@.pending_replies == state.pending_replies.deep_view(),
        res@.parent_message_id == state.parent_message_id,
        res@.next == 0,
        res@.running == Map::<Seq<char>, RunningCallView>::empty(),
        run@.state.current_turn is Some ==> run@.state.current_turn == Some(res@.turn_id),
{
}

/// Whether a call goes on without touching the rest of its batch.
pub open spec fn steps_on(before: ToolRunView, after: ToolRunView) -> bool {
    &&& after.next == before.next + 1
    &&& after.calls == before.calls
    &&& after.pending_replies == before.pending_replies
    &&& after.parent_message_id == before.parent_message_id
    &&& after.turn_id == before.turn_id
}

/// Whether this is the result of a call that could not be started.
pub open spec fn refused(made: ToolMessageView, call: PendingToolCallView, reason: Seq<char>) -> bool {
    &&& made.id == call.tool_call.id
    &&& made.name == call.tool_call.name
    &&& made.output == ToolOutputView::Failure(reason)
    &&& made.outcome == call.outcome
    &&& made.started_at is None
}

/// A call to a one-off sub-agent is sent to it: in the caller's name and turn, with the task that its
/// arguments carry, to a thread named after this very call.
pub proof fn law_a_call_to_a_one_off_sub_agent_is_sent(
    run: &mut AgentLoop,
    batch: &mut ToolRun,
    envelope_id: String,
    now: Timestamp,
    res: ToolAction,
    call: PendingToolCallView,
    at: int,
)
    requires
        call_ensures(AgentLoop::next_call, (run, batch, envelope_id, now), res),
        0 <= old(batch)@.next < old(batch)@.calls.len(),
        call == old(batch)@.calls[old(batch)@.next],
        0 <= at < old(run)@.subagents.len(),
        names(call.tool_call.name, old(run)@.subagents[at].name),
        forall|i: int|
            0 <= i < at ==> !names(call.tool_call.name, (#[trigger] old(run)@.subagents[i]).name),
        old(run)@.subagents[at].mode is Stateless,
    ensures
        final(run)@ == old(run)@,
        steps_on(old(batch)@, final(batch)@),
        final(batch)@.running == old(batch)@.running,
        res matches ToolAction::Send { call: sent, envelope } && {
            let peer = old(run)@.subagents[at];
            let key = ids::uuid_text(old(batch)@.parent_message_id.value) + ":"@
                + call.tool_call.id;
            &&& sent@ == call
            &&& envelope@.id == envelope_id@
            &&& envelope@.reply_to is None
            &&& envelope@.from == (SenderView::Agent {
                name: old(run)@.name,
                thread_id: old(run)@.thread_id,
            })
            &&& envelope@.to.name == peer.name
            &&& envelope@.to.thread_id == ids::child_id(old(run)@.thread_id, key)
            &&& envelope@.body matches EnvelopeBodyView::ToolCall {
                call_id,
                parent_message_id,
                derivation_key,
                turn_id,
                task,
            } && {
                &&& call_id == call.tool_call.id
                &&& parent_message_id == old(batch)@.parent_message_id
                &&& derivation_key == key
                &&& turn_id == old(batch)@.turn_id
                &&& carries_task(call, task)
            }
        },
{
    lemma_found(old(run)@.subagents, call.tool_call.name, at);
}

/// Whether this is the task in the arguments of a call: the text under `task`, and nothing where there
/// is none.
pub open spec fn carries_task(call: PendingToolCallView, task: Seq<char>) -> bool {
    match call.tool_call.arguments {
        Some(arguments) => match tools::json_string_member(arguments, "task"@) {
            Some(text) => task == text,
            None => task.len() == 0,
        },
        None => match tools::json_string_member("{}"@, "task"@) {
            Some(text) => task == text,
            None => task.len() == 0,
        },
    }
}

/// A call to a sub-agent that keeps a conversation is sent to that conversation, which is named after the
/// sub-agent alone, where the batch calls it once. Where another call of the batch goes there too, the
/// call is refused instead, and nothing is sent.
pub proof fn law_a_conversation_takes_its_calls_one_at_a_time(
    run: &mut AgentLoop,
    batch: &mut ToolRun,
    envelope_id: String,
    now: Timestamp,
    res: ToolAction,
    call: PendingToolCallView,
    at: int,
)
    requires
        call_ensures(AgentLoop::next_call, (run, batch, envelope_id, now), res),
        0 <= old(batch)@.next < old(batch)@.calls.len(),
        call == old(batch)@.calls[old(batch)@.next],
        0 <= at < old(run)@.subagents.len(),
        names(call.tool_call.name, old(run)@.subagents[at].name),
        forall|i: int|
            0 <= i < at ==> !names(call.tool_call.name, (#[trigger] old(run)@.subagents[i]).name),
        old(run)@.subagents[at].mode is Stateful,
    ensures
        steps_on(old(batch)@, final(batch)@),
        final(batch)@.running == old(batch)@.running,
        ({
            let peer = old(run)@.subagents[at];
            let shared = exists|i: int|
                0 <= i < old(batch)@.calls.len() && i != old(batch)@.next && names(
                    (#[trigger] old(batch)@.calls[i]).tool_call.name,
                    peer.name,
                );
            &&& !shared ==> {
                &&& final(run)@ == old(run)@
                &&& res matches ToolAction::Send { call: sent, envelope } && {
                    &&& sent@ == call
                    &&& envelope@.id == envelope_id@
                    &&& envelope@.from == (SenderView::Agent {
                        name: old(run)@.name,
                        thread_id: old(run)@.thread_id,
                    })
                    &&& envelope@.to.name == peer.name
                    &&& envelope@.to.thread_id == ids::child_id(old(run)@.thread_id, peer.name)
                    &&& envelope@.body matches EnvelopeBodyView::ToolCall {
                        call_id,
                        parent_message_id,
                        derivation_key,
                        turn_id,
                        task,
                    } && {
                        &&& call_id == call.tool_call.id
                        &&& parent_message_id == old(batch)@.parent_message_id
                        &&& derivation_key == peer.name
                        &&& turn_id == old(batch)@.turn_id
                        &&& carries_task(call, task)
                    }
                }
            }
            &&& shared ==> {
                &&& res is Recorded
                &&& results::adds_results(old(run)@, final(run)@, 1)
                &&& refused(
                    results::result(old(run)@, final(run)@, 0),
                    call,
                    "Concurrent invocation of sub-agent '"@ + call.tool_call.name
                        + "' is not allowed. Call it sequentially."@,
                )
            }
        }),
{
    let peers = old(run)@.subagents;
    let peer = peers[at];
    let calls = old(batch)@.calls;
    let here = old(batch)@.next;
    lemma_found(peers, call.tool_call.name, at);
    lemma_names(call.tool_call.name, peer.name);
    assert forall|i: int| 0 <= i < calls.len() implies (tools::stateful_callee(
        peers,
        #[trigger] calls[i],
    ) == Some(peer.name) <==> names(calls[i].tool_call.name, peer.name)) by {
        lemma_names(calls[i].tool_call.name, peer.name);
        if names(calls[i].tool_call.name, peer.name) {
            assert(subagents::found(peers, calls[i].tool_call.name) == subagents::found(
                peers,
                call.tool_call.name,
            ));
        } else {
            let bare = subagents::bare_name(calls[i].tool_call.name);
            lemma_named_has_name(peers, bare);
        }
    }
    let repeated = tools::called_repeatedly(peers, calls, peer.name);
    if repeated {
        let (i, j) = choose|i: int, j: int|
            0 <= i < j < calls.len() && tools::stateful_callee(peers, #[trigger] calls[i]) == Some(
                peer.name,
            ) && tools::stateful_callee(peers, #[trigger] calls[j]) == Some(peer.name);
        let other = if i == here {
            j
        } else {
            i
        };
        assert(names(calls[other].tool_call.name, peer.name));
        let record = tools::failed_call(call, tools::concurrency_refusal(call.tool_call.name));
        results::lemma_recorded_results(old(run)@, final(run)@, seq![record]);
        assert(results::result(old(run)@, final(run)@, 0).id == record.id);
    } else {
        assert forall|i: int| 0 <= i < calls.len() && i != here implies !names(
            (#[trigger] calls[i]).tool_call.name,
            peer.name,
        ) by {
            if names(calls[i].tool_call.name, peer.name) {
                assert(tools::stateful_callee(peers, calls[i]) == Some(peer.name));
                assert(tools::stateful_callee(peers, calls[here]) == Some(peer.name));
            }
        }
    }
}

proof fn lemma_named_has_name(tools: Seq<SubAgentToolView>, bare: Seq<char>)
    ensures
        subagents::named(tools, bare) matches Some(found) ==> found.name == bare,
    decreases tools.len(),
{
    if tools.len() > 0 {
        lemma_named_has_name(tools.drop_first(), bare);
    }
}

/// A call that no sub-agent takes is run here where the agent has a tool of that name: it is announced as
/// started and noted as running. Where there is no such tool the model is told so.
pub proof fn law_a_local_call_is_run_where_there_is_a_tool(
    run: &mut AgentLoop,
    batch: &mut ToolRun,
    envelope_id: String,
    now: Timestamp,
    res: ToolAction,
    call: PendingToolCallView,
)
    requires
        call_ensures(AgentLoop::next_call, (run, batch, envelope_id, now), res),
        0 <= old(batch)@.next < old(batch)@.calls.len(),
        call == old(batch)@.calls[old(batch)@.next],
        forall|i: int|
            0 <= i < old(run)@.subagents.len() ==> !names(
                call.tool_call.name,
                (#[trigger] old(run)@.subagents[i]).name,
            ),
    ensures
        steps_on(old(batch)@, final(batch)@),
        ({
            let own = old(run).agent.tools.definitions.deep_view();
            let known = exists|i: int|
                0 <= i < own.len() && (#[trigger] own[i]).name == call.tool_call.name;
            &&& known ==> {
                &&& res matches ToolAction::Execute { call: started } && started@ == call
                &&& final(run)@.state == old(run)@.state
                &&& final(run)@.events.len() == old(run)@.events.len() + 1
                &&& final(run)@.events.last().event == AgentEventView::ToolCallStart(call.tool_call)
                &&& final(batch)@.running == old(batch)@.running.insert(
                    call.tool_call.id,
                    RunningCallView { call, started_at: now },
                )
            }
            &&& !known ==> {
                &&& res is Recorded
                &&& results::adds_results(old(run)@, final(run)@, 1)
                &&& refused(
                    results::result(old(run)@, final(run)@, 0),
                    call,
                    "No such tool: "@ + call.tool_call.name,
                )
                &&& final(batch)@.running == old(batch)@.running
            }
        }),
{
    lemma_not_found(old(run)@.subagents, call.tool_call.name);
    let own = old(run).agent.tools.definitions;
    let name = call.tool_call.name;
    assert(old(run).agent.tools.offers(name) <==> exists|i: int|
        0 <= i < own.deep_view().len() && (#[trigger] own.deep_view()[i]).name == name) by {
        if old(run).agent.tools.offers(name) {
            let i = choose|i: int| 0 <= i < own@.len() && (#[trigger] own@[i])@.name == name;
            assert(own.deep_view()[i].name == name);
        }
        if exists|i: int|
            0 <= i < own.deep_view().len() && (#[trigger] own.deep_view()[i]).name == name {
            let i = choose|i: int|
                0 <= i < own.deep_view().len() && (#[trigger] own.deep_view()[i]).name == name;
            assert(own@[i]@.name == name);
        }
    }
    if !old(run).agent.tools.offers(name) {
        let record = tools::failed_call(call, tools::unknown_tool(name));
        results::lemma_recorded_results(old(run)@, final(run)@, seq![record]);
        assert(results::result(old(run)@, final(run)@, 0).id == record.id);
    }
}

/// Once every call of a batch was started, nothing more happens.
pub proof fn law_a_started_batch_stays_as_it_is(
    run: &mut AgentLoop,
    batch: &mut ToolRun,
    envelope_id: String,
    now: Timestamp,
    res: ToolAction,
)
    requires
        call_ensures(AgentLoop::next_call, (run, batch, envelope_id, now), res),
        old(batch)@.next == old(batch)@.calls.len(),
    ensures
        res is Started,
        final(run)@ == old(run)@,
        final(batch)@ == old(batch)@,
{
}

/// A call that was sent is announced, and its answer is waited for under the envelope that carried it
/// out, for the tool and with the authorisation it had. One that could not be sent has failed, and its
/// result says why.
pub proof fn law_a_sent_call_is_waited_for(
    run: &mut AgentLoop,
    batch: &mut ToolRun,
    call: PendingToolCall,
    envelope_id: String,
    sent: Result<(), SendCommandError>,
    now: Timestamp,
)
    requires
        call_ensures(AgentLoop::on_sent, (run, batch, call, envelope_id, sent, now), ()),
    ensures
        final(batch)@.next == old(batch)@.next,
        final(batch)@.calls == old(batch)@.calls,
        final(batch)@.running == old(batch)@.running,
        sent is Ok ==> {
            &&& final(run)@.state == old(run)@.state
            &&& final(run)@.events.len() == old(run)@.events.len() + 1
            &&& final(run)@.events.last().event == AgentEventView::ToolCallStart(call@.tool_call)
            &&& final(batch)@.pending_replies.len() == old(batch)@.pending_replies.len() + 1
            &&& final(batch)@.pending_replies.drop_last() == old(batch)@.pending_replies
            &&& final(batch)@.pending_replies.last().call_id == call@.tool_call.id
            &&& final(batch)@.pending_replies.last().call_envelope_id == envelope_id@
            &&& final(batch)@.pending_replies.last().tool_name == call@.tool_call.name
            &&& final(batch)@.pending_replies.last().outcome == call@.outcome
            &&& final(batch)@.pending_replies.last().started_at == now
        },
        sent matches Err(error) ==> {
            let made = results::result(old(run)@, final(run)@, 0);
            &&& results::adds_results(old(run)@, final(run)@, 1)
            &&& made.id == call@.tool_call.id
            &&& made.name == call@.tool_call.name
            &&& made.output == ToolOutputView::Failure(
                "Failed to dispatch to subagent '"@ + call@.tool_call.name + "': "@
                    + error.words(),
            )
            &&& made.outcome == call@.outcome
            &&& final(batch)@.pending_replies == old(batch)@.pending_replies
        },
{
    match sent {
        Ok(()) => {
            assert(final(batch)@.pending_replies.drop_last() =~= old(batch)@.pending_replies);
        },
        Err(error) => {
            let record = tools::failed_call(
                call@,
                tools::dispatch_failure(call@.tool_call.name, error),
            );
            results::lemma_recorded_results(old(run)@, final(run)@, seq![record]);
            assert(results::result(old(run)@, final(run)@, 0).id == record.id);
        },
    }
}

/// What a tool gave back is the result of its call: its output where it completed, and what went wrong
/// or was salvaged as a failure otherwise. The call then runs no more, and the others still do.
pub proof fn law_a_tool_output_is_the_result_of_its_call(
    run: &mut AgentLoop,
    batch: &mut ToolRun,
    call: PendingToolCall,
    started_at: Timestamp,
    settlement: ToolSettlement,
    res: bool,
)
    requires
        call_ensures(
            AgentLoop::settle_local_tool,
            (run, batch, call, started_at, settlement),
            res,
        ),
    ensures
        results::adds_results(old(run)@, final(run)@, 1),
        final(run)@.reply_target == old(run)@.reply_target,
        final(batch)@.running == old(batch)@.running.remove(call@.tool_call.id),
        final(batch)@.pending_replies == old(batch)@.pending_replies,
        final(batch)@.next == old(batch)@.next,
        final(batch)@.calls == old(batch)@.calls,
        ({
            let made = results::result(old(run)@, final(run)@, 0);
            &&& made.id == call@.tool_call.id
            &&& made.name == call@.tool_call.name
            &&& made.started_at == Some(started_at)
            &&& res == made.outcome is Aborted
            &&& settlement matches ToolSettlement::Completed(output) ==> made.output
                == ToolOutputView::Success(output@) && made.outcome == call@.outcome
            &&& settlement matches ToolSettlement::Aborted(words) ==> made.output
                == ToolOutputView::Failure(words@) && made.outcome is Aborted
            &&& settlement matches ToolSettlement::Failed(error) ==> made.output
                == ToolOutputView::Failure("Tool execution error: "@ + error@) && made.outcome
                == call@.outcome
        }),
{
    let record = tools::settled_record(call@, started_at, settlement);
    results::lemma_recorded_results(old(run)@, final(run)@, seq![record]);
    assert(results::result(old(run)@, final(run)@, 0).id == record.id);
}

/// A batch that ran goes on to the model where every answer is there, and waits for exactly the answers
/// that are not.
pub proof fn law_a_batch_goes_on_once_every_answer_is_there(
    run: &AgentLoop,
    batch: ToolRun,
    res: LoopStep,
)
    requires
        call_ensures(AgentLoop::finish_tools, (run, batch), res),
    ensures
        batch@.pending_replies.len() == 0 ==> res@ == LoopStepView::Next(
            ResumePointView::Generation,
        ),
        batch@.pending_replies.len() > 0 ==> (res@ matches LoopStepView::Next(
            ResumePointView::ToolExecution(left),
        ) && left.pending_replies == batch@.pending_replies && left.parent_message_id
            == batch@.parent_message_id && left.tool_calls.len() == 0),
{
}

/// A batch that is stopped leaves no local call without a result: each one that was still running gets
/// one that says it was interrupted. The thread waits for the sub-agents that still owe it an answer;
/// without any the turn ends as aborted, naming everything that was caught, and a caller is told.
pub proof fn law_a_stopped_batch_leaves_no_call_behind(
    run: &mut AgentLoop,
    batch: ToolRun,
    caught: Vec<String>,
    res: LoopStep,
)
    requires
        call_ensures(AgentLoop::finish_aborted_tools, (run, batch, caught), res),
        batch@.running.dom().finite(),
    ensures
        results::adds_results(old(run)@, final(run)@, batch@.running.dom().len()),
        forall|id: Seq<char>| #[trigger]
            batch@.running.contains_key(id) ==> exists|k: int|
                0 <= k < batch@.running.dom().len() && {
                    let made = #[trigger] results::result(old(run)@, final(run)@, k);
                    &&& made.id == id
                    &&& made.name == batch@.running[id].call.tool_call.name
                    &&& made.started_at == Some(batch@.running[id].started_at)
                    &&& made.outcome is Aborted
                    &&& made.output == ToolOutputView::Failure(
                        "Tool execution was interrupted by the user"@,
                    )
                },
        batch@.pending_replies.len() > 0 ==> {
            &&& final(run)@.reply_target == old(run)@.reply_target
            &&& res@ matches LoopStepView::Next(ResumePointView::ToolExecution(left))
                && left.pending_replies == batch@.pending_replies && left.parent_message_id
                == batch@.parent_message_id && left.tool_calls.len() == 0
        },
        batch@.pending_replies.len() == 0 ==> {
            &&& final(run)@.reply_target is None
            &&& res@ matches LoopStepView::Done(ResumePointView::Generation, end) && {
                &&& answers::answers_caller(
                    old(run)@,
                    end,
                    ToolOutputView::Failure("Aborted by user"@),
                    true,
                )
                &&& end.event matches Some(
                    AgentEventView::Aborted(AbortedTargetView::ToolCalls(ids)),
                ) && {
                    &&& caught.deep_view().is_prefix_of(ids)
                    &&& ids.len() == caught@.len() + batch@.running.dom().len()
                    &&& forall|id: Seq<char>| #[trigger]
                        batch@.running.contains_key(id) ==> ids.contains(id)
                }
            }
        },
{
    let before = old(run)@;
    let after = final(run)@;
    let running = batch@.running;
    let left = text::in_order(running.dom());
    let records = tools::dropped_calls(running, left);
    text::lemma_in_order(running.dom());
    left.unique_seq_to_set();
    let between = if batch@.pending_replies.len() > 0 {
        after
    } else {
        choose|between: LoopView| #[trigger]
            agent_loop::recorded(before, between, records) && after == (LoopView {
                reply_target: None,
                ..between
            })
    };
    results::lemma_recorded_results(before, between, records);
    assert forall|k: int| 0 <= k < records.len() implies results::added(before, after, k)
        == #[trigger] results::added(before, between, k) by {
    }
    assert forall|id: Seq<char>| #[trigger] running.contains_key(id) implies exists|k: int|
        0 <= k < running.dom().len() && {
            let made = #[trigger] results::result(before, after, k);
            &&& made.id == id
            &&& made.name == running[id].call.tool_call.name
            &&& made.started_at == Some(running[id].started_at)
            &&& made.outcome is Aborted
            &&& made.output == ToolOutputView::Failure(
                "Tool execution was interrupted by the user"@,
            )
        } by {
        assert(left.to_set().contains(id));
        let k = left.index_of(id);
        assert(records[k].id == id);
        let made = results::result(before, between, k);
        assert(results::added(before, after, k) == results::added(before, between, k));
        assert(made == results::result(before, after, k));
    }
    if batch@.pending_replies.len() == 0 {
        let ids = caught.deep_view() + left;
        assert forall|id: Seq<char>| #[trigger] running.contains_key(id) implies ids.contains(id) by {
            assert(left.to_set().contains(id));
            let k = left.index_of(id);
            assert(ids[caught@.len() + k] == id);
        }
    }
}

}
