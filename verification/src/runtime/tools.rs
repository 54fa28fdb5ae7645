//! Running a batch of tool calls: local tools run here, sub-agents are sent their calls and answer
//! later.

use crate::agent::{
    AbortedTarget, AbortedTargetView, AgentEvent, AgentEventView, Envelope, EnvelopeBody,
    EnvelopeBodyView, EnvelopeView, PendingReply, PendingReplyView, PendingToolCall,
    PendingToolCallView, Receiver, ReceiverView, ResumePoint, ResumePointView, Sender, SenderView,
    ThreadId, ToolExecutionState, ToolExecutionStateView,
};
use crate::ids::{self, MessageId, Timestamp, TurnId};
use crate::lists;
use crate::llm::{
    MessageOrigin, MessageOriginView, MessageView, ToolCall, ToolCallOutcome, ToolCallOutcomeView, ToolMessage,
    ToolOutput, ToolOutputView, ToolRecord,
};
use crate::runtime::agent_loop::{self, AgentLoop, LoopStep, LoopStepView, LoopView};
use crate::runtime::error::SendCommandError;
use crate::string_map::StringMap;
use crate::subagents::{self, SubAgentMode, SubAgentToolView, SubAgents};
use crate::text;
use std::collections::VecDeque;
use vstd::prelude::*;

verus! {

/// What a JSON text holds under a key, where the text is an object with a string there: what
/// `serde_json` parses out of the text, indexed by the key, as a string.
pub uninterp spec fn json_string_member(text: Seq<char>, key: Seq<char>) -> Option<Seq<char>>;

/// `serde_json::from_str` into a `Value` of the `serde_json` crate, then `Value` indexed by the key
/// and taken as a string. A text that is no JSON, a value that is no object, a missing key and a
/// member that is no string all give `None`. The result is named rather than described: it is the
/// grammar of JSON.
#[verifier::external_body]
fn parse_json_string_member(text: &str, key: &str) -> (res: Option<String>)
    ensures
        res.deep_view() == json_string_member(text@, key@),
{
    match serde_json::from_str::<serde_json::Value>(text) {
        Ok(value) => value[key].as_str().map(String::from),
        Err(_) => None,
    }
}

/// The task in the arguments of a sub-agent call, which always take `{"task": "..."}`. Anything else
/// is an empty task.
pub open spec fn task_argument(arguments: Option<Seq<char>>) -> Seq<char> {
    match json_string_member(
        match arguments {
            Some(text) => text,
            None => "{}"@,
        },
        "task"@,
    ) {
        Some(task) => task,
        None => Seq::empty(),
    }
}

/// The task in the arguments of a sub-agent call.
fn extract_task(arguments: &Option<String>) -> (res: String)
    ensures
        res@ == task_argument(arguments.deep_view()),
{
    let member = match arguments {
        Some(text) => parse_json_string_member(text.as_str(), "task"),
        None => parse_json_string_member("{}", "task"),
    };
    match member {
        Some(task) => task,
        None => String::new(),
    }
}

/// The sub-agent that keeps a conversation and that a call goes to, if it goes to one.
pub open spec fn stateful_callee(tools: Seq<SubAgentToolView>, call: PendingToolCallView) -> Option<
    Seq<char>,
> {
    match subagents::found(tools, call.tool_call.name) {
        Some(tool) => match tool.mode {
            SubAgentMode::Stateful => Some(tool.name),
            SubAgentMode::Stateless => None,
        },
        None => None,
    }
}

/// Whether a batch calls the same conversation-keeping sub-agent more than once. Calls are told apart
/// by the agent they resolve to, so that prefixed and bare tool names count together.
pub open spec fn called_repeatedly(
    tools: Seq<SubAgentToolView>,
    calls: Seq<PendingToolCallView>,
    name: Seq<char>,
) -> bool {
    exists|i: int, j: int|
        0 <= i < j < calls.len() && stateful_callee(tools, #[trigger] calls[i]) == Some(name)
            && stateful_callee(tools, #[trigger] calls[j]) == Some(name)
}

/// The name of the conversation-keeping sub-agent that a call goes to.
fn stateful_callee_name(subagents: &SubAgents, call: &PendingToolCall) -> (res: Option<String>)
    ensures
        res.deep_view() == stateful_callee(subagents@, call@),
{
    match subagents.get(call.tool_call.name.as_str()) {
        Some(tool) => match tool.mode {
            SubAgentMode::Stateful => Some(tool.name.clone()),
            SubAgentMode::Stateless => None,
        },
        None => None,
    }
}

/// The conversation-keeping sub-agents that a batch calls more than once.
pub fn concurrent_stateful_subagents(
    subagents: &SubAgents,
    tool_calls: &VecDeque<PendingToolCall>,
) -> (res: Vec<String>)
    ensures
        forall|name: Seq<char>|
            res.deep_view().contains(name) <==> #[trigger] called_repeatedly(
                subagents@,
                tool_calls.deep_view(),
                name,
            ),
{
    let ghost tools = subagents@;
    let ghost all = tool_calls.deep_view();
    let mut seen: Vec<String> = Vec::new();
    let mut repeated: Vec<String> = Vec::new();
    let n: usize = tool_calls.len();
    let mut i: usize = 0;
    while i < n
        invariant
            i <= n,
            n == tool_calls@.len(),
            all == tool_calls.deep_view(),
            tools == subagents@,
            forall|name: Seq<char>| #[trigger]
                seen.deep_view().contains(name) <==> exists|k: int|
                    0 <= k < i && stateful_callee(tools, #[trigger] all[k]) == Some(name),
            forall|name: Seq<char>| #[trigger]
                repeated.deep_view().contains(name) <==> called_repeatedly(
                    tools,
                    all.take(i as int),
                    name,
                ),
        decreases n - i,
    {
        let ghost once = seen.deep_view();
        let ghost twice = repeated.deep_view();
        let callee = stateful_callee_name(subagents, &tool_calls[i]);
        assert(all[i as int] == tool_calls@[i as int]@);
        assert(all.take(i + 1)[i as int] == all[i as int]);
        match callee {
            Some(name) => {
                let again = text::holds_text(&seen, name.as_str());
                let ghost called = name@;
                if again {
                    repeated.push(name.clone());
                    assert(repeated.deep_view() =~= twice.push(called));
                }
                seen.push(name);
                proof {
                    assert(seen.deep_view() =~= once.push(called));
                    assert forall|other: Seq<char>| #[trigger]
                        once.push(called).contains(other) == (once.contains(other) || other
                            == called) by {
                        lists::lemma_push_holds(once, called, other);
                    }
                    assert forall|other: Seq<char>| #[trigger]
                        twice.push(called).contains(other) == (twice.contains(other) || other
                            == called) by {
                        lists::lemma_push_holds(twice, called, other);
                    }
                    assert forall|other: Seq<char>| #[trigger]
                        seen.deep_view().contains(other) <==> exists|k: int|
                            0 <= k < i + 1 && stateful_callee(tools, #[trigger] all[k]) == Some(
                                other,
                            ) by {
                        assert(once.push(called).contains(other) == (other == called
                            || once.contains(other)));
                        if other == called {
                            assert(stateful_callee(tools, all[i as int]) == Some(other));
                        }
                    }
                    assert forall|other: Seq<char>| #[trigger]
                        repeated.deep_view().contains(other) <==> called_repeatedly(
                            tools,
                            all.take(i + 1),
                            other,
                        ) by {
                        lemma_called_repeatedly_more(tools, all, i as int, other);
                        assert(once.contains(other) <==> exists|k: int|
                            0 <= k < i && stateful_callee(tools, #[trigger] all[k]) == Some(other));
                        assert(twice.contains(other) <==> called_repeatedly(
                            tools,
                            all.take(i as int),
                            other,
                        ));
                        assert(twice.push(called).contains(other) == (other == called
                            || twice.contains(other)));
                    }
                }
            },
            None => {
                proof {
                    assert forall|other: Seq<char>| #[trigger]
                        repeated.deep_view().contains(other) <==> called_repeatedly(
                            tools,
                            all.take(i + 1),
                            other,
                        ) by {
                        lemma_called_repeatedly_more(tools, all, i as int, other);
                    }
                }
            },
        }
        i += 1;
    }
    assert(all.take(n as int) =~= all);
    repeated
}

proof fn lemma_called_repeatedly_more(
    tools: Seq<SubAgentToolView>,
    calls: Seq<PendingToolCallView>,
    n: int,
    name: Seq<char>,
)
    requires
        0 <= n < calls.len(),
    ensures
        called_repeatedly(tools, calls.take(n + 1), name) <==> called_repeatedly(
            tools,
            calls.take(n),
            name,
        ) || (stateful_callee(tools, calls[n]) == Some(name) && exists|k: int|
            0 <= k < n && stateful_callee(tools, #[trigger] calls[k]) == Some(name)),
{
    let more = calls.take(n + 1);
    let some = calls.take(n);
    if called_repeatedly(tools, more, name) {
        let (i, j) = choose|i: int, j: int|
            0 <= i < j < more.len() && stateful_callee(tools, #[trigger] more[i]) == Some(name)
                && stateful_callee(tools, #[trigger] more[j]) == Some(name);
        assert(more[i] == calls[i]);
        assert(more[j] == calls[j]);
        if j < n {
            assert(some[i] == calls[i]);
            assert(some[j] == calls[j]);
        }
    }
    if called_repeatedly(tools, some, name) {
        let (i, j) = choose|i: int, j: int|
            0 <= i < j < some.len() && stateful_callee(tools, #[trigger] some[i]) == Some(name)
                && stateful_callee(tools, #[trigger] some[j]) == Some(name);
        assert(more[i] == some[i]);
        assert(more[j] == some[j]);
    }
    if stateful_callee(tools, calls[n]) == Some(name) && exists|k: int|
        0 <= k < n && stateful_callee(tools, #[trigger] calls[k]) == Some(name) {
        let k = choose|k: int|
            0 <= k < n && stateful_callee(tools, #[trigger] calls[k]) == Some(name);
        assert(more[k] == calls[k]);
        assert(more[n] == calls[n]);
    }
}

/// A local call that is running.
pub struct RunningCall {
    pub call: PendingToolCall,
    pub started_at: Timestamp,
}

/// The content of a [`RunningCall`].
#[verifier::ext_equal]
pub struct RunningCallView {
    pub call: PendingToolCallView,
    pub started_at: Timestamp,
}

impl View for RunningCall {
    type V = RunningCallView;

    open spec fn view(&self) -> RunningCallView {
        RunningCallView { call: self.call@, started_at: self.started_at }
    }
}

impl DeepView for RunningCall {
    type V = RunningCallView;

    open spec fn deep_view(&self) -> RunningCallView {
        self@
    }
}

/// A batch of tool calls while it runs.
pub struct ToolRun {
    pub parent_message_id: MessageId,
    /// Answers that sub-agents owe.
    pub pending_replies: Vec<PendingReply>,
    /// The whole batch.
    pub calls: VecDeque<PendingToolCall>,
    /// The conversation-keeping sub-agents that the batch calls more than once.
    pub concurrent: Vec<String>,
    /// The turn handed to every sub-agent, so that their messages group with the submission that
    /// caused them.
    pub turn_id: TurnId,
    /// The first call that was not started yet.
    pub next: usize,
    /// Local calls that have not completed, by call id.
    pub running: StringMap<RunningCall>,
}

/// The content of a [`ToolRun`].
#[verifier::ext_equal]
pub struct ToolRunView {
    pub parent_message_id: MessageId,
    pub pending_replies: Seq<PendingReplyView>,
    pub calls: Seq<PendingToolCallView>,
    pub turn_id: TurnId,
    pub next: int,
    pub running: Map<Seq<char>, RunningCallView>,
}

impl View for ToolRun {
    type V = ToolRunView;

    open spec fn view(&self) -> ToolRunView {
        ToolRunView {
            parent_message_id: self.parent_message_id,
            pending_replies: self.pending_replies.deep_view(),
            calls: self.calls.deep_view(),
            turn_id: self.turn_id,
            next: self.next as int,
            running: self.running.deep_view(),
        }
    }
}

impl ToolRun {
    /// The batch knows which sub-agents it calls more than once, and has started no more calls than
    /// there are.
    pub open spec fn well_formed(self, tools: Seq<SubAgentToolView>) -> bool {
        &&& self.next <= self.calls@.len()
        &&& forall|name: Seq<char>| #[trigger]
            called_repeatedly(tools, self.calls.deep_view(), name)
                <==> self.concurrent.deep_view().contains(name)
    }
}

/// What to do for the next call of a batch.
pub enum ToolAction {
    /// Send this call to its sub-agent, and report how that went.
    Send { call: PendingToolCall, envelope: Envelope },
    /// Run this call, and report how it settled.
    Execute { call: PendingToolCall },
    /// Nothing: the call has its result already.
    Recorded,
    /// Nothing: every call has been started.
    Started,
}

/// How a local tool settled.
pub enum ToolSettlement {
    /// It completed.
    Completed(String),
    /// It observed the cancellation, and salvaged this.
    Aborted(String),
    /// It failed.
    Failed(String),
}

/// A batch of which nothing was started yet.
pub open spec fn begun_batch(run: LoopView, state: ToolExecutionStateView) -> ToolRunView {
    ToolRunView {
        parent_message_id: state.parent_message_id,
        pending_replies: state.pending_replies,
        calls: state.tool_calls,
        turn_id: run.thread_turn(),
        next: 0,
        running: Map::empty(),
    }
}

/// The envelope that carries a call to a sub-agent.
pub open spec fn call_envelope(
    run: LoopView,
    batch: ToolRunView,
    tool: SubAgentToolView,
    call: PendingToolCallView,
    id: Seq<char>,
) -> EnvelopeView {
    let key = agent_loop::dispatch_key(tool, batch.parent_message_id, call.tool_call.id);
    EnvelopeView {
        id,
        from: SenderView::Agent { name: run.name, thread_id: run.thread_id },
        to: ReceiverView { name: tool.name, thread_id: ids::child_id(run.thread_id, key) },
        reply_to: None,
        body: EnvelopeBodyView::ToolCall {
            call_id: call.tool_call.id,
            parent_message_id: batch.parent_message_id,
            derivation_key: key,
            turn_id: batch.turn_id,
            task: task_argument(call.tool_call.arguments),
        },
    }
}

/// What a call that failed before it ran is recorded as.
pub open spec fn failed_call(call: PendingToolCallView, reason: Seq<char>) -> ToolRecord {
    ToolRecord {
        id: call.tool_call.id,
        name: call.tool_call.name,
        output: ToolOutputView::Failure(reason),
        outcome: call.outcome,
        started_at: None,
    }
}

/// Why a second call to a conversation-keeping sub-agent in one batch is refused.
pub open spec fn concurrency_refusal(name: Seq<char>) -> Seq<char> {
    "Concurrent invocation of sub-agent '"@ + name + "' is not allowed. Call it sequentially."@
}

/// Why a call to a tool that does not exist fails.
pub open spec fn unknown_tool(name: Seq<char>) -> Seq<char> {
    "No such tool: "@ + name
}

/// Why a call that could not be sent fails.
pub open spec fn dispatch_failure(name: Seq<char>, error: SendCommandError) -> Seq<char> {
    "Failed to dispatch to subagent '"@ + name + "': "@ + error.words()
}

/// What the next call of a batch comes to: a sub-agent is sent it, unless the batch calls that
/// sub-agent more than once and it keeps a conversation; a local tool runs it; a name that is neither
/// fails.
pub open spec fn call_started(
    before: LoopView,
    batch: ToolRunView,
    local: bool,
    envelope_id: Seq<char>,
    now: Timestamp,
    after: LoopView,
    batch_after: ToolRunView,
    action: ToolAction,
) -> bool {
    let call = batch.calls[batch.next];
    let name = call.tool_call.name;
    let advanced = ToolRunView { next: batch.next + 1, ..batch };
    match subagents::found(before.subagents, name) {
        Some(tool) => {
            &&& batch_after == advanced
            &&& if stateful_callee(before.subagents, call) is Some && called_repeatedly(
                before.subagents,
                batch.calls,
                tool.name,
            ) {
                &&& agent_loop::recorded(
                    before,
                    after,
                    seq![failed_call(call, concurrency_refusal(name))],
                )
                &&& action is Recorded
            } else {
                &&& after == before
                &&& action matches ToolAction::Send { call: sent, envelope } && sent@ == call
                    && envelope@ == call_envelope(before, batch, tool, call, envelope_id)
            }
        },
        None => if local {
            &&& after == before.announcing(AgentEventView::ToolCallStart(call.tool_call))
            &&& batch_after == (ToolRunView {
                running: batch.running.insert(
                    call.tool_call.id,
                    RunningCallView { call, started_at: now },
                ),
                ..advanced
            })
            &&& action matches ToolAction::Execute { call: run } && run@ == call
        } else {
            &&& agent_loop::recorded(before, after, seq![failed_call(call, unknown_tool(name))])
            &&& batch_after == advanced
            &&& action is Recorded
        },
    }
}

/// What a settled local call is recorded as. A call that observed cancellation keeps whatever partial
/// output it salvaged and is marked as aborted; anything else keeps the outcome it started with.
pub open spec fn settled_record(
    call: PendingToolCallView,
    started_at: Timestamp,
    settlement: ToolSettlement,
) -> ToolRecord {
    ToolRecord {
        id: call.tool_call.id,
        name: call.tool_call.name,
        output: match settlement {
            ToolSettlement::Completed(output) => ToolOutputView::Success(output@),
            ToolSettlement::Aborted(reason) => ToolOutputView::Failure(reason@),
            ToolSettlement::Failed(error) => ToolOutputView::Failure(
                "Tool execution error: "@ + error@,
            ),
        },
        outcome: match settlement {
            ToolSettlement::Aborted(_) => ToolCallOutcomeView::Aborted,
            _ => call.outcome,
        },
        started_at: Some(started_at),
    }
}

/// What is recorded for the local calls that did not settle in time, in the order of their ids.
pub open spec fn dropped_calls(
    running: Map<Seq<char>, RunningCallView>,
    ids: Seq<Seq<char>>,
) -> Seq<ToolRecord> {
    ids.map_values(
        |id: Seq<char>|
            agent_loop::interrupted(
                id,
                running[id].call.tool_call.name,
                Some(running[id].started_at),
            ),
    )
}

/// The batch once every call was started: only the answers that sub-agents owe are left.
pub open spec fn awaiting_answers(batch: ToolRunView) -> ResumePointView {
    ResumePointView::ToolExecution(
        ToolExecutionStateView {
            parent_message_id: batch.parent_message_id,
            pending_replies: batch.pending_replies,
            tool_calls: Seq::empty(),
        },
    )
}

/// Where a thread goes from a batch that ran without being aborted: it waits while sub-agents owe
/// answers, and goes on to the next generation otherwise.
pub open spec fn after_batch(batch: ToolRunView) -> ResumePointView {
    if batch.pending_replies.len() > 0 {
        awaiting_answers(batch)
    } else {
        ResumePointView::Generation
    }
}

/// What sending a call comes to: a call that was sent is announced, and its answer is owed from now on;
/// a call that could not be sent has failed.
pub open spec fn call_sent(
    before: LoopView,
    batch: ToolRunView,
    call: PendingToolCallView,
    envelope_id: Seq<char>,
    sent: Result<(), SendCommandError>,
    now: Timestamp,
    after: LoopView,
    batch_after: ToolRunView,
) -> bool {
    match sent {
        Ok(()) => {
            &&& after == before.announcing(AgentEventView::ToolCallStart(call.tool_call))
            &&& batch_after == (ToolRunView {
                pending_replies: batch.pending_replies.push(
                    PendingReplyView {
                        call_id: call.tool_call.id,
                        call_envelope_id: envelope_id,
                        tool_name: call.tool_call.name,
                        outcome: call.outcome,
                        started_at: now,
                    },
                ),
                ..batch
            })
        },
        Err(error) => {
            &&& agent_loop::recorded(
                before,
                after,
                seq![failed_call(call, dispatch_failure(call.tool_call.name, error))],
            )
            &&& batch_after == batch
        },
    }
}

/// What a settled local call comes to: its result is recorded, and it no longer runs.
pub open spec fn call_settled(
    before: LoopView,
    batch: ToolRunView,
    record: ToolRecord,
    after: LoopView,
    batch_after: ToolRunView,
) -> bool {
    &&& agent_loop::recorded(before, after, seq![record])
    &&& batch_after == (ToolRunView { running: batch.running.remove(record.id), ..batch })
}

/// How an aborted batch ends. Local calls that outlived their grace are recorded as interrupted. While
/// sub-agents owe answers the thread parks: they are winding up and will answer for themselves.
/// Otherwise the turn is over, and everything the abort caught is named.
pub open spec fn abort_finished(
    before: LoopView,
    batch: ToolRunView,
    caught: Seq<Seq<char>>,
    after: LoopView,
    step: LoopStepView,
) -> bool {
    let left = text::in_order(batch.running.dom());
    if batch.pending_replies.len() > 0 {
        &&& agent_loop::recorded(before, after, dropped_calls(batch.running, left))
        &&& step == LoopStepView::Next(awaiting_answers(batch))
    } else {
        exists|between: LoopView| #[trigger]
            agent_loop::recorded(before, between, dropped_calls(batch.running, left)) && after == (
            LoopView { reply_target: None, ..between }) && (step matches LoopStepView::Done(
                point,
                end,
            ) && point == ResumePointView::Generation && agent_loop::is_turn_end(
                between,
                between.reply_target,
                Some(AgentEventView::Aborted(AbortedTargetView::ToolCalls(caught + left))),
                agent_loop::aborted_output(),
                true,
                end,
            ))
    }
}

impl AgentLoop {
    /// Start on a batch of tool calls.
    pub fn begin_tools(&self, state: ToolExecutionState) -> (res: ToolRun)
        ensures
            res.well_formed(self@.subagents),
            res@ == begun_batch(self@, state@),
    {
        let concurrent = concurrent_stateful_subagents(&self.agent.subagents, &state.tool_calls);
        let running: StringMap<RunningCall> = StringMap::new();
        assert(running.deep_view() =~= Map::<Seq<char>, RunningCallView>::empty());
        ToolRun {
            parent_message_id: state.parent_message_id,
            pending_replies: state.pending_replies,
            calls: state.tool_calls,
            concurrent,
            turn_id: self.thread_turn(),
            next: 0,
            running,
        }
    }

    /// Start the next call of a batch. `envelope_id` is for the envelope, if one is to be sent.
    pub fn next_call(
        &mut self,
        run: &mut ToolRun,
        envelope_id: String,
        now: Timestamp,
    ) -> (res: ToolAction)
        requires
            old(run).well_formed(old(self)@.subagents),
        ensures
            final(self).same_agent(*old(self)),
            final(run).well_formed(final(self)@.subagents),
            if old(run)@.next == old(run)@.calls.len() {
                &&& res is Started
                &&& final(self)@ == old(self)@
                &&& final(run)@ == old(run)@
            } else {
                call_started(
                    old(self)@,
                    old(run)@,
                    old(self).agent.tools.offers(old(run)@.calls[old(run)@.next].tool_call.name),
                    envelope_id@,
                    now,
                    final(self)@,
                    final(run)@,
                    res,
                )
            },
    {
        if run.next == run.calls.len() {
            return ToolAction::Started;
        }
        let call = run.calls[run.next].clone();
        assert(run@.calls[run@.next] == call@);
        run.next = run.next + 1;
        let ghost advanced = run@;
        match self.agent.subagents.get(call.tool_call.name.as_str()) {
            Some(subagent) => {
                let repeated = match subagent.mode {
                    SubAgentMode::Stateful => text::holds_text(
                        &run.concurrent,
                        subagent.name.as_str(),
                    ),
                    SubAgentMode::Stateless => false,
                };
                if repeated {
                    let reason = text::concat(
                        "Concurrent invocation of sub-agent '",
                        call.tool_call.name.as_str(),
                        "' is not allowed. Call it sequentially.",
                        "",
                        "",
                    );
                    proof {
                        reveal_strlit("");
                        assert(reason@ =~= concurrency_refusal(call@.tool_call.name));
                    }
                    self.record_failure(&call, reason);
                    return ToolAction::Recorded;
                }
                let key = match subagent.mode {
                    SubAgentMode::Stateless => MessageOrigin {
                        message_id: run.parent_message_id,
                        call_id: call.tool_call.id.clone(),
                    }.derivation_key(),
                    SubAgentMode::Stateful => subagent.name.clone(),
                };
                let thread_id = ThreadId::from_uuid5(&self.thread_id, key.as_str());
                let envelope = Envelope {
                    id: envelope_id,
                    from: Sender::Agent {
                        name: self.agent.name.clone(),
                        thread_id: self.thread_id.clone(),
                    },
                    // The tool name may be prefixed; route by the bare agent name.
                    to: Receiver { name: subagent.name.clone(), thread_id },
                    reply_to: None,
                    body: EnvelopeBody::ToolCall {
                        call_id: call.tool_call.id.clone(),
                        parent_message_id: run.parent_message_id,
                        derivation_key: key,
                        turn_id: run.turn_id,
                        task: extract_task(&call.tool_call.arguments),
                    },
                };
                ToolAction::Send { call, envelope }
            },
            None => {
                if self.agent.tools.contains(call.tool_call.name.as_str()) {
                    let started = call.tool_call.clone();
                    self.announce(AgentEvent::ToolCallStart(started));
                    let ghost before = run.running.deep_view();
                    let id = call.tool_call.id.clone();
                    let copy = call.clone();
                    run.running.insert(id, RunningCall { call: copy, started_at: now });
                    proof {
                        assert(run.running.deep_view() =~= before.insert(
                            call@.tool_call.id,
                            RunningCallView { call: call@, started_at: now },
                        ));
                    }
                    ToolAction::Execute { call }
                } else {
                    let mut reason = "No such tool: ".to_owned();
                    reason.append(call.tool_call.name.as_str());
                    self.record_failure(&call, reason);
                    ToolAction::Recorded
                }
            },
        }
    }

    /// Record a call that failed before it ran.
    fn record_failure(&mut self, call: &PendingToolCall, reason: String)
        ensures
            final(self).same_agent(*old(self)),
            agent_loop::recorded(
                old(self)@,
                final(self)@,
                seq![failed_call(call@, reason@)],
            ),
    {
        self.add_tool_message(
            ToolMessage::new(
                call.tool_call.id.clone(),
                call.tool_call.name.clone(),
                ToolOutput::Failure(reason),
                call.outcome.clone(),
                None,
            ),
        );
    }

    /// Take note of how sending a call went: a call that was sent is announced and its answer is owed
    /// from now on; a call that could not be sent has failed.
    pub fn on_sent(
        &mut self,
        run: &mut ToolRun,
        call: PendingToolCall,
        envelope_id: String,
        sent: Result<(), SendCommandError>,
        now: Timestamp,
    )
        requires
            old(run).well_formed(old(self)@.subagents),
        ensures
            final(self).same_agent(*old(self)),
            final(run).well_formed(final(self)@.subagents),
            call_sent(
                old(self)@,
                old(run)@,
                call@,
                envelope_id@,
                sent,
                now,
                final(self)@,
                final(run)@,
            ),
    {
        match sent {
            Err(error) => {
                let reason = text::concat(
                    "Failed to dispatch to subagent '",
                    call.tool_call.name.as_str(),
                    "': ",
                    error.describe(),
                    "",
                );
                proof {
                    reveal_strlit("");
                    assert(reason@ =~= dispatch_failure(call@.tool_call.name, error));
                }
                self.record_failure(&call, reason);
            },
            Ok(()) => {
                let started = call.tool_call.clone();
                self.announce(AgentEvent::ToolCallStart(started));
                let ghost before = run.pending_replies.deep_view();
                let reply = PendingReply {
                    call_id: call.tool_call.id,
                    call_envelope_id: envelope_id,
                    tool_name: call.tool_call.name,
                    outcome: call.outcome,
                    started_at: now,
                };
                let ghost owed = reply@;
                run.pending_replies.push(reply);
                assert(run.pending_replies.deep_view() =~= before.push(owed));
            },
        }
    }

    /// Record a settled local call. Returns whether it was recorded as aborted.
    pub fn settle_local_tool(
        &mut self,
        run: &mut ToolRun,
        call: PendingToolCall,
        started_at: Timestamp,
        settlement: ToolSettlement,
    ) -> (res: bool)
        requires
            old(run).well_formed(old(self)@.subagents),
        ensures
            final(self).same_agent(*old(self)),
            final(run).well_formed(final(self)@.subagents),
            call_settled(
                old(self)@,
                old(run)@,
                settled_record(call@, started_at, settlement),
                final(self)@,
                final(run)@,
            ),
            res == settled_record(call@, started_at, settlement).outcome is Aborted,
    {
        let ghost before = run.running.deep_view();
        run.running.remove(call.tool_call.id.as_str());
        assert(run.running.deep_view() =~= before.remove(call@.tool_call.id));
        let (output, outcome) = match settlement {
            ToolSettlement::Completed(output) => (ToolOutput::Success(output), call.outcome),
            ToolSettlement::Aborted(reason) => (
                ToolOutput::Failure(reason),
                ToolCallOutcome::Aborted,
            ),
            ToolSettlement::Failed(error) => {
                let mut reason = "Tool execution error: ".to_owned();
                reason.append(error.as_str());
                (ToolOutput::Failure(reason), call.outcome)
            },
        };
        let aborted = match &outcome {
            ToolCallOutcome::Aborted => true,
            _ => false,
        };
        self.add_tool_message(
            ToolMessage::new(
                call.tool_call.id,
                call.tool_call.name,
                output,
                outcome,
                Some(started_at),
            ),
        );
        aborted
    }

    /// The batch ran without being aborted: the thread waits while sub-agents owe answers, and goes on
    /// to the next generation otherwise.
    pub fn finish_tools(&self, run: ToolRun) -> (res: LoopStep)
        ensures
            res@ == LoopStepView::Next(after_batch(run@)),
    {
        if run.pending_replies.len() > 0 {
            let tool_calls: VecDeque<PendingToolCall> = VecDeque::new();
            assert(tool_calls.deep_view() =~= Seq::empty());
            LoopStep::Next(
                ResumePoint::ToolExecution(
                    ToolExecutionState {
                        parent_message_id: run.parent_message_id,
                        pending_replies: run.pending_replies,
                        tool_calls,
                    },
                ),
            )
        } else {
            LoopStep::Next(ResumePoint::Generation)
        }
    }

    /// Record the local calls that did not settle in time, in the order of their ids.
    fn drop_running(&mut self, run: &ToolRun, ids: &Vec<String>)
        requires
            forall|k: int|
                0 <= k < ids@.len() ==> run.running@.contains_key((#[trigger] ids@[k])@),
        ensures
            final(self).same_agent(*old(self)),
            agent_loop::recorded(
                old(self)@,
                final(self)@,
                dropped_calls(run@.running, ids.deep_view()),
            ),
    {
        let ghost start = self@;
        let ghost all = ids.deep_view();
        let ghost running = run@.running;
        let n: usize = ids.len();
        let mut i: usize = 0;
        proof {
            agent_loop::lemma_recorded_nothing(start);
            assert(dropped_calls(running, all.take(0)) =~= Seq::empty());
        }
        while i < n
            invariant
                i <= n,
                n == ids@.len(),
                all == ids.deep_view(),
                running == run@.running,
                start == old(self)@,
                self.same_agent(*old(self)),
                forall|k: int|
                    0 <= k < ids@.len() ==> run.running@.contains_key((#[trigger] ids@[k])@),
                agent_loop::recorded(start, self@, dropped_calls(running, all.take(i as int))),
            decreases n - i,
        {
            let ghost before = self@;
            let ghost done = dropped_calls(running, all.take(i as int));
            let id = ids[i].clone();
            assert(run.running@.contains_key(ids@[i as int]@));
            match run.running.get(id.as_str()) {
                Some(call) => {
                    let ghost record = agent_loop::interrupted(
                        id@,
                        running[id@].call.tool_call.name,
                        Some(running[id@].started_at),
                    );
                    assert(running[id@] == call@);
                    self.write_off(id, call.call.tool_call.name.clone(), Some(call.started_at));
                    proof {
                        agent_loop::lemma_recorded_more(start, before, self@, done, seq![record]);
                        assert(all[i as int] == ids@[i as int]@);
                        assert(dropped_calls(running, all.take(i + 1)) =~= done + seq![record]);
                    }
                },
                None => {},
            }
            i += 1;
        }
        assert(all.take(n as int) =~= all);
    }

    /// The batch was aborted; `caught` are the calls that were recorded as aborted while they were
    /// given time to settle.
    pub fn finish_aborted_tools(&mut self, run: ToolRun, caught: Vec<String>) -> (res: LoopStep)
        ensures
            final(self).same_agent(*old(self)),
            abort_finished(old(self)@, run@, caught.deep_view(), final(self)@, res@),
    {
        let ghost start = self@;
        let ids = run.running.keys();
        proof {
            text::lemma_in_order(run.running@.dom());
            assert(run@.running.dom() =~= run.running@.dom());
            assert forall|k: int| 0 <= k < ids@.len() implies run.running@.contains_key(
                (#[trigger] ids@[k])@,
            ) by {
                assert(ids.deep_view()[k] == ids@[k]@);
                assert(ids.deep_view().to_set().contains(ids@[k]@));
            }
        }
        self.drop_running(&run, &ids);
        if run.pending_replies.len() > 0 {
            let tool_calls: VecDeque<PendingToolCall> = VecDeque::new();
            assert(tool_calls.deep_view() =~= Seq::empty());
            return LoopStep::Next(
                ResumePoint::ToolExecution(
                    ToolExecutionState {
                        parent_message_id: run.parent_message_id,
                        pending_replies: run.pending_replies,
                        tool_calls,
                    },
                ),
            );
        }
        let ghost between = self@;
        let mut named = caught;
        let mut left = ids;
        let ghost first = named.deep_view();
        let ghost second = left.deep_view();
        named.append(&mut left);
        assert(named.deep_view() =~= first + second);
        let target = self.reply_target.take();
        assert(self@ =~= (LoopView { reply_target: None, ..between }));
        let end = self.turn_end(
            target,
            Some(AgentEvent::Aborted(AbortedTarget::ToolCalls(named))),
            ToolOutput::Failure("Aborted by user".to_owned()),
            true,
        );
        LoopStep::Done(ResumePoint::Generation, end)
    }
}

/// A sub-agent that keeps a conversation is never sent two calls of one batch: where one of its calls
/// is sent, no other call of the batch goes to it.
pub proof fn law_a_conversation_takes_one_call_per_batch(
    before: LoopView,
    batch: ToolRunView,
    local: bool,
    envelope_id: Seq<char>,
    now: Timestamp,
    after: LoopView,
    batch_after: ToolRunView,
    action: ToolAction,
    callee: Seq<char>,
    other: int,
)
    requires
        0 <= batch.next < batch.calls.len(),
        call_started(before, batch, local, envelope_id, now, after, batch_after, action),
        action is Send,
        stateful_callee(before.subagents, batch.calls[batch.next]) == Some(callee),
        0 <= other < batch.calls.len(),
        other != batch.next,
    ensures
        stateful_callee(before.subagents, batch.calls[other]) != Some(callee),
{
    if stateful_callee(before.subagents, batch.calls[other]) == Some(callee) {
        let calls = batch.calls;
        let i = batch.next;
        if i < other {
            assert(stateful_callee(before.subagents, calls[i]) == Some(callee)
                && stateful_callee(before.subagents, calls[other]) == Some(callee));
        } else {
            assert(stateful_callee(before.subagents, calls[other]) == Some(callee)
                && stateful_callee(before.subagents, calls[i]) == Some(callee));
        }
        assert(called_repeatedly(before.subagents, calls, callee));
    }
}

/// An aborted batch that ends the turn answers the caller, where there is one, and leaves nobody to
/// answer; one that waits for its sub-agents answers nobody yet.
pub proof fn law_an_aborted_batch_answers_the_caller(
    before: LoopView,
    batch: ToolRunView,
    caught: Seq<Seq<char>>,
    after: LoopView,
    step: LoopStepView,
)
    requires
        abort_finished(before, batch, caught, after, step),
    ensures
        match step {
            LoopStepView::Done(_, end) => {
                &&& after.reply_target is None
                &&& end.reply is Some <==> before.reply_target is Some
            },
            LoopStepView::Next(_) => after.reply_target == before.reply_target,
        },
{
    let left = text::in_order(batch.running.dom());
    let records = dropped_calls(batch.running, left);
    if batch.pending_replies.len() > 0 {
        agent_loop::lemma_recorded_keeps(before, after, records);
    } else {
        let between = choose|between: LoopView| #[trigger]
            agent_loop::recorded(before, between, records) && after == (LoopView {
                reply_target: None,
                ..between
            }) && (step matches LoopStepView::Done(point, end) && agent_loop::is_turn_end(
                between,
                between.reply_target,
                Some(AgentEventView::Aborted(AbortedTargetView::ToolCalls(caught + left))),
                agent_loop::aborted_output(),
                true,
                end,
            ));
        agent_loop::lemma_recorded_keeps(before, between, records);
    }
}

/// Every call of a batch comes to something: it is on its way to a sub-agent, it runs here, or it has
/// its result already. None is passed over.
pub proof fn law_a_started_call_is_accounted_for(
    before: LoopView,
    batch: ToolRunView,
    local: bool,
    envelope_id: Seq<char>,
    now: Timestamp,
    after: LoopView,
    batch_after: ToolRunView,
    action: ToolAction,
)
    requires
        0 <= batch.next < batch.calls.len(),
        call_started(before, batch, local, envelope_id, now, after, batch_after, action),
    ensures
        ({
            let call = batch.calls[batch.next].tool_call;
            &&& batch_after.next == batch.next + 1
            &&& match action {
                ToolAction::Send { envelope, .. } => {
                    &&& envelope@.id == envelope_id
                    &&& envelope@.body matches EnvelopeBodyView::ToolCall { call_id, .. }
                        && call_id == call.id
                },
                ToolAction::Execute { .. } => batch_after.running.contains_key(call.id),
                ToolAction::Recorded => {
                    &&& after.state.messages.len() == before.state.messages.len() + 1
                    &&& after.state.messages.last().message matches MessageView::Tool(message)
                        && message.id == call.id
                },
                ToolAction::Started => false,
            }
        }),
{
    let call = batch.calls[batch.next];
    match action {
        ToolAction::Recorded => {
            let reason = if subagents::found(before.subagents, call.tool_call.name) is Some {
                concurrency_refusal(call.tool_call.name)
            } else {
                unknown_tool(call.tool_call.name)
            };
            let records = seq![failed_call(call, reason)];
            agent_loop::law_every_recorded_result_is_announced(before, after, records, 0);
        },
        _ => {},
    }
}

/// Two calls to sub-agents that keep no conversation are derived from distinct names, whichever
/// messages asked for them, unless they are the same call of the same message.
pub proof fn law_one_off_calls_have_names_of_their_own(
    tool: SubAgentToolView,
    first: MessageId,
    first_call: Seq<char>,
    second: MessageId,
    second_call: Seq<char>,
)
    requires
        tool.mode == SubAgentMode::Stateless,
        agent_loop::dispatch_key(tool, first, first_call) == agent_loop::dispatch_key(
            tool,
            second,
            second_call,
        ),
    ensures
        first == second,
        first_call == second_call,
{
    crate::llm::law_derivation_key_identifies_the_call(
        MessageOriginView { message_id: first, call_id: first_call },
        MessageOriginView { message_id: second, call_id: second_call },
    );
}

}
