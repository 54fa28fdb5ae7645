//! Threads of conversation and what passes between them.

use crate::ids::{self, MessageId, Timestamp, TurnId};
use crate::llm::{
    AssistantMessage, AssistantMessageView, ChatCompletionRequest, ChatCompletionRequestView,
    CompactionMessage, CompactionMessageView, CompletionUsage, Message, MessageView,
    RequestMessage, RequestMessageView, SystemMessage, SystemMessageView, ToolCall, ToolCallOutcome,
    ToolCallOutcomeView, ToolCallView, ToolDefinition, ToolMessage, ToolMessageView, ToolOutput,
    ToolOutputView, UserMessage,
};
use crate::message_view;
use crate::persist::{StateEntry, StateEntryView};
use crate::prompt::{PromptStore, SystemPrompt};
use crate::string_map::StringMap;
use crate::subagents::{SubAgentMode, SubAgents};
use crate::task::TaskId;
use crate::text;
use std::collections::VecDeque;
use vstd::prelude::*;

verus! {

/// `serde_json::Value` of the `serde_json` crate: what a tool records, carried and never looked
/// into.
#[verifier::external_type_specification]
#[verifier::external_body]
pub struct ExJsonValue(serde_json::Value);

/// `Clone` of `serde_json::Value`, which the crate derives: the copy is the same JSON value.
pub assume_specification[ <serde_json::Value as Clone>::clone ](
    value: &serde_json::Value,
) -> (res: serde_json::Value)
    ensures
        res == *value,
;

/// A value that a tool recorded.
#[derive(Debug, PartialEq)]
pub struct StateValue {
    pub json: serde_json::Value,
}

impl View for StateValue {
    type V = serde_json::Value;

    open spec fn view(&self) -> serde_json::Value {
        self.json
    }
}

impl DeepView for StateValue {
    type V = serde_json::Value;

    open spec fn deep_view(&self) -> serde_json::Value {
        self@
    }
}

impl Clone for StateValue {
    fn clone(&self) -> (res: Self)
        ensures
            res@ == self@,
    {
        StateValue { json: self.json.clone() }
    }
}

/// The state a thread has recorded: one value per kind.
pub type ThreadStateMap = StringMap<StateValue>;

/// A copy of recorded state.
pub fn clone_state(state: &ThreadStateMap) -> (res: ThreadStateMap)
    ensures
        res.deep_view() == state.deep_view(),
{
    let res = state.clone();
    proof {
        assert forall|kind: Seq<char>| #[trigger] state@.contains_key(kind) implies res@[kind]@
            == state@[kind]@ by {}
        assert(res.deep_view() =~= state.deep_view());
    }
    res
}

/// One message in a thread's history, tagged with the turn it belongs to and with the state that
/// the call it records wrote.
#[derive(Debug)]
pub struct HistoryEntry {
    pub turn_id: TurnId,
    pub message: Message,
    pub state: ThreadStateMap,
}

/// The content of a [`HistoryEntry`].
#[verifier::ext_equal]
pub struct HistoryEntryView {
    pub turn_id: TurnId,
    pub message: MessageView,
    pub state: Map<Seq<char>, serde_json::Value>,
}

impl View for HistoryEntry {
    type V = HistoryEntryView;

    open spec fn view(&self) -> HistoryEntryView {
        HistoryEntryView {
            turn_id: self.turn_id,
            message: self.message@,
            state: self.state.deep_view(),
        }
    }
}

impl DeepView for HistoryEntry {
    type V = HistoryEntryView;

    open spec fn deep_view(&self) -> HistoryEntryView {
        self@
    }
}

impl Clone for HistoryEntry {
    fn clone(&self) -> (res: Self)
        ensures
            res@ == self@,
    {
        HistoryEntry {
            turn_id: self.turn_id,
            message: self.message.clone(),
            state: clone_state(&self.state),
        }
    }
}

impl HistoryEntryView {
    /// A message of a turn, with no state.
    pub open spec fn of(turn_id: TurnId, message: MessageView) -> Self {
        HistoryEntryView { turn_id, message, state: Map::empty() }
    }
}

impl HistoryEntry {
    /// A message of a turn, with no state.
    pub fn new(turn_id: TurnId, message: Message) -> (res: Self)
        ensures
            res@ == HistoryEntryView::of(turn_id, message@),
    {
        let state: ThreadStateMap = StringMap::new();
        assert(state.deep_view() =~= Map::<Seq<char>, serde_json::Value>::empty());
        HistoryEntry { turn_id, message, state }
    }
}

/// The identity of one thread of conversation.
#[derive(Debug, PartialEq, Eq, Hash)]
pub struct ThreadId {
    pub id: String,
}

impl View for ThreadId {
    type V = Seq<char>;

    open spec fn view(&self) -> Seq<char> {
        self.id@
    }
}

impl DeepView for ThreadId {
    type V = Seq<char>;

    open spec fn deep_view(&self) -> Seq<char> {
        self@
    }
}

impl Clone for ThreadId {
    fn clone(&self) -> (res: Self)
        ensures
            res@ == self@,
    {
        ThreadId { id: self.id.clone() }
    }
}

impl From<String> for ThreadId {
    fn from(id: String) -> (res: Self) {
        ThreadId { id }
    }
}

impl vstd::std_specs::convert::FromSpecImpl<String> for ThreadId {
    open spec fn obeys_from_spec() -> bool {
        true
    }

    open spec fn from_spec(id: String) -> Self {
        ThreadId { id }
    }
}

impl Default for ThreadId {
    fn default() -> (res: Self)
        ensures
            ids::is_fresh_id(res@),
    {
        ThreadId::new()
    }
}

impl ThreadId {
    /// A thread of its own: the id is the text of a random UUID.
    pub fn new() -> (res: Self)
        ensures
            ids::is_fresh_id(res@),
    {
        ThreadId { id: ids::fresh_id() }
    }

    /// Derive a child thread id from its parent and a name.
    ///
    /// A parent id that is no UUID (the root thread id is the client-supplied session id, which is
    /// only required to be a safe string) is hashed into a namespace. Falling back to one fixed
    /// namespace instead would let two such sessions derive identical child ids.
    pub fn from_uuid5(namespace: &ThreadId, name: &str) -> (res: Self)
        ensures
            res@ == ids::child_id(namespace@, name@),
            ids::uuid_parse(res@) == Some(
                ids::uuid_v5(ids::child_namespace(namespace@), vstd::utf8::encode_utf8(name@)),
            ),
    {
        ThreadId { id: ids::derive_child_id(namespace.id.as_str(), name) }
    }

    /// The id as text.
    pub fn as_str(&self) -> (res: &str)
        ensures
            res@ == self@,
    {
        self.id.as_str()
    }
}

/// Caller's resolution for a single suspended tool call.
#[derive(Debug, PartialEq, Eq)]
pub enum ToolCallResolution {
    /// The agent should execute this call.
    Execute,
    /// The caller already handled it; use this result directly.
    Resolved(ToolOutput),
    /// The caller rejected execution.
    Rejected { reason: Option<String> },
}

/// The content of a [`ToolCallResolution`].
#[verifier::ext_equal]
pub enum ToolCallResolutionView {
    Execute,
    Resolved(ToolOutputView),
    Rejected { reason: Option<Seq<char>> },
}

impl View for ToolCallResolution {
    type V = ToolCallResolutionView;

    open spec fn view(&self) -> ToolCallResolutionView {
        match self {
            ToolCallResolution::Execute => ToolCallResolutionView::Execute,
            ToolCallResolution::Resolved(a) => ToolCallResolutionView::Resolved(a@),
            ToolCallResolution::Rejected { reason } => ToolCallResolutionView::Rejected {
                reason: reason.deep_view(),
            },
        }
    }
}

impl DeepView for ToolCallResolution {
    type V = ToolCallResolutionView;

    open spec fn deep_view(&self) -> ToolCallResolutionView {
        self@
    }
}

impl Clone for ToolCallResolution {
    fn clone(&self) -> (res: Self)
        ensures
            res@ == self@,
    {
        match self {
            ToolCallResolution::Execute => ToolCallResolution::Execute,
            ToolCallResolution::Resolved(a) => ToolCallResolution::Resolved(a.clone()),
            ToolCallResolution::Rejected { reason } => ToolCallResolution::Rejected {
                reason: reason.clone(),
            },
        }
    }
}

/// Caller's response to all suspended tool calls.
///
/// A call this does not name counts as rejected, so a decision applies to exactly one batch: hence
/// `parent_message_id`, which says which.
#[derive(Debug, PartialEq, Eq)]
pub struct ResumeDecision {
    /// The batch being answered, echoed from [`PendingApproval::parent_message_id`]. A decision
    /// naming a batch the thread has already run is stale and is ignored rather than applied to
    /// whatever is parked now.
    pub parent_message_id: MessageId,
    pub resolutions: Vec<(String, ToolCallResolution)>,
}

/// The content of a [`ResumeDecision`].
#[verifier::ext_equal]
pub struct ResumeDecisionView {
    pub parent_message_id: MessageId,
    pub resolutions: Seq<(Seq<char>, ToolCallResolutionView)>,
}

impl View for ResumeDecision {
    type V = ResumeDecisionView;

    open spec fn view(&self) -> ResumeDecisionView {
        ResumeDecisionView {
            parent_message_id: self.parent_message_id,
            resolutions: self.resolutions.deep_view(),
        }
    }
}

impl DeepView for ResumeDecision {
    type V = ResumeDecisionView;

    open spec fn deep_view(&self) -> ResumeDecisionView {
        self@
    }
}

impl Clone for ResumeDecision {
    fn clone(&self) -> (res: Self)
        ensures
            res@ == self@,
    {
        let mut resolutions: Vec<(String, ToolCallResolution)> = Vec::new();
        let n: usize = self.resolutions.len();
        let mut i: usize = 0;
        while i < n
            invariant
                i <= n,
                n == self.resolutions@.len(),
                resolutions@.len() == i,
                forall|j: int|
                    0 <= j < i ==> (#[trigger] resolutions@[j]).0@ == self.resolutions@[j].0@
                        && resolutions@[j].1@ == self.resolutions@[j].1@,
            decreases n - i,
        {
            resolutions.push((self.resolutions[i].0.clone(), self.resolutions[i].1.clone()));
            i += 1;
        }
        assert(resolutions.deep_view() =~= self.resolutions.deep_view());
        ResumeDecision {
            parent_message_id: self.parent_message_id,
            resolutions,
        }
    }
}

/// A thread that waits for approval, as it is shown to whoever decides.
#[derive(Debug, PartialEq, Eq)]
pub struct PendingApproval {
    pub thread_id: String,
    pub agent_name: String,
    /// The assistant message that asked for these calls, which is what identifies the batch. A call
    /// id cannot: it is only unique within one assistant message, so consecutive batches routinely
    /// reuse one.
    pub parent_message_id: MessageId,
    pub calls: Vec<ToolCall>,
    pub suspended_at: Timestamp,
    /// The background task the thread works on, if any.
    pub task_id: Option<TaskId>,
}

/// The content of a [`PendingApproval`].
#[verifier::ext_equal]
pub struct PendingApprovalView {
    pub thread_id: Seq<char>,
    pub agent_name: Seq<char>,
    pub parent_message_id: MessageId,
    pub calls: Seq<ToolCallView>,
    pub suspended_at: Timestamp,
    pub task_id: Option<Seq<char>>,
}

impl View for PendingApproval {
    type V = PendingApprovalView;

    open spec fn view(&self) -> PendingApprovalView {
        PendingApprovalView {
            thread_id: self.thread_id@,
            agent_name: self.agent_name@,
            parent_message_id: self.parent_message_id,
            calls: self.calls.deep_view(),
            suspended_at: self.suspended_at,
            task_id: self.task_id.deep_view(),
        }
    }
}

impl DeepView for PendingApproval {
    type V = PendingApprovalView;

    open spec fn deep_view(&self) -> PendingApprovalView {
        self@
    }
}

impl Clone for PendingApproval {
    fn clone(&self) -> (res: Self)
        ensures
            res@ == self@,
    {
        let calls = self.calls.clone();
        assert(calls.deep_view() =~= self.calls.deep_view());
        PendingApproval {
            thread_id: self.thread_id.clone(),
            agent_name: self.agent_name.clone(),
            parent_message_id: self.parent_message_id,
            calls,
            suspended_at: self.suspended_at,
            task_id: self.task_id.clone(),
        }
    }
}

/// Whom a sub-agent answers.
#[derive(Debug, PartialEq, Eq)]
pub struct ReplyTarget {
    pub envelope_id: String,
    pub sender_name: String,
    pub sender_thread_id: String,
    pub call_id: String,
}

/// The content of a [`ReplyTarget`].
#[verifier::ext_equal]
pub struct ReplyTargetView {
    pub envelope_id: Seq<char>,
    pub sender_name: Seq<char>,
    pub sender_thread_id: Seq<char>,
    pub call_id: Seq<char>,
}

impl View for ReplyTarget {
    type V = ReplyTargetView;

    open spec fn view(&self) -> ReplyTargetView {
        ReplyTargetView {
            envelope_id: self.envelope_id@,
            sender_name: self.sender_name@,
            sender_thread_id: self.sender_thread_id@,
            call_id: self.call_id@,
        }
    }
}

impl DeepView for ReplyTarget {
    type V = ReplyTargetView;

    open spec fn deep_view(&self) -> ReplyTargetView {
        self@
    }
}

impl Clone for ReplyTarget {
    fn clone(&self) -> (res: Self)
        ensures
            res@ == self@,
    {
        ReplyTarget {
            envelope_id: self.envelope_id.clone(),
            sender_name: self.sender_name.clone(),
            sender_thread_id: self.sender_thread_id.clone(),
            call_id: self.call_id.clone(),
        }
    }
}

/// An answer that a sub-agent still owes.
#[derive(Debug, PartialEq, Eq)]
pub struct PendingReply {
    pub call_id: String,
    /// The envelope that carried this call out, which the answer names in its `reply_to`. A call id
    /// is only unique within one assistant message, so a later turn can reuse one; this is minted
    /// per dispatch.
    pub call_envelope_id: String,
    /// Also the name of the peer agent.
    pub tool_name: String,
    pub outcome: ToolCallOutcome,
    /// When the call was dispatched, so that the reply's message records the full duration.
    pub started_at: Timestamp,
}

/// The content of a [`PendingReply`].
#[verifier::ext_equal]
pub struct PendingReplyView {
    pub call_id: Seq<char>,
    pub call_envelope_id: Seq<char>,
    pub tool_name: Seq<char>,
    pub outcome: ToolCallOutcomeView,
    pub started_at: Timestamp,
}

impl View for PendingReply {
    type V = PendingReplyView;

    open spec fn view(&self) -> PendingReplyView {
        PendingReplyView {
            call_id: self.call_id@,
            call_envelope_id: self.call_envelope_id@,
            tool_name: self.tool_name@,
            outcome: self.outcome@,
            started_at: self.started_at,
        }
    }
}

impl DeepView for PendingReply {
    type V = PendingReplyView;

    open spec fn deep_view(&self) -> PendingReplyView {
        self@
    }
}

impl Clone for PendingReply {
    fn clone(&self) -> (res: Self)
        ensures
            res@ == self@,
    {
        PendingReply {
            call_id: self.call_id.clone(),
            call_envelope_id: self.call_envelope_id.clone(),
            tool_name: self.tool_name.clone(),
            outcome: self.outcome.clone(),
            started_at: self.started_at,
        }
    }
}

/// A tool call that is yet to run.
#[derive(Debug, PartialEq, Eq)]
pub struct PendingToolCall {
    pub tool_call: ToolCall,
    pub outcome: ToolCallOutcome,
}

/// The content of a [`PendingToolCall`].
#[verifier::ext_equal]
pub struct PendingToolCallView {
    pub tool_call: ToolCallView,
    pub outcome: ToolCallOutcomeView,
}

impl View for PendingToolCall {
    type V = PendingToolCallView;

    open spec fn view(&self) -> PendingToolCallView {
        PendingToolCallView {
            tool_call: self.tool_call@,
            outcome: self.outcome@,
        }
    }
}

impl DeepView for PendingToolCall {
    type V = PendingToolCallView;

    open spec fn deep_view(&self) -> PendingToolCallView {
        self@
    }
}

impl Clone for PendingToolCall {
    fn clone(&self) -> (res: Self)
        ensures
            res@ == self@,
    {
        PendingToolCall {
            tool_call: self.tool_call.clone(),
            outcome: self.outcome.clone(),
        }
    }
}

/// A batch of tool calls in progress.
#[derive(Debug, PartialEq, Eq)]
pub struct ToolExecutionState {
    /// The assistant message these calls came from. One generation produces one batch, so the whole
    /// batch shares a parent; carrying it here keeps it available after an approval suspension or a
    /// restart, when the message itself is no longer in scope.
    pub parent_message_id: MessageId,
    /// Answers that sub-agents still owe.
    pub pending_replies: Vec<PendingReply>,
    pub tool_calls: VecDeque<PendingToolCall>,
}

/// The content of a [`ToolExecutionState`].
#[verifier::ext_equal]
pub struct ToolExecutionStateView {
    pub parent_message_id: MessageId,
    pub pending_replies: Seq<PendingReplyView>,
    pub tool_calls: Seq<PendingToolCallView>,
}

impl View for ToolExecutionState {
    type V = ToolExecutionStateView;

    open spec fn view(&self) -> ToolExecutionStateView {
        ToolExecutionStateView {
            parent_message_id: self.parent_message_id,
            pending_replies: self.pending_replies.deep_view(),
            tool_calls: self.tool_calls.deep_view(),
        }
    }
}

impl DeepView for ToolExecutionState {
    type V = ToolExecutionStateView;

    open spec fn deep_view(&self) -> ToolExecutionStateView {
        self@
    }
}

impl Clone for ToolExecutionState {
    fn clone(&self) -> (res: Self)
        ensures
            res@ == self@,
    {
        let pending_replies = self.pending_replies.clone();
        assert(pending_replies.deep_view() =~= self.pending_replies.deep_view());
        let tool_calls = self.tool_calls.clone();
        assert(tool_calls.deep_view() =~= self.tool_calls.deep_view());
        ToolExecutionState {
            parent_message_id: self.parent_message_id,
            pending_replies,
            tool_calls,
        }
    }
}

/// Where a thread picks up its work.
#[derive(Debug, PartialEq, Eq)]
pub enum ResumePoint {
    Generation,
    ToolExecution(ToolExecutionState),
    PendingApproval {
        /// The assistant message these calls came from.
        parent_message_id: MessageId,
        /// Tool calls waiting for approval.
        pending_approval_calls: VecDeque<ToolCall>,
        /// Tool calls to execute.
        pending_calls: VecDeque<PendingToolCall>,
    },
}

/// The content of a [`ResumePoint`].
#[verifier::ext_equal]
pub enum ResumePointView {
    Generation,
    ToolExecution(ToolExecutionStateView),
    PendingApproval { parent_message_id: MessageId, pending_approval_calls: Seq<ToolCallView>, pending_calls: Seq<PendingToolCallView> },
}

impl View for ResumePoint {
    type V = ResumePointView;

    open spec fn view(&self) -> ResumePointView {
        match self {
            ResumePoint::Generation => ResumePointView::Generation,
            ResumePoint::ToolExecution(a) => ResumePointView::ToolExecution(a@),
            ResumePoint::PendingApproval { parent_message_id, pending_approval_calls, pending_calls } => ResumePointView::PendingApproval {
                parent_message_id: *parent_message_id,
                pending_approval_calls: pending_approval_calls.deep_view(),
                pending_calls: pending_calls.deep_view(),
            },
        }
    }
}

impl DeepView for ResumePoint {
    type V = ResumePointView;

    open spec fn deep_view(&self) -> ResumePointView {
        self@
    }
}

impl Clone for ResumePoint {
    fn clone(&self) -> (res: Self)
        ensures
            res@ == self@,
    {
        match self {
            ResumePoint::Generation => ResumePoint::Generation,
            ResumePoint::ToolExecution(a) => ResumePoint::ToolExecution(a.clone()),
            ResumePoint::PendingApproval { parent_message_id, pending_approval_calls, pending_calls } => {
                let pending_approval_calls_copy = pending_approval_calls.clone();
                assert(pending_approval_calls_copy.deep_view() =~= pending_approval_calls.deep_view());
                let pending_calls_copy = pending_calls.clone();
                assert(pending_calls_copy.deep_view() =~= pending_calls.deep_view());
                ResumePoint::PendingApproval {
                    parent_message_id: *parent_message_id,
                    pending_approval_calls: pending_approval_calls_copy,
                    pending_calls: pending_calls_copy,
                }
            },
        }
    }
}

impl Default for ResumePoint {
    fn default() -> (res: Self)
        ensures
            res@ == ResumePointView::Generation,
    {
        ResumePoint::Generation
    }
}

/// Identifies what was interrupted by an abort.
#[derive(Debug, PartialEq, Eq)]
pub enum AbortedTarget {
    /// LLM generation was interrupted.
    Generation,
    /// Tool execution was interrupted; carries the ids of unfinished tool calls.
    ToolCalls(Vec<String>),
}

/// The content of a [`AbortedTarget`].
#[verifier::ext_equal]
pub enum AbortedTargetView {
    Generation,
    ToolCalls(Seq<Seq<char>>),
}

impl View for AbortedTarget {
    type V = AbortedTargetView;

    open spec fn view(&self) -> AbortedTargetView {
        match self {
            AbortedTarget::Generation => AbortedTargetView::Generation,
            AbortedTarget::ToolCalls(a) => AbortedTargetView::ToolCalls(a.deep_view()),
        }
    }
}

impl DeepView for AbortedTarget {
    type V = AbortedTargetView;

    open spec fn deep_view(&self) -> AbortedTargetView {
        self@
    }
}

impl Clone for AbortedTarget {
    fn clone(&self) -> (res: Self)
        ensures
            res@ == self@,
    {
        match self {
            AbortedTarget::Generation => AbortedTarget::Generation,
            AbortedTarget::ToolCalls(a) => {
                let copy = a.clone();
                assert(copy.deep_view() =~= a.deep_view());
                AbortedTarget::ToolCalls(copy)
            },
        }
    }
}

/// The sender of an envelope.
#[derive(Debug, PartialEq, Eq)]
pub enum Sender {
    /// Message from the user.
    User,
    /// Message from another agent.
    Agent {
        name: String,
        thread_id: ThreadId,
    },
}

/// The content of a [`Sender`].
#[verifier::ext_equal]
pub enum SenderView {
    User,
    Agent { name: Seq<char>, thread_id: Seq<char> },
}

impl View for Sender {
    type V = SenderView;

    open spec fn view(&self) -> SenderView {
        match self {
            Sender::User => SenderView::User,
            Sender::Agent { name, thread_id } => SenderView::Agent {
                name: name@,
                thread_id: thread_id@,
            },
        }
    }
}

impl DeepView for Sender {
    type V = SenderView;

    open spec fn deep_view(&self) -> SenderView {
        self@
    }
}

impl Clone for Sender {
    fn clone(&self) -> (res: Self)
        ensures
            res@ == self@,
    {
        match self {
            Sender::User => Sender::User,
            Sender::Agent { name, thread_id } => Sender::Agent {
                name: name.clone(),
                thread_id: thread_id.clone(),
            },
        }
    }
}

/// The receiver of an envelope.
#[derive(Debug, PartialEq, Eq)]
pub struct Receiver {
    pub name: String,
    pub thread_id: ThreadId,
}

/// The content of a [`Receiver`].
#[verifier::ext_equal]
pub struct ReceiverView {
    pub name: Seq<char>,
    pub thread_id: Seq<char>,
}

impl View for Receiver {
    type V = ReceiverView;

    open spec fn view(&self) -> ReceiverView {
        ReceiverView {
            name: self.name@,
            thread_id: self.thread_id@,
        }
    }
}

impl DeepView for Receiver {
    type V = ReceiverView;

    open spec fn deep_view(&self) -> ReceiverView {
        self@
    }
}

impl Clone for Receiver {
    fn clone(&self) -> (res: Self)
        ensures
            res@ == self@,
    {
        Receiver {
            name: self.name.clone(),
            thread_id: self.thread_id.clone(),
        }
    }
}

/// What an envelope says.
#[derive(Debug, PartialEq, Eq)]
pub enum EnvelopeBody {
    /// Work from the user.
    Task {
        /// Identity for the user message that this work becomes, minted once at the request boundary.
        message_id: MessageId,
        task: String,
        /// Base64 data-URIs or HTTPS URLs for images to attach to this turn.
        images: Vec<String>,
    },
    /// Call agent as a tool.
    ToolCall {
        call_id: String,
        /// The assistant message in the calling thread whose tool call this is.
        parent_message_id: MessageId,
        /// The name the caller derived the receiving thread's id from.
        derivation_key: String,
        /// The turn this call is part of. A sub-agent does not start a turn: it works inside the
        /// caller's.
        turn_id: TurnId,
        task: String,
    },
    /// Reply from an agent, containing the tool output.
    Reply {
        call_id: String,
        output: ToolOutput,
        /// Whether the answering thread was interrupted rather than finishing its work.
        aborted: bool,
    },
    /// The answer to an approval.
    Resume(ResumeDecision),
}

/// The content of a [`EnvelopeBody`].
#[verifier::ext_equal]
pub enum EnvelopeBodyView {
    Task { message_id: MessageId, task: Seq<char>, images: Seq<Seq<char>> },
    ToolCall { call_id: Seq<char>, parent_message_id: MessageId, derivation_key: Seq<char>, turn_id: TurnId, task: Seq<char> },
    Reply { call_id: Seq<char>, output: ToolOutputView, aborted: bool },
    Resume(ResumeDecisionView),
}

impl View for EnvelopeBody {
    type V = EnvelopeBodyView;

    open spec fn view(&self) -> EnvelopeBodyView {
        match self {
            EnvelopeBody::Task { message_id, task, images } => EnvelopeBodyView::Task {
                message_id: *message_id,
                task: task@,
                images: images.deep_view(),
            },
            EnvelopeBody::ToolCall { call_id, parent_message_id, derivation_key, turn_id, task } => EnvelopeBodyView::ToolCall {
                call_id: call_id@,
                parent_message_id: *parent_message_id,
                derivation_key: derivation_key@,
                turn_id: *turn_id,
                task: task@,
            },
            EnvelopeBody::Reply { call_id, output, aborted } => EnvelopeBodyView::Reply {
                call_id: call_id@,
                output: output@,
                aborted: *aborted,
            },
            EnvelopeBody::Resume(a) => EnvelopeBodyView::Resume(a@),
        }
    }
}

impl DeepView for EnvelopeBody {
    type V = EnvelopeBodyView;

    open spec fn deep_view(&self) -> EnvelopeBodyView {
        self@
    }
}

impl Clone for EnvelopeBody {
    fn clone(&self) -> (res: Self)
        ensures
            res@ == self@,
    {
        match self {
            EnvelopeBody::Task { message_id, task, images } => {
                let images_copy = images.clone();
                assert(images_copy.deep_view() =~= images.deep_view());
                EnvelopeBody::Task {
                    message_id: *message_id,
                    task: task.clone(),
                    images: images_copy,
                }
            },
            EnvelopeBody::ToolCall { call_id, parent_message_id, derivation_key, turn_id, task } => EnvelopeBody::ToolCall {
                call_id: call_id.clone(),
                parent_message_id: *parent_message_id,
                derivation_key: derivation_key.clone(),
                turn_id: *turn_id,
                task: task.clone(),
            },
            EnvelopeBody::Reply { call_id, output, aborted } => EnvelopeBody::Reply {
                call_id: call_id.clone(),
                output: output.clone(),
                aborted: *aborted,
            },
            EnvelopeBody::Resume(a) => EnvelopeBody::Resume(a.clone()),
        }
    }
}

/// A message delivered to an agent, with its metadata.
#[derive(Debug, PartialEq, Eq)]
pub struct Envelope {
    /// A unique identifier for this message, used for tracking and replying.
    pub id: String,
    pub from: Sender,
    pub to: Receiver,
    /// The id of the message that this one answers, if it answers one.
    pub reply_to: Option<String>,
    pub body: EnvelopeBody,
}

/// The content of a [`Envelope`].
#[verifier::ext_equal]
pub struct EnvelopeView {
    pub id: Seq<char>,
    pub from: SenderView,
    pub to: ReceiverView,
    pub reply_to: Option<Seq<char>>,
    pub body: EnvelopeBodyView,
}

impl View for Envelope {
    type V = EnvelopeView;

    open spec fn view(&self) -> EnvelopeView {
        EnvelopeView {
            id: self.id@,
            from: self.from@,
            to: self.to@,
            reply_to: self.reply_to.deep_view(),
            body: self.body@,
        }
    }
}

impl DeepView for Envelope {
    type V = EnvelopeView;

    open spec fn deep_view(&self) -> EnvelopeView {
        self@
    }
}

impl Clone for Envelope {
    fn clone(&self) -> (res: Self)
        ensures
            res@ == self@,
    {
        Envelope {
            id: self.id.clone(),
            from: self.from.clone(),
            to: self.to.clone(),
            reply_to: self.reply_to.clone(),
            body: self.body.clone(),
        }
    }
}

/// What an agent announces while it works.
#[derive(Debug, PartialEq, Eq)]
#[allow(inconsistent_fields)]
pub enum AgentEvent {
    LLMStart(ChatCompletionRequest),
    LLMContentChunk(String),
    /// A chunk of the model's reasoning text.
    LLMReasoningChunk(String),
    LLMEnd(AssistantMessage),
    ToolCallStart(ToolCall),
    ToolCallEnd(ToolMessage),
    /// Tool calls require approval; the thread waits.
    Suspended(PendingApproval),
    /// An approval is no longer asked for.
    ApprovalRemoved {
        thread_id: String,
        parent_message_id: MessageId,
        task_id: Option<TaskId>,
    },
    /// The run was aborted by the user.
    Aborted(AbortedTarget),
    Error(String),
    /// Background work could not be saved.
    BackgroundError {
        task_id: TaskId,
        message: String,
    },
    /// This turn's content could not be saved. Not the end of a turn: what is on screen is not what
    /// is stored.
    PersistFailed(String),
    /// The front of the history is being summarized.
    CompactionStart,
    /// What came of it, as it was recorded.
    CompactionEnd(CompactionMessage),
}

/// The content of a [`AgentEvent`].
#[verifier::ext_equal]
#[allow(inconsistent_fields)]
pub enum AgentEventView {
    LLMStart(ChatCompletionRequestView),
    LLMContentChunk(Seq<char>),
    LLMReasoningChunk(Seq<char>),
    LLMEnd(AssistantMessageView),
    ToolCallStart(ToolCallView),
    ToolCallEnd(ToolMessageView),
    Suspended(PendingApprovalView),
    ApprovalRemoved { thread_id: Seq<char>, parent_message_id: MessageId, task_id: Option<Seq<char>> },
    Aborted(AbortedTargetView),
    Error(Seq<char>),
    BackgroundError { task_id: Seq<char>, message: Seq<char> },
    PersistFailed(Seq<char>),
    CompactionStart,
    CompactionEnd(CompactionMessageView),
}

impl View for AgentEvent {
    type V = AgentEventView;

    open spec fn view(&self) -> AgentEventView {
        match self {
            AgentEvent::LLMStart(a) => AgentEventView::LLMStart(a@),
            AgentEvent::LLMContentChunk(a) => AgentEventView::LLMContentChunk(a@),
            AgentEvent::LLMReasoningChunk(a) => AgentEventView::LLMReasoningChunk(a@),
            AgentEvent::LLMEnd(a) => AgentEventView::LLMEnd(a@),
            AgentEvent::ToolCallStart(a) => AgentEventView::ToolCallStart(a@),
            AgentEvent::ToolCallEnd(a) => AgentEventView::ToolCallEnd(a@),
            AgentEvent::Suspended(a) => AgentEventView::Suspended(a@),
            AgentEvent::ApprovalRemoved { thread_id, parent_message_id, task_id } => AgentEventView::ApprovalRemoved {
                thread_id: thread_id@,
                parent_message_id: *parent_message_id,
                task_id: task_id.deep_view(),
            },
            AgentEvent::Aborted(a) => AgentEventView::Aborted(a@),
            AgentEvent::Error(a) => AgentEventView::Error(a@),
            AgentEvent::BackgroundError { task_id, message } => AgentEventView::BackgroundError {
                task_id: task_id@,
                message: message@,
            },
            AgentEvent::PersistFailed(a) => AgentEventView::PersistFailed(a@),
            AgentEvent::CompactionStart => AgentEventView::CompactionStart,
            AgentEvent::CompactionEnd(a) => AgentEventView::CompactionEnd(a@),
        }
    }
}

impl DeepView for AgentEvent {
    type V = AgentEventView;

    open spec fn deep_view(&self) -> AgentEventView {
        self@
    }
}

impl Clone for AgentEvent {
    fn clone(&self) -> (res: Self)
        ensures
            res@ == self@,
    {
        match self {
            AgentEvent::LLMStart(a) => AgentEvent::LLMStart(a.clone()),
            AgentEvent::LLMContentChunk(a) => AgentEvent::LLMContentChunk(a.clone()),
            AgentEvent::LLMReasoningChunk(a) => AgentEvent::LLMReasoningChunk(a.clone()),
            AgentEvent::LLMEnd(a) => AgentEvent::LLMEnd(a.clone()),
            AgentEvent::ToolCallStart(a) => AgentEvent::ToolCallStart(a.clone()),
            AgentEvent::ToolCallEnd(a) => AgentEvent::ToolCallEnd(a.clone()),
            AgentEvent::Suspended(a) => AgentEvent::Suspended(a.clone()),
            AgentEvent::ApprovalRemoved { thread_id, parent_message_id, task_id } => AgentEvent::ApprovalRemoved {
                thread_id: thread_id.clone(),
                parent_message_id: *parent_message_id,
                task_id: task_id.clone(),
            },
            AgentEvent::Aborted(a) => AgentEvent::Aborted(a.clone()),
            AgentEvent::Error(a) => AgentEvent::Error(a.clone()),
            AgentEvent::BackgroundError { task_id, message } => AgentEvent::BackgroundError {
                task_id: task_id.clone(),
                message: message.clone(),
            },
            AgentEvent::PersistFailed(a) => AgentEvent::PersistFailed(a.clone()),
            AgentEvent::CompactionStart => AgentEvent::CompactionStart,
            AgentEvent::CompactionEnd(a) => AgentEvent::CompactionEnd(a.clone()),
        }
    }
}

impl Envelope {
    /// Build an envelope around a freshly minted id.
    pub fn with_id<F: FnOnce(String) -> Envelope>(build: F) -> (res: Self)
        requires
            forall|id: String| call_requires(build, (id,)),
        ensures
            exists|id: String| #[trigger]
                call_ensures(build, (id,), res) && ids::is_fresh_id(id@),
    {
        let id = ids::fresh_id();
        let ghost minted = id;
        let res = build(id);
        assert(call_ensures(build, (minted,), res));
        res
    }
}

/// A thread's history and the tool state anchored to it.
#[derive(Debug)]
pub struct AgentState {
    pub messages: Vec<HistoryEntry>,
    /// Tool state this thread has recorded, anchored to the messages that recorded it. Grows in step
    /// with `messages` and is cut by the same rule.
    pub state: Vec<StateEntry>,
    /// The turn newly appended messages belong to. Advances only when a user message is appended;
    /// `None` only before this thread has any history at all.
    pub current_turn: Option<TurnId>,
}

/// The content of an [`AgentState`].
#[verifier::ext_equal]
pub struct AgentStateView {
    pub messages: Seq<HistoryEntryView>,
    pub state: Seq<StateEntryView>,
    pub current_turn: Option<TurnId>,
}

impl View for AgentState {
    type V = AgentStateView;

    open spec fn view(&self) -> AgentStateView {
        AgentStateView {
            messages: self.messages.deep_view(),
            state: self.state.deep_view(),
            current_turn: self.current_turn,
        }
    }
}

impl AgentStateView {
    /// A thread without history.
    pub open spec fn empty() -> Self {
        AgentStateView { messages: Seq::empty(), state: Seq::empty(), current_turn: None }
    }

    /// Whether `turn` is the turn a message appended now is tagged with: the current one, or a
    /// freshly minted one where there is none yet.
    pub open spec fn stamps(self, turn: TurnId) -> bool {
        match self.current_turn {
            Some(current) => turn == current,
            None => ids::is_random_uuid(turn.value),
        }
    }

    /// The thread with one more message, of the turn `turn`.
    pub open spec fn appended(self, turn: TurnId, message: MessageView) -> Self {
        AgentStateView {
            messages: self.messages.push(HistoryEntryView::of(turn, message)),
            current_turn: Some(turn),
            ..self
        }
    }

    /// The thread with more messages, all of the turn `turn`.
    pub open spec fn appended_all(self, turn: TurnId, messages: Seq<MessageView>) -> Self {
        AgentStateView {
            messages: self.messages + messages.map_values(
                |message: MessageView| HistoryEntryView::of(turn, message),
            ),
            current_turn: Some(turn),
            ..self
        }
    }

    /// The thread restored from what was stored: its turn is that of the last message.
    pub open spec fn restored(
        messages: Seq<HistoryEntryView>,
        state: Seq<StateEntryView>,
    ) -> Self {
        AgentStateView {
            messages,
            state,
            current_turn: if messages.len() == 0 {
                None
            } else {
                Some(messages.last().turn_id)
            },
        }
    }
}

/// State entries that a message anchors.
pub open spec fn anchored(
    message_id: MessageId,
    recorded: Seq<(Seq<char>, serde_json::Value)>,
) -> Seq<StateEntryView> {
    recorded.map_values(
        |entry: (Seq<char>, serde_json::Value)|
            StateEntryView { message_id, kind: entry.0, value: entry.1 },
    )
}

/// Recorded state reduced to one value per kind: the last one written.
pub open spec fn reduced(entries: Seq<StateEntryView>) -> Map<Seq<char>, serde_json::Value>
    decreases entries.len(),
{
    if entries.len() == 0 {
        Map::empty()
    } else {
        reduced(entries.drop_last()).insert(entries.last().kind, entries.last().value)
    }
}

/// The most recent usage that an answer in the history reports.
pub open spec fn latest_usage(history: Seq<HistoryEntryView>) -> Option<CompletionUsage>
    decreases history.len(),
{
    if history.len() == 0 {
        None
    } else {
        match history.last().message {
            MessageView::Assistant(assistant) => match assistant.usage {
                Some(usage) => Some(usage),
                None => latest_usage(history.drop_last()),
            },
            _ => latest_usage(history.drop_last()),
        }
    }
}

/// Messages in the form a provider accepts, without those that are not sent.
pub open spec fn lowered_messages(messages: Seq<MessageView>) -> Seq<RequestMessageView>
    decreases messages.len(),
{
    if messages.len() == 0 {
        Seq::empty()
    } else {
        let before = lowered_messages(messages.drop_last());
        match messages.last().lowered() {
            Some(message) => before.push(message),
            None => before,
        }
    }
}

/// The messages of the request that a history makes: the system prompt, then the part of the
/// history a compaction left visible, in the form a provider accepts.
pub open spec fn request_messages(
    prompt: Seq<char>,
    history: Seq<HistoryEntryView>,
) -> Seq<RequestMessageView> {
    seq![RequestMessageView::System(SystemMessageView { text: prompt })] + lowered_messages(
        message_view::messages_of(message_view::shown(history)),
    )
}

/// The most recent usage that an answer reports, found from the back.
pub fn find_latest_usage(messages: &Vec<HistoryEntry>) -> (res: Option<CompletionUsage>)
    ensures
        res == latest_usage(messages.deep_view()),
{
    let ghost all = messages.deep_view();
    let mut n: usize = messages.len();
    assert(all.take(n as int) =~= all);
    while n > 0
        invariant
            n <= messages@.len(),
            all == messages.deep_view(),
            latest_usage(all) == latest_usage(all.take(n as int)),
        decreases n,
    {
        let at: usize = n - 1;
        assert(all.take(n as int).drop_last() =~= all.take(at as int));
        assert(all.take(n as int).last() == messages@[at as int]@);
        match &messages[at].message {
            Message::Assistant(assistant) => match assistant.usage {
                Some(usage) => {
                    return Some(usage);
                },
                None => {},
            },
            _ => {},
        }
        n = at;
    }
    None
}

/// The messages of the request that a history makes under a system prompt.
pub fn build_request_messages(prompt: String, visible: &Vec<&HistoryEntry>) -> (res: Vec<
    RequestMessage,
>)
    ensures
        res.deep_view() == seq![
            RequestMessageView::System(SystemMessageView { text: prompt@ }),
        ] + lowered_messages(message_view::messages_of(visible.deep_view())),
{
    let ghost system = RequestMessageView::System(SystemMessageView { text: prompt@ });
    let ghost all = message_view::messages_of(visible.deep_view());
    let mut messages: Vec<RequestMessage> = Vec::new();
    messages.push(RequestMessage::System(SystemMessage { text: prompt }));
    let n: usize = visible.len();
    let mut i: usize = 0;
    assert(messages.deep_view() =~= seq![system] + lowered_messages(all.take(0)));
    while i < n
        invariant
            i <= n,
            n == visible@.len(),
            all == message_view::messages_of(visible.deep_view()),
            messages.deep_view() == seq![system] + lowered_messages(all.take(i as int)),
        decreases n - i,
    {
        let ghost before = messages.deep_view();
        proof {
            assert(all.take(i + 1).drop_last() =~= all.take(i as int));
            assert(all.take(i + 1).last() == visible@[i as int]@.message);
        }
        match visible[i].message.lowered() {
            Some(message) => {
                messages.push(message);
                assert(messages.deep_view() =~= before.push(message@));
                assert(messages.deep_view() =~= seq![system] + lowered_messages(all.take(i + 1)));
            },
            None => {},
        }
        i += 1;
    }
    assert(all.take(n as int) =~= all);
    messages
}

impl AgentState {
    /// A thread without history.
    pub fn new() -> (res: Self)
        ensures
            res@ == AgentStateView::empty(),
    {
        let res = AgentState { messages: Vec::new(), state: Vec::new(), current_turn: None };
        assert(res@ =~= AgentStateView::empty());
        res
    }

    /// The turn to tag a newly appended assistant or tool message with. There is none only before a
    /// thread has any history, and then the message opens a fresh one: a mis-grouped message is a
    /// rewind inaccuracy, a missing tool result is history the provider refuses outright.
    fn stamp(&mut self) -> (res: TurnId)
        ensures
            old(self)@.stamps(res),
            final(self)@ == (AgentStateView { current_turn: Some(res), ..old(self)@ }),
    {
        match self.current_turn {
            Some(turn_id) => turn_id,
            None => {
                let turn_id = TurnId::from(MessageId::new());
                self.current_turn = Some(turn_id);
                turn_id
            },
        }
    }
}

/// An agent at work on one thread.
pub struct Agent {
    pub name: String,
    pub mode: SubAgentMode,
    pub system_prompt: SystemPrompt,
    pub state: AgentState,
    pub tools: Tools,
    pub subagents: SubAgents,
}

impl Agent {
    /// Everything about the agent but the thread it works on.
    pub open spec fn same_identity(self, other: Agent) -> bool {
        &&& self.name == other.name
        &&& self.mode == other.mode
        &&& self.system_prompt == other.system_prompt
        &&& self.tools == other.tools
        &&& self.subagents == other.subagents
    }

    /// The thread this agent works on.
    pub fn state(&self) -> (res: &AgentState)
        ensures
            *res == self.state,
    {
        &self.state
    }

    /// The agent's name.
    pub fn name(&self) -> (res: &str)
        ensures
            res@ == self.name@,
    {
        self.name.as_str()
    }

    /// Append a user message and make its turn this thread's current one.
    ///
    /// Advancing the turn is tied to appending the user message rather than to receiving an
    /// envelope. When a new task pre-empts calls that were awaiting approval, those calls are first
    /// written off, and the results belong to the previous turn. Were the turn advanced on arrival,
    /// a rewind to the new turn would delete them and leave the earlier assistant message with tool
    /// calls that have no results.
    pub fn add_user_message(&mut self, turn_id: TurnId, message: UserMessage)
        ensures
            final(self).same_identity(*old(self)),
            final(self).state@ == old(self).state@.appended(turn_id, MessageView::User(message@)),
    {
        self.state.current_turn = Some(turn_id);
        self.state.messages.push(HistoryEntry::new(turn_id, Message::User(message)));
        assert(self.state.messages.deep_view() =~= old(self).state.messages.deep_view().push(
            HistoryEntryView::of(turn_id, MessageView::User(message@)),
        ));
    }

    /// Append a message to the current turn. Used for assistant and tool messages, which never start
    /// a turn.
    pub fn add_message(&mut self, message: Message)
        ensures
            final(self).same_identity(*old(self)),
            exists|turn: TurnId|
                old(self).state@.stamps(turn) && final(self).state@ == #[trigger] old(
                    self,
                ).state@.appended(turn, message@),
    {
        let turn_id = self.state.stamp();
        self.state.messages.push(HistoryEntry::new(turn_id, message));
        assert(self.state.messages.deep_view() =~= old(self).state.messages.deep_view().push(
            HistoryEntryView::of(turn_id, message@),
        ));
        assert(self.state@ =~= old(self).state@.appended(turn_id, message@));
    }

    /// Append messages to the current turn.
    pub fn add_messages(&mut self, messages: Vec<Message>)
        ensures
            final(self).same_identity(*old(self)),
            exists|turn: TurnId|
                old(self).state@.stamps(turn) && final(self).state@ == #[trigger] old(
                    self,
                ).state@.appended_all(turn, messages.deep_view()),
    {
        let turn_id = self.state.stamp();
        let ghost all = messages.deep_view();
        let ghost tag = |message: MessageView| HistoryEntryView::of(turn_id, message);
        let n: usize = messages.len();
        let mut i: usize = 0;
        assert(all.take(0).map_values(tag) =~= Seq::empty());
        assert(self.state.messages.deep_view() =~= old(self).state@.messages + all.take(
            0,
        ).map_values(tag));
        while i < n
            invariant
                i <= n,
                n == messages@.len(),
                all == messages.deep_view(),
                tag == (|message: MessageView| HistoryEntryView::of(turn_id, message)),
                self.same_identity(*old(self)),
                self.state.state.deep_view() == old(self).state@.state,
                self.state.current_turn == Some(turn_id),
                self.state.messages.deep_view() == old(self).state@.messages + all.take(
                    i as int,
                ).map_values(tag),
            decreases n - i,
        {
            let ghost before = self.state.messages.deep_view();
            let message = messages[i].clone();
            self.state.messages.push(HistoryEntry::new(turn_id, message));
            proof {
                assert(all.take(i + 1) =~= all.take(i as int).push(message@));
                assert(all.take(i + 1).map_values(tag) =~= all.take(i as int).map_values(tag).push(
                    tag(message@),
                ));
                assert(self.state.messages.deep_view() =~= before.push(tag(message@)));
                assert(self.state.messages.deep_view() =~= old(self).state@.messages + all.take(
                    i + 1,
                ).map_values(tag));
            }
            i += 1;
        }
        assert(all.take(n as int) =~= all);
        assert(self.state@ =~= old(self).state@.appended_all(turn_id, all));
    }

    /// The turn this thread is in: what a message appended now is tagged with, and what a sub-agent
    /// call hands down so that the callee's messages group with the submission that caused them.
    /// `None` while the thread has no history.
    pub fn current_turn(&self) -> (res: Option<TurnId>)
        ensures
            res == self.state@.current_turn,
    {
        self.state.current_turn
    }

    /// The messages of the request this thread's history makes under a given system prompt.
    pub fn messages_with_prompt(&self, prompt: String) -> (res: Vec<RequestMessage>)
        ensures
            res.deep_view() == request_messages(prompt@, self.state@.messages),
    {
        let history = self.state.messages.as_slice();
        assert(history.deep_view() =~= self.state.messages.deep_view());
        let visible = message_view::model_view(history);
        build_request_messages(prompt, &visible)
    }

    /// The messages of the request this thread's history makes: the system prompt, then the part of
    /// the history a compaction left visible, lowered to what a provider accepts.
    pub fn messages(&self, store: &PromptStore) -> (res: Vec<RequestMessage>)
        requires
            self.system_prompt.base.belongs_to(*store),
        ensures
            exists|prompt: Seq<char>| #[trigger]
                self.system_prompt.may_resolve_to(*store, prompt) && res.deep_view()
                    == request_messages(prompt, self.state@.messages),
    {
        let prompt = self.system_prompt.resolve(store);
        let ghost resolved = prompt@;
        assert(self.system_prompt.may_resolve_to(*store, resolved));
        self.messages_with_prompt(prompt)
    }

    /// The conversation so far, without the system prompt (suitable for checkpointing).
    pub fn history(&self) -> (res: Vec<HistoryEntry>)
        ensures
            res.deep_view() == self.state@.messages,
    {
        let res = self.state.messages.clone();
        assert(res.deep_view() =~= self.state.messages.deep_view());
        res
    }

    /// The most recent recorded token usage on this thread, read without copying the transcript.
    pub fn last_usage(&self) -> (res: Option<CompletionUsage>)
        ensures
            res == latest_usage(self.state@.messages),
    {
        find_latest_usage(&self.state.messages)
    }

    /// Restore a stored thread's conversation and anchored tool state, replacing whatever thread
    /// this agent last ran. Whatever work is being resumed belongs to the turn of the last message
    /// written, so the turn needs no separate persistence.
    pub fn restore_history(&mut self, messages: Vec<HistoryEntry>, entries: Vec<StateEntry>)
        ensures
            final(self).same_identity(*old(self)),
            final(self).state@ == AgentStateView::restored(
                messages.deep_view(),
                entries.deep_view(),
            ),
    {
        let n: usize = messages.len();
        let current_turn: Option<TurnId> = if n == 0 {
            None
        } else {
            assert(messages.deep_view().last() == messages@[n - 1]@);
            Some(messages[n - 1].turn_id)
        };
        self.state = AgentState { messages, state: entries, current_turn };
    }

    /// This thread's recorded state so far, reduced to one value per kind. The last entry of a kind
    /// wins, because every entry is a complete value rather than a delta.
    pub fn state_snapshot(&self) -> (res: ThreadStateMap)
        ensures
            res.deep_view() == reduced(self.state@.state),
    {
        let ghost all = self.state@.state;
        let mut snapshot: ThreadStateMap = StringMap::new();
        let n: usize = self.state.state.len();
        let mut i: usize = 0;
        assert(snapshot.deep_view() =~= reduced(all.take(0)));
        while i < n
            invariant
                i <= n,
                n == self.state.state@.len(),
                all == self.state@.state,
                snapshot.deep_view() == reduced(all.take(i as int)),
            decreases n - i,
        {
            let entry = self.state.state[i].clone();
            let ghost before = snapshot.deep_view();
            proof {
                assert(all.take(i + 1).drop_last() =~= all.take(i as int));
                assert(all.take(i + 1).last() == entry@);
            }
            snapshot.insert(entry.kind, entry.value);
            assert(snapshot.deep_view() =~= before.insert(entry@.kind, entry@.value));
            i += 1;
        }
        assert(all.take(n as int) =~= all);
        snapshot
    }

    /// The recorded state, entry by entry.
    pub fn state_entries(&self) -> (res: Vec<StateEntry>)
        ensures
            res.deep_view() == self.state@.state,
    {
        let res = self.state.state.clone();
        assert(res.deep_view() =~= self.state.state.deep_view());
        res
    }

    /// Append a message together with whatever the call that produced it recorded, so that neither
    /// goes without the other.
    pub fn add_message_with_state(&mut self, message: Message, recorded: Vec<(String, StateValue)>)
        ensures
            final(self).same_identity(*old(self)),
            exists|turn: TurnId|
                old(self).state@.stamps(turn) && final(self).state@ == (AgentStateView {
                    state: old(self).state@.state + anchored(
                        message@.message_id(),
                        recorded.deep_view(),
                    ),
                    ..(#[trigger] old(self).state@.appended(turn, message@))
                }),
    {
        let anchor = message.message_id();
        self.add_message(message);
        let ghost turn = choose|turn: TurnId|
            old(self).state@.stamps(turn) && self.state@ == #[trigger] old(self).state@.appended(
                turn,
                message@,
            );
        let ghost all = recorded.deep_view();
        let ghost start = self.state.state.deep_view();
        let ghost kept = *self;
        let n: usize = recorded.len();
        let mut i: usize = 0;
        assert(self.state.state.deep_view() =~= start + anchored(anchor, all.take(0)));
        while i < n
            invariant
                i <= n,
                n == recorded@.len(),
                all == recorded.deep_view(),
                self.same_identity(kept),
                self.state.messages == kept.state.messages,
                self.state.current_turn == kept.state.current_turn,
                self.state.state.deep_view() == start + anchored(anchor, all.take(i as int)),
            decreases n - i,
        {
            let kind = recorded[i].0.clone();
            let value = recorded[i].1.clone();
            let ghost before = self.state.state.deep_view();
            let ghost entry = StateEntryView { message_id: anchor, kind: kind@, value: value@ };
            self.state.state.push(StateEntry { message_id: anchor, kind, value });
            proof {
                assert(all[i as int] == (kind@, value@));
                assert(self.state.state.deep_view() =~= before.push(entry));
                assert(anchored(anchor, all.take(i + 1)) =~= anchored(
                    anchor,
                    all.take(i as int),
                ).push(entry));
                assert(self.state.state.deep_view() =~= start + anchored(anchor, all.take(i + 1)));
            }
            i += 1;
        }
        assert(all.take(n as int) =~= all);
        assert(self.state@ =~= (AgentStateView {
            state: old(self).state@.state + anchored(message@.message_id(), all),
            ..old(self).state@.appended(turn, message@)
        }));
    }
}

/// The tools an agent may run itself, as they are offered to the model.
#[derive(Debug, PartialEq, Eq)]
pub struct Tools {
    pub definitions: Vec<ToolDefinition>,
}

impl Tools {
    /// Whether a tool goes by this name.
    pub open spec fn offers(self, name: Seq<char>) -> bool {
        exists|i: int|
            0 <= i < self.definitions@.len() && (#[trigger] self.definitions@[i])@.name == name
    }

    /// Whether a tool goes by this name.
    pub fn contains(&self, name: &str) -> (res: bool)
        ensures
            res == self.offers(name@),
    {
        let n: usize = self.definitions.len();
        let mut i: usize = 0;
        while i < n
            invariant
                i <= n,
                n == self.definitions@.len(),
                forall|j: int| 0 <= j < i ==> (#[trigger] self.definitions@[j])@.name != name@,
            decreases n - i,
        {
            if text::same_text(self.definitions[i].name.as_str(), name) {
                assert(self.definitions@[i as int]@.name == name@);
                return true;
            }
            i += 1;
        }
        false
    }

    /// How the tools are offered to the model.
    pub fn descriptors(&self) -> (res: Vec<ToolDefinition>)
        ensures
            res.deep_view() == self.definitions.deep_view(),
    {
        let res = self.definitions.clone();
        assert(res.deep_view() =~= self.definitions.deep_view());
        res
    }
}

/// Every recorded entry is a complete value: the last entry of a kind is what the thread holds of it,
/// and recording one kind leaves every other as it was.
pub proof fn law_the_last_recorded_value_wins(
    entries: Seq<StateEntryView>,
    entry: StateEntryView,
    kind: Seq<char>,
)
    ensures
        reduced(entries.push(entry)).contains_key(entry.kind),
        reduced(entries.push(entry))[entry.kind] == entry.value,
        kind != entry.kind ==> reduced(entries.push(entry)).contains_key(kind) == reduced(
            entries,
        ).contains_key(kind),
        kind != entry.kind && reduced(entries).contains_key(kind) ==> reduced(
            entries.push(entry),
        )[kind] == reduced(entries)[kind],
{
    assert(entries.push(entry).drop_last() =~= entries);
}

}
