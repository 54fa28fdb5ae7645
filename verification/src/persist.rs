//! What is stored of threads and of a session's runtime.

use crate::agent::{
    Envelope, EnvelopeView, HistoryEntry, HistoryEntryView, PendingReply, PendingReplyView,
    PendingToolCall, PendingToolCallView, ReplyTarget, ReplyTargetView, ResumePoint,
    ResumePointView, StateValue, ToolExecutionState, ToolExecutionStateView,
};
use crate::execution::{StoredExecution, StoredExecutionView};
use crate::ids::{MessageId, Timestamp};
use crate::llm::{ToolCall, ToolCallOutcome, ToolCallOutcomeView, ToolCallView};
use crate::string_map::StringMap;
use std::collections::VecDeque;
use vstd::prelude::*;

verus! {

/// One recorded value of one kind, and the message it hangs off.
#[derive(Debug, PartialEq)]
pub struct StateEntry {
    pub message_id: MessageId,
    pub kind: String,
    pub value: StateValue,
}

/// The content of a [`StateEntry`].
#[verifier::ext_equal]
pub struct StateEntryView {
    pub message_id: MessageId,
    pub kind: Seq<char>,
    pub value: serde_json::Value,
}

impl View for StateEntry {
    type V = StateEntryView;

    open spec fn view(&self) -> StateEntryView {
        StateEntryView {
            message_id: self.message_id,
            kind: self.kind@,
            value: self.value@,
        }
    }
}

impl DeepView for StateEntry {
    type V = StateEntryView;

    open spec fn deep_view(&self) -> StateEntryView {
        self@
    }
}

impl Clone for StateEntry {
    fn clone(&self) -> (res: Self)
        ensures
            res@ == self@,
    {
        StateEntry {
            message_id: self.message_id,
            kind: self.kind.clone(),
            value: self.value.clone(),
        }
    }
}

/// A tool call that is yet to run.
#[derive(Debug, PartialEq, Eq)]
pub struct StoredPendingToolCall {
    pub tool_call: ToolCall,
    pub outcome: ToolCallOutcome,
}

/// The content of a [`StoredPendingToolCall`].
#[verifier::ext_equal]
pub struct StoredPendingToolCallView {
    pub tool_call: ToolCallView,
    pub outcome: ToolCallOutcomeView,
}

impl View for StoredPendingToolCall {
    type V = StoredPendingToolCallView;

    open spec fn view(&self) -> StoredPendingToolCallView {
        StoredPendingToolCallView {
            tool_call: self.tool_call@,
            outcome: self.outcome@,
        }
    }
}

impl DeepView for StoredPendingToolCall {
    type V = StoredPendingToolCallView;

    open spec fn deep_view(&self) -> StoredPendingToolCallView {
        self@
    }
}

impl Clone for StoredPendingToolCall {
    fn clone(&self) -> (res: Self)
        ensures
            res@ == self@,
    {
        StoredPendingToolCall {
            tool_call: self.tool_call.clone(),
            outcome: self.outcome.clone(),
        }
    }
}

/// A batch of tool calls in progress.
#[derive(Debug, PartialEq, Eq)]
pub struct StoredToolExecutionState {
    /// The assistant message this batch of calls came from, so that a sub-agent dispatched after a
    /// restart can still record what triggered it.
    pub parent_message_id: MessageId,
    pub pending_replies: Vec<PendingReply>,
    pub tool_calls: Vec<StoredPendingToolCall>,
}

/// The content of a [`StoredToolExecutionState`].
#[verifier::ext_equal]
pub struct StoredToolExecutionStateView {
    pub parent_message_id: MessageId,
    pub pending_replies: Seq<PendingReplyView>,
    pub tool_calls: Seq<StoredPendingToolCallView>,
}

impl View for StoredToolExecutionState {
    type V = StoredToolExecutionStateView;

    open spec fn view(&self) -> StoredToolExecutionStateView {
        StoredToolExecutionStateView {
            parent_message_id: self.parent_message_id,
            pending_replies: self.pending_replies.deep_view(),
            tool_calls: self.tool_calls.deep_view(),
        }
    }
}

impl DeepView for StoredToolExecutionState {
    type V = StoredToolExecutionStateView;

    open spec fn deep_view(&self) -> StoredToolExecutionStateView {
        self@
    }
}

impl Clone for StoredToolExecutionState {
    fn clone(&self) -> (res: Self)
        ensures
            res@ == self@,
    {
        let pending_replies = self.pending_replies.clone();
        assert(pending_replies.deep_view() =~= self.pending_replies.deep_view());
        let tool_calls = self.tool_calls.clone();
        assert(tool_calls.deep_view() =~= self.tool_calls.deep_view());
        StoredToolExecutionState {
            parent_message_id: self.parent_message_id,
            pending_replies,
            tool_calls,
        }
    }
}

/// Where a stored thread picks up its work.
#[derive(Debug, PartialEq, Eq)]
pub enum StoredResumePoint {
    Generation,
    ToolExecution(StoredToolExecutionState),
    PendingApproval {
        parent_message_id: MessageId,
        pending_approval_calls: Vec<ToolCall>,
        pending_calls: Vec<StoredPendingToolCall>,
    },
}

/// The content of a [`StoredResumePoint`].
#[verifier::ext_equal]
pub enum StoredResumePointView {
    Generation,
    ToolExecution(StoredToolExecutionStateView),
    PendingApproval { parent_message_id: MessageId, pending_approval_calls: Seq<ToolCallView>, pending_calls: Seq<StoredPendingToolCallView> },
}

impl View for StoredResumePoint {
    type V = StoredResumePointView;

    open spec fn view(&self) -> StoredResumePointView {
        match self {
            StoredResumePoint::Generation => StoredResumePointView::Generation,
            StoredResumePoint::ToolExecution(a) => StoredResumePointView::ToolExecution(a@),
            StoredResumePoint::PendingApproval { parent_message_id, pending_approval_calls, pending_calls } => StoredResumePointView::PendingApproval {
                parent_message_id: *parent_message_id,
                pending_approval_calls: pending_approval_calls.deep_view(),
                pending_calls: pending_calls.deep_view(),
            },
        }
    }
}

impl DeepView for StoredResumePoint {
    type V = StoredResumePointView;

    open spec fn deep_view(&self) -> StoredResumePointView {
        self@
    }
}

impl Clone for StoredResumePoint {
    fn clone(&self) -> (res: Self)
        ensures
            res@ == self@,
    {
        match self {
            StoredResumePoint::Generation => StoredResumePoint::Generation,
            StoredResumePoint::ToolExecution(a) => StoredResumePoint::ToolExecution(a.clone()),
            StoredResumePoint::PendingApproval { parent_message_id, pending_approval_calls, pending_calls } => {
                let pending_approval_calls_copy = pending_approval_calls.clone();
                assert(pending_approval_calls_copy.deep_view() =~= pending_approval_calls.deep_view());
                let pending_calls_copy = pending_calls.clone();
                assert(pending_calls_copy.deep_view() =~= pending_calls.deep_view());
                StoredResumePoint::PendingApproval {
                    parent_message_id: *parent_message_id,
                    pending_approval_calls: pending_approval_calls_copy,
                    pending_calls: pending_calls_copy,
                }
            },
        }
    }
}

impl Default for StoredResumePoint {
    fn default() -> (res: Self)
        ensures
            res@ == StoredResumePointView::Generation,
    {
        StoredResumePoint::Generation
    }
}

/// One thread's state as it is stored.
///
/// Everything here is one of three things: the thread's conversation, tool state anchored to it, or
/// something that only makes sense now: where a suspended run picks up, who is owed a reply.
#[derive(Debug)]
pub struct StoredCheckpoint {
    pub thread_id: String,
    pub agent_name: String,
    /// The thread that spawned this one, and the name its id was derived from. Both `None` on the
    /// root thread, so "no parent" is what identifies the root.
    pub parent_thread_id: Option<String>,
    pub derivation_key: Option<String>,
    pub reply_target: Option<ReplyTarget>,
    pub messages: Vec<HistoryEntry>,
    /// Tool state written by this thread, each entry anchored to the message that records the call
    /// that wrote it, in the order the messages appear. The last entry of a kind is its current
    /// value.
    pub state: Vec<StateEntry>,
    pub resume_point: StoredResumePoint,
    pub suspended_at: Timestamp,
    /// The invocation that works on this thread.
    pub active_execution: Option<StoredExecution>,
}

/// The content of a [`StoredCheckpoint`].
#[verifier::ext_equal]
pub struct StoredCheckpointView {
    pub thread_id: Seq<char>,
    pub agent_name: Seq<char>,
    pub parent_thread_id: Option<Seq<char>>,
    pub derivation_key: Option<Seq<char>>,
    pub reply_target: Option<ReplyTargetView>,
    pub messages: Seq<HistoryEntryView>,
    pub state: Seq<StateEntryView>,
    pub resume_point: StoredResumePointView,
    pub suspended_at: Timestamp,
    pub active_execution: Option<StoredExecutionView>,
}

impl View for StoredCheckpoint {
    type V = StoredCheckpointView;

    open spec fn view(&self) -> StoredCheckpointView {
        StoredCheckpointView {
            thread_id: self.thread_id@,
            agent_name: self.agent_name@,
            parent_thread_id: self.parent_thread_id.deep_view(),
            derivation_key: self.derivation_key.deep_view(),
            reply_target: self.reply_target.deep_view(),
            messages: self.messages.deep_view(),
            state: self.state.deep_view(),
            resume_point: self.resume_point@,
            suspended_at: self.suspended_at,
            active_execution: self.active_execution.deep_view(),
        }
    }
}

impl DeepView for StoredCheckpoint {
    type V = StoredCheckpointView;

    open spec fn deep_view(&self) -> StoredCheckpointView {
        self@
    }
}

impl Clone for StoredCheckpoint {
    fn clone(&self) -> (res: Self)
        ensures
            res@ == self@,
    {
        let messages = self.messages.clone();
        assert(messages.deep_view() =~= self.messages.deep_view());
        let state = self.state.clone();
        assert(state.deep_view() =~= self.state.deep_view());
        StoredCheckpoint {
            thread_id: self.thread_id.clone(),
            agent_name: self.agent_name.clone(),
            parent_thread_id: self.parent_thread_id.clone(),
            derivation_key: self.derivation_key.clone(),
            reply_target: self.reply_target.clone(),
            messages,
            state,
            resume_point: self.resume_point.clone(),
            suspended_at: self.suspended_at,
            active_execution: self.active_execution.clone(),
        }
    }
}

/// A session's runtime state as it is stored.
#[derive(Debug)]
pub struct StoredRuntimeSnapshot {
    pub drained_envelopes: StringMap<Vec<Envelope>>,
    pub agent_drained_envelopes: StringMap<Vec<Envelope>>,
    pub active_threads: StringMap<String>,
}

/// A session's runtime state while it runs.
#[derive(Debug)]
pub struct AgentRuntimeSnapshot {
    /// Envelopes that arrived while the session was already exiting, by receiving thread.
    pub drained_envelopes: StringMap<Vec<Envelope>>,
    /// Envelopes that drivers had not taken when they exited, by thread.
    pub agent_drained_envelopes: StringMap<Vec<Envelope>>,
    /// Agent name by thread id, for drivers that exited with unfinished work.
    pub active_threads: StringMap<String>,
}

/// The content of a session's runtime state.
#[verifier::ext_equal]
pub struct RuntimeSnapshotView {
    pub drained_envelopes: Map<Seq<char>, Seq<EnvelopeView>>,
    pub agent_drained_envelopes: Map<Seq<char>, Seq<EnvelopeView>>,
    pub active_threads: Map<Seq<char>, Seq<char>>,
}

impl View for StoredRuntimeSnapshot {
    type V = RuntimeSnapshotView;

    open spec fn view(&self) -> RuntimeSnapshotView {
        RuntimeSnapshotView {
            drained_envelopes: self.drained_envelopes.deep_view(),
            agent_drained_envelopes: self.agent_drained_envelopes.deep_view(),
            active_threads: self.active_threads.deep_view(),
        }
    }
}

impl DeepView for StoredRuntimeSnapshot {
    type V = RuntimeSnapshotView;

    open spec fn deep_view(&self) -> RuntimeSnapshotView {
        self@
    }
}

impl View for AgentRuntimeSnapshot {
    type V = RuntimeSnapshotView;

    open spec fn view(&self) -> RuntimeSnapshotView {
        RuntimeSnapshotView {
            drained_envelopes: self.drained_envelopes.deep_view(),
            agent_drained_envelopes: self.agent_drained_envelopes.deep_view(),
            active_threads: self.active_threads.deep_view(),
        }
    }
}

impl RuntimeSnapshotView {
    /// The state of a session in which nothing is in flight.
    pub open spec fn empty() -> Self {
        RuntimeSnapshotView {
            drained_envelopes: Map::empty(),
            agent_drained_envelopes: Map::empty(),
            active_threads: Map::empty(),
        }
    }
}

impl Default for AgentRuntimeSnapshot {
    fn default() -> (res: Self)
        ensures
            res@ == RuntimeSnapshotView::empty(),
    {
        let res = AgentRuntimeSnapshot {
            drained_envelopes: StringMap::new(),
            agent_drained_envelopes: StringMap::new(),
            active_threads: StringMap::new(),
        };
        assert(res@ =~= RuntimeSnapshotView::empty());
        res
    }
}

/// A copy of envelopes by thread.
pub fn clone_envelopes(envelopes: &StringMap<Vec<Envelope>>) -> (res: StringMap<Vec<Envelope>>)
    ensures
        res.deep_view() == envelopes.deep_view(),
{
    let res = envelopes.clone();
    proof {
        assert forall|thread: Seq<char>| #[trigger]
            envelopes@.contains_key(thread) implies res@[thread].deep_view()
            == envelopes@[thread].deep_view() by {
            assert(cloned(envelopes@[thread], res@[thread]));
            assert(res@[thread].deep_view() =~= envelopes@[thread].deep_view());
        }
        assert(res.deep_view() =~= envelopes.deep_view());
    }
    res
}

/// A copy of names by thread.
pub fn clone_names(names: &StringMap<String>) -> (res: StringMap<String>)
    ensures
        res.deep_view() == names.deep_view(),
{
    let res = names.clone();
    proof {
        assert forall|thread: Seq<char>| #[trigger]
            names@.contains_key(thread) implies res@[thread]@ == names@[thread]@ by {
            assert(cloned(names@[thread], res@[thread]));
        }
        assert(res.deep_view() =~= names.deep_view());
    }
    res
}

impl Clone for StoredRuntimeSnapshot {
    fn clone(&self) -> (res: Self)
        ensures
            res@ == self@,
    {
        StoredRuntimeSnapshot {
            drained_envelopes: clone_envelopes(&self.drained_envelopes),
            agent_drained_envelopes: clone_envelopes(&self.agent_drained_envelopes),
            active_threads: clone_names(&self.active_threads),
        }
    }
}

impl Clone for AgentRuntimeSnapshot {
    fn clone(&self) -> (res: Self)
        ensures
            res@ == self@,
    {
        AgentRuntimeSnapshot {
            drained_envelopes: clone_envelopes(&self.drained_envelopes),
            agent_drained_envelopes: clone_envelopes(&self.agent_drained_envelopes),
            active_threads: clone_names(&self.active_threads),
        }
    }
}

impl From<AgentRuntimeSnapshot> for StoredRuntimeSnapshot {
    fn from(snapshot: AgentRuntimeSnapshot) -> (res: Self)
        ensures
            res@ == snapshot@,
    {
        StoredRuntimeSnapshot {
            drained_envelopes: snapshot.drained_envelopes,
            agent_drained_envelopes: snapshot.agent_drained_envelopes,
            active_threads: snapshot.active_threads,
        }
    }
}

impl vstd::std_specs::convert::FromSpecImpl<AgentRuntimeSnapshot> for StoredRuntimeSnapshot {
    open spec fn obeys_from_spec() -> bool {
        true
    }

    open spec fn from_spec(snapshot: AgentRuntimeSnapshot) -> Self {
        StoredRuntimeSnapshot {
            drained_envelopes: snapshot.drained_envelopes,
            agent_drained_envelopes: snapshot.agent_drained_envelopes,
            active_threads: snapshot.active_threads,
        }
    }
}

impl From<StoredRuntimeSnapshot> for AgentRuntimeSnapshot {
    fn from(snapshot: StoredRuntimeSnapshot) -> (res: Self)
        ensures
            res@ == snapshot@,
    {
        AgentRuntimeSnapshot {
            drained_envelopes: snapshot.drained_envelopes,
            agent_drained_envelopes: snapshot.agent_drained_envelopes,
            active_threads: snapshot.active_threads,
        }
    }
}

impl vstd::std_specs::convert::FromSpecImpl<StoredRuntimeSnapshot> for AgentRuntimeSnapshot {
    open spec fn obeys_from_spec() -> bool {
        true
    }

    open spec fn from_spec(snapshot: StoredRuntimeSnapshot) -> Self {
        AgentRuntimeSnapshot {
            drained_envelopes: snapshot.drained_envelopes,
            agent_drained_envelopes: snapshot.agent_drained_envelopes,
            active_threads: snapshot.active_threads,
        }
    }
}

/// A pending call as it is stored.
pub open spec fn stored_call(call: PendingToolCallView) -> StoredPendingToolCallView {
    StoredPendingToolCallView { tool_call: call.tool_call, outcome: call.outcome }
}

/// A stored call as it runs.
pub open spec fn restored_call(call: StoredPendingToolCallView) -> PendingToolCallView {
    PendingToolCallView { tool_call: call.tool_call, outcome: call.outcome }
}

/// Pending calls as they are stored.
pub open spec fn stored_calls(calls: Seq<PendingToolCallView>) -> Seq<StoredPendingToolCallView> {
    calls.map_values(|call: PendingToolCallView| stored_call(call))
}

/// Stored calls as they run.
pub open spec fn restored_calls(calls: Seq<StoredPendingToolCallView>) -> Seq<PendingToolCallView> {
    calls.map_values(|call: StoredPendingToolCallView| restored_call(call))
}

/// A batch in progress as it is stored.
pub open spec fn stored_execution_state(
    state: ToolExecutionStateView,
) -> StoredToolExecutionStateView {
    StoredToolExecutionStateView {
        parent_message_id: state.parent_message_id,
        pending_replies: state.pending_replies,
        tool_calls: stored_calls(state.tool_calls),
    }
}

/// A stored batch as it runs.
pub open spec fn restored_execution_state(
    state: StoredToolExecutionStateView,
) -> ToolExecutionStateView {
    ToolExecutionStateView {
        parent_message_id: state.parent_message_id,
        pending_replies: state.pending_replies,
        tool_calls: restored_calls(state.tool_calls),
    }
}

/// A resume point as it is stored.
pub open spec fn stored_resume_point(point: ResumePointView) -> StoredResumePointView {
    match point {
        ResumePointView::Generation => StoredResumePointView::Generation,
        ResumePointView::ToolExecution(state) => StoredResumePointView::ToolExecution(
            stored_execution_state(state),
        ),
        ResumePointView::PendingApproval {
            parent_message_id,
            pending_approval_calls,
            pending_calls,
        } => StoredResumePointView::PendingApproval {
            parent_message_id,
            pending_approval_calls,
            pending_calls: stored_calls(pending_calls),
        },
    }
}

/// A stored resume point as it runs.
pub open spec fn restored_resume_point(point: StoredResumePointView) -> ResumePointView {
    match point {
        StoredResumePointView::Generation => ResumePointView::Generation,
        StoredResumePointView::ToolExecution(state) => ResumePointView::ToolExecution(
            restored_execution_state(state),
        ),
        StoredResumePointView::PendingApproval {
            parent_message_id,
            pending_approval_calls,
            pending_calls,
        } => ResumePointView::PendingApproval {
            parent_message_id,
            pending_approval_calls,
            pending_calls: restored_calls(pending_calls),
        },
    }
}

impl From<PendingToolCall> for StoredPendingToolCall {
    fn from(call: PendingToolCall) -> (res: Self)
        ensures
            res@ == stored_call(call@),
    {
        StoredPendingToolCall { tool_call: call.tool_call, outcome: call.outcome }
    }
}

impl vstd::std_specs::convert::FromSpecImpl<PendingToolCall> for StoredPendingToolCall {
    open spec fn obeys_from_spec() -> bool {
        true
    }

    open spec fn from_spec(call: PendingToolCall) -> Self {
        StoredPendingToolCall { tool_call: call.tool_call, outcome: call.outcome }
    }
}

impl From<StoredPendingToolCall> for PendingToolCall {
    fn from(call: StoredPendingToolCall) -> (res: Self)
        ensures
            res@ == restored_call(call@),
    {
        PendingToolCall { tool_call: call.tool_call, outcome: call.outcome }
    }
}

impl vstd::std_specs::convert::FromSpecImpl<StoredPendingToolCall> for PendingToolCall {
    open spec fn obeys_from_spec() -> bool {
        true
    }

    open spec fn from_spec(call: StoredPendingToolCall) -> Self {
        PendingToolCall { tool_call: call.tool_call, outcome: call.outcome }
    }
}

fn store_calls(calls: VecDeque<PendingToolCall>) -> (res: Vec<StoredPendingToolCall>)
    ensures
        res.deep_view() == stored_calls(calls.deep_view()),
{
    let ghost all = calls.deep_view();
    let mut queue = calls;
    let mut stored: Vec<StoredPendingToolCall> = Vec::new();
    assert(stored.deep_view() + stored_calls(queue.deep_view()) =~= stored_calls(all));
    while queue.len() > 0
        invariant
            stored.deep_view() + stored_calls(queue.deep_view()) == stored_calls(all),
        decreases queue@.len(),
    {
        let ghost before = queue.deep_view();
        let ghost done = stored.deep_view();
        match queue.pop_front() {
            Some(call) => {
                stored.push(StoredPendingToolCall::from(call));
                proof {
                    assert(before =~= seq![call@] + queue.deep_view());
                    assert(stored.deep_view() =~= done.push(stored_call(call@)));
                    assert(stored_calls(before) =~= seq![stored_call(call@)] + stored_calls(
                        queue.deep_view(),
                    ));
                    assert(stored.deep_view() + stored_calls(queue.deep_view()) =~= done
                        + stored_calls(before));
                }
            },
            None => {},
        }
    }
    assert(stored_calls(queue.deep_view()) =~= Seq::empty());
    assert(stored.deep_view() =~= stored_calls(all));
    stored
}

fn restore_calls(calls: Vec<StoredPendingToolCall>) -> (res: VecDeque<PendingToolCall>)
    ensures
        res.deep_view() == restored_calls(calls.deep_view()),
{
    let mut restored: VecDeque<PendingToolCall> = VecDeque::new();
    let n: usize = calls.len();
    let mut i: usize = 0;
    while i < n
        invariant
            i <= n,
            n == calls@.len(),
            restored@.len() == i,
            forall|j: int| 0 <= j < i ==> (#[trigger] restored@[j])@ == restored_call(calls@[j]@),
        decreases n - i,
    {
        restored.push_back(PendingToolCall::from(calls[i].clone()));
        i += 1;
    }
    assert(restored.deep_view() =~= restored_calls(calls.deep_view()));
    restored
}

fn queue_to_list(calls: VecDeque<ToolCall>) -> (res: Vec<ToolCall>)
    ensures
        res.deep_view() == calls.deep_view(),
{
    let ghost all = calls.deep_view();
    let mut queue = calls;
    let mut listed: Vec<ToolCall> = Vec::new();
    assert(listed.deep_view() + queue.deep_view() =~= all);
    while queue.len() > 0
        invariant
            listed.deep_view() + queue.deep_view() == all,
        decreases queue@.len(),
    {
        let ghost before = queue.deep_view();
        let ghost done = listed.deep_view();
        match queue.pop_front() {
            Some(call) => {
                listed.push(call);
                proof {
                    assert(before =~= seq![call@] + queue.deep_view());
                    assert(listed.deep_view() =~= done.push(call@));
                    assert(listed.deep_view() + queue.deep_view() =~= done + before);
                }
            },
            None => {},
        }
    }
    assert(listed.deep_view() =~= all);
    listed
}

fn list_to_queue(calls: Vec<ToolCall>) -> (res: VecDeque<ToolCall>)
    ensures
        res.deep_view() == calls.deep_view(),
{
    let mut queue: VecDeque<ToolCall> = VecDeque::new();
    let n: usize = calls.len();
    let mut i: usize = 0;
    while i < n
        invariant
            i <= n,
            n == calls@.len(),
            queue@.len() == i,
            forall|j: int| 0 <= j < i ==> (#[trigger] queue@[j])@ == calls@[j]@,
        decreases n - i,
    {
        queue.push_back(calls[i].clone());
        i += 1;
    }
    assert(queue.deep_view() =~= calls.deep_view());
    queue
}

impl From<ToolExecutionState> for StoredToolExecutionState {
    fn from(state: ToolExecutionState) -> (res: Self)
        ensures
            res@ == stored_execution_state(state@),
    {
        StoredToolExecutionState {
            parent_message_id: state.parent_message_id,
            pending_replies: state.pending_replies,
            tool_calls: store_calls(state.tool_calls),
        }
    }
}

impl vstd::std_specs::convert::FromSpecImpl<ToolExecutionState> for StoredToolExecutionState {
    open spec fn obeys_from_spec() -> bool {
        false
    }

    open spec fn from_spec(state: ToolExecutionState) -> Self {
        arbitrary()
    }
}

impl From<StoredToolExecutionState> for ToolExecutionState {
    fn from(state: StoredToolExecutionState) -> (res: Self)
        ensures
            res@ == restored_execution_state(state@),
    {
        ToolExecutionState {
            parent_message_id: state.parent_message_id,
            pending_replies: state.pending_replies,
            tool_calls: restore_calls(state.tool_calls),
        }
    }
}

impl vstd::std_specs::convert::FromSpecImpl<StoredToolExecutionState> for ToolExecutionState {
    open spec fn obeys_from_spec() -> bool {
        false
    }

    open spec fn from_spec(state: StoredToolExecutionState) -> Self {
        arbitrary()
    }
}

impl From<ResumePoint> for StoredResumePoint {
    fn from(point: ResumePoint) -> (res: Self)
        ensures
            res@ == stored_resume_point(point@),
    {
        match point {
            ResumePoint::Generation => StoredResumePoint::Generation,
            ResumePoint::ToolExecution(state) => StoredResumePoint::ToolExecution(
                StoredToolExecutionState::from(state),
            ),
            ResumePoint::PendingApproval {
                parent_message_id,
                pending_approval_calls,
                pending_calls,
            } => StoredResumePoint::PendingApproval {
                parent_message_id,
                pending_approval_calls: queue_to_list(pending_approval_calls),
                pending_calls: store_calls(pending_calls),
            },
        }
    }
}

impl vstd::std_specs::convert::FromSpecImpl<ResumePoint> for StoredResumePoint {
    open spec fn obeys_from_spec() -> bool {
        false
    }

    open spec fn from_spec(point: ResumePoint) -> Self {
        arbitrary()
    }
}

impl From<StoredResumePoint> for ResumePoint {
    fn from(point: StoredResumePoint) -> (res: Self)
        ensures
            res@ == restored_resume_point(point@),
    {
        match point {
            StoredResumePoint::Generation => ResumePoint::Generation,
            StoredResumePoint::ToolExecution(state) => ResumePoint::ToolExecution(
                ToolExecutionState::from(state),
            ),
            StoredResumePoint::PendingApproval {
                parent_message_id,
                pending_approval_calls,
                pending_calls,
            } => ResumePoint::PendingApproval {
                parent_message_id,
                pending_approval_calls: list_to_queue(pending_approval_calls),
                pending_calls: restore_calls(pending_calls),
            },
        }
    }
}

impl vstd::std_specs::convert::FromSpecImpl<StoredResumePoint> for ResumePoint {
    open spec fn obeys_from_spec() -> bool {
        false
    }

    open spec fn from_spec(point: StoredResumePoint) -> Self {
        arbitrary()
    }
}

/// What was stored is what is restored: a resume point survives being stored, and a stored one
/// survives being restored.
pub proof fn law_resume_points_survive_storage(
    point: ResumePointView,
    stored: StoredResumePointView,
)
    ensures
        restored_resume_point(stored_resume_point(point)) == point,
        stored_resume_point(restored_resume_point(stored)) == stored,
{
    match point {
        ResumePointView::Generation => {},
        ResumePointView::ToolExecution(state) => {
            assert(restored_calls(stored_calls(state.tool_calls)) =~= state.tool_calls);
        },
        ResumePointView::PendingApproval { pending_calls, .. } => {
            assert(restored_calls(stored_calls(pending_calls)) =~= pending_calls);
        },
    }
    match stored {
        StoredResumePointView::Generation => {},
        StoredResumePointView::ToolExecution(state) => {
            assert(stored_calls(restored_calls(state.tool_calls)) =~= state.tool_calls);
        },
        StoredResumePointView::PendingApproval { pending_calls, .. } => {
            assert(stored_calls(restored_calls(pending_calls)) =~= pending_calls);
        },
    }
}

}
