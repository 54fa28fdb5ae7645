//! Executions: who works on what, for whom, and how abandoned work is closed off.

use crate::agent::{
    Envelope, EnvelopeBody, EnvelopeView, HistoryEntry, HistoryEntryView, ReplyTarget,
    ReplyTargetView,
};
use crate::ids::{self, TurnId};
use crate::lists;
use crate::llm::{
    Message, MessageView, ToolCall, ToolCallOutcome, ToolCallOutcomeView, ToolCallView,
    ToolMessage, ToolOutput, ToolOutputView, ToolRecord,
};
use crate::persist::{
    RuntimeSnapshotView, StoredCheckpoint, StoredCheckpointView, StoredResumePoint,
    StoredResumePointView, StoredRuntimeSnapshot,
};
use crate::string_map::StringMap;
use crate::task::{ScopeMember, ScopeMemberView, TaskId};
use crate::text;
use vstd::prelude::*;

verus! {

/// What an execution belongs to.
#[derive(Debug, PartialEq, Eq)]
pub enum ProcessGroupId {
    /// A turn.
    Foreground { turn_id: TurnId },
    /// A background task.
    Background { task_id: TaskId },
}

/// The content of a [`ProcessGroupId`].
#[verifier::ext_equal]
pub enum ProcessGroupIdView {
    Foreground { turn_id: TurnId },
    Background { task_id: Seq<char> },
}

impl View for ProcessGroupId {
    type V = ProcessGroupIdView;

    open spec fn view(&self) -> ProcessGroupIdView {
        match self {
            ProcessGroupId::Foreground { turn_id } => ProcessGroupIdView::Foreground {
                turn_id: *turn_id,
            },
            ProcessGroupId::Background { task_id } => ProcessGroupIdView::Background {
                task_id: task_id@,
            },
        }
    }
}

impl DeepView for ProcessGroupId {
    type V = ProcessGroupIdView;

    open spec fn deep_view(&self) -> ProcessGroupIdView {
        self@
    }
}

impl Clone for ProcessGroupId {
    fn clone(&self) -> (res: Self)
        ensures
            res@ == self@,
    {
        match self {
            ProcessGroupId::Foreground { turn_id } => ProcessGroupId::Foreground {
                turn_id: *turn_id,
            },
            ProcessGroupId::Background { task_id } => ProcessGroupId::Background {
                task_id: task_id.clone(),
            },
        }
    }
}

/// Who is told that an execution is complete.
#[derive(Debug, PartialEq, Eq)]
pub enum CompletionTarget {
    RootTurn,
    Caller(ReplyTarget),
    BackgroundTask(TaskId),
}

/// The content of a [`CompletionTarget`].
#[verifier::ext_equal]
pub enum CompletionTargetView {
    RootTurn,
    Caller(ReplyTargetView),
    BackgroundTask(Seq<char>),
}

impl View for CompletionTarget {
    type V = CompletionTargetView;

    open spec fn view(&self) -> CompletionTargetView {
        match self {
            CompletionTarget::RootTurn => CompletionTargetView::RootTurn,
            CompletionTarget::Caller(a) => CompletionTargetView::Caller(a@),
            CompletionTarget::BackgroundTask(a) => CompletionTargetView::BackgroundTask(a@),
        }
    }
}

impl DeepView for CompletionTarget {
    type V = CompletionTargetView;

    open spec fn deep_view(&self) -> CompletionTargetView {
        self@
    }
}

impl Clone for CompletionTarget {
    fn clone(&self) -> (res: Self)
        ensures
            res@ == self@,
    {
        match self {
            CompletionTarget::RootTurn => CompletionTarget::RootTurn,
            CompletionTarget::Caller(a) => CompletionTarget::Caller(a.clone()),
            CompletionTarget::BackgroundTask(a) => CompletionTarget::BackgroundTask(a.clone()),
        }
    }
}

/// One invocation of an agent.
#[derive(Debug, PartialEq, Eq)]
pub struct StoredExecution {
    pub invocation_id: String,
    pub scope: ProcessGroupId,
    pub completion: CompletionTarget,
    pub agent_path: Vec<String>,
}

/// The content of a [`StoredExecution`].
#[verifier::ext_equal]
pub struct StoredExecutionView {
    pub invocation_id: Seq<char>,
    pub scope: ProcessGroupIdView,
    pub completion: CompletionTargetView,
    pub agent_path: Seq<Seq<char>>,
}

impl View for StoredExecution {
    type V = StoredExecutionView;

    open spec fn view(&self) -> StoredExecutionView {
        StoredExecutionView {
            invocation_id: self.invocation_id@,
            scope: self.scope@,
            completion: self.completion@,
            agent_path: self.agent_path.deep_view(),
        }
    }
}

impl DeepView for StoredExecution {
    type V = StoredExecutionView;

    open spec fn deep_view(&self) -> StoredExecutionView {
        self@
    }
}

impl Clone for StoredExecution {
    fn clone(&self) -> (res: Self)
        ensures
            res@ == self@,
    {
        let agent_path = self.agent_path.clone();
        assert(agent_path.deep_view() =~= self.agent_path.deep_view());
        StoredExecution {
            invocation_id: self.invocation_id.clone(),
            scope: self.scope.clone(),
            completion: self.completion.clone(),
            agent_path,
        }
    }
}

/// Which invocation a write comes from.
#[derive(Debug, PartialEq, Eq)]
pub struct ExecutionIdentity {
    pub thread_id: String,
    pub invocation_id: String,
}

/// The content of a [`ExecutionIdentity`].
#[verifier::ext_equal]
pub struct ExecutionIdentityView {
    pub thread_id: Seq<char>,
    pub invocation_id: Seq<char>,
}

impl View for ExecutionIdentity {
    type V = ExecutionIdentityView;

    open spec fn view(&self) -> ExecutionIdentityView {
        ExecutionIdentityView {
            thread_id: self.thread_id@,
            invocation_id: self.invocation_id@,
        }
    }
}

impl DeepView for ExecutionIdentity {
    type V = ExecutionIdentityView;

    open spec fn deep_view(&self) -> ExecutionIdentityView {
        self@
    }
}

impl Clone for ExecutionIdentity {
    fn clone(&self) -> (res: Self)
        ensures
            res@ == self@,
    {
        ExecutionIdentity {
            thread_id: self.thread_id.clone(),
            invocation_id: self.invocation_id.clone(),
        }
    }
}

/// The invocations of a background task that are to be closed off, and why.
#[derive(Debug, PartialEq, Eq)]
pub struct ScopeAbort {
    pub task_id: TaskId,
    pub members: Vec<ScopeMember>,
    pub reason: String,
}

/// The content of a [`ScopeAbort`].
#[verifier::ext_equal]
pub struct ScopeAbortView {
    pub task_id: Seq<char>,
    pub members: Seq<ScopeMemberView>,
    pub reason: Seq<char>,
}

impl View for ScopeAbort {
    type V = ScopeAbortView;

    open spec fn view(&self) -> ScopeAbortView {
        ScopeAbortView {
            task_id: self.task_id@,
            members: self.members.deep_view(),
            reason: self.reason@,
        }
    }
}

impl DeepView for ScopeAbort {
    type V = ScopeAbortView;

    open spec fn deep_view(&self) -> ScopeAbortView {
        self@
    }
}

impl Clone for ScopeAbort {
    fn clone(&self) -> (res: Self)
        ensures
            res@ == self@,
    {
        let members = self.members.clone();
        assert(members.deep_view() =~= self.members.deep_view());
        ScopeAbort {
            task_id: self.task_id.clone(),
            members,
            reason: self.reason.clone(),
        }
    }
}

/// That a background task has been closed off.
#[derive(Debug, PartialEq, Eq)]
pub struct CleanupReceipt {
    pub task_id: TaskId,
}

/// The content of a [`CleanupReceipt`].
#[verifier::ext_equal]
pub struct CleanupReceiptView {
    pub task_id: Seq<char>,
}

impl View for CleanupReceipt {
    type V = CleanupReceiptView;

    open spec fn view(&self) -> CleanupReceiptView {
        CleanupReceiptView {
            task_id: self.task_id@,
        }
    }
}

impl DeepView for CleanupReceipt {
    type V = CleanupReceiptView;

    open spec fn deep_view(&self) -> CleanupReceiptView {
        self@
    }
}

impl Clone for CleanupReceipt {
    fn clone(&self) -> (res: Self)
        ensures
            res@ == self@,
    {
        CleanupReceipt {
            task_id: self.task_id.clone(),
        }
    }
}

impl StoredExecutionView {
    /// The caller that waits for an answer.
    pub open spec fn reply_target(self) -> Option<ReplyTargetView> {
        match self.completion {
            CompletionTargetView::Caller(target) => Some(target),
            _ => None,
        }
    }

    /// The background task this execution works on.
    pub open spec fn background_task(self) -> Option<Seq<char>> {
        match self.scope {
            ProcessGroupIdView::Background { task_id } => Some(task_id),
            _ => None,
        }
    }
}

impl StoredExecution {
    /// The caller that waits for an answer.
    pub fn reply_target(&self) -> (res: Option<&ReplyTarget>)
        ensures
            res.deep_view() == self@.reply_target(),
    {
        match &self.completion {
            CompletionTarget::Caller(target) => Some(target),
            _ => None,
        }
    }

    /// The background task this execution works on.
    pub fn background_task(&self) -> (res: Option<&TaskId>)
        ensures
            res.deep_view() == self@.background_task(),
    {
        match &self.scope {
            ProcessGroupId::Background { task_id } => Some(task_id),
            _ => None,
        }
    }
}

/// A call that has no result yet, and the turn that asked for it.
pub struct UnansweredCall {
    pub turn_id: TurnId,
    pub call: ToolCallView,
}

/// The calls an answer of the model asks for.
pub open spec fn asked_calls(turn_id: TurnId, calls: Seq<ToolCallView>) -> Seq<UnansweredCall> {
    calls.map_values(|call: ToolCallView| UnansweredCall { turn_id, call })
}

/// The first unanswered call with this id.
pub open spec fn first_unanswered(pending: Seq<UnansweredCall>, id: Seq<char>) -> Option<int>
    decreases pending.len(),
{
    if pending.len() == 0 {
        None
    } else if pending[0].call.id == id {
        Some(0)
    } else {
        match first_unanswered(pending.drop_first(), id) {
            Some(at) => Some(at + 1),
            None => None,
        }
    }
}

/// The calls left once a result for the call `id` arrived: it answers the oldest one.
pub open spec fn without_answered(pending: Seq<UnansweredCall>, id: Seq<char>) -> Seq<
    UnansweredCall,
> {
    match first_unanswered(pending, id) {
        Some(at) => pending.remove(at),
        None => pending,
    }
}

/// The calls that one more entry leaves without a result.
pub open spec fn unanswered_after(pending: Seq<UnansweredCall>, entry: HistoryEntryView) -> Seq<
    UnansweredCall,
> {
    match entry.message {
        MessageView::Assistant(assistant) => pending + asked_calls(
            entry.turn_id,
            assistant.tool_calls,
        ),
        MessageView::Tool(tool) => without_answered(pending, tool.id),
        _ => pending,
    }
}

/// The calls of a history that have no result.
pub open spec fn unanswered(history: Seq<HistoryEntryView>) -> Seq<UnansweredCall>
    decreases history.len(),
{
    if history.len() == 0 {
        Seq::empty()
    } else {
        unanswered_after(unanswered(history.drop_last()), history.last())
    }
}

/// What an abandoned call is recorded as.
pub open spec fn abandoned_record(call: ToolCallView, reason: Seq<char>) -> ToolRecord {
    ToolRecord {
        id: call.id,
        name: call.name,
        output: ToolOutputView::Failure(reason),
        outcome: ToolCallOutcomeView::Aborted,
        started_at: None,
    }
}

/// Whether `entry` closes `pending`: a result in the call's own turn that says why there is none, under
/// a message id minted for it.
pub open spec fn closes(entry: HistoryEntryView, pending: UnansweredCall, reason: Seq<char>) -> bool {
    entry.message matches MessageView::Tool(tool) && tool.record() == abandoned_record(
        pending.call,
        reason,
    ) && ids::is_random_uuid(tool.message_id.value) && entry == HistoryEntryView::of(pending.turn_id, entry.message)
}

/// Whether `results` closes each of the calls in `pending`, in order.
pub open spec fn close_all(
    results: Seq<HistoryEntryView>,
    pending: Seq<UnansweredCall>,
    reason: Seq<char>,
) -> bool {
    results.len() == pending.len() && forall|k: int|
        0 <= k < pending.len() ==> closes(#[trigger] results[k], pending[k], reason)
}

/// Whether a checkpoint was closed off: calls without a result got one, nothing else of the
/// conversation or the recorded state changed, and the thread is idle.
pub open spec fn closed_off(
    before: StoredCheckpointView,
    after: StoredCheckpointView,
    reason: Seq<char>,
) -> bool {
    exists|results: Seq<HistoryEntryView>| #[trigger]
        close_all(results, unanswered(before.messages), reason) && after == (StoredCheckpointView {
            messages: before.messages + results,
            resume_point: StoredResumePointView::Generation,
            active_execution: None,
            ..before
        })
}

/// Calls without a result, while they are gathered.
struct Gathered {
    turns: Vec<TurnId>,
    calls: Vec<ToolCall>,
}

impl Gathered {
    spec fn well_formed(self) -> bool {
        self.turns@.len() == self.calls@.len()
    }

    spec fn pending(self) -> Seq<UnansweredCall> {
        Seq::new(
            self.calls@.len(),
            |k: int| UnansweredCall { turn_id: self.turns@[k], call: self.calls@[k]@ },
        )
    }
}

proof fn lemma_first_unanswered(pending: Seq<UnansweredCall>, id: Seq<char>, at: int)
    requires
        0 <= at <= pending.len(),
        forall|k: int| 0 <= k < at ==> (#[trigger] pending[k]).call.id != id,
        at < pending.len() ==> pending[at].call.id == id,
    ensures
        first_unanswered(pending, id) == (if at < pending.len() {
            Some(at)
        } else {
            None
        }),
    decreases pending.len(),
{
    if pending.len() > 0 && at > 0 {
        let rest = pending.drop_first();
        assert forall|k: int| 0 <= k < at - 1 implies (#[trigger] rest[k]).call.id != id by {
            assert(rest[k] == pending[k + 1]);
        }
        assert(pending[0].call.id != id);
        lemma_first_unanswered(rest, id, at - 1);
    }
}

/// Take one more entry into account.
fn gather_entry(gathered: &mut Gathered, entry: &HistoryEntry)
    requires
        old(gathered).well_formed(),
    ensures
        final(gathered).well_formed(),
        final(gathered).pending() == unanswered_after(old(gathered).pending(), entry@),
{
    let ghost before = gathered.pending();
    match &entry.message {
        Message::Assistant(assistant) => {
            let ghost asked = asked_calls(entry.turn_id, assistant@.tool_calls);
            let n: usize = assistant.tool_calls.len();
            let mut i: usize = 0;
            assert(gathered.pending() =~= before + asked.take(0));
            while i < n
                invariant
                    i <= n,
                    n == assistant.tool_calls@.len(),
                    asked == asked_calls(entry.turn_id, assistant@.tool_calls),
                    gathered.well_formed(),
                    gathered.pending() == before + asked.take(i as int),
                decreases n - i,
            {
                let ghost sofar = gathered.pending();
                let call = assistant.tool_calls[i].clone();
                gathered.turns.push(entry.turn_id);
                gathered.calls.push(call);
                proof {
                    let next = UnansweredCall { turn_id: entry.turn_id, call: call@ };
                    assert(asked[i as int] == next);
                    assert(gathered.pending() =~= sofar.push(next));
                    assert(gathered.pending() =~= before + asked.take(i + 1));
                }
                i += 1;
            }
            assert(asked.take(n as int) =~= asked);
        },
        Message::Tool(tool) => {
            let n: usize = gathered.calls.len();
            let mut at: usize = 0;
            while at < n && !text::same_text(gathered.calls[at].id.as_str(), tool.id.as_str())
                invariant
                    at <= n,
                    n == gathered.calls@.len(),
                    gathered.well_formed(),
                    gathered.pending() == before,
                    forall|k: int| 0 <= k < at ==> (#[trigger] before[k]).call.id != tool.id@,
                decreases n - at,
            {
                assert(before[at as int].call == gathered.calls@[at as int]@);
                at += 1;
            }
            proof {
                if at < n {
                    assert(before[at as int].call == gathered.calls@[at as int]@);
                }
                lemma_first_unanswered(before, tool.id@, at as int);
            }
            if at < n {
                gathered.turns.remove(at);
                gathered.calls.remove(at);
                assert(gathered.pending() =~= before.remove(at as int));
            }
        },
        _ => {},
    }
}

/// Close only persisted calls without results; successful results and recorded state survive.
pub fn abort_checkpoint(checkpoint: &mut StoredCheckpoint, reason: &str)
    ensures
        closed_off(old(checkpoint)@, final(checkpoint)@, reason@),
{
    let ghost history = checkpoint.messages.deep_view();
    let mut gathered = Gathered { turns: Vec::new(), calls: Vec::new() };
    let n: usize = checkpoint.messages.len();
    let mut i: usize = 0;
    assert(gathered.pending() =~= unanswered(history.take(0)));
    while i < n
        invariant
            i <= n,
            n == checkpoint.messages@.len(),
            checkpoint@ == old(checkpoint)@,
            history == checkpoint.messages.deep_view(),
            gathered.well_formed(),
            gathered.pending() == unanswered(history.take(i as int)),
        decreases n - i,
    {
        proof {
            assert(history.take(i + 1).drop_last() =~= history.take(i as int));
            assert(history.take(i + 1).last() == checkpoint.messages@[i as int]@);
        }
        gather_entry(&mut gathered, &checkpoint.messages[i]);
        i += 1;
    }
    assert(history.take(n as int) =~= history);
    let ghost pending = gathered.pending();
    let m: usize = gathered.calls.len();
    let mut k: usize = 0;
    let ghost mut results: Seq<HistoryEntryView> = Seq::empty();
    assert(checkpoint.messages.deep_view() =~= history + results);
    while k < m
        invariant
            k <= m,
            m == gathered.calls@.len(),
            gathered.well_formed(),
            pending == gathered.pending(),
            results.len() == k,
            forall|j: int| 0 <= j < k ==> closes(#[trigger] results[j], pending[j], reason@),
            checkpoint.messages.deep_view() == history + results,
            checkpoint@ == (StoredCheckpointView {
                messages: history + results,
                ..old(checkpoint)@
            }),
        decreases m - k,
    {
        let turn = gathered.turns[k];
        let id = gathered.calls[k].id.clone();
        let name = gathered.calls[k].name.clone();
        let message = ToolMessage::new(
            id,
            name,
            ToolOutput::Failure(reason.to_owned()),
            ToolCallOutcome::Aborted,
            None,
        );
        let entry = HistoryEntry::new(turn, Message::Tool(message));
        let ghost before = checkpoint.messages.deep_view();
        let ghost next = entry@;
        checkpoint.messages.push(entry);
        proof {
            assert(closes(next, pending[k as int], reason@));
            assert(checkpoint.messages.deep_view() =~= before.push(next));
            results = results.push(next);
            assert(checkpoint.messages.deep_view() =~= history + results);
            assert(checkpoint@ =~= (StoredCheckpointView {
                messages: history + results,
                ..old(checkpoint)@
            }));
        }
        k += 1;
    }
    checkpoint.resume_point = StoredResumePoint::Generation;
    checkpoint.active_execution = None;
    proof {
        assert(close_all(results, unanswered(history), reason@));
        assert(checkpoint@ =~= (StoredCheckpointView {
            messages: history + results,
            resume_point: StoredResumePointView::Generation,
            active_execution: None,
            ..old(checkpoint)@
        }));
    }
}

proof fn lemma_results_close(
    history: Seq<HistoryEntryView>,
    results: Seq<HistoryEntryView>,
    pending: Seq<UnansweredCall>,
    reason: Seq<char>,
    n: int,
)
    requires
        unanswered(history) == pending,
        close_all(results, pending, reason),
        0 <= n <= results.len(),
    ensures
        unanswered(history + results.take(n)) == pending.skip(n),
    decreases n,
{
    if n == 0 {
        assert(history + results.take(0) =~= history);
        assert(pending.skip(0) =~= pending);
    } else {
        lemma_results_close(history, results, pending, reason, n - 1);
        let all = history + results.take(n);
        assert(all.drop_last() =~= history + results.take(n - 1));
        assert(all.last() == results[n - 1]);
        let left = pending.skip(n - 1);
        assert(closes(results[n - 1], pending[n - 1], reason));
        assert(left[0] == pending[n - 1]);
        lemma_first_unanswered(left, pending[n - 1].call.id, 0);
        assert(left.remove(0) =~= pending.skip(n));
    }
}

/// Closing off a checkpoint leaves no call without a result, keeps everything the conversation already
/// held where it was, and keeps the recorded state.
pub proof fn law_a_closed_off_thread_owes_nothing(
    before: StoredCheckpointView,
    after: StoredCheckpointView,
    reason: Seq<char>,
)
    requires
        closed_off(before, after, reason),
    ensures
        unanswered(after.messages).len() == 0,
        before.messages.len() <= after.messages.len(),
        after.messages.take(before.messages.len() as int) == before.messages,
        after.state == before.state,
        after.active_execution is None,
{
    let pending = unanswered(before.messages);
    let results = choose|results: Seq<HistoryEntryView>| #[trigger]
        close_all(results, pending, reason) && after == (StoredCheckpointView {
            messages: before.messages + results,
            resume_point: StoredResumePointView::Generation,
            active_execution: None,
            ..before
        });
    lemma_results_close(before.messages, results, pending, reason, results.len() as int);
    assert(results.take(results.len() as int) =~= results);
    assert(after.messages.take(before.messages.len() as int) =~= before.messages);
}

/// Closing off a thread twice adds nothing the second time, whatever the two reasons are.
pub proof fn law_closing_off_is_idempotent(
    before: StoredCheckpointView,
    once: StoredCheckpointView,
    twice: StoredCheckpointView,
    reason: Seq<char>,
    again: Seq<char>,
)
    requires
        closed_off(before, once, reason),
        closed_off(once, twice, again),
    ensures
        twice == once,
{
    law_a_closed_off_thread_owes_nothing(before, once, reason);
    let results = choose|results: Seq<HistoryEntryView>| #[trigger]
        close_all(results, unanswered(once.messages), again) && twice == (StoredCheckpointView {
            messages: once.messages + results,
            resume_point: StoredResumePointView::Generation,
            active_execution: None,
            ..once
        });
    assert(once.messages + results =~= once.messages);
}

/// Whether a thread is fenced off: an aborted invocation worked on it, and no later one does.
pub open spec fn fenced(
    thread: Seq<char>,
    aborted: Seq<ScopeMemberView>,
    active: Map<Seq<char>, Seq<char>>,
) -> bool {
    exists|k: int|
        0 <= k < aborted.len() && (#[trigger] aborted[k]).thread_id == thread && (
        active.contains_key(thread) ==> active[thread] == aborted[k].invocation_id)
}

/// Whether an envelope belongs to an aborted invocation: it carried the call out, or answers it.
pub open spec fn of_aborted(envelope: EnvelopeView, aborted: Seq<ScopeMemberView>) -> bool {
    exists|k: int|
        0 <= k < aborted.len() && (envelope.id == (#[trigger] aborted[k]).invocation_id
            || envelope.reply_to == Some(aborted[k].invocation_id))
}

/// Whether an envelope survives a fence. A decision names no invocation, so it goes by its thread: a
/// newer execution's decision is preserved, and recovery checks its batch before replaying it.
pub open spec fn survives(
    envelope: EnvelopeView,
    aborted: Seq<ScopeMemberView>,
    active: Map<Seq<char>, Seq<char>>,
) -> bool {
    &&& !(envelope.body is Resume && fenced(envelope.to.thread_id, aborted, active))
    &&& !of_aborted(envelope, aborted)
}

/// The envelopes that survive a fence, in order.
pub open spec fn surviving(
    envelopes: Seq<EnvelopeView>,
    aborted: Seq<ScopeMemberView>,
    active: Map<Seq<char>, Seq<char>>,
) -> Seq<EnvelopeView>
    decreases envelopes.len(),
{
    if envelopes.len() == 0 {
        Seq::empty()
    } else {
        let before = surviving(envelopes.drop_last(), aborted, active);
        if survives(envelopes.last(), aborted, active) {
            before.push(envelopes.last())
        } else {
            before
        }
    }
}

/// A snapshot without what aborted invocations left behind.
pub open spec fn fenced_snapshot(
    snapshot: RuntimeSnapshotView,
    aborted: Seq<ScopeMemberView>,
    active: Map<Seq<char>, Seq<char>>,
) -> RuntimeSnapshotView {
    RuntimeSnapshotView {
        drained_envelopes: snapshot.drained_envelopes.map_values(
            |envelopes: Seq<EnvelopeView>| surviving(envelopes, aborted, active),
        ),
        agent_drained_envelopes: snapshot.agent_drained_envelopes.map_values(
            |envelopes: Seq<EnvelopeView>| surviving(envelopes, aborted, active),
        ),
        active_threads: snapshot.active_threads.restrict(
            Set::new(|thread: Seq<char>| !fenced(thread, aborted, active)),
        ),
    }
}

/// Whether a thread is fenced off.
fn is_fenced(thread: &str, aborted: &Vec<ScopeMember>, active: &StringMap<String>) -> (res: bool)
    ensures
        res == fenced(thread@, aborted.deep_view(), active.deep_view()),
{
    let n: usize = aborted.len();
    let mut i: usize = 0;
    while i < n
        invariant
            i <= n,
            n == aborted@.len(),
            forall|k: int|
                0 <= k < i ==> !((#[trigger] aborted.deep_view()[k]).thread_id == thread@ && (
                active.deep_view().contains_key(thread@) ==> active.deep_view()[thread@]
                    == aborted.deep_view()[k].invocation_id)),
        decreases n - i,
    {
        assert(aborted.deep_view()[i as int] == aborted@[i as int]@);
        if text::same_text(aborted[i].thread_id.as_str(), thread) {
            match active.get(thread) {
                Some(invocation) => {
                    if text::same_text(
                        invocation.as_str(),
                        aborted[i].invocation_id.as_str(),
                    ) {
                        return true;
                    }
                },
                None => {
                    return true;
                },
            }
        }
        i += 1;
    }
    false
}

/// Whether an envelope survives a fence.
fn is_surviving(envelope: &Envelope, aborted: &Vec<ScopeMember>, active: &StringMap<String>) -> (res:
    bool)
    ensures
        res == survives(envelope@, aborted.deep_view(), active.deep_view()),
{
    match &envelope.body {
        EnvelopeBody::Resume(_) => {
            if is_fenced(envelope.to.thread_id.as_str(), aborted, active) {
                return false;
            }
        },
        _ => {},
    }
    let n: usize = aborted.len();
    let mut i: usize = 0;
    while i < n
        invariant
            i <= n,
            n == aborted@.len(),
            !(envelope@.body is Resume && fenced(
                envelope@.to.thread_id,
                aborted.deep_view(),
                active.deep_view(),
            )),
            forall|k: int|
                0 <= k < i ==> !(envelope@.id == (
                #[trigger] aborted.deep_view()[k]).invocation_id || envelope@.reply_to == Some(
                    aborted.deep_view()[k].invocation_id,
                )),
        decreases n - i,
    {
        assert(aborted.deep_view()[i as int] == aborted@[i as int]@);
        if text::same_text(envelope.id.as_str(), aborted[i].invocation_id.as_str()) {
            return false;
        }
        match &envelope.reply_to {
            Some(replied) => {
                if text::same_text(replied.as_str(), aborted[i].invocation_id.as_str()) {
                    return false;
                }
            },
            None => {},
        }
        i += 1;
    }
    true
}

/// The envelopes that survive a fence, in order.
fn keep_surviving(
    envelopes: &Vec<Envelope>,
    aborted: &Vec<ScopeMember>,
    active: &StringMap<String>,
) -> (res: Vec<Envelope>)
    ensures
        res.deep_view() == surviving(
            envelopes.deep_view(),
            aborted.deep_view(),
            active.deep_view(),
        ),
{
    let ghost all = envelopes.deep_view();
    let mut kept: Vec<Envelope> = Vec::new();
    let n: usize = envelopes.len();
    let mut i: usize = 0;
    assert(kept.deep_view() =~= surviving(
        all.take(0),
        aborted.deep_view(),
        active.deep_view(),
    ));
    while i < n
        invariant
            i <= n,
            n == envelopes@.len(),
            all == envelopes.deep_view(),
            kept.deep_view() == surviving(
                all.take(i as int),
                aborted.deep_view(),
                active.deep_view(),
            ),
        decreases n - i,
    {
        let ghost before = kept.deep_view();
        proof {
            assert(all.take(i + 1).drop_last() =~= all.take(i as int));
            assert(all.take(i + 1).last() == envelopes@[i as int]@);
        }
        if is_surviving(&envelopes[i], aborted, active) {
            kept.push(envelopes[i].clone());
            assert(kept.deep_view() =~= before.push(envelopes@[i as int]@));
        }
        i += 1;
    }
    assert(all.take(n as int) =~= all);
    kept
}

/// Envelopes by thread, without what aborted invocations left behind.
fn fence_envelopes(
    envelopes: &StringMap<Vec<Envelope>>,
    aborted: &Vec<ScopeMember>,
    active: &StringMap<String>,
) -> (res: StringMap<Vec<Envelope>>)
    ensures
        res.deep_view() == envelopes.deep_view().map_values(
            |list: Seq<EnvelopeView>| surviving(list, aborted.deep_view(), active.deep_view()),
        ),
{
    let keys = envelopes.keys();
    let ghost order = keys.deep_view();
    let ghost keep = |list: Seq<EnvelopeView>|
        surviving(list, aborted.deep_view(), active.deep_view());
    let ghost all = envelopes.deep_view();
    proof {
        text::lemma_in_order(envelopes@.dom());
    }
    let mut kept: StringMap<Vec<Envelope>> = StringMap::new();
    let n: usize = keys.len();
    let mut i: usize = 0;
    while i < n
        invariant
            i <= n,
            n == keys@.len(),
            order == keys.deep_view(),
            all == envelopes.deep_view(),
            order.to_set() == envelopes@.dom(),
            keep == (|list: Seq<EnvelopeView>|
                surviving(list, aborted.deep_view(), active.deep_view())),
            forall|thread: Seq<char>| #[trigger]
                kept@.contains_key(thread) <==> order.take(i as int).contains(thread),
            forall|thread: Seq<char>| #[trigger]
                kept@.contains_key(thread) ==> all.contains_key(thread)
                    && kept@[thread].deep_view() == keep(all[thread]),
        decreases n - i,
    {
        let thread = keys[i].clone();
        let ghost before = kept@;
        proof {
            assert(order[i as int] == thread@);
            assert(order.to_set().contains(thread@));
            assert(order.take(i + 1) =~= order.take(i as int).push(thread@));
            assert forall|other: Seq<char>| #[trigger]
                order.take(i + 1).contains(other) == (order.take(i as int).contains(other) || other
                    == thread@) by {
                lists::lemma_push_holds(order.take(i as int), thread@, other);
            }
        }
        match envelopes.get(thread.as_str()) {
            Some(list) => {
                let surviving_list = keep_surviving(list, aborted, active);
                assert(all[thread@] == list.deep_view());
                kept.insert(thread, surviving_list);
            },
            None => {},
        }
        i += 1;
    }
    proof {
        assert(order.take(n as int) =~= order);
        assert forall|thread: Seq<char>|
            kept.deep_view().contains_key(thread) == all.map_values(keep).contains_key(thread) by {
            assert(kept@.contains_key(thread) <==> order.contains(thread));
            assert(order.to_set().contains(thread) == order.contains(thread));
        }
        assert(kept.deep_view() =~= all.map_values(keep));
    }
    kept
}

/// Names by thread, without fenced threads.
fn fence_threads(
    names: &StringMap<String>,
    aborted: &Vec<ScopeMember>,
    active: &StringMap<String>,
) -> (res: StringMap<String>)
    ensures
        res.deep_view() == names.deep_view().restrict(
            Set::new(
                |thread: Seq<char>| !fenced(thread, aborted.deep_view(), active.deep_view()),
            ),
        ),
{
    let keys = names.keys();
    let ghost order = keys.deep_view();
    let ghost all = names.deep_view();
    proof {
        text::lemma_in_order(names@.dom());
    }
    let mut kept: StringMap<String> = StringMap::new();
    let n: usize = keys.len();
    let mut i: usize = 0;
    while i < n
        invariant
            i <= n,
            n == keys@.len(),
            order == keys.deep_view(),
            all == names.deep_view(),
            order.to_set() == names@.dom(),
            forall|thread: Seq<char>| #[trigger]
                kept@.contains_key(thread) <==> order.take(i as int).contains(thread) && !fenced(
                    thread,
                    aborted.deep_view(),
                    active.deep_view(),
                ),
            forall|thread: Seq<char>| #[trigger]
                kept@.contains_key(thread) ==> all.contains_key(thread) && kept@[thread]@
                    == all[thread],
        decreases n - i,
    {
        let thread = keys[i].clone();
        proof {
            assert(order[i as int] == thread@);
            assert(order.to_set().contains(thread@));
            assert(order.take(i + 1) =~= order.take(i as int).push(thread@));
            assert forall|other: Seq<char>| #[trigger]
                order.take(i + 1).contains(other) == (order.take(i as int).contains(other) || other
                    == thread@) by {
                lists::lemma_push_holds(order.take(i as int), thread@, other);
            }
        }
        if !is_fenced(thread.as_str(), aborted, active) {
            match names.get(thread.as_str()) {
                Some(name) => {
                    let copy = name.clone();
                    kept.insert(thread, copy);
                },
                None => {},
            }
        }
        i += 1;
    }
    proof {
        let open = Set::new(
            |thread: Seq<char>| !fenced(thread, aborted.deep_view(), active.deep_view()),
        );
        assert(order.take(n as int) =~= order);
        assert forall|thread: Seq<char>|
            kept.deep_view().contains_key(thread) == all.restrict(open).contains_key(thread) by {
            assert(kept@.contains_key(thread) <==> order.contains(thread) && !fenced(
                thread,
                aborted.deep_view(),
                active.deep_view(),
            ));
            assert(order.to_set().contains(thread) == order.contains(thread));
        }
        assert(kept.deep_view() =~= all.restrict(open));
    }
    kept
}

/// Filter late snapshots without deleting a later invocation on the same stateful thread.
pub fn fence_snapshot(
    snapshot: &mut StoredRuntimeSnapshot,
    aborted: &Vec<ScopeMember>,
    active: &StringMap<String>,
)
    ensures
        final(snapshot)@ == fenced_snapshot(
            old(snapshot)@,
            aborted.deep_view(),
            active.deep_view(),
        ),
{
    snapshot.active_threads = fence_threads(&snapshot.active_threads, aborted, active);
    snapshot.drained_envelopes = fence_envelopes(&snapshot.drained_envelopes, aborted, active);
    snapshot.agent_drained_envelopes = fence_envelopes(
        &snapshot.agent_drained_envelopes,
        aborted,
        active,
    );
}

/// Remove everything that these invocations left in a snapshot, whatever works on their threads now.
pub fn remove_scope_messages(snapshot: &mut StoredRuntimeSnapshot, members: &Vec<ScopeMember>)
    ensures
        final(snapshot)@ == fenced_snapshot(old(snapshot)@, members.deep_view(), Map::empty()),
{
    let active: StringMap<String> = StringMap::new();
    assert(active.deep_view() =~= Map::<Seq<char>, Seq<char>>::empty());
    fence_snapshot(snapshot, members, &active);
}

/// What survives a fence survives it again.
proof fn lemma_survivors_survive(
    envelopes: Seq<EnvelopeView>,
    aborted: Seq<ScopeMemberView>,
    active: Map<Seq<char>, Seq<char>>,
)
    ensures
        surviving(surviving(envelopes, aborted, active), aborted, active) == surviving(
            envelopes,
            aborted,
            active,
        ),
    decreases envelopes.len(),
{
    if envelopes.len() > 0 {
        let before = surviving(envelopes.drop_last(), aborted, active);
        lemma_survivors_survive(envelopes.drop_last(), aborted, active);
        assert(before.push(envelopes.last()).drop_last() =~= before);
    }
}

/// Fencing a snapshot a second time changes nothing.
pub proof fn law_fencing_again_changes_nothing(
    snapshot: RuntimeSnapshotView,
    aborted: Seq<ScopeMemberView>,
    active: Map<Seq<char>, Seq<char>>,
)
    ensures
        fenced_snapshot(fenced_snapshot(snapshot, aborted, active), aborted, active)
            == fenced_snapshot(snapshot, aborted, active),
{
    let once = fenced_snapshot(snapshot, aborted, active);
    let twice = fenced_snapshot(once, aborted, active);
    assert forall|thread: Seq<char>| #[trigger]
        once.drained_envelopes.contains_key(thread) implies twice.drained_envelopes[thread]
        == once.drained_envelopes[thread] by {
        lemma_survivors_survive(snapshot.drained_envelopes[thread], aborted, active);
    }
    assert forall|thread: Seq<char>| #[trigger]
        once.agent_drained_envelopes.contains_key(
        thread,
    ) implies twice.agent_drained_envelopes[thread] == once.agent_drained_envelopes[thread] by {
        lemma_survivors_survive(snapshot.agent_drained_envelopes[thread], aborted, active);
    }
    assert(twice.drained_envelopes =~= once.drained_envelopes);
    assert(twice.agent_drained_envelopes =~= once.agent_drained_envelopes);
    assert(twice.active_threads =~= once.active_threads);
}

/// A later invocation on the same thread is not swept away: where the thread's active invocation was
/// not aborted, the thread stays recorded as unfinished, and a decision for it survives unless the
/// decision itself belongs to an aborted invocation.
pub proof fn law_a_fence_spares_later_invocations(
    snapshot: RuntimeSnapshotView,
    aborted: Seq<ScopeMemberView>,
    active: Map<Seq<char>, Seq<char>>,
    thread: Seq<char>,
    decision: EnvelopeView,
)
    requires
        active.contains_key(thread),
        forall|k: int|
            0 <= k < aborted.len() ==> !((#[trigger] aborted[k]).thread_id == thread
                && aborted[k].invocation_id == active[thread]),
        decision.body is Resume,
        decision.to.thread_id == thread,
    ensures
        snapshot.active_threads.contains_key(thread) ==> fenced_snapshot(
            snapshot,
            aborted,
            active,
        ).active_threads.contains_key(thread),
        survives(decision, aborted, active) == !of_aborted(decision, aborted),
{
    assert(!fenced(thread, aborted, active));
}

proof fn lemma_everything_survives(
    envelopes: Seq<EnvelopeView>,
    active: Map<Seq<char>, Seq<char>>,
)
    ensures
        surviving(envelopes, Seq::empty(), active) == envelopes,
    decreases envelopes.len(),
{
    if envelopes.len() > 0 {
        lemma_everything_survives(envelopes.drop_last(), active);
        assert(envelopes.drop_last().push(envelopes.last()) =~= envelopes);
    }
}

/// Where nothing was aborted, a fence removes nothing.
pub proof fn law_a_fence_without_aborts_removes_nothing(
    snapshot: RuntimeSnapshotView,
    active: Map<Seq<char>, Seq<char>>,
)
    ensures
        fenced_snapshot(snapshot, Seq::empty(), active) == snapshot,
{
    let after = fenced_snapshot(snapshot, Seq::empty(), active);
    assert forall|thread: Seq<char>| #[trigger]
        snapshot.drained_envelopes.contains_key(thread) implies after.drained_envelopes[thread]
        == snapshot.drained_envelopes[thread] by {
        lemma_everything_survives(snapshot.drained_envelopes[thread], active);
    }
    assert forall|thread: Seq<char>| #[trigger]
        snapshot.agent_drained_envelopes.contains_key(
        thread,
    ) implies after.agent_drained_envelopes[thread] == snapshot.agent_drained_envelopes[thread] by {
        lemma_everything_survives(snapshot.agent_drained_envelopes[thread], active);
    }
    assert(after.drained_envelopes =~= snapshot.drained_envelopes);
    assert(after.agent_drained_envelopes =~= snapshot.agent_drained_envelopes);
    assert(after.active_threads =~= snapshot.active_threads);
}

}
