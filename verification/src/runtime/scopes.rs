//! Who works on what right now, for whom, and what waits for approval.

use crate::agent::{
    AgentEvent, AgentEventView, Envelope, EnvelopeBody, EnvelopeBodyView, EnvelopeView,
    PendingApproval, PendingApprovalView, Receiver, ReceiverView, ResumeDecision,
    ResumeDecisionView, Sender, SenderView, ThreadId, ToolCallResolutionView,
};
use crate::execution::{
    CompletionTarget, CompletionTargetView, ProcessGroupId, ProcessGroupIdView, StoredExecution,
    StoredExecutionView,
};
use crate::ids::{self, MessageId, TurnId};
use crate::lists;
use crate::llm::{ToolCall, ToolCallView};
use crate::runtime::agent_loop;
use crate::runtime::error::SendCommandError;
use crate::string_map::StringMap;
use crate::task::{ScopeMember, ScopeMemberView, TaskId};
use crate::text;
use vstd::prelude::*;

verus! {

/// An invocation that is under way.
#[derive(Debug, PartialEq, Eq)]
pub struct LiveExecution {
    pub stored: StoredExecution,
    /// Whether it was asked to stop.
    pub cancelled: bool,
}

/// The content of a [`LiveExecution`].
#[verifier::ext_equal]
pub struct LiveExecutionView {
    pub stored: StoredExecutionView,
    pub cancelled: bool,
}

impl View for LiveExecution {
    type V = LiveExecutionView;

    open spec fn view(&self) -> LiveExecutionView {
        LiveExecutionView {
            stored: self.stored@,
            cancelled: self.cancelled,
        }
    }
}

impl DeepView for LiveExecution {
    type V = LiveExecutionView;

    open spec fn deep_view(&self) -> LiveExecutionView {
        self@
    }
}

impl Clone for LiveExecution {
    fn clone(&self) -> (res: Self)
        ensures
            res@ == self@,
    {
        LiveExecution {
            stored: self.stored.clone(),
            cancelled: self.cancelled,
        }
    }
}

/// The invocations that work on one background task.
#[derive(Debug, PartialEq, Eq)]
pub struct BackgroundScope {
    pub members: Vec<ScopeMember>,
    /// Whether somebody is already stopping it.
    pub stopping: bool,
    /// Whether it takes in no more work.
    pub closed: bool,
    /// Why it is stopped, where that is not the user's doing.
    pub reason: Option<String>,
}

/// The content of a [`BackgroundScope`].
#[verifier::ext_equal]
pub struct BackgroundScopeView {
    pub members: Seq<ScopeMemberView>,
    pub stopping: bool,
    pub closed: bool,
    pub reason: Option<Seq<char>>,
}

impl View for BackgroundScope {
    type V = BackgroundScopeView;

    open spec fn view(&self) -> BackgroundScopeView {
        BackgroundScopeView {
            members: self.members.deep_view(),
            stopping: self.stopping,
            closed: self.closed,
            reason: self.reason.deep_view(),
        }
    }
}

impl DeepView for BackgroundScope {
    type V = BackgroundScopeView;

    open spec fn deep_view(&self) -> BackgroundScopeView {
        self@
    }
}

impl Clone for BackgroundScope {
    fn clone(&self) -> (res: Self)
        ensures
            res@ == self@,
    {
        let members = self.members.clone();
        assert(members.deep_view() =~= self.members.deep_view());
        BackgroundScope {
            members,
            stopping: self.stopping,
            closed: self.closed,
            reason: self.reason.clone(),
        }
    }
}

/// Everything that is under way in a session.
#[derive(Debug)]
pub struct Executions {
    /// The invocation that works on each thread.
    pub threads: StringMap<LiveExecution>,
    /// The background work, by task.
    pub background: StringMap<BackgroundScope>,
    /// What waits for approval, at most one entry for each batch of a thread.
    pub approvals: Vec<PendingApproval>,
    /// Threads that take in no work until their aborted invocation is cleaned up.
    pub quarantined: Vec<String>,
}

/// The content of [`Executions`].
#[verifier::ext_equal]
pub struct ExecutionsView {
    pub threads: Map<Seq<char>, LiveExecutionView>,
    pub background: Map<Seq<char>, BackgroundScopeView>,
    pub approvals: Seq<PendingApprovalView>,
    pub quarantined: Set<Seq<char>>,
}

impl View for Executions {
    type V = ExecutionsView;

    open spec fn view(&self) -> ExecutionsView {
        ExecutionsView {
            threads: self.threads.deep_view(),
            background: self.background.deep_view(),
            approvals: self.approvals.deep_view(),
            quarantined: self.quarantined.deep_view().to_set(),
        }
    }
}

/// Whether an approval is for this batch of this thread.
pub open spec fn for_batch(thread: Seq<char>, parent: MessageId) -> spec_fn(
    PendingApprovalView,
) -> bool {
    |approval: PendingApprovalView|
        approval.thread_id == thread && approval.parent_message_id == parent
}

/// Whether an approval is for this thread.
pub open spec fn on_thread(thread: Seq<char>) -> spec_fn(PendingApprovalView) -> bool {
    |approval: PendingApprovalView| approval.thread_id == thread
}

/// Whether a member of a scope works on a thread.
pub open spec fn works_on(members: Seq<ScopeMemberView>, thread: Seq<char>) -> bool {
    exists|k: int| 0 <= k < members.len() && (#[trigger] members[k]).thread_id == thread
}

/// Whether an approval is for a thread that one of these members works on.
pub open spec fn on_member(members: Seq<ScopeMemberView>) -> spec_fn(PendingApprovalView) -> bool {
    |approval: PendingApprovalView| works_on(members, approval.thread_id)
}

/// The approvals that are not meant.
pub open spec fn others(which: spec_fn(PendingApprovalView) -> bool) -> spec_fn(
    PendingApprovalView,
) -> bool {
    |approval: PendingApprovalView| !which(approval)
}

impl ExecutionsView {
    /// Nothing is under way.
    pub open spec fn idle() -> Self {
        ExecutionsView {
            threads: Map::empty(),
            background: Map::empty(),
            approvals: Seq::empty(),
            quarantined: Set::empty(),
        }
    }

    /// No batch of a thread waits twice.
    pub open spec fn well_formed(self) -> bool {
        forall|i: int, j: int|
            0 <= i < j < self.approvals.len() ==> !(for_batch(
                (#[trigger] self.approvals[i]).thread_id,
                self.approvals[i].parent_message_id,
            )(#[trigger] self.approvals[j]))
    }

    /// The invocation that works on a thread.
    pub open spec fn execution(self, thread: Seq<char>) -> Option<StoredExecutionView> {
        if self.threads.contains_key(thread) {
            Some(self.threads[thread].stored)
        } else {
            None
        }
    }

    /// The background task that a thread works on.
    pub open spec fn task_of(self, thread: Seq<char>) -> Option<Seq<char>> {
        match self.execution(thread) {
            Some(execution) => execution.background_task(),
            None => None,
        }
    }

    /// Whether the invocation on a thread was asked to stop.
    pub open spec fn stopped(self, thread: Seq<char>) -> bool {
        self.threads.contains_key(thread) && self.threads[thread].cancelled
    }

    /// Whether a background task takes in no more work.
    pub open spec fn scope_closed(self, task: Seq<char>) -> bool {
        self.background.contains_key(task) && self.background[task].closed
    }

    /// What waits for approval once `approval` does too. A batch that already waits is asked for anew.
    pub open spec fn with_approval(self, approval: PendingApprovalView) -> Self {
        ExecutionsView {
            approvals: self.approvals.filter(
                others(for_batch(approval.thread_id, approval.parent_message_id)),
            ).push(approval),
            ..self
        }
    }

    /// What is under way without these approvals.
    pub open spec fn without(self, which: spec_fn(PendingApprovalView) -> bool) -> Self {
        ExecutionsView { approvals: self.approvals.filter(others(which)), ..self }
    }
}

/// Which approvals are meant.
enum Meant<'a> {
    Batch(&'a str, MessageId),
    Thread(&'a str),
    Members(&'a Vec<ScopeMember>),
}

impl<'a> Meant<'a> {
    spec fn which(self) -> spec_fn(PendingApprovalView) -> bool {
        match self {
            Meant::Batch(thread, parent) => for_batch(thread@, parent),
            Meant::Thread(thread) => on_thread(thread@),
            Meant::Members(members) => on_member(members.deep_view()),
        }
    }

    fn means(&self, approval: &PendingApproval) -> (res: bool)
        ensures
            res == (self.which())(approval@),
    {
        match self {
            Meant::Batch(thread, parent) => text::same_text(approval.thread_id.as_str(), thread)
                && approval.parent_message_id == *parent,
            Meant::Thread(thread) => text::same_text(approval.thread_id.as_str(), thread),
            Meant::Members(members) => is_member_thread(members, approval.thread_id.as_str()),
        }
    }
}

/// Whether a member of a scope works on a thread.
pub(crate) fn is_member_thread(members: &Vec<ScopeMember>, thread: &str) -> (res: bool)
    ensures
        res == works_on(members.deep_view(), thread@),
{
    let ghost all = members.deep_view();
    let n: usize = members.len();
    let mut i: usize = 0;
    while i < n
        invariant
            i <= n,
            n == members@.len(),
            all == members.deep_view(),
            forall|k: int| 0 <= k < i ==> (#[trigger] all[k]).thread_id != thread@,
        decreases n - i,
    {
        assert(all[i as int] == members@[i as int]@);
        if text::same_text(members[i].thread_id.as_str(), thread) {
            assert(all[i as int].thread_id == thread@);
            return true;
        }
        i += 1;
    }
    false
}

/// Filtering keeps approvals for different batches apart.
proof fn lemma_filter_keeps_apart(
    approvals: Seq<PendingApprovalView>,
    keep: spec_fn(PendingApprovalView) -> bool,
)
    requires
        (ExecutionsView { approvals, ..ExecutionsView::idle() }).well_formed(),
    ensures
        (ExecutionsView { approvals: approvals.filter(keep), ..ExecutionsView::idle() }).well_formed(),
        forall|j: int|
            0 <= j < approvals.filter(keep).len() ==> approvals.contains(
                #[trigger] approvals.filter(keep)[j],
            ),
    decreases approvals.len(),
{
    reveal(Seq::filter);
    let kept = approvals.filter(keep);
    assert forall|j: int| 0 <= j < kept.len() implies approvals.contains(#[trigger] kept[j]) by {
        assert(kept.contains(kept[j]));
        approvals.lemma_filter_contains_rev(keep, kept[j]);
    }
    if approvals.len() > 0 {
        let fewer = approvals.drop_last();
        assert forall|i: int, j: int| 0 <= i < j < fewer.len() implies !(for_batch(
            (#[trigger] fewer[i]).thread_id,
            fewer[i].parent_message_id,
        )(#[trigger] fewer[j])) by {
            assert(fewer[i] == approvals[i] && fewer[j] == approvals[j]);
        }
        lemma_filter_keeps_apart(fewer, keep);
        let before = fewer.filter(keep);
        assert forall|i: int, j: int| 0 <= i < j < kept.len() implies !(for_batch(
            (#[trigger] kept[i]).thread_id,
            kept[i].parent_message_id,
        )(#[trigger] kept[j])) by {
            if j < before.len() {
                assert(kept[i] == before[i] && kept[j] == before[j]);
            } else {
                assert(kept[i] == before[i]);
                assert(fewer.contains(before[i]));
                let a = fewer.index_of(before[i]);
                assert(approvals[a] == kept[i]);
                assert(approvals[approvals.len() - 1] == kept[j]);
            }
        }
    }
}

impl Executions {
    /// Nothing is under way.
    pub fn new() -> (res: Self)
        ensures
            res@ == ExecutionsView::idle(),
            res@.well_formed(),
    {
        let res = Executions {
            threads: StringMap::new(),
            background: StringMap::new(),
            approvals: Vec::new(),
            quarantined: Vec::new(),
        };
        assert(res@ =~= ExecutionsView::idle());
        res
    }

    /// The invocation that works on a thread.
    pub fn execution(&self, thread: &ThreadId) -> (res: Option<&StoredExecution>)
        ensures
            res.deep_view() == self@.execution(thread@),
    {
        match self.threads.get(thread.as_str()) {
            Some(live) => {
                assert(self@.threads[thread@] == live@);
                Some(&live.stored)
            },
            None => None,
        }
    }

    /// The background task that a thread works on.
    pub fn task_of(&self, thread: &ThreadId) -> (res: Option<TaskId>)
        ensures
            res.deep_view() == self@.task_of(thread@),
    {
        match self.execution(thread) {
            Some(execution) => match execution.background_task() {
                Some(task) => Some(task.clone()),
                None => None,
            },
            None => None,
        }
    }

    /// Whether the invocation on a thread was asked to stop.
    pub fn execution_stopped(&self, thread: &ThreadId) -> (res: bool)
        ensures
            res == self@.stopped(thread@),
    {
        match self.threads.get(thread.as_str()) {
            Some(live) => {
                assert(self@.threads[thread@] == live@);
                live.cancelled
            },
            None => false,
        }
    }

    /// Whether a background task takes in no more work.
    pub fn is_scope_closed(&self, task: &TaskId) -> (res: bool)
        ensures
            res == self@.scope_closed(task@),
    {
        match self.background.get(task.id.as_str()) {
            Some(scope) => {
                assert(self@.background[task@] == scope@);
                scope.closed
            },
            None => false,
        }
    }

    /// Whether anything waits for approval on behalf of a background task.
    pub fn awaits_approval(&self, task: &TaskId) -> (res: bool)
        ensures
            res == exists|i: int|
                0 <= i < self@.approvals.len() && (#[trigger] self@.approvals[i]).task_id == Some(
                    task@,
                ),
    {
        let n: usize = self.approvals.len();
        let mut i: usize = 0;
        while i < n
            invariant
                i <= n,
                n == self.approvals@.len(),
                forall|k: int|
                    0 <= k < i ==> (#[trigger] self@.approvals[k]).task_id != Some(task@),
            decreases n - i,
        {
            assert(self@.approvals[i as int] == self.approvals@[i as int]@);
            match &self.approvals[i].task_id {
                Some(asking) => if text::same_text(asking.id.as_str(), task.id.as_str()) {
                    return true;
                },
                None => {},
            }
            i += 1;
        }
        false
    }

    /// Take away the approvals that are meant, oldest first.
    fn take_approvals(&mut self, meant: &Meant) -> (res: Vec<PendingApproval>)
        requires
            old(self)@.well_formed(),
        ensures
            final(self)@ == old(self)@.without(meant.which()),
            final(self)@.well_formed(),
            res.deep_view() == old(self)@.approvals.filter(meant.which()),
    {
        let ghost before = self@;
        let ghost all = self.approvals.deep_view();
        let ghost which = meant.which();
        let mut kept: Vec<PendingApproval> = Vec::new();
        let mut taken: Vec<PendingApproval> = Vec::new();
        let n: usize = self.approvals.len();
        let mut i: usize = 0;
        proof {
            reveal(Seq::filter);
            assert(kept.deep_view() =~= all.take(0).filter(others(which)));
            assert(taken.deep_view() =~= all.take(0).filter(which));
        }
        while i < n
            invariant
                i <= n,
                n == self.approvals@.len(),
                self@ == before,
                all == self.approvals.deep_view(),
                which == meant.which(),
                kept.deep_view() == all.take(i as int).filter(others(which)),
                taken.deep_view() == all.take(i as int).filter(which),
            decreases n - i,
        {
            let approval = self.approvals[i].clone();
            let ghost kept_before = kept.deep_view();
            let ghost taken_before = taken.deep_view();
            proof {
                reveal(Seq::filter);
                assert(all.take(i + 1).drop_last() =~= all.take(i as int));
                assert(all.take(i + 1).last() == approval@);
            }
            if meant.means(&approval) {
                taken.push(approval);
                assert(taken.deep_view() =~= taken_before.push(approval@));
            } else {
                kept.push(approval);
                assert(kept.deep_view() =~= kept_before.push(approval@));
            }
            i += 1;
        }
        assert(all.take(n as int) =~= all);
        self.approvals = kept;
        proof {
            lemma_filter_keeps_apart(all, others(which));
            assert(self@ =~= before.without(which));
            assert(self@.well_formed());
        }
        taken
    }

    /// Take away what waits for approval on the threads of these members, oldest first.
    pub(crate) fn take_member_approvals(&mut self, members: &Vec<ScopeMember>) -> (res: Vec<
        PendingApproval,
    >)
        requires
            old(self)@.well_formed(),
        ensures
            final(self)@ == old(self)@.without(on_member(members.deep_view())),
            final(self)@.well_formed(),
            res.deep_view() == old(self)@.approvals.filter(on_member(members.deep_view())),
    {
        self.take_approvals(&Meant::Members(members))
    }

    /// Remember what waits for approval.
    pub fn insert_approval(&mut self, approval: PendingApproval)
        requires
            old(self)@.well_formed(),
        ensures
            final(self)@ == old(self)@.with_approval(approval@),
            final(self)@.well_formed(),
    {
        let thread = approval.thread_id.clone();
        let parent = approval.parent_message_id;
        let ghost before = self@;
        let ghost batch = for_batch(thread@, parent);
        self.take_approvals(&Meant::Batch(thread.as_str(), parent));
        let ghost kept = self.approvals.deep_view();
        self.approvals.push(approval);
        proof {
            assert(self.approvals.deep_view() =~= kept.push(approval@));
            assert(self@ =~= before.with_approval(approval@));
            assert forall|i: int, j: int| 0 <= i < j < self@.approvals.len() implies !(for_batch(
                (#[trigger] self@.approvals[i]).thread_id,
                self@.approvals[i].parent_message_id,
            )(#[trigger] self@.approvals[j])) by {
                if j == kept.len() {
                    before.approvals.lemma_filter_pred(others(batch), i);
                    assert(!batch(kept[i]));
                } else {
                    assert(self@.approvals[i] == kept[i] && self@.approvals[j] == kept[j]);
                }
            }
        }
    }
}

/// The event that says an approval is no longer asked for.
pub open spec fn removal(approval: PendingApprovalView) -> AgentEventView {
    AgentEventView::ApprovalRemoved {
        thread_id: approval.thread_id,
        parent_message_id: approval.parent_message_id,
        task_id: approval.task_id,
    }
}

/// The events that say these approvals are no longer asked for.
pub open spec fn removals(approvals: Seq<PendingApprovalView>) -> Seq<AgentEventView> {
    approvals.map_values(|approval: PendingApprovalView| removal(approval))
}

/// The event that says an approval is no longer asked for.
pub fn removal_event(approval: &PendingApproval) -> (res: AgentEvent)
    ensures
        res@ == removal(approval@),
{
    AgentEvent::ApprovalRemoved {
        thread_id: approval.thread_id.clone(),
        parent_message_id: approval.parent_message_id,
        task_id: approval.task_id.clone(),
    }
}

/// Whether a thread waits for nothing any more after an event: it was aborted, it failed, or it
/// answered without asking for tools.
pub open spec fn ends_waiting(event: AgentEventView) -> bool {
    match event {
        AgentEventView::Aborted(_) => true,
        AgentEventView::Error(_) => true,
        AgentEventView::LLMEnd(answer) => answer.tool_calls.len() == 0,
        _ => false,
    }
}

impl ExecutionsView {
    /// Whether an event is not even noted: a thread asks for approval on behalf of a background task
    /// that takes in no more work.
    pub open spec fn suppresses(self, thread: Seq<char>, event: AgentEventView) -> bool {
        event is Suspended && match self.task_of(thread) {
            Some(task) => self.scope_closed(task),
            None => false,
        }
    }

    /// What is under way once an event of a thread was published.
    pub open spec fn after_event(self, thread: Seq<char>, event: AgentEventView) -> Self {
        if self.suppresses(thread, event) {
            self
        } else if ends_waiting(event) {
            self.without(on_thread(thread))
        } else {
            match event {
                AgentEventView::Suspended(approval) => self.with_approval(approval),
                _ => self,
            }
        }
    }

    /// How an event of a thread appears to those who listen. Background work is not followed event by
    /// event: only what it asks for and what it could not save.
    pub open spec fn shown(self, thread: Seq<char>, event: AgentEventView) -> Seq<AgentEventView> {
        match self.task_of(thread) {
            None => seq![event],
            Some(task_id) => match event {
                AgentEventView::Suspended(_) => seq![event],
                AgentEventView::ApprovalRemoved { .. } => seq![event],
                AgentEventView::BackgroundError { .. } => seq![event],
                AgentEventView::PersistFailed(message) => seq![
                    AgentEventView::BackgroundError { task_id, message },
                ],
                _ => Seq::empty(),
            },
        }
    }

    /// What is published for an event of a thread: first what is no longer asked for, then the event.
    pub open spec fn published(self, thread: Seq<char>, event: AgentEventView) -> Seq<
        AgentEventView,
    > {
        if self.suppresses(thread, event) {
            Seq::empty()
        } else if ends_waiting(event) {
            removals(self.approvals.filter(on_thread(thread))) + self.shown(thread, event)
        } else {
            self.shown(thread, event)
        }
    }

    /// The background task whose status changes with an event of a thread.
    pub open spec fn refreshed(self, thread: Seq<char>, event: AgentEventView) -> Option<Seq<char>> {
        if event is Suspended && !self.suppresses(thread, event) {
            self.task_of(thread)
        } else {
            None
        }
    }
}

/// What publishing an event comes to.
#[derive(Debug)]
pub struct Emission {
    /// The events to publish, in order.
    pub events: Vec<AgentEvent>,
    /// The background task whose status has to be looked at again.
    pub refresh: Option<TaskId>,
}

/// How an event appears to those who listen.
fn show_event(task: &Option<TaskId>, event: AgentEvent) -> (res: Option<AgentEvent>)
    ensures
        res.deep_view() == (match task.deep_view() {
            None => Some(event@),
            Some(task_id) => match event@ {
                AgentEventView::Suspended(_) => Some(event@),
                AgentEventView::ApprovalRemoved { .. } => Some(event@),
                AgentEventView::BackgroundError { .. } => Some(event@),
                AgentEventView::PersistFailed(message) => Some(
                    AgentEventView::BackgroundError { task_id, message },
                ),
                _ => None,
            },
        }),
{
    match task {
        None => Some(event),
        Some(task_id) => match event {
            AgentEvent::Suspended(approval) => Some(AgentEvent::Suspended(approval)),
            AgentEvent::ApprovalRemoved { thread_id, parent_message_id, task_id } => Some(
                AgentEvent::ApprovalRemoved { thread_id, parent_message_id, task_id },
            ),
            AgentEvent::BackgroundError { task_id, message } => Some(
                AgentEvent::BackgroundError { task_id, message },
            ),
            AgentEvent::PersistFailed(message) => Some(
                AgentEvent::BackgroundError { task_id: task_id.clone(), message },
            ),
            _ => None,
        },
    }
}

impl Executions {
    /// Publish an event of a thread: note what now waits for approval or no longer does, and settle
    /// what those who listen are told.
    pub fn emit_event(&mut self, thread_id: &ThreadId, event: AgentEvent) -> (res: Emission)
        requires
            old(self)@.well_formed(),
        ensures
            final(self)@ == old(self)@.after_event(thread_id@, event@),
            final(self)@.well_formed(),
            res.events.deep_view() == old(self)@.published(thread_id@, event@),
            res.refresh.deep_view() == old(self)@.refreshed(thread_id@, event@),
    {
        let ghost before = self@;
        let ghost told = event@;
        let task = self.task_of(thread_id);
        let mut events: Vec<AgentEvent> = Vec::new();
        let mut refresh: Option<TaskId> = None;
        assert(events.deep_view() =~= Seq::empty());
        match &event {
            AgentEvent::Suspended(approval) => {
                let closed = match &task {
                    Some(task) => self.is_scope_closed(task),
                    None => false,
                };
                if closed {
                    return Emission { events, refresh };
                }
                self.insert_approval(approval.clone());
                refresh = task.clone();
            },
            _ => {},
        }
        let ends = match &event {
            AgentEvent::Aborted(_) => true,
            AgentEvent::Error(_) => true,
            AgentEvent::LLMEnd(answer) => answer.tool_calls.len() == 0,
            _ => false,
        };
        if ends {
            let removed = self.take_approvals(&Meant::Thread(thread_id.as_str()));
            let ghost all = removed.deep_view();
            let ghost told_of = |approval: PendingApprovalView| removal(approval);
            let n: usize = removed.len();
            let mut i: usize = 0;
            assert(events.deep_view() =~= all.take(0).map_values(told_of));
            while i < n
                invariant
                    i <= n,
                    n == removed@.len(),
                    all == removed.deep_view(),
                    told_of == (|approval: PendingApprovalView| removal(approval)),
                    events.deep_view() == all.take(i as int).map_values(told_of),
                decreases n - i,
            {
                let ghost listed = events.deep_view();
                let event = removal_event(&removed[i]);
                events.push(event);
                proof {
                    assert(events.deep_view() =~= listed.push(event@));
                    assert(all.take(i + 1).map_values(told_of) =~= all.take(i as int).map_values(
                        told_of,
                    ).push(event@));
                }
                i += 1;
            }
            assert(all.take(n as int) =~= all);
        }
        let ghost first = events.deep_view();
        match show_event(&task, event) {
            Some(event) => {
                events.push(event);
                assert(events.deep_view() =~= first.push(event@));
            },
            None => {},
        }
        assert(events.deep_view() =~= first + before.shown(thread_id@, told));
        assert(events.deep_view() =~= before.published(thread_id@, told));
        Emission { events, refresh }
    }
}

/// Once a thread was aborted, failed or answered, nothing of it waits for approval, and nothing else
/// stopped waiting.
pub proof fn law_an_ended_thread_waits_for_nothing(
    executions: ExecutionsView,
    thread: Seq<char>,
    event: AgentEventView,
    approval: PendingApprovalView,
)
    requires
        ends_waiting(event),
    ensures
        executions.after_event(thread, event).approvals.contains(approval) <==> (
        executions.approvals.contains(approval) && approval.thread_id != thread),
{
    let keep = others(on_thread(thread));
    let all = executions.approvals;
    if all.contains(approval) && approval.thread_id != thread {
        all.lemma_filter_contains(keep, all.index_of(approval));
    }
    if all.filter(keep).contains(approval) {
        let i = all.filter(keep).index_of(approval);
        all.lemma_filter_pred(keep, i);
        all.lemma_filter_contains_rev(keep, approval);
    }
}

/// Background work is not followed event by event: those who listen hear of it only that it asks for
/// approval, that it no longer does, and that it could not be saved.
pub proof fn law_background_work_is_quiet(
    executions: ExecutionsView,
    thread: Seq<char>,
    event: AgentEventView,
    i: int,
)
    requires
        executions.task_of(thread) is Some,
        0 <= i < executions.published(thread, event).len(),
    ensures
        ({
            let told = executions.published(thread, event)[i];
            told is Suspended || told is ApprovalRemoved || told is BackgroundError
        }),
{
}

/// The batch of a thread that waits for approval.
pub open spec fn waiting_batch(
    approvals: Seq<PendingApprovalView>,
    thread: Seq<char>,
    parent: MessageId,
) -> Option<PendingApprovalView> {
    let found = approvals.filter(for_batch(thread, parent));
    if found.len() > 0 {
        Some(found[0])
    } else {
        None
    }
}

/// The first of several that a filter lets through is the first it lets through.
proof fn lemma_first_match(
    approvals: Seq<PendingApprovalView>,
    which: spec_fn(PendingApprovalView) -> bool,
    i: int,
)
    requires
        0 <= i < approvals.len(),
        which(approvals[i]),
        forall|j: int| 0 <= j < i ==> !which(#[trigger] approvals[j]),
    ensures
        approvals.filter(which).len() > 0,
        approvals.filter(which)[0] == approvals[i],
    decreases approvals.len(),
{
    reveal(Seq::filter);
    let fewer = approvals.drop_last();
    if i < fewer.len() {
        assert forall|j: int| 0 <= j < i implies !which(#[trigger] fewer[j]) by {
            assert(fewer[j] == approvals[j]);
        }
        lemma_first_match(fewer, which, i);
    } else {
        assert forall|j: int| 0 <= j < fewer.len() implies !which(#[trigger] fewer[j]) by {
            assert(fewer[j] == approvals[j]);
        }
        assert(fewer.all(|approval: PendingApprovalView| !which(approval)));
        fewer.lemma_all_neg_filter_empty(which);
    }
}

/// Whether a decision answers these calls: no call twice, and only calls that are asked about.
pub open spec fn answers(
    calls: Seq<ToolCallView>,
    resolutions: Seq<(Seq<char>, ToolCallResolutionView)>,
) -> bool {
    &&& forall|i: int, j: int|
        0 <= i < j < resolutions.len() ==> (#[trigger] resolutions[i]).0 != (
        #[trigger] resolutions[j]).0
    &&& forall|i: int|
        0 <= i < resolutions.len() ==> asks_about(calls, (#[trigger] resolutions[i]).0)
}

/// Whether one of these calls has this id.
pub open spec fn asks_about(calls: Seq<ToolCallView>, id: Seq<char>) -> bool {
    exists|k: int| 0 <= k < calls.len() && (#[trigger] calls[k]).id == id
}

/// Whether one of these calls has this id.
fn is_asked_about(calls: &Vec<ToolCall>, id: &str) -> (res: bool)
    ensures
        res == asks_about(calls.deep_view(), id@),
{
    let ghost all = calls.deep_view();
    let n: usize = calls.len();
    let mut i: usize = 0;
    while i < n
        invariant
            i <= n,
            n == calls@.len(),
            all == calls.deep_view(),
            forall|k: int| 0 <= k < i ==> (#[trigger] all[k]).id != id@,
        decreases n - i,
    {
        assert(all[i as int] == calls@[i as int]@);
        if text::same_text(calls[i].id.as_str(), id) {
            assert(all[i as int].id == id@);
            return true;
        }
        i += 1;
    }
    false
}

/// Whether a decision answers these calls.
fn does_answer(calls: &Vec<ToolCall>, decision: &ResumeDecision) -> (res: bool)
    ensures
        res == answers(calls.deep_view(), decision@.resolutions),
{
    let ghost all = decision@.resolutions;
    let mut seen: Vec<String> = Vec::new();
    let n: usize = decision.resolutions.len();
    let mut i: usize = 0;
    while i < n
        invariant
            i <= n,
            n == decision.resolutions@.len(),
            all == decision.resolutions.deep_view(),
            seen@.len() == i,
            forall|k: int| 0 <= k < i ==> #[trigger] seen.deep_view()[k] == all[k].0,
            forall|a: int, b: int|
                0 <= a < b < i ==> (#[trigger] all[a]).0 != (#[trigger] all[b]).0,
            forall|k: int|
                0 <= k < i ==> asks_about(calls.deep_view(), (#[trigger] all[k]).0),
        decreases n - i,
    {
        let id = &decision.resolutions[i].0;
        let ghost before = seen.deep_view();
        assert(all[i as int].0 == id@);
        if text::holds_text(&seen, id.as_str()) {
            proof {
                let k = before.index_of(id@);
                assert(seen.deep_view()[k] == all[k].0);
                assert(all[k].0 == all[i as int].0);
            }
            return false;
        }
        if !is_asked_about(calls, id.as_str()) {
            return false;
        }
        proof {
            assert forall|a: int| 0 <= a < i implies (#[trigger] all[a]).0 != id@ by {
                assert(seen.deep_view()[a] == all[a].0);
            }
        }
        seen.push(id.clone());
        assert(seen.deep_view() =~= before.push(id@));
        i += 1;
    }
    true
}

impl ExecutionsView {
    /// Why a decision is refused. It has to be for a batch that waits, of the agent that asked, and to
    /// answer only calls that are asked about, each once.
    pub open spec fn decision_fault(self, to: ReceiverView, decision: ResumeDecisionView) -> Option<
        SendCommandError,
    > {
        match waiting_batch(self.approvals, to.thread_id, decision.parent_message_id) {
            None => Some(SendCommandError::StaleApproval),
            Some(approval) => if approval.agent_name != to.name || !answers(
                approval.calls,
                decision.resolutions,
            ) {
                Some(SendCommandError::StaleApproval)
            } else if self.stopped(to.thread_id) {
                Some(SendCommandError::ScopeClosed)
            } else {
                None
            },
        }
    }
}

impl Executions {
    /// The batch of a thread that waits for approval.
    fn find_approval(&self, thread: &ThreadId, parent: MessageId) -> (res: Option<&PendingApproval>)
        ensures
            res.deep_view() == waiting_batch(self@.approvals, thread@, parent),
    {
        let ghost all = self.approvals.deep_view();
        let ghost batch = for_batch(thread@, parent);
        let n: usize = self.approvals.len();
        let mut i: usize = 0;
        while i < n
            invariant
                i <= n,
                n == self.approvals@.len(),
                all == self.approvals.deep_view(),
                batch == for_batch(thread@, parent),
                forall|k: int| 0 <= k < i ==> !batch(#[trigger] all[k]),
            decreases n - i,
        {
            let approval = &self.approvals[i];
            assert(all[i as int] == approval@);
            if Meant::Batch(thread.as_str(), parent).means(approval) {
                proof {
                    lemma_first_match(all, batch, i as int);
                }
                return Some(approval);
            }
            i += 1;
        }
        proof {
            assert(all.all(|approval: PendingApprovalView| !batch(approval)));
            all.lemma_all_neg_filter_empty(batch);
        }
        None
    }

    /// Take in a decision: the batch it answers no longer waits.
    pub fn admit_decision(&mut self, to: &Receiver, decision: &ResumeDecision) -> (res: Result<
        PendingApproval,
        SendCommandError,
    >)
        requires
            old(self)@.well_formed(),
        ensures
            final(self)@.well_formed(),
            match old(self)@.decision_fault(to@, decision@) {
                Some(fault) => res == Err::<PendingApproval, SendCommandError>(fault)
                    && final(self)@ == old(self)@,
                None => {
                    &&& res matches Ok(approval) && Some(approval@) == waiting_batch(
                        old(self)@.approvals,
                        to@.thread_id,
                        decision@.parent_message_id,
                    )
                    &&& final(self)@ == old(self)@.without(
                        for_batch(to@.thread_id, decision@.parent_message_id),
                    )
                },
            },
    {
        let approval = match self.find_approval(&to.thread_id, decision.parent_message_id) {
            None => {
                return Err(SendCommandError::StaleApproval);
            },
            Some(approval) => approval.clone(),
        };
        if !text::same_text(approval.agent_name.as_str(), to.name.as_str()) || !does_answer(
            &approval.calls,
            decision,
        ) {
            return Err(SendCommandError::StaleApproval);
        }
        if self.execution_stopped(&to.thread_id) {
            return Err(SendCommandError::ScopeClosed);
        }
        self.take_approvals(&Meant::Batch(to.thread_id.as_str(), decision.parent_message_id));
        Ok(approval)
    }
}

/// A decision is taken once: the same decision a second time is stale.
pub proof fn law_a_decision_is_taken_once(
    executions: ExecutionsView,
    to: ReceiverView,
    decision: ResumeDecisionView,
)
    requires
        executions.decision_fault(to, decision) is None,
    ensures
        executions.without(for_batch(to.thread_id, decision.parent_message_id)).decision_fault(
            to,
            decision,
        ) == Some(SendCommandError::StaleApproval),
{
    let batch = for_batch(to.thread_id, decision.parent_message_id);
    let left = executions.approvals.filter(others(batch));
    assert forall|i: int| 0 <= i < left.len() implies !batch(#[trigger] left[i]) by {
        executions.approvals.lemma_filter_pred(others(batch), i);
    }
    assert(left.all(|approval: PendingApprovalView| !batch(approval)));
    left.lemma_all_neg_filter_empty(batch);
}

impl ExecutionsView {
    /// The invocation that the sender of an envelope is.
    pub open spec fn caller(self, envelope: EnvelopeView) -> Option<StoredExecutionView> {
        match envelope.from {
            SenderView::Agent { thread_id, .. } => self.execution(thread_id),
            SenderView::User => None,
        }
    }

    /// The invocation that an envelope opens on the thread it is addressed to. A call works within what
    /// its caller works on.
    pub open spec fn opened_by(self, envelope: EnvelopeView) -> Option<StoredExecutionView> {
        match envelope.body {
            EnvelopeBodyView::Task { message_id, .. } => Some(
                StoredExecutionView {
                    invocation_id: envelope.id,
                    scope: ProcessGroupIdView::Foreground {
                        turn_id: ids::turn_opened_by(message_id),
                    },
                    completion: CompletionTargetView::RootTurn,
                    agent_path: seq![envelope.to.name],
                },
            ),
            EnvelopeBodyView::ToolCall { turn_id, .. } => Some(
                StoredExecutionView {
                    invocation_id: envelope.id,
                    scope: match self.caller(envelope) {
                        Some(caller) => caller.scope,
                        None => ProcessGroupIdView::Foreground { turn_id },
                    },
                    completion: match agent_loop::reply_target_of(envelope) {
                        Some(target) => CompletionTargetView::Caller(target),
                        None => CompletionTargetView::RootTurn,
                    },
                    agent_path: match self.caller(envelope) {
                        Some(caller) => caller.agent_path.push(envelope.to.name),
                        None => seq![envelope.to.name],
                    },
                },
            ),
            _ => None,
        }
    }

    /// Why the work that an envelope opens is refused: a user's task waits for pending approvals, a
    /// thread whose aborted invocation is not cleaned up takes in nothing, and neither does a background
    /// task that is being stopped.
    pub open spec fn work_fault(self, envelope: EnvelopeView) -> Option<SendCommandError> {
        match self.opened_by(envelope) {
            None => None,
            Some(execution) => if envelope.body is Task && self.approvals.len() > 0 {
                Some(SendCommandError::PendingApprovals)
            } else if self.quarantined.contains(envelope.to.thread_id) {
                Some(SendCommandError::AwaitingCleanup)
            } else {
                match execution.background_task() {
                    Some(task) => if self.scope_closed(task) {
                        Some(SendCommandError::ScopeClosed)
                    } else {
                        None
                    },
                    None => None,
                }
            },
        }
    }

    /// What is under way once the work that an envelope opens is. Work for a background task joins its
    /// scope.
    pub open spec fn with_work(self, envelope: EnvelopeView) -> Self {
        match self.opened_by(envelope) {
            None => self,
            Some(execution) => {
                let member = ScopeMemberView {
                    thread_id: envelope.to.thread_id,
                    invocation_id: envelope.id,
                };
                ExecutionsView {
                    threads: self.threads.insert(
                        envelope.to.thread_id,
                        LiveExecutionView { stored: execution, cancelled: false },
                    ),
                    background: match execution.background_task() {
                        Some(task) => if self.background.contains_key(task) {
                            self.background.insert(
                                task,
                                BackgroundScopeView {
                                    members: self.background[task].members.push(member),
                                    ..self.background[task]
                                },
                            )
                        } else {
                            self.background
                        },
                        None => self.background,
                    },
                    ..self
                }
            },
        }
    }
}

impl Executions {
    /// The invocation that an envelope opens on the thread it is addressed to.
    fn open_execution(&self, envelope: &Envelope) -> (res: Option<StoredExecution>)
        ensures
            res.deep_view() == self@.opened_by(envelope@),
    {
        let caller = match &envelope.from {
            Sender::Agent { thread_id, .. } => self.execution(thread_id),
            Sender::User => None,
        };
        assert(caller.deep_view() == self@.caller(envelope@));
        match &envelope.body {
            EnvelopeBody::Task { message_id, .. } => {
                let mut agent_path: Vec<String> = Vec::new();
                agent_path.push(envelope.to.name.clone());
                assert(agent_path.deep_view() =~= seq![envelope@.to.name]);
                Some(
                    StoredExecution {
                        invocation_id: envelope.id.clone(),
                        scope: ProcessGroupId::Foreground { turn_id: TurnId::from(*message_id) },
                        completion: CompletionTarget::RootTurn,
                        agent_path,
                    },
                )
            },
            EnvelopeBody::ToolCall { turn_id, .. } => {
                let scope = match caller {
                    Some(caller) => caller.scope.clone(),
                    None => ProcessGroupId::Foreground { turn_id: *turn_id },
                };
                let completion = match agent_loop::reply_target_from_envelope(envelope) {
                    Some(target) => CompletionTarget::Caller(target),
                    None => CompletionTarget::RootTurn,
                };
                let ghost path = match self@.caller(envelope@) {
                    Some(caller) => caller.agent_path,
                    None => Seq::empty(),
                };
                let mut agent_path: Vec<String> = match caller {
                    Some(caller) => caller.agent_path.clone(),
                    None => Vec::new(),
                };
                assert(agent_path.deep_view() =~= path);
                agent_path.push(envelope.to.name.clone());
                assert(agent_path.deep_view() =~= path.push(envelope@.to.name));
                assert(Seq::<Seq<char>>::empty().push(envelope@.to.name) =~= seq![
                    envelope@.to.name,
                ]);
                Some(
                    StoredExecution {
                        invocation_id: envelope.id.clone(),
                        scope,
                        completion,
                        agent_path,
                    },
                )
            },
            _ => None,
        }
    }

    /// Register the work that an envelope opens.
    pub fn register_execution(&mut self, envelope: &Envelope) -> (res: Result<(), SendCommandError>)
        requires
            old(self)@.well_formed(),
        ensures
            final(self)@.well_formed(),
            match old(self)@.work_fault(envelope@) {
                Some(fault) => res == Err::<(), SendCommandError>(fault) && final(self)@ == old(
                    self,
                )@,
                None => res is Ok && final(self)@ == old(self)@.with_work(envelope@),
            },
    {
        let ghost before = self@;
        let execution = match self.open_execution(envelope) {
            None => {
                return Ok(());
            },
            Some(execution) => execution,
        };
        let from_user = match &envelope.body {
            EnvelopeBody::Task { .. } => true,
            _ => false,
        };
        if from_user && self.approvals.len() > 0 {
            return Err(SendCommandError::PendingApprovals);
        }
        if text::holds_text(&self.quarantined, envelope.to.thread_id.as_str()) {
            return Err(SendCommandError::AwaitingCleanup);
        }
        let task = match execution.background_task() {
            Some(task) => Some(task.clone()),
            None => None,
        };
        match &task {
            Some(task) => {
                if self.is_scope_closed(task) {
                    return Err(SendCommandError::ScopeClosed);
                }
                match self.background.get(task.id.as_str()) {
                    Some(scope) => {
                        let mut joined = scope.clone();
                        let ghost members = joined.members.deep_view();
                        assert(before.background[task@] == joined@);
                        let member = ScopeMember {
                            thread_id: envelope.to.thread_id.id.clone(),
                            invocation_id: envelope.id.clone(),
                        };
                        joined.members.push(member);
                        assert(joined.members.deep_view() =~= members.push(member@));
                        self.background.insert(task.id.clone(), joined);
                        assert(self@.background =~= before.background.insert(task@, joined@));
                    },
                    None => {},
                }
            },
            None => {},
        }
        let live = LiveExecution { stored: execution, cancelled: false };
        self.threads.insert(envelope.to.thread_id.id.clone(), live);
        assert(self@.threads =~= before.threads.insert(envelope@.to.thread_id, live@));
        assert(self@ =~= before.with_work(envelope@));
        Ok(())
    }

    /// A thread's invocation is over.
    pub fn retire(&mut self, thread: &ThreadId)
        ensures
            final(self)@ == (ExecutionsView {
                threads: old(self)@.threads.remove(thread@),
                ..old(self)@
            }),
    {
        let ghost before = self@;
        self.threads.remove(thread.as_str());
        assert(self@.threads =~= before.threads.remove(thread@));
    }
}

/// Whether an invocation belongs to a turn.
pub open spec fn in_foreground(execution: LiveExecutionView) -> bool {
    execution.stored.scope is Foreground
}

impl ExecutionsView {
    /// The threads whose invocations belong to a turn.
    pub open spec fn foreground(self) -> Set<Seq<char>> {
        Set::new(
            |thread: Seq<char>|
                self.threads.contains_key(thread) && in_foreground(self.threads[thread]),
        )
    }

    /// What is under way once these threads' invocations are asked to stop.
    pub open spec fn asked_to_stop(self, threads: Set<Seq<char>>) -> Self {
        ExecutionsView {
            threads: Map::new(
                |thread: Seq<char>| self.threads.contains_key(thread),
                |thread: Seq<char>|
                    if threads.contains(thread) {
                        LiveExecutionView { cancelled: true, ..self.threads[thread] }
                    } else {
                        self.threads[thread]
                    },
            ),
            ..self
        }
    }
}

impl Executions {
    /// Ask the invocation on a thread to stop, if there is one.
    pub(crate) fn cancel(&mut self, thread: &str)
        ensures
            final(self)@ == old(self)@.asked_to_stop(set![thread@]),
            final(self).approvals == old(self).approvals,
            final(self).quarantined == old(self).quarantined,
    {
        let ghost before = self@;
        match self.threads.get(thread) {
            Some(live) => {
                let stopped = LiveExecution { stored: live.stored.clone(), cancelled: true };
                assert(before.threads[thread@] == live@);
                self.threads.insert(thread.to_owned(), stopped);
                assert(self@.threads =~= before.threads.insert(thread@, stopped@));
            },
            None => {},
        }
        assert(self@.threads =~= before.asked_to_stop(set![thread@]).threads);
    }

    /// Ask everything that belongs to a turn to stop. Says which threads have to be told.
    pub fn stop_foreground(&mut self) -> (res: Vec<String>)
        requires
            old(self)@.well_formed(),
        ensures
            final(self)@ == old(self)@.asked_to_stop(old(self)@.foreground()),
            final(self)@.well_formed(),
            old(self)@.foreground().finite(),
            res.deep_view() == text::in_order(old(self)@.foreground()),
    {
        let ghost before = self@;
        let keys = self.threads.keys();
        let ghost order = keys.deep_view();
        proof {
            text::lemma_in_order(self.threads@.dom());
        }
        let mut told: Vec<String> = Vec::new();
        let n: usize = keys.len();
        let mut i: usize = 0;
        assert(self@ =~= before.asked_to_stop(told.deep_view().to_set()));
        while i < n
            invariant
                i <= n,
                n == keys@.len(),
                order == keys.deep_view(),
                order.no_duplicates(),
                order.to_set() == before.threads.dom(),
                self@ == before.asked_to_stop(told.deep_view().to_set()),
                forall|thread: Seq<char>| #[trigger]
                    told.deep_view().contains(thread) <==> (order.take(i as int).contains(thread)
                        && in_foreground(before.threads[thread])),
            decreases n - i,
        {
            let ghost key = keys@[i as int]@;
            let ghost listed = told.deep_view();
            proof {
                assert(order[i as int] == key);
                assert(order.to_set().contains(key));
                assert(before.threads.contains_key(key));
                assert(order.take(i + 1) =~= order.take(i as int).push(key));
                assert forall|other: Seq<char>| #[trigger]
                    order.take(i + 1).contains(other) == (order.take(i as int).contains(other)
                        || other == key) by {
                    lists::lemma_push_holds(order.take(i as int), key, other);
                }
            }
            let belongs = match self.threads.get(keys[i].as_str()) {
                Some(live) => {
                    assert(self@.threads[key] == live@);
                    match &live.stored.scope {
                        ProcessGroupId::Foreground { .. } => true,
                        _ => false,
                    }
                },
                None => {
                    assert(self@.threads.contains_key(key));
                    false
                },
            };
            assert(belongs == in_foreground(before.threads[key]));
            if belongs {
                self.cancel(keys[i].as_str());
                told.push(keys[i].clone());
                proof {
                    assert(told.deep_view() =~= listed.push(key));
                    lists::lemma_push_to_set(listed, key);
                    assert forall|other: Seq<char>| #[trigger]
                        told.deep_view().contains(other) == (listed.contains(other) || other
                            == key) by {
                        lists::lemma_push_holds(listed, key, other);
                    }
                    assert(self@ =~= before.asked_to_stop(told.deep_view().to_set()));
                }
            }
            i += 1;
        }
        proof {
            assert(order.take(n as int) =~= order);
            assert forall|thread: Seq<char>|
                told.deep_view().to_set().contains(thread) == before.foreground().contains(
                    thread,
                ) by {
                assert(order.to_set().contains(thread) == order.contains(thread));
                assert(told.deep_view().contains(thread) <==> (order.contains(thread)
                    && in_foreground(before.threads[thread])));
            }
            assert(told.deep_view().to_set() =~= before.foreground());
            vstd::seq_lib::seq_to_set_is_finite(told.deep_view());
        }
        text::sorted_distinct(told)
    }
}

/// An abort of the turn leaves background work alone.
pub proof fn law_aborting_a_turn_spares_background_work(executions: ExecutionsView, thread: Seq<char>)
    requires
        executions.task_of(thread) is Some,
    ensures
        executions.asked_to_stop(executions.foreground()).threads[thread]
            == executions.threads[thread],
{
}

}
