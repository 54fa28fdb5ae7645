//! Stopping a background task and cleaning up after it.

use crate::agent::{AgentEvent, AgentEventView, EnvelopeView, PendingApprovalView, ThreadId};
use crate::execution::{self, ScopeAbort, ScopeAbortView};
use crate::ids::{self, TurnId};
use crate::lists;
use crate::persist::{AgentRuntimeSnapshot, StoredRuntimeSnapshot};
use crate::runtime::scopes::{self, BackgroundScopeView, Executions, ExecutionsView};
use crate::runtime::turn::CallLedger;
use crate::task::{ScopeMember, ScopeMemberView, TaskId};
use vstd::prelude::*;

verus! {

/// Who stops a background task.
#[derive(Debug, Clone, Copy, PartialEq, Eq, Structural)]
pub enum ScopeStop {
    /// Nobody: there is no such task.
    Unknown,
    /// Somebody else already does; wait until it is stopped.
    Stopping,
    /// Whoever asked.
    Owned,
}

impl ExecutionsView {
    /// Who stops a background task that is to be stopped now.
    pub open spec fn stopper(self, task: Seq<char>) -> ScopeStop {
        if !self.background.contains_key(task) {
            ScopeStop::Unknown
        } else if self.background[task].stopping {
            ScopeStop::Stopping
        } else {
            ScopeStop::Owned
        }
    }

    /// What is under way once a background task is to be stopped. An error takes the place of an earlier
    /// reason.
    pub open spec fn closing(self, task: Seq<char>, error: Option<Seq<char>>) -> Self {
        if self.background.contains_key(task) {
            ExecutionsView {
                background: self.background.insert(
                    task,
                    BackgroundScopeView {
                        stopping: true,
                        closed: true,
                        reason: if error is Some {
                            error
                        } else {
                            self.background[task].reason
                        },
                        ..self.background[task]
                    },
                ),
                ..self
            }
        } else {
            self
        }
    }

    /// The members of a background task.
    pub open spec fn members_of(self, task: Seq<char>) -> Seq<ScopeMemberView> {
        if self.background.contains_key(task) {
            self.background[task].members
        } else {
            Seq::empty()
        }
    }

    /// What is under way once these members are stopped: they are asked to stop, their threads take in
    /// no work, and nothing of them waits for approval.
    pub open spec fn members_stopped(self, members: Seq<ScopeMemberView>) -> Self {
        ExecutionsView {
            quarantined: self.quarantined.union(member_threads(members)),
            approvals: self.approvals.filter(scopes::others(scopes::on_member(members))),
            ..self.asked_to_stop(member_threads(members))
        }
    }

    /// Why a background task is stopped.
    pub open spec fn stop_reason(self, task: Seq<char>) -> Seq<char> {
        if self.background.contains_key(task) {
            match self.background[task].reason {
                Some(reason) => reason,
                None => "Killed by user"@,
            }
        } else {
            "Killed by user"@
        }
    }

    /// What is under way once a background task is cleaned up: its threads can be used again.
    pub open spec fn forgotten(self, scope: ScopeAbortView) -> Self {
        ExecutionsView {
            background: self.background.remove(scope.task_id),
            quarantined: self.quarantined.difference(member_threads(scope.members)),
            threads: self.threads.remove_keys(member_threads(scope.members)),
            ..self
        }
    }
}

/// The threads that these members work on.
pub open spec fn member_threads(members: Seq<ScopeMemberView>) -> Set<Seq<char>> {
    Set::new(|thread: Seq<char>| scopes::works_on(members, thread))
}

/// The first members' threads, and one more.
proof fn lemma_one_more_thread(members: Seq<ScopeMemberView>, n: int)
    requires
        0 <= n < members.len(),
    ensures
        member_threads(members.take(n + 1)) == member_threads(members.take(n)).insert(
            members[n].thread_id,
        ),
{
    let fewer = members.take(n);
    let more = members.take(n + 1);
    assert forall|thread: Seq<char>|
        member_threads(more).contains(thread) == member_threads(fewer).insert(
            members[n].thread_id,
        ).contains(thread) by {
        if scopes::works_on(fewer, thread) {
            let k = choose|k: int| 0 <= k < fewer.len() && (#[trigger] fewer[k]).thread_id == thread;
            assert(more[k].thread_id == thread);
        }
        assert(more[n].thread_id == members[n].thread_id);
        if scopes::works_on(more, thread) {
            let k = choose|k: int| 0 <= k < more.len() && (#[trigger] more[k]).thread_id == thread;
            if k < n {
                assert(fewer[k].thread_id == thread);
            }
        }
    }
    assert(member_threads(more) =~= member_threads(fewer).insert(members[n].thread_id));
}

/// An approval that is taken back: what those who listen are told, and on whose behalf.
#[derive(Debug)]
pub struct Revocation {
    pub agent_name: String,
    pub thread_id: ThreadId,
    pub turn_id: TurnId,
    pub event: AgentEvent,
}

/// The content of a [`Revocation`].
#[verifier::ext_equal]
pub struct RevocationView {
    pub agent_name: Seq<char>,
    pub thread_id: Seq<char>,
    pub turn_id: TurnId,
    pub event: AgentEventView,
}

impl View for Revocation {
    type V = RevocationView;

    open spec fn view(&self) -> RevocationView {
        RevocationView {
            agent_name: self.agent_name@,
            thread_id: self.thread_id@,
            turn_id: self.turn_id,
            event: self.event@,
        }
    }
}

impl DeepView for Revocation {
    type V = RevocationView;

    open spec fn deep_view(&self) -> RevocationView {
        self@
    }
}

/// How an approval is taken back, in the turn that its batch opened.
pub open spec fn revocation(approval: PendingApprovalView) -> RevocationView {
    RevocationView {
        agent_name: approval.agent_name,
        thread_id: approval.thread_id,
        turn_id: ids::turn_opened_by(approval.parent_message_id),
        event: scopes::removal(approval),
    }
}

/// What stopping a background task's members comes to.
#[derive(Debug)]
pub struct StoppedScope {
    pub members: Vec<ScopeMember>,
    /// The approvals that are taken back, oldest first.
    pub revoked: Vec<Revocation>,
}

/// What stopping a background task comes to for whoever asks.
#[derive(Debug)]
pub enum StopPlan {
    /// There is no such task.
    Unknown,
    /// Somebody else is stopping it; wait until it is stopped.
    Wait,
    /// Its members are stopped. Tell those who listen what is revoked, make an end of the members'
    /// drivers, and close the scope off in storage.
    Stop(StoppedScope),
}

impl Executions {
    /// Who works on a background task.
    pub fn scope_members(&self, task: &TaskId) -> (res: Vec<ScopeMember>)
        ensures
            res.deep_view() == self@.members_of(task@),
    {
        match self.background.get(task.id.as_str()) {
            Some(scope) => {
                assert(self@.background[task@] == scope@);
                let members = scope.members.clone();
                assert(members.deep_view() =~= scope.members.deep_view());
                members
            },
            None => {
                let none: Vec<ScopeMember> = Vec::new();
                assert(none.deep_view() =~= Seq::empty());
                none
            },
        }
    }

    /// Close a background task because it is to be stopped, and settle who stops it.
    fn close_scope(&mut self, task: &TaskId, error: Option<String>) -> (res: ScopeStop)
        requires
            old(self)@.well_formed(),
        ensures
            res == old(self)@.stopper(task@),
            final(self)@ == old(self)@.closing(task@, error.deep_view()),
            final(self)@.well_formed(),
    {
        let ghost before = self@;
        match self.background.get(task.id.as_str()) {
            None => ScopeStop::Unknown,
            Some(scope) => {
                assert(before.background[task@] == scope@);
                let owned = !scope.stopping;
                let mut closed = scope.clone();
                closed.stopping = true;
                closed.closed = true;
                if error.is_some() {
                    closed.reason = error;
                }
                self.background.insert(task.id.clone(), closed);
                assert(self@.background =~= before.background.insert(task@, closed@));
                assert(self@ =~= before.closing(task@, error.deep_view()));
                if owned {
                    ScopeStop::Owned
                } else {
                    ScopeStop::Stopping
                }
            },
        }
    }

    /// Ask these members to stop and keep new work away from their threads.
    fn quarantine(&mut self, members: &Vec<ScopeMember>)
        requires
            old(self)@.well_formed(),
        ensures
            final(self)@ == (ExecutionsView {
                quarantined: old(self)@.quarantined.union(member_threads(members.deep_view())),
                ..old(self)@.asked_to_stop(member_threads(members.deep_view()))
            }),
            final(self)@.well_formed(),
    {
        let ghost before = self@;
        let ghost all = members.deep_view();
        let n: usize = members.len();
        let mut i: usize = 0;
        proof {
            assert(member_threads(all.take(0)) =~= Set::<Seq<char>>::empty());
            assert(self@ =~= ExecutionsView {
                quarantined: before.quarantined.union(member_threads(all.take(0))),
                ..before.asked_to_stop(member_threads(all.take(0)))
            });
        }
        while i < n
            invariant
                i <= n,
                n == members@.len(),
                all == members.deep_view(),
                self@ == (ExecutionsView {
                    quarantined: before.quarantined.union(member_threads(all.take(i as int))),
                    ..before.asked_to_stop(member_threads(all.take(i as int)))
                }),
            decreases n - i,
        {
            let ghost thread = members@[i as int]@.thread_id;
            let ghost listed = self.quarantined.deep_view();
            let ghost middle = self@;
            self.quarantined.push(members[i].thread_id.clone());
            proof {
                assert(self.quarantined.deep_view() =~= listed.push(thread));
                lists::lemma_push_to_set(listed, thread);
                assert(all[i as int].thread_id == thread);
                lemma_one_more_thread(all, i as int);
            }
            self.cancel(members[i].thread_id.as_str());
            assert(self@ =~= ExecutionsView {
                quarantined: before.quarantined.union(member_threads(all.take(i + 1))),
                ..before.asked_to_stop(member_threads(all.take(i + 1)))
            });
            i += 1;
        }
        assert(all.take(n as int) =~= all);
    }

    /// Stop the members of a background task: ask them to stop, keep new work away from their threads,
    /// and take back what they wait for.
    fn stop_members(&mut self, task: &TaskId) -> (res: StoppedScope)
        requires
            old(self)@.well_formed(),
        ensures
            res.members.deep_view() == old(self)@.members_of(task@),
            final(self)@ == old(self)@.members_stopped(old(self)@.members_of(task@)),
            final(self)@.well_formed(),
            res.revoked.deep_view() == old(self)@.approvals.filter(
                scopes::on_member(old(self)@.members_of(task@)),
            ).map_values(|approval: PendingApprovalView| revocation(approval)),
    {
        let ghost before = self@;
        let members = self.scope_members(task);
        self.quarantine(&members);
        let removed = self.take_member_approvals(&members);
        let ghost all = removed.deep_view();
        let ghost told_of = |approval: PendingApprovalView| revocation(approval);
        let mut revoked: Vec<Revocation> = Vec::new();
        let n: usize = removed.len();
        let mut i: usize = 0;
        assert(revoked.deep_view() =~= all.take(0).map_values(told_of));
        while i < n
            invariant
                i <= n,
                n == removed@.len(),
                all == removed.deep_view(),
                told_of == (|approval: PendingApprovalView| revocation(approval)),
                revoked.deep_view() == all.take(i as int).map_values(told_of),
            decreases n - i,
        {
            let ghost listed = revoked.deep_view();
            let approval = &removed[i];
            let one = Revocation {
                agent_name: approval.agent_name.clone(),
                thread_id: ThreadId::from(approval.thread_id.clone()),
                turn_id: TurnId::from(approval.parent_message_id),
                event: scopes::removal_event(approval),
            };
            revoked.push(one);
            proof {
                assert(revoked.deep_view() =~= listed.push(one@));
                assert(all.take(i + 1).map_values(told_of) =~= all.take(i as int).map_values(
                    told_of,
                ).push(one@));
            }
            i += 1;
        }
        assert(all.take(n as int) =~= all);
        assert(self@ =~= before.members_stopped(members.deep_view()));
        StoppedScope { members, revoked }
    }

    /// Stop a background task. The first to ask stops its members; everybody after that waits.
    pub fn stop_scope(&mut self, task: &TaskId, error: Option<String>) -> (res: StopPlan)
        requires
            old(self)@.well_formed(),
        ensures
            final(self)@.well_formed(),
            ({
                let closed = old(self)@.closing(task@, error.deep_view());
                let members = closed.members_of(task@);
                match old(self)@.stopper(task@) {
                    ScopeStop::Unknown => res is Unknown && final(self)@ == old(self)@,
                    ScopeStop::Stopping => res is Wait && final(self)@ == closed,
                    ScopeStop::Owned => {
                        &&& final(self)@ == closed.members_stopped(members)
                        &&& res matches StopPlan::Stop(stopped) && stopped.members.deep_view()
                            == members && stopped.revoked.deep_view() == old(self)@.approvals.filter(
                            scopes::on_member(members),
                        ).map_values(|approval: PendingApprovalView| revocation(approval))
                    },
                }
            }),
    {
        match self.close_scope(task, error) {
            ScopeStop::Unknown => StopPlan::Unknown,
            ScopeStop::Stopping => StopPlan::Wait,
            ScopeStop::Owned => StopPlan::Stop(self.stop_members(task)),
        }
    }

    /// What is to be closed off in storage when a background task is stopped.
    pub fn scope_abort(&self, task: &TaskId, members: Vec<ScopeMember>) -> (res: ScopeAbort)
        ensures
            res@ == (ScopeAbortView {
                task_id: task@,
                members: members.deep_view(),
                reason: self@.stop_reason(task@),
            }),
    {
        let reason = match self.background.get(task.id.as_str()) {
            Some(scope) => {
                assert(self@.background[task@] == scope@);
                match &scope.reason {
                    Some(reason) => reason.clone(),
                    None => "Killed by user".to_owned(),
                }
            },
            None => "Killed by user".to_owned(),
        };
        ScopeAbort { task_id: task.clone(), members, reason }
    }

    /// Forget a background task that is cleaned up: its threads can be used again.
    pub fn forget_scope(&mut self, scope: &ScopeAbort)
        requires
            old(self)@.well_formed(),
        ensures
            final(self)@ == old(self)@.forgotten(scope@),
            final(self)@.well_formed(),
    {
        let ghost before = self@;
        let ghost all = scope.members.deep_view();
        self.background.remove(scope.task_id.id.as_str());
        assert(self@.background =~= before.background.remove(scope@.task_id));
        let n: usize = scope.members.len();
        let mut i: usize = 0;
        proof {
            assert(member_threads(all.take(0)) =~= Set::<Seq<char>>::empty());
            assert(self@.threads =~= before.threads.remove_keys(member_threads(all.take(0))));
        }
        while i < n
            invariant
                i <= n,
                n == scope.members@.len(),
                all == scope.members.deep_view(),
                self@.background == before.background.remove(scope@.task_id),
                self@.approvals == before.approvals,
                self@.quarantined == before.quarantined,
                self@.threads == before.threads.remove_keys(member_threads(all.take(i as int))),
            decreases n - i,
        {
            let ghost left = self@.threads;
            let ghost thread = scope.members@[i as int]@.thread_id;
            self.threads.remove(scope.members[i].thread_id.as_str());
            proof {
                assert(all[i as int].thread_id == thread);
                lemma_one_more_thread(all, i as int);
                assert(self@.threads =~= left.remove(thread));
                assert(self@.threads =~= before.threads.remove_keys(
                    member_threads(all.take(i + 1)),
                ));
            }
            i += 1;
        }
        assert(all.take(n as int) =~= all);
        self.release(&scope.members);
        assert(self@ =~= before.forgotten(scope@));
    }

    /// Let these members' threads take in work again.
    fn release(&mut self, members: &Vec<ScopeMember>)
        ensures
            final(self)@ == (ExecutionsView {
                quarantined: old(self)@.quarantined.difference(member_threads(members.deep_view())),
                ..old(self)@
            }),
    {
        let ghost before = self@;
        let ghost all = self.quarantined.deep_view();
        let ghost freed = member_threads(members.deep_view());
        let mut left: Vec<String> = Vec::new();
        let n: usize = self.quarantined.len();
        let mut i: usize = 0;
        while i < n
            invariant
                i <= n,
                n == self.quarantined@.len(),
                all == self.quarantined.deep_view(),
                self@ == before,
                freed == member_threads(members.deep_view()),
                forall|thread: Seq<char>| #[trigger]
                    left.deep_view().contains(thread) <==> (all.take(i as int).contains(thread)
                        && !freed.contains(thread)),
            decreases n - i,
        {
            let ghost thread = self.quarantined@[i as int]@;
            let ghost listed = left.deep_view();
            proof {
                assert(all[i as int] == thread);
                assert(all.take(i + 1) =~= all.take(i as int).push(thread));
                assert forall|other: Seq<char>| #[trigger]
                    all.take(i + 1).contains(other) == (all.take(i as int).contains(other) || other
                        == thread) by {
                    lists::lemma_push_holds(all.take(i as int), thread, other);
                }
            }
            if !scopes::is_member_thread(members, self.quarantined[i].as_str()) {
                left.push(self.quarantined[i].clone());
                proof {
                    assert(left.deep_view() =~= listed.push(thread));
                    assert forall|other: Seq<char>| #[trigger]
                        left.deep_view().contains(other) == (listed.contains(other) || other
                            == thread) by {
                        lists::lemma_push_holds(listed, thread, other);
                    }
                }
            }
            i += 1;
        }
        self.quarantined = left;
        proof {
            assert(all.take(n as int) =~= all);
            assert forall|thread: Seq<char>|
                self@.quarantined.contains(thread) == before.quarantined.difference(freed).contains(
                    thread,
                ) by {
                assert(left.deep_view().contains(thread) <==> (all.contains(thread)
                    && !freed.contains(thread)));
            }
            assert(self@.quarantined =~= before.quarantined.difference(freed));
        }
    }
}

/// Forget what the stopped members of a background task still owe, and what they left in the session's
/// runtime state.
pub fn discard_members(
    members: &Vec<ScopeMember>,
    calls: &mut CallLedger,
    snapshot: &mut AgentRuntimeSnapshot,
)
    ensures
        forall|thread: Seq<char>| #[trigger]
            final(calls)@.count(thread) == (if scopes::works_on(members.deep_view(), thread) {
                0
            } else {
                old(calls)@.count(thread)
            }),
        final(calls)@ == old(calls)@.filter(
            |thread: Seq<char>| !scopes::works_on(members.deep_view(), thread),
        ),
        final(snapshot)@ == execution::fenced_snapshot(
            old(snapshot)@,
            members.deep_view(),
            Map::empty(),
        ),
{
    let ghost all = members.deep_view();
    let ghost before = calls@;
    let n: usize = members.len();
    let mut i: usize = 0;
    while i < n
        invariant
            i <= n,
            n == members@.len(),
            all == members.deep_view(),
            forall|thread: Seq<char>| #[trigger]
                calls@.count(thread) == (if member_threads(all.take(i as int)).contains(thread) {
                    0
                } else {
                    before.count(thread)
                }),
        decreases n - i,
    {
        let thread = ThreadId::from(members[i].thread_id.clone());
        proof {
            assert(all[i as int].thread_id == thread@);
            lemma_one_more_thread(all, i as int);
        }
        calls.clear(&thread);
        i += 1;
    }
    proof {
        assert(all.take(n as int) =~= all);
        assert forall|thread: Seq<char>| #[trigger]
            calls@.count(thread) == (if scopes::works_on(all, thread) {
                0
            } else {
                before.count(thread)
            }) by {
            assert(member_threads(all).contains(thread) == scopes::works_on(all, thread));
        }
        assert(calls@ =~= before.filter(|thread: Seq<char>| !scopes::works_on(all, thread)));
    }
    let mut stored = StoredRuntimeSnapshot::from(snapshot.clone());
    execution::remove_scope_messages(&mut stored, members);
    *snapshot = AgentRuntimeSnapshot::from(stored);
}

/// What comes after an attempt to clean up in storage.
#[derive(Debug, Clone, Copy, PartialEq, Eq, Structural)]
pub enum CleanupNext {
    /// It worked: once the task's end is known, forget the scope.
    Forget,
    /// The session is exiting; the next process cleans up.
    GiveUp,
    /// Try again after a pause of so many milliseconds.
    Retry(u64),
}

/// How long to wait before the first repetition, in milliseconds.
pub const FIRST_PAUSE_MS: u64 = 100;

/// The longest pause between two attempts, in milliseconds.
pub const LONGEST_PAUSE_MS: u64 = 5000;

/// The pause after a pause: twice as long, up to the longest one.
pub open spec fn longer(pause_ms: u64) -> u64 {
    if 2 * pause_ms > LONGEST_PAUSE_MS {
        LONGEST_PAUSE_MS
    } else {
        (2 * pause_ms) as u64
    }
}

/// The attempts to clean up after a background task.
#[derive(Debug, Clone, Copy, PartialEq, Eq, Structural)]
pub struct CleanupAttempts {
    /// How long to wait before the next repetition, in milliseconds.
    pub pause_ms: u64,
}

impl CleanupAttempts {
    /// The pause stays between the first and the longest one.
    pub open spec fn well_formed(self) -> bool {
        FIRST_PAUSE_MS <= self.pause_ms <= LONGEST_PAUSE_MS
    }

    /// No attempt was made yet.
    pub fn new() -> (res: Self)
        ensures
            res.pause_ms == FIRST_PAUSE_MS,
            res.well_formed(),
    {
        CleanupAttempts { pause_ms: FIRST_PAUSE_MS }
    }

    /// What comes after an attempt, given whether it closed the scope off in storage, whether that was
    /// recorded, and whether the session is exiting.
    pub fn after(&mut self, closed_off: bool, recorded: bool, exiting: bool) -> (res: CleanupNext)
        requires
            old(self).well_formed(),
        ensures
            final(self).well_formed(),
            res == (if closed_off && recorded {
                CleanupNext::Forget
            } else if exiting {
                CleanupNext::GiveUp
            } else {
                CleanupNext::Retry(old(self).pause_ms)
            }),
            final(self).pause_ms == (if res is Retry {
                longer(old(self).pause_ms)
            } else {
                old(self).pause_ms
            }),
    {
        if closed_off && recorded {
            return CleanupNext::Forget;
        }
        if exiting {
            return CleanupNext::GiveUp;
        }
        let waited: u64 = self.pause_ms;
        let doubled: u64 = waited * 2;
        self.pause_ms = if doubled > LONGEST_PAUSE_MS {
            LONGEST_PAUSE_MS
        } else {
            doubled
        };
        CleanupNext::Retry(waited)
    }
}

/// One caller stops a background task; everybody after that waits for it.
pub proof fn law_a_scope_is_stopped_once(
    executions: ExecutionsView,
    task: Seq<char>,
    error: Option<Seq<char>>,
)
    ensures
        executions.closing(task, error).stopper(task) != ScopeStop::Owned,
        executions.stopper(task) is Unknown <==> executions.closing(task, error).stopper(
            task,
        ) is Unknown,
{
}

/// A stopped scope is shut: its members are asked to stop, nothing of them waits for approval, and no
/// work reaches their threads until the scope is forgotten. Other threads are left alone.
pub proof fn law_a_stopped_scope_is_shut(
    executions: ExecutionsView,
    task: Seq<char>,
    error: Option<Seq<char>>,
    thread: Seq<char>,
)
    requires
        executions.background.contains_key(task),
    ensures
        ({
            let members = executions.members_of(task);
            let after = executions.closing(task, error).members_stopped(members);
            &&& after.scope_closed(task)
            &&& scopes::works_on(members, thread) ==> {
                &&& after.quarantined.contains(thread)
                &&& after.threads.contains_key(thread) ==> after.stopped(thread)
                &&& forall|approval: PendingApprovalView| #[trigger]
                    after.approvals.contains(approval) ==> approval.thread_id != thread
                &&& forall|envelope: EnvelopeView|
                    envelope.to.thread_id == thread && #[trigger] after.opened_by(envelope) is Some
                        ==> after.work_fault(envelope) is Some
            }
            &&& !scopes::works_on(members, thread) ==> {
                &&& after.quarantined.contains(thread) == executions.quarantined.contains(thread)
                &&& after.stopped(thread) == executions.stopped(thread)
                &&& after.execution(thread) == executions.execution(thread)
            }
        }),
{
    let members = executions.members_of(task);
    let after = executions.closing(task, error).members_stopped(members);
    let keep = scopes::others(scopes::on_member(members));
    assert forall|approval: PendingApprovalView| #[trigger]
        after.approvals.contains(approval) && scopes::works_on(
            members,
            thread,
        ) implies approval.thread_id != thread by {
        let i = after.approvals.index_of(approval);
        executions.approvals.lemma_filter_pred(keep, i);
    }
}

/// A scope that is forgotten frees its threads: they are no longer under way, and work may reach them
/// again.
pub proof fn law_a_forgotten_scope_frees_its_threads(
    executions: ExecutionsView,
    scope: ScopeAbortView,
    thread: Seq<char>,
)
    ensures
        !executions.forgotten(scope).background.contains_key(scope.task_id),
        scopes::works_on(scope.members, thread) ==> !executions.forgotten(
            scope,
        ).quarantined.contains(thread) && executions.forgotten(scope).execution(thread) is None,
        !scopes::works_on(scope.members, thread) ==> {
            &&& executions.forgotten(scope).quarantined.contains(thread)
                == executions.quarantined.contains(thread)
            &&& executions.forgotten(scope).execution(thread) == executions.execution(thread)
        },
{
}

}
