//! Where a session's threads and its runtime state are kept.

use crate::execution::{
    self, CleanupReceipt, ExecutionIdentity, ExecutionIdentityView, ScopeAbort, ScopeAbortView,
};
use crate::lists;
use crate::persist::{
    RuntimeSnapshotView, StoredCheckpoint, StoredCheckpointView, StoredResumePoint,
    StoredResumePointView, StoredRuntimeSnapshot,
};
use crate::string_map::StringMap;
use crate::task::{ScopeMember, ScopeMemberView, TaskId};
use crate::text;
use vstd::prelude::*;

verus! {

/// Where a session's threads and its runtime state are kept. A storage that keeps no background work
/// leaves the methods about it as they are.
pub trait SessionStorage: Send + Sync {
    /// Whether the notice about a background task was already taken in.
    fn has_notice_receipt(&self, _task_id: &TaskId) -> (res: Result<bool, String>)
        default_ensures
            res == Ok::<bool, String>(false),
    {
        Ok(false)
    }

    /// Take in the notice about a background task together with the thread it changed.
    fn admit_task_notice(&mut self, _task_id: TaskId, _checkpoint: StoredCheckpoint) -> (res: Result<
        (),
        String,
    >)
        default_ensures
            res matches Err(reason) && reason@ == "storage does not support durable notices"@,
            &*final(self) == &*old(self),
    {
        Err("storage does not support durable notices".to_owned())
    }

    /// The threads of a session that work on background tasks.
    fn load_background_checkpoints(&self, _session_id: &str) -> (res: Result<
        Vec<StoredCheckpoint>,
        String,
    >)
        default_ensures
            res matches Ok(threads) && threads@.len() == 0,
    {
        Ok(Vec::new())
    }

    /// Close off the invocations of a background task.
    fn abort_scope(&mut self, _scope: ScopeAbort) -> (res: Result<CleanupReceipt, String>)
        default_ensures
            res matches Err(reason) && reason@ == "storage does not support scope cleanup"@,
            &*final(self) == &*old(self),
    {
        Err("storage does not support scope cleanup".to_owned())
    }

    /// Store a thread on behalf of one invocation. A storage that tells no invocations apart stores
    /// it under its own id, as [`SessionStorage::save_checkpoint`] does.
    fn save_execution_checkpoint(
        &mut self,
        _identity: ExecutionIdentity,
        checkpoint: StoredCheckpoint,
    ) -> (res: Result<(), String>)
        default_ensures
            exists|storage: &mut Self|
                &*storage == &*old(self) && &*final(storage) == &*final(self) && #[trigger] call_ensures(
                    Self::save_checkpoint,
                    (storage, checkpoint.thread_id, checkpoint),
                    res,
                ),
    {
        let thread_id = checkpoint.thread_id.clone();
        self.save_checkpoint(thread_id, checkpoint)
    }

    /// Store a thread.
    fn save_checkpoint(&mut self, thread_id: String, checkpoint: StoredCheckpoint) -> (res: Result<
        (),
        String,
    >);

    /// What is stored of a thread.
    fn load_checkpoint(&self, thread_id: &str) -> (res: Result<Option<StoredCheckpoint>, String>);

    /// The threads of a session that wait for tool approval.
    fn load_pending_approval_checkpoints(&self, session_id: &str) -> (res: Result<
        Vec<StoredCheckpoint>,
        String,
    >);

    /// Store a session's runtime state.
    fn save_session_snapshot(&mut self, session_id: String, snapshot: StoredRuntimeSnapshot) -> (res:
        Result<(), String>);

    /// What is stored of a session's runtime state.
    fn load_session_snapshot(&self, session_id: &str) -> (res: Result<
        Option<StoredRuntimeSnapshot>,
        String,
    >);
}

/// A storage that keeps everything in memory.
#[derive(Debug)]
pub struct MemoryStorage {
    checkpoints: StringMap<StoredCheckpoint>,
    snapshots: StringMap<StoredRuntimeSnapshot>,
    aborted: Vec<ScopeMember>,
    notice_receipts: Vec<TaskId>,
}

/// The content of a [`MemoryStorage`].
#[verifier::ext_equal]
pub struct StorageView {
    /// What is stored of each thread.
    pub checkpoints: Map<Seq<char>, StoredCheckpointView>,
    /// What is stored of each session's runtime state.
    pub snapshots: Map<Seq<char>, RuntimeSnapshotView>,
    /// The invocations that were aborted, oldest first.
    pub aborted: Seq<ScopeMemberView>,
    /// The background tasks whose notices were taken in.
    pub receipts: Set<Seq<char>>,
}

impl StorageView {
    /// A storage that holds nothing.
    pub open spec fn empty() -> Self {
        StorageView {
            checkpoints: Map::empty(),
            snapshots: Map::empty(),
            aborted: Seq::empty(),
            receipts: Set::empty(),
        }
    }

    /// What is stored of a thread.
    pub open spec fn thread(self, id: Seq<char>) -> Option<StoredCheckpointView> {
        if self.checkpoints.contains_key(id) {
            Some(self.checkpoints[id])
        } else {
            None
        }
    }

    /// What is stored of a session's runtime state.
    pub open spec fn session(self, id: Seq<char>) -> Option<RuntimeSnapshotView> {
        if self.snapshots.contains_key(id) {
            Some(self.snapshots[id])
        } else {
            None
        }
    }

    /// The storage once a thread is stored.
    pub open spec fn with_thread(self, id: Seq<char>, checkpoint: StoredCheckpointView) -> Self {
        StorageView { checkpoints: self.checkpoints.insert(id, checkpoint), ..self }
    }

    /// The storage once a session's runtime state is: without what aborted invocations left in it.
    pub open spec fn with_session(self, id: Seq<char>, snapshot: RuntimeSnapshotView) -> Self {
        StorageView {
            snapshots: self.snapshots.insert(
                id,
                execution::fenced_snapshot(
                    snapshot,
                    self.aborted,
                    active_invocations(self.checkpoints),
                ),
            ),
            ..self
        }
    }

    /// The storage once the notice about a background task is taken in with the thread it changed: a
    /// second time changes nothing.
    pub open spec fn with_notice(self, task: Seq<char>, checkpoint: StoredCheckpointView) -> Self {
        if self.receipts.contains(task) {
            self
        } else {
            StorageView {
                receipts: self.receipts.insert(task),
                ..self.with_thread(checkpoint.thread_id, checkpoint)
            }
        }
    }
}

impl View for MemoryStorage {
    type V = StorageView;

    closed spec fn view(&self) -> StorageView {
        StorageView {
            checkpoints: self.checkpoints.deep_view(),
            snapshots: self.snapshots.deep_view(),
            aborted: self.aborted.deep_view(),
            receipts: self.notice_receipts.deep_view().to_set(),
        }
    }
}

/// The checkpoint that many steps up from `checkpoint` towards the root, as far as the tree is stored.
pub open spec fn ancestor(
    checkpoints: Map<Seq<char>, StoredCheckpointView>,
    checkpoint: StoredCheckpointView,
    steps: nat,
) -> Option<StoredCheckpointView>
    decreases steps,
{
    if steps == 0 {
        Some(checkpoint)
    } else {
        match ancestor(checkpoints, checkpoint, (steps - 1) as nat) {
            Some(child) => match child.parent_thread_id {
                Some(parent) => if checkpoints.contains_key(parent) {
                    Some(checkpoints[parent])
                } else {
                    None
                },
                None => None,
            },
            None => None,
        }
    }
}

/// Whether a checkpoint is the session's root thread, or hangs right below it.
pub open spec fn touches_root(checkpoint: StoredCheckpointView, session_id: Seq<char>) -> bool {
    checkpoint.thread_id == session_id || checkpoint.parent_thread_id == Some(session_id)
}

/// Whether a checkpoint belongs to a session: some thread on its way to the root is the session's root
/// thread or hangs right below it.
pub open spec fn belongs(
    checkpoints: Map<Seq<char>, StoredCheckpointView>,
    checkpoint: StoredCheckpointView,
    session_id: Seq<char>,
) -> bool {
    exists|steps: nat|
        match #[trigger] ancestor(checkpoints, checkpoint, steps) {
            Some(found) => touches_root(found, session_id),
            None => false,
        }
}

/// A walk that comes back to a parent it already went to goes round in circles.
proof fn lemma_walk_repeats(
    checkpoints: Map<Seq<char>, StoredCheckpointView>,
    checkpoint: StoredCheckpointView,
    i: nat,
    k: nat,
    more: nat,
)
    requires
        i < k,
        ancestor(checkpoints, checkpoint, i) is Some,
        ancestor(checkpoints, checkpoint, k) is Some,
        ancestor(checkpoints, checkpoint, i)->0.parent_thread_id is Some,
        ancestor(checkpoints, checkpoint, i)->0.parent_thread_id == ancestor(
            checkpoints,
            checkpoint,
            k,
        )->0.parent_thread_id,
    ensures
        ancestor(checkpoints, checkpoint, (i + 1 + more) as nat) == ancestor(
            checkpoints,
            checkpoint,
            (k + 1 + more) as nat,
        ),
    decreases more,
{
    if more > 0 {
        lemma_walk_repeats(checkpoints, checkpoint, i, k, (more - 1) as nat);
    }
}

/// A walk that goes round in circles without having met the root never meets it.
proof fn lemma_circle_never_meets_root(
    checkpoints: Map<Seq<char>, StoredCheckpointView>,
    checkpoint: StoredCheckpointView,
    session_id: Seq<char>,
    i: nat,
    k: nat,
    steps: nat,
)
    requires
        i < k,
        ancestor(checkpoints, checkpoint, i) is Some,
        ancestor(checkpoints, checkpoint, k) is Some,
        ancestor(checkpoints, checkpoint, i)->0.parent_thread_id is Some,
        ancestor(checkpoints, checkpoint, i)->0.parent_thread_id == ancestor(
            checkpoints,
            checkpoint,
            k,
        )->0.parent_thread_id,
        forall|j: nat|
            j <= k && (#[trigger] ancestor(checkpoints, checkpoint, j)) is Some ==> !touches_root(
                ancestor(checkpoints, checkpoint, j)->0,
                session_id,
            ),
    ensures
        ancestor(checkpoints, checkpoint, steps) is Some ==> !touches_root(
            ancestor(checkpoints, checkpoint, steps)->0,
            session_id,
        ),
    decreases steps,
{
    if steps > k {
        let more = (steps - k - 1) as nat;
        lemma_walk_repeats(checkpoints, checkpoint, i, k, more);
        lemma_circle_never_meets_root(
            checkpoints,
            checkpoint,
            session_id,
            i,
            k,
            (i + 1 + more) as nat,
        );
    }
}

/// A walk that stops goes no further.
proof fn lemma_walk_stops(
    checkpoints: Map<Seq<char>, StoredCheckpointView>,
    checkpoint: StoredCheckpointView,
    k: nat,
    steps: nat,
)
    requires
        ancestor(checkpoints, checkpoint, k) is None,
        k <= steps,
    ensures
        ancestor(checkpoints, checkpoint, steps) is None,
    decreases steps,
{
    if k < steps {
        lemma_walk_stops(checkpoints, checkpoint, k, (steps - 1) as nat);
    }
}

/// Whether a checkpoint belongs to a session.
fn belongs_to_session(
    checkpoint: &StoredCheckpoint,
    checkpoints: &StringMap<StoredCheckpoint>,
    session_id: &str,
) -> (res: bool)
    ensures
        res == belongs(checkpoints.deep_view(), checkpoint@, session_id@),
{
    let ghost tree = checkpoints.deep_view();
    let ghost start = checkpoint@;
    let names = checkpoints.keys();
    let bound: usize = names.len();
    proof {
        text::lemma_in_order(checkpoints@.dom());
    }
    let mut current = checkpoint;
    let mut visited: Vec<String> = Vec::new();
    assert(ancestor(tree, start, 0) == Some(start));
    loop
        invariant
            tree == checkpoints.deep_view(),
            start == checkpoint@,
            checkpoints@.dom().finite(),
            bound == names@.len(),
            names.deep_view().no_duplicates(),
            names.deep_view().to_set() == checkpoints@.dom(),
            visited.deep_view().no_duplicates(),
            forall|j: int|
                0 <= j < visited@.len() ==> checkpoints@.contains_key(
                    (#[trigger] visited.deep_view()[j]),
                ),
            ancestor(tree, start, visited@.len()) == Some(current@),
            forall|j: nat|
                j < visited@.len() ==> match #[trigger] ancestor(tree, start, j) {
                    Some(found) => !touches_root(found, session_id@) && found.parent_thread_id
                        == Some(visited.deep_view()[j as int]),
                    None => false,
                },
        decreases bound - visited@.len(),
    {
        let ghost k = visited@.len();
        if text::same_text(current.thread_id.as_str(), session_id) {
            assert(touches_root(ancestor(tree, start, k)->0, session_id@));
            return true;
        }
        let parent = match &current.parent_thread_id {
            None => {
                proof {
                    lemma_never_reached(tree, start, session_id@, k);
                }
                return false;
            },
            Some(parent) => parent,
        };
        if text::same_text(parent.as_str(), session_id) {
            assert(touches_root(ancestor(tree, start, k)->0, session_id@));
            return true;
        }
        if text::holds_text(&visited, parent.as_str()) {
            proof {
                let i = choose|i: int|
                    0 <= i < visited.deep_view().len() && visited.deep_view()[i] == parent@;
                assert(ancestor(tree, start, i as nat) is Some);
                assert forall|j: nat|
                    j <= k && (#[trigger] ancestor(tree, start, j)) is Some implies !touches_root(
                    ancestor(tree, start, j)->0,
                    session_id@,
                ) by {}
                assert forall|steps: nat|
                    (#[trigger] ancestor(tree, start, steps)) is Some implies !touches_root(
                    ancestor(tree, start, steps)->0,
                    session_id@,
                ) by {
                    lemma_circle_never_meets_root(
                        tree,
                        start,
                        session_id@,
                        i as nat,
                        k,
                        steps,
                    );
                }
            }
            return false;
        }
        match checkpoints.get(parent.as_str()) {
            None => {
                proof {
                    lemma_never_reached(tree, start, session_id@, k);
                }
                return false;
            },
            Some(next) => {
                let ghost before = visited.deep_view();
                visited.push(parent.clone());
                proof {
                    assert(visited.deep_view() =~= before.push(parent@));
                    assert(visited.deep_view().no_duplicates());
                    assert(tree[parent@] == next@);
                    lemma_within(visited.deep_view(), checkpoints@.dom(), names.deep_view());
                    assert forall|j: nat| j < visited@.len() implies match #[trigger] ancestor(
                        tree,
                        start,
                        j,
                    ) {
                        Some(found) => !touches_root(found, session_id@) && found.parent_thread_id
                            == Some(visited.deep_view()[j as int]),
                        None => false,
                    } by {
                        if j < k {
                            assert(visited.deep_view()[j as int] == before[j as int]);
                        }
                    }
                }
                current = next;
            },
        }
    }
}

/// A walk whose last step leads nowhere never meets the root.
proof fn lemma_never_reached(
    checkpoints: Map<Seq<char>, StoredCheckpointView>,
    checkpoint: StoredCheckpointView,
    session_id: Seq<char>,
    k: nat,
)
    requires
        ancestor(checkpoints, checkpoint, k) is Some,
        ancestor(checkpoints, checkpoint, (k + 1) as nat) is None,
        forall|j: nat|
            j <= k ==> match #[trigger] ancestor(checkpoints, checkpoint, j) {
                Some(found) => !touches_root(found, session_id),
                None => true,
            },
    ensures
        !belongs(checkpoints, checkpoint, session_id),
{
    assert forall|steps: nat|
        match #[trigger] ancestor(checkpoints, checkpoint, steps) {
            Some(found) => !touches_root(found, session_id),
            None => true,
        } by {
        if steps > k {
            lemma_walk_stops(checkpoints, checkpoint, (k + 1) as nat, steps);
        }
    }
}

proof fn lemma_within(list: Seq<Seq<char>>, all: Set<Seq<char>>, names: Seq<Seq<char>>)
    requires
        all.finite(),
        list.no_duplicates(),
        names.no_duplicates(),
        names.to_set() == all,
        forall|j: int| 0 <= j < list.len() ==> all.contains(#[trigger] list[j]),
    ensures
        list.len() <= names.len(),
{
    list.unique_seq_to_set();
    names.unique_seq_to_set();
    assert forall|x: Seq<char>| list.to_set().contains(x) implies all.contains(x) by {
        assert(list.to_set().contains(x) == list.contains(x));
        let j = choose|j: int| 0 <= j < list.len() && list[j] == x;
        assert(all.contains(list[j]));
    }
    assert(list.to_set().subset_of(all));
    vstd::set_lib::lemma_len_subset(list.to_set(), all);
}

/// Whether a checkpoint works on a background task.
pub open spec fn in_background(checkpoint: StoredCheckpointView) -> bool {
    match checkpoint.active_execution {
        Some(execution) => execution.background_task() is Some,
        None => false,
    }
}

/// Whether a checkpoint waits for a tool approval.
pub open spec fn awaits_approval(checkpoint: StoredCheckpointView) -> bool {
    match checkpoint.resume_point {
        StoredResumePointView::PendingApproval { pending_approval_calls, .. } =>
            pending_approval_calls.len() > 0,
        _ => false,
    }
}

/// Which checkpoints are asked for.
#[derive(Clone, Copy, PartialEq, Eq, Structural)]
enum Selection {
    All,
    Background,
    AwaitingApproval,
}

/// Whether a checkpoint is among those asked for.
spec fn selects(
    selection: Selection,
    checkpoints: Map<Seq<char>, StoredCheckpointView>,
    session_id: Seq<char>,
    checkpoint: StoredCheckpointView,
) -> bool {
    match selection {
        Selection::All => true,
        Selection::Background => belongs(checkpoints, checkpoint, session_id) && in_background(
            checkpoint,
        ),
        Selection::AwaitingApproval => belongs(checkpoints, checkpoint, session_id)
            && awaits_approval(checkpoint),
    }
}

/// The checkpoints under some keys for which `wanted` holds, in the order of the keys.
pub open spec fn picked(
    checkpoints: Map<Seq<char>, StoredCheckpointView>,
    keys: Seq<Seq<char>>,
    wanted: spec_fn(StoredCheckpointView) -> bool,
) -> Seq<StoredCheckpointView>
    decreases keys.len(),
{
    if keys.len() == 0 {
        Seq::empty()
    } else {
        let before = picked(checkpoints, keys.drop_last(), wanted);
        let last = checkpoints[keys.last()];
        if wanted(last) {
            before.push(last)
        } else {
            before
        }
    }
}

/// All checkpoints for which `wanted` holds, in the order of their keys.
pub open spec fn selected(
    checkpoints: Map<Seq<char>, StoredCheckpointView>,
    wanted: spec_fn(StoredCheckpointView) -> bool,
) -> Seq<StoredCheckpointView> {
    picked(checkpoints, text::in_order(checkpoints.dom()), wanted)
}

/// Whether checkpoints stand in the order of their thread ids.
pub open spec fn by_thread(checkpoints: Seq<StoredCheckpointView>) -> bool {
    forall|i: int, j: int|
        0 <= i < j < checkpoints.len() ==> text::text_le(
            (#[trigger] checkpoints[i]).thread_id,
            (#[trigger] checkpoints[j]).thread_id,
        )
}

/// The checkpoints of a session that work on background tasks.
pub open spec fn background_of(
    checkpoints: Map<Seq<char>, StoredCheckpointView>,
    session_id: Seq<char>,
) -> spec_fn(StoredCheckpointView) -> bool {
    |checkpoint: StoredCheckpointView|
        belongs(checkpoints, checkpoint, session_id) && in_background(checkpoint)
}

/// The checkpoints of a session that wait for a tool approval.
pub open spec fn approvals_of(
    checkpoints: Map<Seq<char>, StoredCheckpointView>,
    session_id: Seq<char>,
) -> spec_fn(StoredCheckpointView) -> bool {
    |checkpoint: StoredCheckpointView|
        belongs(checkpoints, checkpoint, session_id) && awaits_approval(checkpoint)
}

/// Every checkpoint.
pub open spec fn any_checkpoint() -> spec_fn(StoredCheckpointView) -> bool {
    |checkpoint: StoredCheckpointView| true
}

/// Order checkpoints by their thread ids.
fn sort_by_thread(checkpoints: Vec<StoredCheckpoint>) -> (res: Vec<StoredCheckpoint>)
    ensures
        by_thread(res.deep_view()),
        res.deep_view().to_multiset() == checkpoints.deep_view().to_multiset(),
{
    let mut sorted: Vec<StoredCheckpoint> = Vec::new();
    let ghost input = checkpoints.deep_view();
    let n: usize = checkpoints.len();
    let mut i: usize = 0;
    proof {
        text::lemma_text_order_is_total();
        assert(sorted.deep_view() =~= input.take(0));
    }
    while i < n
        invariant
            i <= n,
            n == checkpoints@.len(),
            input == checkpoints.deep_view(),
            vstd::relations::total_ordering(text::text_order()),
            by_thread(sorted.deep_view()),
            sorted.deep_view().to_multiset() == input.take(i as int).to_multiset(),
        decreases n - i,
    {
        let checkpoint = checkpoints[i].clone();
        let ghost next = checkpoint@;
        assert(input[i as int] == next);
        let mut at: usize = sorted.len();
        let ghost before = sorted.deep_view();
        while at > 0 && !text::text_not_after(
            sorted[at - 1].thread_id.as_str(),
            checkpoint.thread_id.as_str(),
        )
            invariant
                at <= sorted@.len(),
                before == sorted.deep_view(),
                next == checkpoint@,
                forall|j: int|
                    at <= j < before.len() ==> !text::text_le(
                        (#[trigger] before[j]).thread_id,
                        next.thread_id,
                    ),
            decreases at,
        {
            assert(before[at - 1] == sorted@[at - 1]@);
            at -= 1;
        }
        sorted.insert(at, checkpoint);
        proof {
            let order = text::text_order();
            let all = sorted.deep_view();
            assert(all =~= before.insert(at as int, next));
            assert forall|a: int, b: int| 0 <= a < b < all.len() implies text::text_le(
                (#[trigger] all[a]).thread_id,
                (#[trigger] all[b]).thread_id,
            ) by {
                if a < at && b < at {
                    assert(all[a] == before[a] && all[b] == before[b]);
                } else if a < at && b == at {
                    assert(all[a] == before[a]);
                    assert(order(before[at - 1].thread_id, next.thread_id));
                    if a < at - 1 {
                        assert(order(before[a].thread_id, before[at - 1].thread_id));
                    }
                } else if a < at {
                    assert(all[a] == before[a] && all[b] == before[b - 1]);
                } else if a == at {
                    assert(all[b] == before[b - 1]);
                    assert(order(next.thread_id, before[b - 1].thread_id) || order(
                        before[b - 1].thread_id,
                        next.thread_id,
                    ));
                } else {
                    assert(all[a] == before[a - 1] && all[b] == before[b - 1]);
                }
            }
            assert(input.take(i + 1) =~= input.take(i as int).push(next));
            vstd::seq_lib::to_multiset_build(input.take(i as int), next);
            vstd::seq_lib::to_multiset_insert(before, at as int, next);
        }
        i += 1;
    }
    assert(input.take(n as int) =~= input);
    sorted
}

impl MemoryStorage {
    /// A storage that holds nothing.
    pub fn new() -> (res: Self)
        ensures
            res@ == StorageView::empty(),
    {
        let res = MemoryStorage {
            checkpoints: StringMap::new(),
            snapshots: StringMap::new(),
            aborted: Vec::new(),
            notice_receipts: Vec::new(),
        };
        assert(res.checkpoints.deep_view() =~= Map::empty());
        assert(res.snapshots.deep_view() =~= Map::empty());
        assert(res.aborted.deep_view() =~= Seq::empty());
        assert(res.notice_receipts.deep_view().to_set() =~= Set::empty());
        res
    }

    /// The checkpoints asked for, in the order of their keys.
    fn select(&self, selection: Selection, session_id: &str) -> (res: Vec<StoredCheckpoint>)
        ensures
            self@.checkpoints.dom().finite(),
            res.deep_view() == selected(
                self@.checkpoints,
                |checkpoint: StoredCheckpointView|
                    selects(selection, self@.checkpoints, session_id@, checkpoint),
            ),
    {
        let ghost tree = self@.checkpoints;
        let ghost wanted = |checkpoint: StoredCheckpointView|
            selects(selection, tree, session_id@, checkpoint);
        let keys = self.checkpoints.keys();
        let ghost order = keys.deep_view();
        proof {
            text::lemma_in_order(self.checkpoints@.dom());
            assert(tree.dom() =~= self.checkpoints@.dom());
        }
        let mut found: Vec<StoredCheckpoint> = Vec::new();
        let n: usize = keys.len();
        let mut i: usize = 0;
        assert(found.deep_view() =~= picked(tree, order.take(0), wanted));
        while i < n
            invariant
                i <= n,
                n == keys@.len(),
                order == keys.deep_view(),
                tree == self.checkpoints.deep_view(),
                order.to_set() == self.checkpoints@.dom(),
                wanted == (|checkpoint: StoredCheckpointView|
                    selects(selection, tree, session_id@, checkpoint)),
                found.deep_view() == picked(tree, order.take(i as int), wanted),
            decreases n - i,
        {
            let ghost before = found.deep_view();
            proof {
                assert(order.take(i + 1).drop_last() =~= order.take(i as int));
                assert(order.take(i + 1).last() == keys@[i as int]@);
                assert(order[i as int] == keys@[i as int]@);
                assert(order.to_set().contains(order[i as int]));
            }
            match self.checkpoints.get(keys[i].as_str()) {
                Some(checkpoint) => {
                    assert(tree[keys@[i as int]@] == checkpoint@);
                    let chosen = match selection {
                        Selection::All => true,
                        Selection::Background => works_in_background(checkpoint)
                            && belongs_to_session(checkpoint, &self.checkpoints, session_id),
                        Selection::AwaitingApproval => waits_for_approval(checkpoint)
                            && belongs_to_session(checkpoint, &self.checkpoints, session_id),
                    };
                    if chosen {
                        found.push(checkpoint.clone());
                        assert(found.deep_view() =~= before.push(checkpoint@));
                    }
                },
                None => {},
            }
            i += 1;
        }
        assert(order.take(n as int) =~= order);
        found
    }

    /// Every checkpoint written so far, ordered by thread id. For a look at a session as a whole (its
    /// thread tree), where the caller cannot name the threads up front because their ids are derived.
    pub fn all_checkpoints(&self) -> (res: Vec<StoredCheckpoint>)
        ensures
            by_thread(res.deep_view()),
            res.deep_view().to_multiset() == selected(
                self@.checkpoints,
                any_checkpoint(),
            ).to_multiset(),
    {
        let found = self.select(Selection::All, "");
        proof {
            lemma_same_selection(
                self@.checkpoints,
                text::in_order(self@.checkpoints.dom()),
                |checkpoint: StoredCheckpointView|
                    selects(Selection::All, self@.checkpoints, ""@, checkpoint),
                any_checkpoint(),
            );
        }
        sort_by_thread(found)
    }

    /// Whether an invocation was aborted.
    fn is_aborted(&self, thread_id: &str, invocation_id: &str) -> (res: bool)
        ensures
            res == self@.aborted.contains(
                ScopeMemberView { thread_id: thread_id@, invocation_id: invocation_id@ },
            ),
    {
        let ghost member = ScopeMemberView {
            thread_id: thread_id@,
            invocation_id: invocation_id@,
        };
        let n: usize = self.aborted.len();
        let mut i: usize = 0;
        while i < n
            invariant
                i <= n,
                n == self.aborted@.len(),
                member == (ScopeMemberView {
                    thread_id: thread_id@,
                    invocation_id: invocation_id@,
                }),
                forall|k: int| 0 <= k < i ==> self@.aborted[k] != member,
            decreases n - i,
        {
            assert(self@.aborted[i as int] == self.aborted@[i as int]@);
            if text::same_text(self.aborted[i].thread_id.as_str(), thread_id)
                && text::same_text(self.aborted[i].invocation_id.as_str(), invocation_id) {
                assert(self@.aborted[i as int] =~= member);
                return true;
            }
            i += 1;
        }
        false
    }
}

proof fn lemma_same_selection(
    checkpoints: Map<Seq<char>, StoredCheckpointView>,
    keys: Seq<Seq<char>>,
    first: spec_fn(StoredCheckpointView) -> bool,
    second: spec_fn(StoredCheckpointView) -> bool,
)
    requires
        forall|checkpoint: StoredCheckpointView| #[trigger] first(checkpoint) == second(checkpoint),
    ensures
        picked(checkpoints, keys, first) == picked(checkpoints, keys, second),
    decreases keys.len(),
{
    if keys.len() > 0 {
        lemma_same_selection(checkpoints, keys.drop_last(), first, second);
    }
}

/// Whether a checkpoint works on a background task.
pub fn works_in_background(checkpoint: &StoredCheckpoint) -> (res: bool)
    ensures
        res == in_background(checkpoint@),
{
    match &checkpoint.active_execution {
        Some(execution) => execution.background_task().is_some(),
        None => false,
    }
}

/// Whether a checkpoint waits for a tool approval.
fn waits_for_approval(checkpoint: &StoredCheckpoint) -> (res: bool)
    ensures
        res == awaits_approval(checkpoint@),
{
    match &checkpoint.resume_point {
        StoredResumePoint::PendingApproval { pending_approval_calls, .. } =>
            pending_approval_calls.len() > 0,
        _ => false,
    }
}

/// The invocation that works on each thread.
pub open spec fn active_invocations(checkpoints: Map<Seq<char>, StoredCheckpointView>) -> Map<
    Seq<char>,
    Seq<char>,
> {
    Map::new(
        |thread: Seq<char>|
            checkpoints.contains_key(thread) && checkpoints[thread].active_execution is Some,
        |thread: Seq<char>| checkpoints[thread].active_execution->0.invocation_id,
    )
}

/// Whether a checkpoint works on this background task.
pub open spec fn works_for(checkpoint: StoredCheckpointView, task_id: Seq<char>) -> bool {
    match checkpoint.active_execution {
        Some(execution) => execution.background_task() == Some(task_id),
        None => false,
    }
}

/// Whether an abort closes off a checkpoint: one of its members works on the thread, on behalf of the
/// aborted task.
pub open spec fn abort_reaches(
    members: Seq<ScopeMemberView>,
    task_id: Seq<char>,
    thread: Seq<char>,
    checkpoint: StoredCheckpointView,
) -> bool {
    &&& exists|k: int| 0 <= k < members.len() && (#[trigger] members[k]).thread_id == thread
    &&& works_for(checkpoint, task_id)
}

proof fn lemma_one_more_member(
    members: Seq<ScopeMemberView>,
    member: ScopeMemberView,
    task_id: Seq<char>,
    thread: Seq<char>,
    checkpoint: StoredCheckpointView,
)
    ensures
        abort_reaches(members.push(member), task_id, thread, checkpoint) == (abort_reaches(
            members,
            task_id,
            thread,
            checkpoint,
        ) || (thread == member.thread_id && works_for(checkpoint, task_id))),
{
    let more = members.push(member);
    if abort_reaches(members, task_id, thread, checkpoint) {
        let k = choose|k: int| 0 <= k < members.len() && (#[trigger] members[k]).thread_id == thread;
        assert(more[k].thread_id == thread);
    }
    if thread == member.thread_id {
        assert(more[members.len() as int].thread_id == thread);
    }
    if abort_reaches(more, task_id, thread, checkpoint) {
        let k = choose|k: int| 0 <= k < more.len() && (#[trigger] more[k]).thread_id == thread;
        if k < members.len() {
            assert(members[k].thread_id == thread);
        }
    }
}

/// Whether a storage went from `before` to `after` by an abort: its members are remembered as aborted,
/// the threads they work on for the task are closed off, every other thread is as it was, and what
/// they left in the snapshots is gone.
pub open spec fn scope_aborted(before: StorageView, scope: ScopeAbortView, after: StorageView) ->
    bool {
    &&& after.aborted == before.aborted + scope.members
    &&& after.receipts == before.receipts
    &&& after.checkpoints.dom() == before.checkpoints.dom()
    &&& forall|thread: Seq<char>| #[trigger]
        before.checkpoints.contains_key(thread) ==> if abort_reaches(
            scope.members,
            scope.task_id,
            thread,
            before.checkpoints[thread],
        ) {
            execution::closed_off(
                before.checkpoints[thread],
                after.checkpoints[thread],
                scope.reason,
            )
        } else {
            after.checkpoints[thread] == before.checkpoints[thread]
        }
    &&& after.snapshots == before.snapshots.map_values(
        |snapshot: RuntimeSnapshotView|
            execution::fenced_snapshot(snapshot, scope.members, Map::empty()),
    )
}

impl MemoryStorage {
    /// The invocation that works on each thread.
    fn active(&self) -> (res: StringMap<String>)
        ensures
            res.deep_view() == active_invocations(self@.checkpoints),
    {
        let ghost tree = self@.checkpoints;
        let keys = self.checkpoints.keys();
        let ghost order = keys.deep_view();
        proof {
            text::lemma_in_order(self.checkpoints@.dom());
        }
        let mut active: StringMap<String> = StringMap::new();
        let n: usize = keys.len();
        let mut i: usize = 0;
        while i < n
            invariant
                i <= n,
                n == keys@.len(),
                order == keys.deep_view(),
                tree == self.checkpoints.deep_view(),
                order.to_set() == self.checkpoints@.dom(),
                forall|thread: Seq<char>| #[trigger]
                    active@.contains_key(thread) <==> (order.take(i as int).contains(thread)
                        && tree[thread].active_execution is Some),
                forall|thread: Seq<char>| #[trigger]
                    active@.contains_key(thread) ==> active@[thread]@
                        == tree[thread].active_execution->0.invocation_id,
            decreases n - i,
        {
            proof {
                assert(order[i as int] == keys@[i as int]@);
                assert(order.to_set().contains(order[i as int]));
                assert(order.take(i + 1) =~= order.take(i as int).push(order[i as int]));
                assert forall|thread: Seq<char>| #[trigger]
                    order.take(i + 1).contains(thread) == (order.take(i as int).contains(thread)
                        || thread == order[i as int]) by {
                    lists::lemma_push_holds(order.take(i as int), order[i as int], thread);
                }
                assert(self.checkpoints@.contains_key(order[i as int]));
            }
            match self.checkpoints.get(keys[i].as_str()) {
                Some(checkpoint) => {
                    assert(tree[keys@[i as int]@] == checkpoint@);
                    match &checkpoint.active_execution {
                        Some(execution) => {
                            active.insert(keys[i].clone(), execution.invocation_id.clone());
                        },
                        None => {},
                    }
                },
                None => {},
            }
            i += 1;
        }
        proof {
            assert(order.take(n as int) =~= order);
            assert forall|thread: Seq<char>|
                active.deep_view().contains_key(thread) == active_invocations(tree).contains_key(
                    thread,
                ) by {
                assert(order.to_set().contains(thread) == order.contains(thread));
            }
            assert(active.deep_view() =~= active_invocations(tree));
        }
        active
    }

    /// Close off what one member of an aborted scope works on.
    fn abort_member(&mut self, member: &ScopeMember, task_id: &TaskId, reason: &str)
        ensures
            final(self)@.aborted == old(self)@.aborted.push(member@),
            final(self)@.receipts == old(self)@.receipts,
            final(self)@.snapshots == old(self)@.snapshots,
            final(self)@.checkpoints.dom() == old(self)@.checkpoints.dom(),
            forall|thread: Seq<char>| #[trigger]
                old(self)@.checkpoints.contains_key(thread) ==> if thread == member@.thread_id
                    && works_for(old(self)@.checkpoints[thread], task_id@) {
                    execution::closed_off(
                        old(self)@.checkpoints[thread],
                        final(self)@.checkpoints[thread],
                        reason@,
                    )
                } else {
                    final(self)@.checkpoints[thread] == old(self)@.checkpoints[thread]
                },
    {
        let ghost before = self@;
        self.aborted.push(member.clone());
        assert(self@.aborted =~= before.aborted.push(member@));
        let reached = match self.checkpoints.get(member.thread_id.as_str()) {
            Some(checkpoint) => match &checkpoint.active_execution {
                Some(execution) => match execution.background_task() {
                    Some(task) => text::same_text(task.id.as_str(), task_id.id.as_str()),
                    None => false,
                },
                None => false,
            },
            None => false,
        };
        if reached {
            match self.checkpoints.get(member.thread_id.as_str()) {
                Some(checkpoint) => {
                    let mut changed = checkpoint.clone();
                    execution::abort_checkpoint(&mut changed, reason);
                    self.checkpoints.insert(member.thread_id.clone(), changed);
                    assert(self@.checkpoints =~= before.checkpoints.insert(
                        member@.thread_id,
                        changed@,
                    ));
                    assert(self@.checkpoints.dom() =~= before.checkpoints.dom());
                },
                None => {},
            }
        }
    }

    /// Remove what aborted invocations left in the snapshots.
    fn fence_snapshots(&mut self, members: &Vec<ScopeMember>)
        ensures
            final(self)@ == (StorageView {
                snapshots: old(self)@.snapshots.map_values(
                    |snapshot: RuntimeSnapshotView|
                        execution::fenced_snapshot(snapshot, members.deep_view(), Map::empty()),
                ),
                ..old(self)@
            }),
    {
        let ghost before = self@;
        let ghost removed = members.deep_view();
        let keys = self.snapshots.keys();
        let ghost order = keys.deep_view();
        proof {
            text::lemma_in_order(self.snapshots@.dom());
        }
        let n: usize = keys.len();
        let mut i: usize = 0;
        while i < n
            invariant
                i <= n,
                n == keys@.len(),
                order == keys.deep_view(),
                removed == members.deep_view(),
                order.no_duplicates(),
                order.to_set() == before.snapshots.dom(),
                self@.checkpoints == before.checkpoints,
                self@.aborted == before.aborted,
                self@.receipts == before.receipts,
                self@.snapshots.dom() == before.snapshots.dom(),
                forall|key: Seq<char>| #[trigger]
                    before.snapshots.contains_key(key) ==> self@.snapshots[key] == (if order.take(
                        i as int,
                    ).contains(key) {
                        execution::fenced_snapshot(before.snapshots[key], removed, Map::empty())
                    } else {
                        before.snapshots[key]
                    }),
            decreases n - i,
        {
            let ghost key = keys@[i as int]@;
            proof {
                assert(order[i as int] == key);
                assert(order.to_set().contains(key));
                assert(order.take(i + 1) =~= order.take(i as int).push(key));
                assert forall|other: Seq<char>|
                    order.take(i + 1).contains(other) == (order.take(i as int).contains(other)
                        || other == key) by {
                    lists::lemma_push_holds(order.take(i as int), key, other);
                }
                assert(!order.take(i as int).contains(key));
                assert(before.snapshots.contains_key(key));
            }
            match self.snapshots.get(keys[i].as_str()) {
                Some(snapshot) => {
                    let mut changed = snapshot.clone();
                    assert(self@.snapshots[key] == changed@);
                    execution::remove_scope_messages(&mut changed, members);
                    let ghost stored = self@.snapshots;
                    self.snapshots.insert(keys[i].clone(), changed);
                    assert(self@.snapshots =~= stored.insert(key, changed@));
                    assert(self@.snapshots.dom() =~= before.snapshots.dom());
                },
                None => {},
            }
            i += 1;
        }
        proof {
            assert(order.take(n as int) =~= order);
            let fence = |snapshot: RuntimeSnapshotView|
                execution::fenced_snapshot(snapshot, removed, Map::empty());
            assert forall|key: Seq<char>| before.snapshots.contains_key(key) implies #[trigger]
                self@.snapshots[key] == before.snapshots.map_values(fence)[key] by {
                assert(order.to_set().contains(key));
            }
            assert(self@.snapshots =~= before.snapshots.map_values(fence));
        }
    }
}

impl Default for MemoryStorage {
    fn default() -> (res: Self)
        ensures
            res@ == StorageView::empty(),
    {
        MemoryStorage::new()
    }
}

impl SessionStorage for MemoryStorage {
    fn has_notice_receipt(&self, task_id: &TaskId) -> (res: Result<bool, String>)
        ensures
            res == Ok::<bool, String>(self@.receipts.contains(task_id@)),
    {
        let n: usize = self.notice_receipts.len();
        let mut i: usize = 0;
        while i < n
            invariant
                i <= n,
                n == self.notice_receipts@.len(),
                forall|k: int| 0 <= k < i ==> self.notice_receipts.deep_view()[k] != task_id@,
            decreases n - i,
        {
            assert(self.notice_receipts.deep_view()[i as int] == self.notice_receipts@[i as int]@);
            if text::same_text(self.notice_receipts[i].id.as_str(), task_id.id.as_str()) {
                assert(self.notice_receipts.deep_view().contains(task_id@));
                return Ok(true);
            }
            i += 1;
        }
        Ok(false)
    }

    fn admit_task_notice(&mut self, task_id: TaskId, checkpoint: StoredCheckpoint) -> (res: Result<
        (),
        String,
    >)
        ensures
            res is Ok,
            final(self)@ == old(self)@.with_notice(task_id@, checkpoint@),
    {
        let ghost before = self@;
        match self.has_notice_receipt(&task_id) {
            Ok(false) => {
                let ghost receipts = self.notice_receipts.deep_view();
                self.notice_receipts.push(task_id);
                assert(self.notice_receipts.deep_view() =~= receipts.push(task_id@));
                assert(self@.receipts =~= before.receipts.insert(task_id@)) by {
                    lists::lemma_push_to_set(receipts, task_id@);
                }
                let thread_id = checkpoint.thread_id.clone();
                self.checkpoints.insert(thread_id, checkpoint);
                assert(self@.checkpoints =~= before.checkpoints.insert(
                    checkpoint@.thread_id,
                    checkpoint@,
                ));
            },
            _ => {},
        }
        Ok(())
    }

    fn load_background_checkpoints(&self, session_id: &str) -> (res: Result<
        Vec<StoredCheckpoint>,
        String,
    >)
        ensures
            match res {
                Ok(found) => found.deep_view() == selected(
                    self@.checkpoints,
                    background_of(self@.checkpoints, session_id@),
                ),
                Err(_) => false,
            },
    {
        let found = self.select(Selection::Background, session_id);
        proof {
            lemma_same_selection(
                self@.checkpoints,
                text::in_order(self@.checkpoints.dom()),
                |checkpoint: StoredCheckpointView|
                    selects(Selection::Background, self@.checkpoints, session_id@, checkpoint),
                background_of(self@.checkpoints, session_id@),
            );
        }
        Ok(found)
    }

    fn abort_scope(&mut self, scope: ScopeAbort) -> (res: Result<CleanupReceipt, String>)
        ensures
            match res {
                Ok(receipt) => receipt@.task_id == scope@.task_id,
                Err(_) => false,
            },
            scope_aborted(old(self)@, scope@, final(self)@),
    {
        let ghost before = self@;
        let ghost asked = scope@;
        let n: usize = scope.members.len();
        let mut i: usize = 0;
        assert(before.aborted + asked.members.take(0) =~= before.aborted);
        while i < n
            invariant
                i <= n,
                n == scope.members@.len(),
                asked == scope@,
                self@.aborted == before.aborted + asked.members.take(i as int),
                self@.receipts == before.receipts,
                self@.snapshots == before.snapshots,
                self@.checkpoints.dom() == before.checkpoints.dom(),
                forall|thread: Seq<char>| #[trigger]
                    before.checkpoints.contains_key(thread) ==> if abort_reaches(
                        asked.members.take(i as int),
                        asked.task_id,
                        thread,
                        before.checkpoints[thread],
                    ) {
                        execution::closed_off(
                            before.checkpoints[thread],
                            self@.checkpoints[thread],
                            asked.reason,
                        )
                    } else {
                        self@.checkpoints[thread] == before.checkpoints[thread]
                    },
            decreases n - i,
        {
            let ghost reached = self@.checkpoints;
            let ghost done = asked.members.take(i as int);
            let ghost more = asked.members.take(i + 1);
            let ghost member = scope.members@[i as int]@;
            self.abort_member(&scope.members[i], &scope.task_id, scope.reason.as_str());
            proof {
                assert(more =~= done.push(member));
                assert(self@.aborted =~= before.aborted + more);
                assert forall|thread: Seq<char>| #[trigger]
                    before.checkpoints.contains_key(thread) implies if abort_reaches(
                    more,
                    asked.task_id,
                    thread,
                    before.checkpoints[thread],
                ) {
                    execution::closed_off(
                        before.checkpoints[thread],
                        self@.checkpoints[thread],
                        asked.reason,
                    )
                } else {
                    self@.checkpoints[thread] == before.checkpoints[thread]
                } by {
                    assert(reached.contains_key(thread));
                    lemma_one_more_member(
                        done,
                        member,
                        asked.task_id,
                        thread,
                        before.checkpoints[thread],
                    );
                }
            }
            i += 1;
        }
        assert(asked.members.take(n as int) =~= asked.members);
        self.fence_snapshots(&scope.members);
        Ok(CleanupReceipt { task_id: scope.task_id })
    }

    fn save_execution_checkpoint(
        &mut self,
        identity: ExecutionIdentity,
        checkpoint: StoredCheckpoint,
    ) -> (res: Result<(), String>)
        ensures
            match res {
                Ok(_) => {
                    &&& !old(self)@.aborted.contains(as_member(identity@))
                    &&& final(self)@ == old(self)@.with_thread(identity@.thread_id, checkpoint@)
                },
                Err(reason) => {
                    &&& old(self)@.aborted.contains(as_member(identity@))
                    &&& reason@ == "execution was aborted"@
                    &&& final(self)@ == old(self)@
                },
            },
    {
        let ghost before = self@;
        if self.is_aborted(identity.thread_id.as_str(), identity.invocation_id.as_str()) {
            return Err("execution was aborted".to_owned());
        }
        self.checkpoints.insert(identity.thread_id, checkpoint);
        assert(self@.checkpoints =~= before.checkpoints.insert(identity@.thread_id, checkpoint@));
        Ok(())
    }

    fn save_checkpoint(&mut self, thread_id: String, checkpoint: StoredCheckpoint) -> (res: Result<
        (),
        String,
    >)
        ensures
            res is Ok,
            final(self)@ == old(self)@.with_thread(thread_id@, checkpoint@),
    {
        let ghost before = self@;
        self.checkpoints.insert(thread_id, checkpoint);
        assert(self@.checkpoints =~= before.checkpoints.insert(thread_id@, checkpoint@));
        Ok(())
    }

    fn load_checkpoint(&self, thread_id: &str) -> (res: Result<Option<StoredCheckpoint>, String>)
        ensures
            res matches Ok(found) && found.deep_view() == self@.thread(thread_id@),
    {
        match self.checkpoints.get(thread_id) {
            Some(checkpoint) => {
                assert(self@.checkpoints[thread_id@] == checkpoint@);
                Ok(Some(checkpoint.clone()))
            },
            None => Ok(None),
        }
    }

    fn load_pending_approval_checkpoints(&self, session_id: &str) -> (res: Result<
        Vec<StoredCheckpoint>,
        String,
    >)
        ensures
            match res {
                Ok(found) => {
                    &&& by_thread(found.deep_view())
                    &&& found.deep_view().to_multiset() == selected(
                        self@.checkpoints,
                        approvals_of(self@.checkpoints, session_id@),
                    ).to_multiset()
                },
                Err(_) => false,
            },
    {
        let found = self.select(Selection::AwaitingApproval, session_id);
        proof {
            lemma_same_selection(
                self@.checkpoints,
                text::in_order(self@.checkpoints.dom()),
                |checkpoint: StoredCheckpointView|
                    selects(
                        Selection::AwaitingApproval,
                        self@.checkpoints,
                        session_id@,
                        checkpoint,
                    ),
                approvals_of(self@.checkpoints, session_id@),
            );
        }
        Ok(sort_by_thread(found))
    }

    fn save_session_snapshot(&mut self, session_id: String, snapshot: StoredRuntimeSnapshot) -> (res:
        Result<(), String>)
        ensures
            res is Ok,
            final(self)@ == old(self)@.with_session(session_id@, snapshot@),
    {
        let ghost before = self@;
        let active = self.active();
        let mut snapshot = snapshot;
        execution::fence_snapshot(&mut snapshot, &self.aborted, &active);
        self.snapshots.insert(session_id, snapshot);
        assert(self@.snapshots =~= before.snapshots.insert(session_id@, snapshot@));
        Ok(())
    }

    fn load_session_snapshot(&self, session_id: &str) -> (res: Result<
        Option<StoredRuntimeSnapshot>,
        String,
    >)
        ensures
            res matches Ok(found) && found.deep_view() == self@.session(session_id@),
    {
        match self.snapshots.get(session_id) {
            Some(snapshot) => {
                assert(self@.snapshots[session_id@] == snapshot@);
                Ok(Some(snapshot.clone()))
            },
            None => Ok(None),
        }
    }
}

/// An invocation as the member of a scope.
pub open spec fn as_member(identity: ExecutionIdentityView) -> ScopeMemberView {
    ScopeMemberView { thread_id: identity.thread_id, invocation_id: identity.invocation_id }
}

/// What is stored of a thread is what was stored last; other threads are left alone.
pub proof fn law_a_stored_thread_is_read_back(
    storage: StorageView,
    id: Seq<char>,
    checkpoint: StoredCheckpointView,
    other: Seq<char>,
)
    ensures
        storage.with_thread(id, checkpoint).thread(id) == Some(checkpoint),
        other != id ==> storage.with_thread(id, checkpoint).thread(other) == storage.thread(other),
        storage.with_thread(id, checkpoint).session(other) == storage.session(other),
{
}

/// A session's runtime state is read back as it was stored, without what aborted invocations left in it;
/// where nothing was aborted, it comes back unchanged.
pub proof fn law_a_stored_session_is_read_back(
    storage: StorageView,
    id: Seq<char>,
    snapshot: RuntimeSnapshotView,
    other: Seq<char>,
)
    ensures
        storage.with_session(id, snapshot).session(id) == Some(
            execution::fenced_snapshot(
                snapshot,
                storage.aborted,
                active_invocations(storage.checkpoints),
            ),
        ),
        storage.aborted.len() == 0 ==> storage.with_session(id, snapshot).session(id) == Some(
            snapshot,
        ),
        other != id ==> storage.with_session(id, snapshot).session(other) == storage.session(other),
        storage.with_session(id, snapshot).thread(other) == storage.thread(other),
{
    if storage.aborted.len() == 0 {
        assert(storage.aborted =~= Seq::empty());
        execution::law_a_fence_without_aborts_removes_nothing(
            snapshot,
            active_invocations(storage.checkpoints),
        );
    }
}

/// The notice about a background task is taken in once: the thread it changed is stored with it, and the
/// same notice a second time changes nothing, whatever it brings.
pub proof fn law_a_notice_is_taken_in_once(
    storage: StorageView,
    task: Seq<char>,
    first: StoredCheckpointView,
    second: StoredCheckpointView,
)
    ensures
        storage.with_notice(task, first).receipts.contains(task),
        storage.with_notice(task, first).with_notice(task, second) == storage.with_notice(
            task,
            first,
        ),
        !storage.receipts.contains(task) ==> storage.with_notice(task, first).thread(
            first.thread_id,
        ) == Some(first),
{
}

/// Once a scope is aborted, none of its invocations can write its thread again, however late the write
/// comes.
pub proof fn law_aborted_invocations_stay_shut_out(
    before: StorageView,
    scope: ScopeAbortView,
    after: StorageView,
    identity: ExecutionIdentityView,
)
    requires
        scope_aborted(before, scope, after),
        before.aborted.contains(as_member(identity)) || scope.members.contains(as_member(identity)),
    ensures
        after.aborted.contains(as_member(identity)),
{
    let member = as_member(identity);
    if before.aborted.contains(member) {
        let i = before.aborted.index_of(member);
        assert(after.aborted[i] == member);
    } else {
        let i = scope.members.index_of(member);
        assert(after.aborted[before.aborted.len() + i] == member);
    }
}

/// A scope can be aborted again without harm: where a first attempt was cut short after it took effect,
/// the second leaves every thread and every snapshot as the first left them.
pub proof fn law_aborting_again_changes_nothing(
    before: StorageView,
    scope: ScopeAbortView,
    once: StorageView,
    twice: StorageView,
)
    requires
        scope_aborted(before, scope, once),
        scope_aborted(once, scope, twice),
    ensures
        twice.checkpoints == once.checkpoints,
        twice.snapshots == once.snapshots,
        forall|member: ScopeMemberView|
            twice.aborted.contains(member) == #[trigger] once.aborted.contains(member),
{
    assert forall|thread: Seq<char>| #[trigger]
        once.checkpoints.contains_key(thread) implies twice.checkpoints[thread]
        == once.checkpoints[thread] by {
        assert(before.checkpoints.contains_key(thread));
    }
    assert(twice.checkpoints =~= once.checkpoints);
    assert forall|session: Seq<char>| #[trigger]
        once.snapshots.contains_key(session) implies twice.snapshots[session]
        == once.snapshots[session] by {
        assert(before.snapshots.contains_key(session));
        execution::law_fencing_again_changes_nothing(before.snapshots[session], scope.members, Map::empty());
    }
    assert(twice.snapshots =~= once.snapshots);
    assert forall|member: ScopeMemberView|
        twice.aborted.contains(member) == #[trigger] once.aborted.contains(member) by {
        if once.aborted.contains(member) {
            let i = once.aborted.index_of(member);
            assert(twice.aborted[i] == member);
        }
        if twice.aborted.contains(member) {
            let i = twice.aborted.index_of(member);
            if i < once.aborted.len() {
                assert(once.aborted[i] == member);
            } else {
                let j = i - once.aborted.len();
                assert(scope.members[j] == member);
                assert(once.aborted[before.aborted.len() + j] == member);
            }
        }
    }
}

}
