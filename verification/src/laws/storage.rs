//! What is stored and read back, and what aborting a scope leaves of it.

use crate::agent::{EnvelopeView, HistoryEntryView};
use crate::execution::{self, CleanupReceipt, ExecutionIdentity, ProcessGroupIdView, ScopeAbort};
use crate::ids::TurnId;
use crate::laws::recovery;
use crate::llm::{MessageView, ToolCallView, ToolOutputView};
use crate::persist::{
    RuntimeSnapshotView, StoredCheckpoint, StoredCheckpointView, StoredResumePointView,
    StoredRuntimeSnapshot,
};
use crate::runtime::storage::{self, MemoryStorage, SessionStorage};
use crate::string_map::StringMap;
use crate::task::{ScopeMember, ScopeMemberView, TaskId};
use crate::text;
use vstd::prelude::*;

verus! {

/// What was stored of a thread is read back as it was stored, and of every other thread what was stored
/// before.
pub proof fn law_a_checkpoint_is_read_back(
    storage: &mut MemoryStorage,
    thread: String,
    checkpoint: StoredCheckpoint,
    res: Result<(), String>,
    read: &str,
    before: Result<Option<StoredCheckpoint>, String>,
    after: Result<Option<StoredCheckpoint>, String>,
    now: &MemoryStorage,
    then: &MemoryStorage,
)
    requires
        call_ensures(MemoryStorage::save_checkpoint, (storage, thread, checkpoint), res),
        then@ == old(storage)@,
        now@ == final(storage)@,
        call_ensures(MemoryStorage::load_checkpoint, (then, read), before),
        call_ensures(MemoryStorage::load_checkpoint, (now, read), after),
    ensures
        res is Ok,
        read@ == thread@ ==> (after matches Ok(Some(found)) && found@ == checkpoint@),
        read@ != thread@ ==> (before matches Ok(had) && (after matches Ok(has) && had.deep_view()
            == has.deep_view())),
{
}

/// Whether an invocation is among the members.
pub open spec fn invokes(members: Seq<ScopeMemberView>, invocation: Seq<char>) -> bool {
    exists|k: int| 0 <= k < members.len() && (#[trigger] members[k]).invocation_id == invocation
}

/// Whether the work on a thread was aborted: one of its invocations was, and no later one works there.
pub open spec fn shut(
    members: Seq<ScopeMemberView>,
    working: Map<Seq<char>, Seq<char>>,
    thread: Seq<char>,
) -> bool {
    exists|k: int|
        0 <= k < members.len() && (#[trigger] members[k]).thread_id == thread && (
        working.contains_key(thread) ==> working[thread] == members[k].invocation_id)
}

/// Whether an envelope is what aborted work left behind: it carried the work out, answers it, or decides
/// on a thread whose work was aborted.
pub open spec fn left_behind(
    envelope: EnvelopeView,
    members: Seq<ScopeMemberView>,
    working: Map<Seq<char>, Seq<char>>,
) -> bool {
    ||| invokes(members, envelope.id)
    ||| envelope.reply_to is Some && invokes(members, envelope.reply_to->0)
    ||| envelope.body is Resume && shut(members, working, envelope.to.thread_id)
}

proof fn lemma_left_behind(
    envelope: EnvelopeView,
    members: Seq<ScopeMemberView>,
    working: Map<Seq<char>, Seq<char>>,
)
    ensures
        execution::survives(envelope, members, working) == !left_behind(envelope, members, working),
{
    if execution::of_aborted(envelope, members) {
        let k = choose|k: int|
            0 <= k < members.len() && (envelope.id == (#[trigger] members[k]).invocation_id
                || envelope.reply_to == Some(members[k].invocation_id));
        assert(members[k].invocation_id == envelope.id || envelope.reply_to == Some(
            members[k].invocation_id,
        ));
    }
    if invokes(members, envelope.id) {
        let k = choose|k: int|
            0 <= k < members.len() && (#[trigger] members[k]).invocation_id == envelope.id;
        assert(envelope.id == members[k].invocation_id);
    }
    if envelope.reply_to is Some && invokes(members, envelope.reply_to->0) {
        let k = choose|k: int|
            0 <= k < members.len() && (#[trigger] members[k]).invocation_id
                == envelope.reply_to->0;
        assert(envelope.reply_to == Some(members[k].invocation_id));
    }
}

proof fn lemma_surviving(
    list: Seq<EnvelopeView>,
    members: Seq<ScopeMemberView>,
    working: Map<Seq<char>, Seq<char>>,
    envelope: EnvelopeView,
)
    ensures
        execution::surviving(list, members, working).contains(envelope) <==> list.contains(envelope)
            && !left_behind(envelope, members, working),
    decreases list.len(),
{
    let kept = execution::surviving(list, members, working);
    if list.len() > 0 {
        let fewer = list.drop_last();
        let before = execution::surviving(fewer, members, working);
        let last = list.last();
        lemma_surviving(fewer, members, working, envelope);
        lemma_left_behind(last, members, working);
        assert(list =~= fewer.push(last));
        if list.contains(envelope) && !fewer.contains(envelope) {
            let i = list.index_of(envelope);
            if i < fewer.len() {
                assert(fewer[i] == envelope);
            }
            assert(last == envelope);
        }
        if fewer.contains(envelope) {
            let i = fewer.index_of(envelope);
            assert(list[i] == envelope);
        }
        if before.contains(envelope) {
            let i = before.index_of(envelope);
            assert(kept[i] == envelope);
        }
        if !left_behind(last, members, working) {
            assert(kept =~= before.push(last));
            assert(kept[kept.len() - 1] == last);
            assert(list[list.len() - 1] == last);
            if kept.contains(envelope) && !before.contains(envelope) {
                let i = kept.index_of(envelope);
                if i < before.len() {
                    assert(before[i] == envelope);
                }
            }
        }
    }
}

pub proof fn lemma_fenced(
    snapshot: RuntimeSnapshotView,
    members: Seq<ScopeMemberView>,
    working: Map<Seq<char>, Seq<char>>,
    envelope: EnvelopeView,
    thread: Seq<char>,
)
    ensures
        ({
            let after = execution::fenced_snapshot(snapshot, members, working);
            &&& left_behind(envelope, members, working) ==> recovery::gone(after, envelope)
            &&& !left_behind(envelope, members, working) ==> recovery::stays(
                snapshot,
                after,
                envelope,
            )
            &&& after.active_threads.contains_key(thread) <==> snapshot.active_threads.contains_key(
                thread,
            ) && !shut(members, working, thread)
            &&& after.active_threads.contains_key(thread) ==> after.active_threads[thread]
                == snapshot.active_threads[thread]
            &&& after.drained_envelopes.dom() == snapshot.drained_envelopes.dom()
            &&& after.agent_drained_envelopes.dom() == snapshot.agent_drained_envelopes.dom()
        }),
{
    let after = execution::fenced_snapshot(snapshot, members, working);
    assert(after.drained_envelopes.dom() =~= snapshot.drained_envelopes.dom());
    assert(after.agent_drained_envelopes.dom() =~= snapshot.agent_drained_envelopes.dom());
    assert forall|key: Seq<char>|
        #![trigger snapshot.drained_envelopes.contains_key(key)]
        recovery::holds(after.drained_envelopes, key, envelope) <==> recovery::holds(
            snapshot.drained_envelopes,
            key,
            envelope,
        ) && !left_behind(envelope, members, working) by {
        if snapshot.drained_envelopes.contains_key(key) {
            lemma_surviving(snapshot.drained_envelopes[key], members, working, envelope);
        }
    }
    assert forall|key: Seq<char>|
        #![trigger snapshot.agent_drained_envelopes.contains_key(key)]
        recovery::holds(after.agent_drained_envelopes, key, envelope) <==> recovery::holds(
            snapshot.agent_drained_envelopes,
            key,
            envelope,
        ) && !left_behind(envelope, members, working) by {
        if snapshot.agent_drained_envelopes.contains_key(key) {
            lemma_surviving(snapshot.agent_drained_envelopes[key], members, working, envelope);
        }
    }
    assert(execution::fenced(thread, members, working) == shut(members, working, thread));
    assert(after.active_threads.contains_key(thread) == after.active_threads.dom().contains(thread));
}

/// Fencing a snapshot removes exactly what aborted work left behind: its envelopes, the answers to it,
/// the decisions for it, and its threads as far as nothing later works on them. Everything else stays
/// where it was.
pub proof fn law_a_fence_removes_what_aborted_work_left(
    snapshot: &mut StoredRuntimeSnapshot,
    aborted: &Vec<ScopeMember>,
    working: &StringMap<String>,
    envelope: EnvelopeView,
    thread: Seq<char>,
)
    requires
        call_ensures(execution::fence_snapshot, (snapshot, aborted, working), ()),
    ensures
        left_behind(envelope, aborted.deep_view(), working.deep_view()) ==> recovery::gone(
            final(snapshot)@,
            envelope,
        ),
        !left_behind(envelope, aborted.deep_view(), working.deep_view()) ==> recovery::stays(
            old(snapshot)@,
            final(snapshot)@,
            envelope,
        ),
        final(snapshot)@.active_threads.contains_key(thread)
            <==> old(snapshot)@.active_threads.contains_key(thread) && !shut(
            aborted.deep_view(),
            working.deep_view(),
            thread,
        ),
        final(snapshot)@.active_threads.contains_key(thread)
            ==> final(snapshot)@.active_threads[thread] == old(snapshot)@.active_threads[thread],
{
    lemma_fenced(
        old(snapshot)@,
        aborted.deep_view(),
        working.deep_view(),
        envelope,
        thread,
    );
}

/// Removing a scope from a snapshot removes all that its members left, whatever works on their threads
/// now.
pub proof fn law_a_removed_scope_leaves_nothing_behind(
    snapshot: &mut StoredRuntimeSnapshot,
    members: &Vec<ScopeMember>,
    envelope: EnvelopeView,
    thread: Seq<char>,
)
    requires
        call_ensures(execution::remove_scope_messages, (snapshot, members), ()),
    ensures
        left_behind(envelope, members.deep_view(), Map::empty()) ==> recovery::gone(
            final(snapshot)@,
            envelope,
        ),
        !left_behind(envelope, members.deep_view(), Map::empty()) ==> recovery::stays(
            old(snapshot)@,
            final(snapshot)@,
            envelope,
        ),
        final(snapshot)@.active_threads.contains_key(thread)
            <==> old(snapshot)@.active_threads.contains_key(thread) && forall|k: int|
            0 <= k < members.deep_view().len() ==> (
            #[trigger] members.deep_view()[k]).thread_id != thread,
{
    lemma_fenced(old(snapshot)@, members.deep_view(), Map::empty(), envelope, thread);
    let none = Map::<Seq<char>, Seq<char>>::empty();
    if exists|k: int|
        0 <= k < members.deep_view().len() && (#[trigger] members.deep_view()[k]).thread_id
            == thread {
        assert(shut(members.deep_view(), none, thread));
    }
}

/// A session's runtime state is read back as it was stored but for what aborted work left in it, where
/// the work on a thread counts as later if its stored invocation was not aborted. Other sessions are left
/// alone.
pub proof fn law_a_session_is_read_back(
    storage: &mut MemoryStorage,
    session: String,
    snapshot: StoredRuntimeSnapshot,
    res: Result<(), String>,
    now: &MemoryStorage,
    then: &MemoryStorage,
    read: &str,
    before: Result<Option<StoredRuntimeSnapshot>, String>,
    after: Result<Option<StoredRuntimeSnapshot>, String>,
    working: Map<Seq<char>, Seq<char>>,
    envelope: EnvelopeView,
    thread: Seq<char>,
)
    requires
        call_ensures(MemoryStorage::save_session_snapshot, (storage, session, snapshot), res),
        then@ == old(storage)@,
        now@ == final(storage)@,
        call_ensures(MemoryStorage::load_session_snapshot, (then, read), before),
        call_ensures(MemoryStorage::load_session_snapshot, (now, read), after),
        forall|t: Seq<char>| #[trigger]
            working.contains_key(t) <==> old(storage)@.checkpoints.contains_key(t)
                && old(storage)@.checkpoints[t].active_execution is Some,
        forall|t: Seq<char>| #[trigger]
            working.contains_key(t) ==> working[t]
                == old(storage)@.checkpoints[t].active_execution->0.invocation_id,
    ensures
        res is Ok,
        final(storage)@.checkpoints == old(storage)@.checkpoints,
        read@ != session@ ==> (before matches Ok(had) && (after matches Ok(has) && had.deep_view()
            == has.deep_view())),
        read@ == session@ ==> (after matches Ok(Some(found)) && (left_behind(
            envelope,
            old(storage)@.aborted,
            working,
        ) ==> recovery::gone(found@, envelope)) && (!left_behind(
            envelope,
            old(storage)@.aborted,
            working,
        ) ==> recovery::stays(snapshot@, found@, envelope)) && (
        found@.active_threads.contains_key(thread) <==> snapshot@.active_threads.contains_key(
            thread,
        ) && !shut(old(storage)@.aborted, working, thread))),
{
    let active = storage::active_invocations(old(storage)@.checkpoints);
    assert forall|t: Seq<char>| active.contains_key(t) == #[trigger] working.contains_key(t) by {
        assert(active.contains_key(t) == active.dom().contains(t));
    }
    assert(active =~= working);
    lemma_fenced(snapshot@, old(storage)@.aborted, working, envelope, thread);
}

/// Whether a thread belongs to a session: it is the session's root or a child of it, or its parent is
/// stored and belongs to the session.
proof fn lemma_belongs(
    checkpoints: Map<Seq<char>, StoredCheckpointView>,
    checkpoint: StoredCheckpointView,
    session: Seq<char>,
    steps: nat,
)
    requires
        checkpoint.parent_thread_id is Some,
        checkpoints.contains_key(checkpoint.parent_thread_id->0),
    ensures
        storage::ancestor(checkpoints, checkpoint, steps + 1) == storage::ancestor(
            checkpoints,
            checkpoints[checkpoint.parent_thread_id->0],
            steps,
        ),
    decreases steps,
{
    reveal_with_fuel(storage::ancestor, 3);
    if steps > 0 {
        lemma_belongs(checkpoints, checkpoint, session, (steps - 1) as nat);
    }
}

/// A thread belongs to a session where it is the session's root, a child of the root, or a child of a
/// stored thread that belongs to it; without a stored parent nothing else does.
proof fn lemma_belonging(
    checkpoints: Map<Seq<char>, StoredCheckpointView>,
    checkpoint: StoredCheckpointView,
    session: Seq<char>,
)
    ensures
        checkpoint.thread_id == session || checkpoint.parent_thread_id == Some(session)
            ==> storage::belongs(checkpoints, checkpoint, session),
        checkpoint.parent_thread_id is Some && checkpoints.contains_key(
            checkpoint.parent_thread_id->0,
        ) && checkpoint.thread_id != session && checkpoint.parent_thread_id != Some(session) ==> (
        storage::belongs(checkpoints, checkpoint, session) <==> storage::belongs(
            checkpoints,
            checkpoints[checkpoint.parent_thread_id->0],
            session,
        )),
        checkpoint.thread_id != session && checkpoint.parent_thread_id != Some(session) && (
        checkpoint.parent_thread_id is None || !checkpoints.contains_key(
            checkpoint.parent_thread_id->0,
        )) ==> !storage::belongs(checkpoints, checkpoint, session),
{
    if checkpoint.thread_id == session || checkpoint.parent_thread_id == Some(session) {
        assert(storage::ancestor(checkpoints, checkpoint, 0) == Some(checkpoint));
    } else if checkpoint.parent_thread_id is Some && checkpoints.contains_key(
        checkpoint.parent_thread_id->0,
    ) {
        let parent = checkpoints[checkpoint.parent_thread_id->0];
        if storage::belongs(checkpoints, checkpoint, session) {
            let steps = choose|steps: nat|
                match #[trigger] storage::ancestor(checkpoints, checkpoint, steps) {
                    Some(found) => storage::touches_root(found, session),
                    None => false,
                };
            assert(steps > 0);
            lemma_belongs(checkpoints, checkpoint, session, (steps - 1) as nat);
        }
        if storage::belongs(checkpoints, parent, session) {
            let steps = choose|steps: nat|
                match #[trigger] storage::ancestor(checkpoints, parent, steps) {
                    Some(found) => storage::touches_root(found, session),
                    None => false,
                };
            lemma_belongs(checkpoints, checkpoint, session, steps);
        }
    } else {
        assert forall|steps: nat| steps > 0 implies (#[trigger] storage::ancestor(
            checkpoints,
            checkpoint,
            steps,
        )) is None by {
            lemma_orphan(checkpoints, checkpoint, steps);
        }
    }
}

proof fn lemma_orphan(
    checkpoints: Map<Seq<char>, StoredCheckpointView>,
    checkpoint: StoredCheckpointView,
    steps: nat,
)
    requires
        steps > 0,
        checkpoint.parent_thread_id is None || !checkpoints.contains_key(
            checkpoint.parent_thread_id->0,
        ),
    ensures
        storage::ancestor(checkpoints, checkpoint, steps) is None,
    decreases steps,
{
    if steps > 1 {
        lemma_orphan(checkpoints, checkpoint, (steps - 1) as nat);
    } else {
        assert(storage::ancestor(checkpoints, checkpoint, 0) == Some(checkpoint));
    }
}

proof fn lemma_picked(
    checkpoints: Map<Seq<char>, StoredCheckpointView>,
    keys: Seq<Seq<char>>,
    wanted: spec_fn(StoredCheckpointView) -> bool,
    thread: Seq<char>,
)
    requires
        keys.no_duplicates(),
        forall|i: int| 0 <= i < keys.len() ==> #[trigger] checkpoints.contains_key(keys[i]),
    ensures
        keys.contains(thread) && wanted(checkpoints[thread]) ==> storage::picked(
            checkpoints,
            keys,
            wanted,
        ).contains(checkpoints[thread]),
        forall|k: int|
            0 <= k < storage::picked(checkpoints, keys, wanted).len() ==> wanted(
                #[trigger] storage::picked(checkpoints, keys, wanted)[k],
            ) && exists|i: int|
                0 <= i < keys.len() && checkpoints[#[trigger] keys[i]] == storage::picked(
                    checkpoints,
                    keys,
                    wanted,
                )[k],
        storage::picked(checkpoints, keys, wanted).len() <= keys.len(),
    decreases keys.len(),
{
    let all = storage::picked(checkpoints, keys, wanted);
    if keys.len() > 0 {
        let fewer = keys.drop_last();
        let before = storage::picked(checkpoints, fewer, wanted);
        assert forall|i: int| 0 <= i < fewer.len() implies #[trigger] checkpoints.contains_key(
            fewer[i],
        ) by {
            assert(checkpoints.contains_key(keys[i]));
        }
        lemma_picked(checkpoints, fewer, wanted, thread);
        if keys.contains(thread) && wanted(checkpoints[thread]) {
            let i = keys.index_of(thread);
            if i < fewer.len() {
                assert(fewer[i] == thread);
                assert(before.contains(checkpoints[thread]));
                let k = before.index_of(checkpoints[thread]);
                assert(all[k] == checkpoints[thread]);
            } else {
                assert(all[all.len() - 1] == checkpoints[thread]);
            }
        }
        assert forall|k: int| 0 <= k < all.len() implies wanted(#[trigger] all[k]) && exists|i: int|
            0 <= i < keys.len() && checkpoints[#[trigger] keys[i]] == all[k] by {
            if k < before.len() {
                assert(before[k] == all[k]);
                let i = choose|i: int|
                    0 <= i < fewer.len() && checkpoints[#[trigger] fewer[i]] == before[k];
                assert(keys[i] == fewer[i]);
            } else {
                assert(checkpoints[keys[keys.len() - 1]] == all[k]);
            }
        }
    }
}

/// The threads that wait for approval are those of the session that are parked with calls to decide on,
/// whatever else is stored.
pub proof fn law_the_threads_that_wait_for_approval(
    storage: &MemoryStorage,
    session: &str,
    res: Result<Vec<StoredCheckpoint>, String>,
    thread: Seq<char>,
    k: int,
)
    requires
        call_ensures(MemoryStorage::load_pending_approval_checkpoints, (storage, session), res),
        storage@.checkpoints.dom().finite(),
    ensures
        res matches Ok(found) && {
            let stored = storage@.checkpoints[thread];
            &&& storage@.checkpoints.contains_key(thread) && (stored.thread_id == session@
                || stored.parent_thread_id == Some(session@))
                && (stored.resume_point matches StoredResumePointView::PendingApproval {
                pending_approval_calls,
                ..
            } && pending_approval_calls.len() > 0) ==> found.deep_view().contains(stored)
            &&& 0 <= k < found.deep_view().len() ==> (
            found.deep_view()[k].resume_point matches StoredResumePointView::PendingApproval {
                pending_approval_calls,
                ..
            } && pending_approval_calls.len() > 0) && exists|owner: Seq<char>|
                #![trigger storage@.checkpoints.contains_key(owner)]
                storage@.checkpoints.contains_key(owner) && storage@.checkpoints[owner]
                    == found.deep_view()[k] && storage::belongs(
                    storage@.checkpoints,
                    found.deep_view()[k],
                    session@,
                )
        },
{
    let checkpoints = storage@.checkpoints;
    let wanted = storage::approvals_of(checkpoints, session@);
    lemma_selection(checkpoints, wanted, thread);
    lemma_belonging(checkpoints, checkpoints[thread], session@);
    match res {
        Ok(found) => {
            let all = storage::selected(checkpoints, wanted);
            lemma_same_members(found.deep_view(), all, checkpoints[thread]);
            if 0 <= k < found.deep_view().len() {
                let one = found.deep_view()[k];
                lemma_same_members(found.deep_view(), all, one);
                assert(found.deep_view().contains(one));
                let i = all.index_of(one);
                assert(wanted(all[i]));
            }
        },
        Err(_) => {},
    }
}

proof fn lemma_same_members(
    first: Seq<StoredCheckpointView>,
    second: Seq<StoredCheckpointView>,
    one: StoredCheckpointView,
)
    requires
        first.to_multiset() == second.to_multiset(),
    ensures
        first.contains(one) == second.contains(one),
{
    broadcast use vstd::seq_lib::to_multiset_contains;

    assert(first.contains(one) == (first.to_multiset().count(one) > 0));
    assert(second.contains(one) == (second.to_multiset().count(one) > 0));
}

proof fn lemma_selection(
    checkpoints: Map<Seq<char>, StoredCheckpointView>,
    wanted: spec_fn(StoredCheckpointView) -> bool,
    thread: Seq<char>,
)
    requires
        checkpoints.dom().finite(),
    ensures
        checkpoints.contains_key(thread) && wanted(checkpoints[thread]) ==> storage::selected(
            checkpoints,
            wanted,
        ).contains(checkpoints[thread]),
        forall|k: int|
            0 <= k < storage::selected(checkpoints, wanted).len() ==> wanted(
                #[trigger] storage::selected(checkpoints, wanted)[k],
            ) && exists|owner: Seq<char>|
                #![trigger checkpoints.contains_key(owner)]
                checkpoints.contains_key(owner) && checkpoints[owner] == storage::selected(
                    checkpoints,
                    wanted,
                )[k],
{
    let keys = text::in_order(checkpoints.dom());
    let all = storage::selected(checkpoints, wanted);
    text::lemma_in_order(checkpoints.dom());
    assert forall|i: int| 0 <= i < keys.len() implies #[trigger] checkpoints.contains_key(
        keys[i],
    ) by {
        assert(keys.to_set().contains(keys[i]));
    }
    lemma_picked(checkpoints, keys, wanted, thread);
    if checkpoints.contains_key(thread) {
        assert(keys.to_set().contains(thread));
    }
    assert forall|k: int| 0 <= k < all.len() implies wanted(#[trigger] all[k]) && exists|
        owner: Seq<char>,
    |
        #![trigger checkpoints.contains_key(owner)]
        checkpoints.contains_key(owner) && checkpoints[owner] == all[k] by {
        let i = choose|i: int| 0 <= i < keys.len() && checkpoints[#[trigger] keys[i]] == all[k];
        assert(checkpoints.contains_key(keys[i]));
    }
}

/// The background threads of a session are those of it whose stored execution works for a background
/// task.
pub proof fn law_the_threads_that_work_in_the_background(
    storage: &MemoryStorage,
    session: &str,
    res: Result<Vec<StoredCheckpoint>, String>,
    thread: Seq<char>,
    k: int,
)
    requires
        call_ensures(MemoryStorage::load_background_checkpoints, (storage, session), res),
        storage@.checkpoints.dom().finite(),
    ensures
        res matches Ok(found) && {
            let stored = storage@.checkpoints[thread];
            &&& storage@.checkpoints.contains_key(thread) && (stored.thread_id == session@
                || stored.parent_thread_id == Some(session@)) && stored.active_execution is Some
                && stored.active_execution->0.scope is Background ==> found.deep_view().contains(
                stored,
            )
            &&& 0 <= k < found.deep_view().len() ==> found.deep_view()[k].active_execution is Some
                && found.deep_view()[k].active_execution->0.scope is Background && exists|
                owner: Seq<char>,
            |
                #![trigger storage@.checkpoints.contains_key(owner)]
                storage@.checkpoints.contains_key(owner) && storage@.checkpoints[owner]
                    == found.deep_view()[k] && storage::belongs(
                    storage@.checkpoints,
                    found.deep_view()[k],
                    session@,
                )
        },
{
    let checkpoints = storage@.checkpoints;
    let wanted = storage::background_of(checkpoints, session@);
    lemma_selection(checkpoints, wanted, thread);
    lemma_belonging(checkpoints, checkpoints[thread], session@);
}

/// A thread further down is in a listing of its session exactly where it qualifies and its stored parent
/// belongs to the session: belonging is passed on from parent to child.
pub proof fn law_belonging_is_passed_on(
    storage: &MemoryStorage,
    session: &str,
    res: Result<Vec<StoredCheckpoint>, String>,
    thread: Seq<char>,
)
    requires
        call_ensures(MemoryStorage::load_pending_approval_checkpoints, (storage, session), res),
        storage@.checkpoints.dom().finite(),
        storage@.checkpoints.contains_key(thread),
        (storage@.checkpoints[thread].resume_point matches StoredResumePointView::PendingApproval {
            pending_approval_calls,
            ..
        } && pending_approval_calls.len() > 0),
        storage@.checkpoints[thread].thread_id != session@,
        storage@.checkpoints[thread].parent_thread_id != Some(session@),
    ensures
        res matches Ok(found) && (found.deep_view().contains(storage@.checkpoints[thread]) <==> {
            &&& storage@.checkpoints[thread].parent_thread_id is Some
            &&& storage@.checkpoints.contains_key(
                storage@.checkpoints[thread].parent_thread_id->0,
            )
            &&& storage::belongs(
                storage@.checkpoints,
                storage@.checkpoints[storage@.checkpoints[thread].parent_thread_id->0],
                session@,
            )
        }),
{
    let checkpoints = storage@.checkpoints;
    let wanted = storage::approvals_of(checkpoints, session@);
    lemma_selection(checkpoints, wanted, thread);
    lemma_belonging(checkpoints, checkpoints[thread], session@);
    let all = storage::selected(checkpoints, wanted);
    if all.contains(checkpoints[thread]) {
        let k = all.index_of(checkpoints[thread]);
        assert(wanted(all[k]));
    }
    match res {
        Ok(found) => {
            lemma_same_members(found.deep_view(), all, checkpoints[thread]);
        },
        Err(_) => {},
    }
}

/// A thread works in the background exactly where its stored execution is one of a background task.
pub proof fn law_what_works_in_the_background(checkpoint: &StoredCheckpoint, res: bool)
    requires
        call_ensures(storage::works_in_background, (checkpoint,), res),
    ensures
        res <==> checkpoint@.active_execution is Some
            && checkpoint@.active_execution->0.scope is Background,
{
}

/// The notice of a task is stored with the thread it changed the first time, and changes nothing the
/// second time.
pub proof fn law_a_notice_is_stored_once(
    storage: &mut MemoryStorage,
    task: TaskId,
    checkpoint: StoredCheckpoint,
    res: Result<(), String>,
    now: &MemoryStorage,
    then: &MemoryStorage,
    asked: &TaskId,
    had: Result<bool, String>,
    has: Result<bool, String>,
)
    requires
        call_ensures(MemoryStorage::admit_task_notice, (storage, task, checkpoint), res),
        then@ == old(storage)@,
        now@ == final(storage)@,
        call_ensures(MemoryStorage::has_notice_receipt, (then, asked), had),
        call_ensures(MemoryStorage::has_notice_receipt, (now, asked), has),
    ensures
        res is Ok,
        asked@ == task@ ==> has == Ok::<bool, String>(true),
        asked@ != task@ ==> has == had,
        asked@ == task@ && had == Ok::<bool, String>(true) ==> final(storage)@ == old(storage)@,
        asked@ == task@ && had == Ok::<bool, String>(false) ==> {
            &&& final(storage)@.checkpoints == old(storage)@.checkpoints.insert(
                checkpoint@.thread_id,
                checkpoint@,
            )
            &&& final(storage)@.snapshots == old(storage)@.snapshots
            &&& final(storage)@.aborted == old(storage)@.aborted
        },
{
}

/// A write of an execution is taken exactly as long as it was not aborted, and lands on its own thread.
pub proof fn law_an_aborted_execution_writes_nothing(
    storage: &mut MemoryStorage,
    identity: ExecutionIdentity,
    checkpoint: StoredCheckpoint,
    res: Result<(), String>,
)
    requires
        call_ensures(
            MemoryStorage::save_execution_checkpoint,
            (storage, identity, checkpoint),
            res,
        ),
    ensures
        ({
            let aborted = exists|k: int|
                0 <= k < old(storage)@.aborted.len() && (
                #[trigger] old(storage)@.aborted[k]).thread_id == identity@.thread_id
                    && old(storage)@.aborted[k].invocation_id == identity@.invocation_id;
            &&& aborted ==> (res matches Err(reason) && reason@ == "execution was aborted"@)
                && final(storage)@ == old(storage)@
            &&& !aborted ==> res is Ok && final(storage)@.checkpoints
                == old(storage)@.checkpoints.insert(identity@.thread_id, checkpoint@)
                && final(storage)@.snapshots == old(storage)@.snapshots && final(storage)@.aborted
                == old(storage)@.aborted && final(storage)@.receipts == old(storage)@.receipts
        }),
{
    let member = storage::as_member(identity@);
    let all = old(storage)@.aborted;
    if exists|k: int|
        0 <= k < all.len() && (#[trigger] all[k]).thread_id == identity@.thread_id
            && all[k].invocation_id == identity@.invocation_id {
        let k = choose|k: int|
            0 <= k < all.len() && (#[trigger] all[k]).thread_id == identity@.thread_id
                && all[k].invocation_id == identity@.invocation_id;
        assert(all[k] == member);
        assert(all.contains(member));
    }
    if all.contains(member) {
        let k = all.index_of(member);
        assert(all[k].thread_id == identity@.thread_id);
    }
}

/// Whether a history asks for a call: an answer at some place carries it.
pub open spec fn asks(history: Seq<HistoryEntryView>, i: int, k: int, call: ToolCallView) -> bool {
    0 <= i < history.len() && (history[i].message matches MessageView::Assistant(assistant) && 0
        <= k < assistant.tool_calls.len() && assistant.tool_calls[k] == call)
}

/// Whether a history has a result for a call id after some place.
pub open spec fn has_result(history: Seq<HistoryEntryView>, i: int, id: Seq<char>) -> bool {
    exists|j: int|
        i < j < history.len() && (#[trigger] history[j]).message is Tool
            && history[j].message->Tool_0.id == id
}

/// Whether a history asks for a call id at one place only.
pub open spec fn asked_once(history: Seq<HistoryEntryView>, i: int, k: int, id: Seq<char>) -> bool {
    forall|j: int, l: int|
        0 <= j < history.len() && history[j].message is Assistant && 0 <= l
            < history[j].message->Assistant_0.tool_calls.len() && (
        #[trigger] history[j].message->Assistant_0.tool_calls[l]).id == id ==> j == i && l == k
}

/// Whether exactly one unanswered call carries an id, and it is this one.
spec fn only_pending(
    pending: Seq<execution::UnansweredCall>,
    turn: TurnId,
    call: ToolCallView,
) -> bool {
    exists|p: int|
        0 <= p < pending.len() && pending[p] == (execution::UnansweredCall { turn_id: turn, call })
            && forall|q: int|
            0 <= q < pending.len() && q != p ==> (#[trigger] pending[q]).call.id != call.id
}

spec fn none_pending(pending: Seq<execution::UnansweredCall>, id: Seq<char>) -> bool {
    forall|q: int| 0 <= q < pending.len() ==> (#[trigger] pending[q]).call.id != id
}

proof fn lemma_first_unanswered(pending: Seq<execution::UnansweredCall>, id: Seq<char>)
    ensures
        match execution::first_unanswered(pending, id) {
            Some(at) => 0 <= at < pending.len() && pending[at].call.id == id,
            None => none_pending(pending, id),
        },
    decreases pending.len(),
{
    if pending.len() > 0 && pending[0].call.id != id {
        let rest = pending.drop_first();
        lemma_first_unanswered(rest, id);
        if execution::first_unanswered(rest, id) is None {
            assert forall|q: int| 0 <= q < pending.len() implies (
            #[trigger] pending[q]).call.id != id by {
                if q > 0 {
                    assert(rest[q - 1].call.id != id);
                }
            }
        }
    }
}

proof fn lemma_unanswered(
    history: Seq<HistoryEntryView>,
    n: int,
    i: int,
    k: int,
    call: ToolCallView,
)
    requires
        0 <= n <= history.len(),
        asks(history, i, k, call),
        asked_once(history, i, k, call.id),
    ensures
        n <= i ==> none_pending(execution::unanswered(history.take(n)), call.id),
        i < n && !has_result(history.take(n), i, call.id) ==> only_pending(
            execution::unanswered(history.take(n)),
            history[i].turn_id,
            call,
        ),
        i < n && has_result(history.take(n), i, call.id) ==> none_pending(
            execution::unanswered(history.take(n)),
            call.id,
        ),
    decreases n,
{
    let part = history.take(n);
    let id = call.id;
    if n > 0 {
        lemma_unanswered(history, n - 1, i, k, call);
        assert(part.drop_last() =~= history.take(n - 1));
        let before = execution::unanswered(history.take(n - 1));
        let after = execution::unanswered(part);
        let entry = history[n - 1];
        assert(part.last() == entry);
        match entry.message {
            MessageView::Assistant(assistant) => {
                let added = execution::asked_calls(entry.turn_id, assistant.tool_calls);
                assert(after == before + added);
                assert forall|q: int| 0 <= q < added.len() implies added[q].call
                    == #[trigger] assistant.tool_calls[q] by {}
                if n - 1 == i {
                    assert(history[i].message->Assistant_0.tool_calls[k].id == id);
                    let p = before.len() + k;
                    assert(after[p] == (execution::UnansweredCall {
                        turn_id: entry.turn_id,
                        call,
                    }));
                    assert forall|q: int| 0 <= q < after.len() && q != p implies (
                    #[trigger] after[q]).call.id != id by {
                        if q < before.len() {
                            assert(before[q].call.id != id);
                        } else {
                            let l = q - before.len();
                            assert(history[i].message->Assistant_0.tool_calls[l]
                                == assistant.tool_calls[l]);
                        }
                    }
                    assert(!has_result(part, i, id)) by {
                        if has_result(part, i, id) {
                            let j = choose|j: int|
                                i < j < part.len() && (#[trigger] part[j]).message is Tool
                                    && part[j].message->Tool_0.id == id;
                        }
                    }
                    assert(only_pending(after, entry.turn_id, call));
                } else {
                    assert forall|q: int| 0 <= q < added.len() implies (
                    #[trigger] added[q]).call.id != id by {
                        assert(history[n - 1].message->Assistant_0.tool_calls[q]
                            == assistant.tool_calls[q]);
                    }
                    lemma_same_results(history, n, i, id);
                    if n - 1 > i && !has_result(history.take(n - 1), i, id) {
                        let p = choose|p: int|
                            0 <= p < before.len() && before[p] == (execution::UnansweredCall {
                                turn_id: history[i].turn_id,
                                call,
                            }) && forall|q: int|
                                0 <= q < before.len() && q != p ==> (
                                #[trigger] before[q]).call.id != call.id;
                        assert(after[p] == before[p]);
                        assert forall|q: int| 0 <= q < after.len() && q != p implies (
                        #[trigger] after[q]).call.id != id by {
                            if q < before.len() {
                                assert(before[q].call.id != id);
                            } else {
                                assert(added[q - before.len()].call.id != id);
                            }
                        }
                    } else {
                        assert forall|q: int| 0 <= q < after.len() implies (
                        #[trigger] after[q]).call.id != id by {
                            if q < before.len() {
                                assert(before[q].call.id != id);
                            } else {
                                assert(added[q - before.len()].call.id != id);
                            }
                        }
                    }
                }
            },
            MessageView::Tool(tool) => {
                lemma_first_unanswered(before, tool.id);
                let at = execution::first_unanswered(before, tool.id);
                if tool.id == id && i < n - 1 {
                    assert(part[n - 1].message is Tool && part[n - 1].message->Tool_0.id == id);
                    assert(has_result(part, i, id));
                    if has_result(history.take(n - 1), i, id) {
                        assert(none_pending(after, id)) by {
                            assert(at is None);
                        }
                    } else {
                        let p = choose|p: int|
                            0 <= p < before.len() && before[p] == (execution::UnansweredCall {
                                turn_id: history[i].turn_id,
                                call,
                            }) && forall|q: int|
                                0 <= q < before.len() && q != p ==> (
                                #[trigger] before[q]).call.id != call.id;
                        assert(before[p].call.id == id);
                        match at {
                            Some(found) => {
                                assert(found == p);
                                assert forall|q: int| 0 <= q < after.len() implies (
                                #[trigger] after[q]).call.id != id by {
                                    if q < p {
                                        assert(after[q] == before[q]);
                                    } else {
                                        assert(after[q] == before[q + 1]);
                                    }
                                }
                            },
                            None => {},
                        }
                    }
                } else {
                    lemma_same_results(history, n, i, id);
                    match at {
                        Some(found) => {
                            if n - 1 > i && !has_result(history.take(n - 1), i, id) {
                                let p = choose|p: int|
                                    0 <= p < before.len() && before[p] == (
                                    execution::UnansweredCall {
                                        turn_id: history[i].turn_id,
                                        call,
                                    }) && forall|q: int|
                                        0 <= q < before.len() && q != p ==> (
                                        #[trigger] before[q]).call.id != call.id;
                                assert(before[p].call.id == id);
                                assert(found != p);
                                let moved = if p < found {
                                    p
                                } else {
                                    p - 1
                                };
                                assert(after[moved] == before[p]);
                                assert forall|q: int| 0 <= q < after.len() && q != moved implies (
                                #[trigger] after[q]).call.id != id by {
                                    if q < found {
                                        assert(after[q] == before[q]);
                                    } else {
                                        assert(after[q] == before[q + 1]);
                                    }
                                }
                            } else {
                                assert forall|q: int| 0 <= q < after.len() implies (
                                #[trigger] after[q]).call.id != id by {
                                    if q < found {
                                        assert(after[q] == before[q]);
                                    } else {
                                        assert(after[q] == before[q + 1]);
                                    }
                                }
                            }
                        },
                        None => {},
                    }
                }
            },
            _ => {
                lemma_same_results(history, n, i, id);
            },
        }
    }
}

proof fn lemma_same_results(history: Seq<HistoryEntryView>, n: int, i: int, id: Seq<char>)
    requires
        0 < n <= history.len(),
        0 <= i,
        !(i < n - 1 && history[n - 1].message is Tool && history[n - 1].message->Tool_0.id == id),
    ensures
        has_result(history.take(n), i, id) == has_result(history.take(n - 1), i, id),
{
    let all = history.take(n);
    let part = history.take(n - 1);
    if has_result(all, i, id) {
        let j = choose|j: int|
            i < j < all.len() && (#[trigger] all[j]).message is Tool && all[j].message->Tool_0.id
                == id;
        assert(part[j].message == all[j].message);
    }
    if has_result(part, i, id) {
        let j = choose|j: int|
            i < j < part.len() && (#[trigger] part[j]).message is Tool && part[j].message->Tool_0.id
                == id;
        assert(all[j].message == part[j].message);
    }
}

/// Whether an entry is the result that closes an abandoned call.
pub open spec fn closes(
    entry: HistoryEntryView,
    turn: TurnId,
    call: ToolCallView,
    reason: Seq<char>,
) -> bool {
    entry.turn_id == turn && (entry.message matches MessageView::Tool(tool) && {
        &&& tool.id == call.id
        &&& tool.name == call.name
        &&& tool.output == ToolOutputView::Failure(reason)
        &&& tool.outcome is Aborted
    })
}

/// An aborted thread owes no result: its history stays as it was, and every call in it that had no
/// result gets one that says why, in the turn that asked for it. A call that had a result gets none. The
/// thread works for nobody any more and starts over with the model.
pub proof fn law_an_aborted_thread_owes_no_result(
    checkpoint: &mut StoredCheckpoint,
    reason: &str,
    i: int,
    k: int,
    call: ToolCallView,
)
    requires
        call_ensures(execution::abort_checkpoint, (checkpoint, reason), ()),
        asks(old(checkpoint)@.messages, i, k, call),
        asked_once(old(checkpoint)@.messages, i, k, call.id),
    ensures
        aborted_with(old(checkpoint)@, final(checkpoint)@, reason@, i, call),
{
    lemma_closed_off(old(checkpoint)@, final(checkpoint)@, reason@, i, k, call);
}

/// What aborting leaves of a thread that asked for a call.
pub open spec fn aborted_with(
    before: StoredCheckpointView,
    after: StoredCheckpointView,
    reason: Seq<char>,
    i: int,
    call: ToolCallView,
) -> bool {
    &&& after.resume_point is Generation
    &&& after.active_execution is None
    &&& after.thread_id == before.thread_id
    &&& after.agent_name == before.agent_name
    &&& after.parent_thread_id == before.parent_thread_id
    &&& after.state == before.state
    &&& before.messages.is_prefix_of(after.messages)
    &&& !has_result(before.messages, i, call.id) ==> exists|j: int|
        before.messages.len() <= j < after.messages.len() && closes(
            #[trigger] after.messages[j],
            before.messages[i].turn_id,
            call,
            reason,
        )
    &&& has_result(before.messages, i, call.id) ==> forall|j: int|
        before.messages.len() <= j < after.messages.len() ==> !((
        #[trigger] after.messages[j]).message is Tool && after.messages[j].message->Tool_0.id
            == call.id)
}

proof fn lemma_closed_off(
    before: StoredCheckpointView,
    after: StoredCheckpointView,
    reason: Seq<char>,
    i: int,
    k: int,
    call: ToolCallView,
)
    requires
        execution::closed_off(before, after, reason),
        asks(before.messages, i, k, call),
        asked_once(before.messages, i, k, call.id),
    ensures
        aborted_with(before, after, reason, i, call),
{
    let history = before.messages;
    let pending = execution::unanswered(history);
    let results = choose|results: Seq<HistoryEntryView>| #[trigger]
        execution::close_all(results, pending, reason) && after == (StoredCheckpointView {
            messages: history + results,
            resume_point: StoredResumePointView::Generation,
            active_execution: None,
            ..before
        });
    assert(history.take(history.len() as int) =~= history);
    lemma_unanswered(history, history.len() as int, i, k, call);
    let n = history.len();
    if !has_result(history, i, call.id) {
        let p = choose|p: int|
            0 <= p < pending.len() && pending[p] == (execution::UnansweredCall {
                turn_id: history[i].turn_id,
                call,
            }) && forall|q: int|
                0 <= q < pending.len() && q != p ==> (#[trigger] pending[q]).call.id != call.id;
        assert(execution::closes(results[p], pending[p], reason));
        assert(after.messages[n + p] == results[p]);
        assert(closes(after.messages[n + p], history[i].turn_id, call, reason));
    } else {
        assert forall|j: int| n <= j < after.messages.len() implies !((
        #[trigger] after.messages[j]).message is Tool && after.messages[j].message->Tool_0.id
            == call.id) by {
            assert(after.messages[j] == results[j - n]);
            assert(execution::closes(results[j - n], pending[j - n], reason));
            assert(pending[j - n].call.id != call.id);
        }
    }
}

/// Aborting a scope closes the threads of its members that still work for its task, and no other: a
/// member's thread that meanwhile works for something else keeps what it has. From then on its members
/// are known as aborted.
pub proof fn law_aborting_a_scope_closes_its_threads(
    storage: &mut MemoryStorage,
    scope: ScopeAbort,
    res: Result<CleanupReceipt, String>,
    thread: Seq<char>,
    i: int,
    k: int,
    call: ToolCallView,
)
    requires
        call_ensures(MemoryStorage::abort_scope, (storage, scope), res),
        old(storage)@.checkpoints.contains_key(thread),
    ensures
        res matches Ok(receipt) && receipt@.task_id == scope@.task_id,
        final(storage)@.checkpoints.contains_key(thread),
        final(storage)@.receipts == old(storage)@.receipts,
        ({
            let before = old(storage)@.checkpoints[thread];
            let after = final(storage)@.checkpoints[thread];
            let reached = {
                &&& exists|m: int|
                    0 <= m < scope@.members.len() && (#[trigger] scope@.members[m]).thread_id
                        == thread
                &&& before.active_execution is Some
                &&& before.active_execution->0.scope == (ProcessGroupIdView::Background {
                    task_id: scope@.task_id,
                })
            };
            &&& !reached ==> after == before
            &&& reached && asks(before.messages, i, k, call) && asked_once(
                before.messages,
                i,
                k,
                call.id,
            ) ==> aborted_with(before, after, scope@.reason, i, call)
            &&& reached ==> after.active_execution is None && after.resume_point is Generation
        }),
        forall|m: int|
            0 <= m < scope@.members.len() ==> final(storage)@.aborted.contains(
                #[trigger] scope@.members[m],
            ),
        forall|m: int|
            0 <= m < old(storage)@.aborted.len() ==> final(storage)@.aborted.contains(
                #[trigger] old(storage)@.aborted[m],
            ),
        final(storage)@.aborted.len() == old(storage)@.aborted.len() + scope@.members.len(),
{
    let before = old(storage)@.checkpoints[thread];
    let after = final(storage)@.checkpoints[thread];
    assert(final(storage)@.checkpoints.dom().contains(thread));
    if storage::abort_reaches(scope@.members, scope@.task_id, thread, before) && asks(
        before.messages,
        i,
        k,
        call,
    ) && asked_once(before.messages, i, k, call.id) {
        lemma_closed_off(before, after, scope@.reason, i, k, call);
    }
    assert forall|m: int| 0 <= m < scope@.members.len() implies final(storage)@.aborted.contains(
        #[trigger] scope@.members[m],
    ) by {
        assert(final(storage)@.aborted[old(storage)@.aborted.len() + m] == scope@.members[m]);
    }
    assert forall|m: int|
        0 <= m < old(storage)@.aborted.len() implies final(storage)@.aborted.contains(
        #[trigger] old(storage)@.aborted[m],
    ) by {
        assert(final(storage)@.aborted[m] == old(storage)@.aborted[m]);
    }
}

/// Aborting a scope removes from every stored session exactly what the scope left behind.
pub proof fn law_aborting_a_scope_clears_its_messages(
    storage: &mut MemoryStorage,
    scope: ScopeAbort,
    res: Result<CleanupReceipt, String>,
    session: Seq<char>,
    envelope: EnvelopeView,
    thread: Seq<char>,
)
    requires
        call_ensures(MemoryStorage::abort_scope, (storage, scope), res),
        old(storage)@.snapshots.contains_key(session),
    ensures
        final(storage)@.snapshots.contains_key(session),
        left_behind(envelope, scope@.members, Map::empty()) ==> recovery::gone(
            final(storage)@.snapshots[session],
            envelope,
        ),
        !left_behind(envelope, scope@.members, Map::empty()) ==> recovery::stays(
            old(storage)@.snapshots[session],
            final(storage)@.snapshots[session],
            envelope,
        ),
        final(storage)@.snapshots[session].active_threads.contains_key(thread)
            <==> old(storage)@.snapshots[session].active_threads.contains_key(thread) && !shut(
            scope@.members,
            Map::empty(),
            thread,
        ),
{
    assert(final(storage)@.snapshots.dom().contains(session));
    lemma_fenced(
        old(storage)@.snapshots[session],
        scope@.members,
        Map::empty(),
        envelope,
        thread,
    );
}

}
