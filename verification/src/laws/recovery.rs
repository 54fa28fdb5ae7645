//! What a session puts back after a restart.

use crate::agent::{Envelope, EnvelopeBodyView, EnvelopeView, SenderView};
use crate::ids::TurnId;
use crate::persist::{
    AgentRuntimeSnapshot, RuntimeSnapshotView, StoredCheckpoint, StoredCheckpointView,
    StoredResumePointView,
};
use crate::runtime::recovery::{self, Evidence, ResumeTarget};
use crate::runtime::turn::{CallLedger, TurnGate};
use crate::string_map::StringMap;
use crate::text;
use vstd::prelude::*;

verus! {

/// Whether an envelope is in these lists under a key.
pub open spec fn holds(
    lists: Map<Seq<char>, Seq<EnvelopeView>>,
    key: Seq<char>,
    envelope: EnvelopeView,
) -> bool {
    lists.contains_key(key) && lists[key].contains(envelope)
}

/// Whether an envelope is where it was, in both sets of lists.
pub open spec fn stays(
    before: RuntimeSnapshotView,
    after: RuntimeSnapshotView,
    envelope: EnvelopeView,
) -> bool {
    forall|key: Seq<char>|
        #![trigger before.drained_envelopes.contains_key(key)]
        #![trigger before.agent_drained_envelopes.contains_key(key)]
        (holds(before.drained_envelopes, key, envelope) <==> holds(
            after.drained_envelopes,
            key,
            envelope,
        )) && (holds(before.agent_drained_envelopes, key, envelope) <==> holds(
            after.agent_drained_envelopes,
            key,
            envelope,
        ))
}

/// Whether an envelope is in no list.
pub open spec fn gone(after: RuntimeSnapshotView, envelope: EnvelopeView) -> bool {
    forall|key: Seq<char>|
        #![trigger after.drained_envelopes.contains_key(key)]
        #![trigger after.agent_drained_envelopes.contains_key(key)]
        !holds(after.drained_envelopes, key, envelope) && !holds(
            after.agent_drained_envelopes,
            key,
            envelope,
        )
}

/// Whether one list is another with some of its entries left out, and in the same order: where each
/// entry came from is named, in ascending order.
pub open spec fn thinned(before: Seq<EnvelopeView>, after: Seq<EnvelopeView>, from: Seq<int>) -> bool {
    &&& from.len() == after.len()
    &&& forall|i: int|
        0 <= i < from.len() ==> 0 <= (#[trigger] from[i]) < before.len() && after[i]
            == before[from[i]]
    &&& forall|i: int, j: int| 0 <= i < j < from.len() ==> (#[trigger] from[i]) < (#[trigger] from[j])
}

pub proof fn lemma_thinned(list: Seq<EnvelopeView>, keep: spec_fn(EnvelopeView) -> bool) -> (from: Seq<int>)
    ensures
        thinned(list, list.filter(keep), from),
        forall|i: int| 0 <= i < list.len() && keep(#[trigger] list[i]) ==> from.contains(i),
    decreases list.len(),
{
    reveal(Seq::filter);
    if list.len() == 0 {
        Seq::empty()
    } else {
        let fewer = list.drop_last();
        let before = lemma_thinned(fewer, keep);
        let last = list.len() - 1;
        let from = if keep(list.last()) {
            before.push(last)
        } else {
            before
        };
        assert forall|i: int| 0 <= i < list.len() && keep(#[trigger] list[i]) implies from.contains(
            i,
        ) by {
            if i < last {
                assert(fewer[i] == list[i]);
                assert(before.contains(i));
                let k = before.index_of(i);
                assert(from[k] == i);
            } else {
                assert(from[from.len() - 1] == i);
            }
        }
        from
    }
}

pub proof fn lemma_sifted(
    lists: Map<Seq<char>, Seq<EnvelopeView>>,
    keep: spec_fn(EnvelopeView) -> bool,
    envelope: EnvelopeView,
)
    ensures
        ({
            let sifted = lists.map_values(|list: Seq<EnvelopeView>| list.filter(keep));
            &&& sifted.dom() == lists.dom()
            &&& forall|key: Seq<char>|
                #![trigger lists.contains_key(key)]
                #![trigger sifted.contains_key(key)]
                holds(sifted, key, envelope) <==> holds(lists, key, envelope) && keep(envelope)
        }),
{
    let sifted = lists.map_values(|list: Seq<EnvelopeView>| list.filter(keep));
    assert(sifted.dom() =~= lists.dom());
    assert forall|key: Seq<char>|
        #![trigger lists.contains_key(key)]
        #![trigger sifted.contains_key(key)]
        holds(sifted, key, envelope) <==> holds(lists, key, envelope) && keep(envelope) by {
        if lists.contains_key(key) {
            broadcast use vstd::seq_lib::group_filter_ensures;

            let list = lists[key];
            assert(sifted[key] == list.filter(keep));
            if list.filter(keep).contains(envelope) {
                let k = list.filter(keep).index_of(envelope);
                list.lemma_filter_contains_rev(keep, envelope);
                assert(keep(list.filter(keep)[k]));
            }
        }
    }
}

/// A reply survives a restart for every call that its thread still waits on: whichever of the pending
/// calls it answers, a thread in the middle of its calls finds it where it was kept.
pub proof fn law_a_reply_to_any_pending_call_is_kept(
    snapshot: &mut AgentRuntimeSnapshot,
    checkpoints: &StringMap<StoredCheckpoint>,
    envelope: EnvelopeView,
    k: int,
)
    requires
        call_ensures(recovery::drop_stale_envelopes, (snapshot, checkpoints), ()),
        envelope.body is Reply,
        checkpoints.deep_view().contains_key(envelope.to.thread_id),
        (checkpoints.deep_view()[envelope.to.thread_id].resume_point matches StoredResumePointView::ToolExecution(
            state,
        ) && 0 <= k < state.pending_replies.len() && envelope.reply_to == Some(
            state.pending_replies[k].call_envelope_id,
        )),
    ensures
        stays(old(snapshot)@, final(snapshot)@, envelope),
{
    let keep = recovery::awaiting(checkpoints.deep_view());
    lemma_sifted(old(snapshot)@.drained_envelopes, keep, envelope);
    lemma_sifted(old(snapshot)@.agent_drained_envelopes, keep, envelope);
    assert(keep(envelope));
}

/// A reply that nobody waits for any more is dropped: its thread is not stored, is not in the middle of
/// its calls, or waits on none that this answers.
pub proof fn law_a_reply_to_no_pending_call_is_dropped(
    snapshot: &mut AgentRuntimeSnapshot,
    checkpoints: &StringMap<StoredCheckpoint>,
    envelope: EnvelopeView,
)
    requires
        call_ensures(recovery::drop_stale_envelopes, (snapshot, checkpoints), ()),
        envelope.body is Reply,
        checkpoints.deep_view().contains_key(envelope.to.thread_id) ==> (
        checkpoints.deep_view()[envelope.to.thread_id].resume_point matches StoredResumePointView::ToolExecution(
            state,
        ) ==> forall|k: int|
            0 <= k < state.pending_replies.len() ==> envelope.reply_to != Some(
                (#[trigger] state.pending_replies[k]).call_envelope_id,
            )),
    ensures
        gone(final(snapshot)@, envelope),
{
    let keep = recovery::awaiting(checkpoints.deep_view());
    lemma_sifted(old(snapshot)@.drained_envelopes, keep, envelope);
    lemma_sifted(old(snapshot)@.agent_drained_envelopes, keep, envelope);
    assert(!keep(envelope));
}

/// Work that was sent survives a restart, whatever is stored. A decision survives exactly where the
/// stored thread waits for one.
pub proof fn law_sent_work_and_awaited_decisions_are_kept(
    snapshot: &mut AgentRuntimeSnapshot,
    checkpoints: &StringMap<StoredCheckpoint>,
    envelope: EnvelopeView,
)
    requires
        call_ensures(recovery::drop_stale_envelopes, (snapshot, checkpoints), ()),
    ensures
        envelope.body is Task || envelope.body is ToolCall ==> stays(
            old(snapshot)@,
            final(snapshot)@,
            envelope,
        ),
        envelope.body is Resume && checkpoints.deep_view().contains_key(envelope.to.thread_id)
            && checkpoints.deep_view()[envelope.to.thread_id].resume_point is PendingApproval
            ==> stays(old(snapshot)@, final(snapshot)@, envelope),
        envelope.body is Resume && !(checkpoints.deep_view().contains_key(envelope.to.thread_id)
            && checkpoints.deep_view()[envelope.to.thread_id].resume_point is PendingApproval)
            ==> gone(final(snapshot)@, envelope),
{
    let keep = recovery::awaiting(checkpoints.deep_view());
    lemma_sifted(old(snapshot)@.drained_envelopes, keep, envelope);
    lemma_sifted(old(snapshot)@.agent_drained_envelopes, keep, envelope);
    assert(keep(envelope) == recovery::awaited(envelope, checkpoints.deep_view()));
}

/// Dropping what is stale only leaves envelopes out: every list stays under its key and in its order, and
/// the threads that were at work are the same.
pub proof fn law_dropping_stale_envelopes_only_leaves_out(
    snapshot: &mut AgentRuntimeSnapshot,
    checkpoints: &StringMap<StoredCheckpoint>,
    key: Seq<char>,
)
    requires
        call_ensures(recovery::drop_stale_envelopes, (snapshot, checkpoints), ()),
    ensures
        final(snapshot)@.active_threads == old(snapshot)@.active_threads,
        final(snapshot)@.drained_envelopes.dom() == old(snapshot)@.drained_envelopes.dom(),
        final(snapshot)@.agent_drained_envelopes.dom()
            == old(snapshot)@.agent_drained_envelopes.dom(),
        old(snapshot)@.drained_envelopes.contains_key(key) ==> exists|from: Seq<int>| #[trigger]
            thinned(
                old(snapshot)@.drained_envelopes[key],
                final(snapshot)@.drained_envelopes[key],
                from,
            ),
        old(snapshot)@.agent_drained_envelopes.contains_key(key) ==> exists|from: Seq<int>| #[trigger]
            thinned(
                old(snapshot)@.agent_drained_envelopes[key],
                final(snapshot)@.agent_drained_envelopes[key],
                from,
            ),
{
    let keep = recovery::awaiting(checkpoints.deep_view());
    lemma_sifted(old(snapshot)@.drained_envelopes, keep, arbitrary());
    lemma_sifted(old(snapshot)@.agent_drained_envelopes, keep, arbitrary());
    if old(snapshot)@.drained_envelopes.contains_key(key) {
        let from = lemma_thinned(old(snapshot)@.drained_envelopes[key], keep);
        assert(final(snapshot)@.drained_envelopes.contains_key(key));
        assert(final(snapshot)@.drained_envelopes[key] == old(snapshot)@.drained_envelopes[key].filter(
            keep,
        ));
        assert(thinned(
            old(snapshot)@.drained_envelopes[key],
            final(snapshot)@.drained_envelopes[key],
            from,
        ));
    }
    if old(snapshot)@.agent_drained_envelopes.contains_key(key) {
        let from = lemma_thinned(old(snapshot)@.agent_drained_envelopes[key], keep);
        assert(final(snapshot)@.agent_drained_envelopes.contains_key(key));
        assert(final(snapshot)@.agent_drained_envelopes[key] == old(snapshot)@.agent_drained_envelopes[key].filter(
            keep,
        ));
        assert(thinned(
            old(snapshot)@.agent_drained_envelopes[key],
            final(snapshot)@.agent_drained_envelopes[key],
            from,
        ));
    }
}

/// An envelope is awaited exactly where it is work, a reply to one of the calls that its thread waits on,
/// or a decision that its thread waits for.
pub proof fn law_what_is_awaited(
    envelope: &Envelope,
    checkpoints: &StringMap<StoredCheckpoint>,
    res: bool,
)
    requires
        call_ensures(recovery::is_awaited, (envelope, checkpoints), res),
    ensures
        envelope@.body is Task || envelope@.body is ToolCall ==> res,
        envelope@.body is Resume ==> (res <==> checkpoints.deep_view().contains_key(
            envelope@.to.thread_id,
        ) && checkpoints.deep_view()[envelope@.to.thread_id].resume_point is PendingApproval),
        envelope@.body is Reply && !checkpoints.deep_view().contains_key(envelope@.to.thread_id)
            ==> !res,
        envelope@.body is Reply && checkpoints.deep_view().contains_key(envelope@.to.thread_id)
            ==> match checkpoints.deep_view()[envelope@.to.thread_id].resume_point {
            StoredResumePointView::ToolExecution(state) => {
                &&& forall|k: int|
                    0 <= k < state.pending_replies.len() && envelope@.reply_to == Some(
                        (#[trigger] state.pending_replies[k]).call_envelope_id,
                    ) ==> res
                &&& res ==> exists|k: int|
                    0 <= k < state.pending_replies.len() && envelope@.reply_to == Some(
                        (#[trigger] state.pending_replies[k]).call_envelope_id,
                    )
            },
            _ => !res,
        },
{
}

/// A stored thread is in the turn of its newest message, and in none before its first.
pub proof fn law_a_stored_thread_is_in_the_turn_of_its_newest_message(
    checkpoint: &StoredCheckpoint,
    res: Option<TurnId>,
)
    requires
        call_ensures(recovery::last_turn, (checkpoint,), res),
    ensures
        checkpoint@.messages.len() == 0 ==> res is None,
        checkpoint@.messages.len() > 0 ==> res == Some(
            checkpoint@.messages[checkpoint@.messages.len() - 1].turn_id,
        ),
{
}

/// What is kept for a thread: what agents sent it, then the rest.
pub open spec fn kept(snapshot: RuntimeSnapshotView, thread: Seq<char>) -> Seq<EnvelopeView> {
    (if snapshot.agent_drained_envelopes.contains_key(thread) {
        snapshot.agent_drained_envelopes[thread]
    } else {
        Seq::empty()
    }) + (if snapshot.drained_envelopes.contains_key(thread) {
        snapshot.drained_envelopes[thread]
    } else {
        Seq::empty()
    })
}

proof fn lemma_replayed(snapshot: RuntimeSnapshotView, threads: Seq<Seq<char>>, i: int) -> (at: int)
    requires
        0 <= i < threads.len(),
    ensures
        0 <= at,
        at + kept(snapshot, threads[i]).len() <= recovery::replayed_for(snapshot, threads).len(),
        recovery::replayed_for(snapshot, threads).subrange(
            at,
            at + kept(snapshot, threads[i]).len(),
        ) == kept(snapshot, threads[i]),
    decreases threads.len(),
{
    let fewer = threads.drop_last();
    let before = recovery::replayed_for(snapshot, fewer);
    let all = recovery::replayed_for(snapshot, threads);
    let own = kept(snapshot, threads.last());
    assert(all =~= before + own);
    if i < threads.len() - 1 {
        let at = lemma_replayed(snapshot, fewer, i);
        let n = kept(snapshot, threads[i]).len() as int;
        assert(all.subrange(at, at + n) =~= before.subrange(at, at + n));
        at
    } else {
        assert(all.subrange(before.len() as int, (before.len() + own.len()) as int) =~= own);
        before.len() as int
    }
}

proof fn lemma_replayed_from(snapshot: RuntimeSnapshotView, threads: Seq<Seq<char>>, k: int) -> (i: int)
    requires
        0 <= k < recovery::replayed_for(snapshot, threads).len(),
    ensures
        0 <= i < threads.len(),
        kept(snapshot, threads[i]).contains(recovery::replayed_for(snapshot, threads)[k]),
    decreases threads.len(),
{
    let fewer = threads.drop_last();
    let before = recovery::replayed_for(snapshot, fewer);
    let all = recovery::replayed_for(snapshot, threads);
    let own = kept(snapshot, threads.last());
    assert(all =~= before + own);
    if k < before.len() {
        lemma_replayed_from(snapshot, fewer, k)
    } else {
        assert(own[k - before.len()] == all[k]);
        threads.len() - 1
    }
}

/// Every envelope that was kept is replayed, and no other: those of a thread stand together and in order,
/// what agents sent before the rest.
pub proof fn law_everything_kept_is_replayed_in_order(
    snapshot: &AgentRuntimeSnapshot,
    res: Vec<&Envelope>,
    thread: Seq<char>,
    k: int,
)
    requires
        call_ensures(recovery::replayed_envelopes, (snapshot,), res),
        snapshot@.agent_drained_envelopes.dom().finite(),
        snapshot@.drained_envelopes.dom().finite(),
    ensures
        snapshot@.agent_drained_envelopes.contains_key(thread)
            || snapshot@.drained_envelopes.contains_key(thread) ==> exists|at: int|
            #![trigger res.deep_view().subrange(at, at + kept(snapshot@, thread).len())]
            0 <= at && at + kept(snapshot@, thread).len() <= res.deep_view().len()
                && res.deep_view().subrange(at, at + kept(snapshot@, thread).len()) == kept(
                snapshot@,
                thread,
            ),
        0 <= k < res.deep_view().len() ==> exists|owner: Seq<char>|
            (#[trigger] kept(snapshot@, owner)).contains(res.deep_view()[k]),
{
    let known = snapshot@.agent_drained_envelopes.dom().union(snapshot@.drained_envelopes.dom());
    let threads = text::in_order(known);
    text::lemma_in_order(known);
    if known.contains(thread) {
        assert(threads.to_set().contains(thread));
        let i = threads.index_of(thread);
        let at = lemma_replayed(snapshot@, threads, i);
        assert(res.deep_view().subrange(at, at + kept(snapshot@, thread).len()) == kept(
            snapshot@,
            thread,
        ));
    }
    if 0 <= k < res.deep_view().len() {
        let i = lemma_replayed_from(snapshot@, threads, k);
        assert(kept(snapshot@, threads[i]).contains(res.deep_view()[k]));
    }
}

/// Whether this envelope means that a thread still owes somebody an answer: it was called, or its answer
/// has not been delivered.
pub open spec fn owed_through(envelope: EnvelopeView, thread: Seq<char>) -> bool {
    match envelope.body {
        EnvelopeBodyView::ToolCall { .. } => envelope.to.thread_id == thread,
        EnvelopeBodyView::Reply { .. } => envelope.from matches SenderView::Agent {
            thread_id,
            ..
        } && thread_id == thread,
        _ => false,
    }
}

/// How many answers a thread owes through these envelopes.
pub open spec fn owed_count(envelopes: Seq<EnvelopeView>, thread: Seq<char>) -> nat
    decreases envelopes.len(),
{
    if envelopes.len() == 0 {
        0
    } else {
        owed_count(envelopes.drop_last(), thread) + (if owed_through(envelopes.last(), thread) {
            1nat
        } else {
            0nat
        })
    }
}

/// Whether a thread was stored at work for a caller.
pub open spec fn answers_a_call(
    checkpoints: Map<Seq<char>, StoredCheckpointView>,
    thread: Seq<char>,
) -> bool {
    checkpoints.contains_key(thread) && match checkpoints[thread].active_execution {
        Some(execution) => execution.completion is Caller,
        None => false,
    }
}

proof fn lemma_owed_by_envelopes(
    envelopes: Seq<EnvelopeView>,
    checkpoints: Map<Seq<char>, StoredCheckpointView>,
    thread: Seq<char>,
)
    ensures
        recovery::answers_to_come(
            envelopes.map_values(
                |envelope: EnvelopeView| recovery::evidence_of_envelope(envelope, checkpoints),
            ),
        ).count(thread) == owed_count(envelopes, thread),
    decreases envelopes.len(),
{
    let evidence = envelopes.map_values(
        |envelope: EnvelopeView| recovery::evidence_of_envelope(envelope, checkpoints),
    );
    if envelopes.len() > 0 {
        let fewer = envelopes.drop_last();
        lemma_owed_by_envelopes(fewer, checkpoints, thread);
        assert(evidence.drop_last() =~= fewer.map_values(
            |envelope: EnvelopeView| recovery::evidence_of_envelope(envelope, checkpoints),
        ));
    }
}

proof fn lemma_owed_by_threads(
    threads: Seq<Seq<char>>,
    checkpoints: Map<Seq<char>, StoredCheckpointView>,
    thread: Seq<char>,
)
    requires
        threads.no_duplicates(),
    ensures
        recovery::answers_to_come(
            threads.map_values(
                |thread: Seq<char>| recovery::evidence_of_active(thread, checkpoints),
            ),
        ).count(thread) == (if threads.contains(thread) && answers_a_call(checkpoints, thread) {
            1nat
        } else {
            0nat
        }),
    decreases threads.len(),
{
    let evidence = threads.map_values(
        |thread: Seq<char>| recovery::evidence_of_active(thread, checkpoints),
    );
    if threads.len() > 0 {
        let fewer = threads.drop_last();
        lemma_owed_by_threads(fewer, checkpoints, thread);
        assert(evidence.drop_last() =~= fewer.map_values(
            |thread: Seq<char>| recovery::evidence_of_active(thread, checkpoints),
        ));
        assert(threads =~= fewer.push(threads.last()));
        if threads.last() == thread {
            assert(!fewer.contains(thread)) by {
                if fewer.contains(thread) {
                    let i = fewer.index_of(thread);
                    assert(threads[i] == threads[threads.len() - 1]);
                }
            }
            assert(threads.contains(thread));
        } else if fewer.contains(thread) {
            let i = fewer.index_of(thread);
            assert(threads[i] == thread);
        } else if threads.contains(thread) {
            let i = threads.index_of(thread);
            assert(fewer[i] == thread);
        }
    }
}

proof fn lemma_owed_together(first: Seq<Evidence>, rest: Seq<Evidence>)
    ensures
        recovery::answers_to_come(first + rest) == recovery::answers_to_come(first).add(
            recovery::answers_to_come(rest),
        ),
    decreases rest.len(),
{
    if rest.len() == 0 {
        assert(first + rest =~= first);
    } else {
        lemma_owed_together(first, rest.drop_last());
        assert((first + rest).drop_last() =~= first + rest.drop_last());
    }
    assert(recovery::answers_to_come(first + rest) =~= recovery::answers_to_come(first).add(
        recovery::answers_to_come(rest),
    ));
}

/// After a restart a thread owes what it owed before it: one answer where it was stored at work for a
/// caller, one for every call that had reached it, and one for every reply of its that was not
/// delivered.
pub proof fn law_every_answer_to_come_is_owed_again(
    snapshot: &AgentRuntimeSnapshot,
    checkpoints: &StringMap<StoredCheckpoint>,
    gate: &mut TurnGate,
    calls: &mut CallLedger,
    replayed: Vec<&Envelope>,
    thread: Seq<char>,
)
    requires
        call_ensures(recovery::replayed_envelopes, (snapshot,), replayed),
        call_ensures(
            recovery::register_resumed_work,
            (snapshot, checkpoints, gate, calls),
            Ok::<(), String>(()),
        ),
        snapshot@.active_threads.dom().finite(),
    ensures
        final(calls)@.count(thread) == old(calls)@.count(thread) + owed_count(
            replayed.deep_view(),
            thread,
        ) + (if snapshot@.active_threads.contains_key(thread) && answers_a_call(
            checkpoints.deep_view(),
            thread,
        ) {
            1int
        } else {
            0int
        }),
{
    let stored = checkpoints.deep_view();
    let threads = text::in_order(snapshot@.active_threads.dom());
    text::lemma_in_order(snapshot@.active_threads.dom());
    let first = threads.map_values(
        |thread: Seq<char>| recovery::evidence_of_active(thread, stored),
    );
    let rest = recovery::replayed(snapshot@).map_values(
        |envelope: EnvelopeView| recovery::evidence_of_envelope(envelope, stored),
    );
    recovery::law_one_obligation_per_answer_to_come(*old(gate), old(calls)@, first + rest);
    lemma_owed_together(first, rest);
    lemma_owed_by_threads(threads, stored, thread);
    lemma_owed_by_envelopes(recovery::replayed(snapshot@), stored, thread);
    assert(threads.contains(thread) == threads.to_set().contains(thread));
}

/// The turn that resumed work of a thread or envelope belongs to.
pub open spec fn newest_turn(
    checkpoints: Map<Seq<char>, StoredCheckpointView>,
    thread: Seq<char>,
) -> Option<TurnId> {
    if checkpoints.contains_key(thread) && checkpoints[thread].messages.len() > 0 {
        Some(checkpoints[thread].messages.last().turn_id)
    } else {
        None
    }
}

/// Whether a turn is the one that an envelope belongs to: a task belongs to the turn it opens, a call to
/// the turn it was made in, and an answer to the turn of the thread it goes to.
pub open spec fn belongs_to(
    envelope: EnvelopeView,
    checkpoints: Map<Seq<char>, StoredCheckpointView>,
    turn: TurnId,
) -> bool {
    match envelope.body {
        EnvelopeBodyView::Task { message_id, .. } => turn.value == message_id.value,
        EnvelopeBodyView::ToolCall { turn_id, .. } => turn == turn_id,
        _ => newest_turn(checkpoints, envelope.to.thread_id) == Some(turn),
    }
}

/// Resumed work goes on in its own turn: once it is registered the active turn is the one that every
/// resumed thread and every replayed envelope belongs to. Work of two turns is refused.
pub proof fn law_resumed_work_goes_on_in_its_turn(
    snapshot: &AgentRuntimeSnapshot,
    checkpoints: &StringMap<StoredCheckpoint>,
    gate: &mut TurnGate,
    calls: &mut CallLedger,
    replayed: Vec<&Envelope>,
    res: Result<(), String>,
    thread: Seq<char>,
    k: int,
    turn: TurnId,
)
    requires
        call_ensures(recovery::replayed_envelopes, (snapshot,), replayed),
        call_ensures(recovery::register_resumed_work, (snapshot, checkpoints, gate, calls), res),
        snapshot@.active_threads.dom().finite(),
    ensures
        res is Ok && snapshot@.active_threads.contains_key(thread) && newest_turn(
            checkpoints.deep_view(),
            thread,
        ) == Some(turn) ==> final(gate).active == Some(turn),
        res is Ok && 0 <= k < replayed.deep_view().len() && belongs_to(
            replayed.deep_view()[k],
            checkpoints.deep_view(),
            turn,
        ) ==> final(gate).active == Some(turn),
        res is Ok && old(gate).active is Some ==> *final(gate) == *old(gate),
        res matches Err(reason) ==> reason@ == "resumed work belongs to more than one turn"@,
        (old(gate).active is None || old(gate).active == Some(turn)) && (forall|other: Seq<char>|
            #[trigger] snapshot@.active_threads.contains_key(other) ==> newest_turn(
                checkpoints.deep_view(),
                other,
            ) is None || newest_turn(checkpoints.deep_view(), other) == Some(turn)) && (forall|i: int|
            0 <= i < replayed.deep_view().len() ==> belongs_to(
                #[trigger] replayed.deep_view()[i],
                checkpoints.deep_view(),
                turn,
            )) ==> res is Ok,
{
    let stored = checkpoints.deep_view();
    let threads = text::in_order(snapshot@.active_threads.dom());
    text::lemma_in_order(snapshot@.active_threads.dom());
    let first = threads.map_values(
        |thread: Seq<char>| recovery::evidence_of_active(thread, stored),
    );
    let rest = recovery::replayed(snapshot@).map_values(
        |envelope: EnvelopeView| recovery::evidence_of_envelope(envelope, stored),
    );
    let evidence = first + rest;
    recovery::law_resumed_work_belongs_to_one_turn(*old(gate), old(calls)@, evidence);
    if snapshot@.active_threads.contains_key(thread) {
        assert(threads.to_set().contains(thread));
        let i = threads.index_of(thread);
        assert(evidence[i] == recovery::evidence_of_active(thread, stored));
    }
    if 0 <= k < replayed.deep_view().len() {
        assert(evidence[first.len() + k] == recovery::evidence_of_envelope(
            replayed.deep_view()[k],
            stored,
        ));
    }
    if (old(gate).active is None || old(gate).active == Some(turn)) && (forall|other: Seq<char>| #[trigger]
        snapshot@.active_threads.contains_key(other) ==> newest_turn(stored, other) is None
            || newest_turn(stored, other) == Some(turn)) && (forall|i: int|
        0 <= i < replayed.deep_view().len() ==> belongs_to(
            #[trigger] replayed.deep_view()[i],
            stored,
            turn,
        )) {
        assert forall|i: int|
            0 <= i < evidence.len() && (#[trigger] evidence[i]).turn is Some implies evidence[i].turn
            == Some(turn) by {
            if i < first.len() {
                assert(threads.to_set().contains(threads[i]));
                assert(snapshot@.active_threads.contains_key(threads[i]));
            } else {
                assert(belongs_to(replayed.deep_view()[i - first.len()], stored, turn));
            }
        }
        assert(recovery::fits(*old(gate), evidence, turn));
    }
}

/// A checkpoint that could not be read is reported with its thread and the reason.
pub proof fn law_a_failed_read_is_put_in_words(thread: &str, error: &str, res: String)
    requires
        call_ensures(recovery::describe_load_failure, (thread, error), res),
    ensures
        res@ == "failed to load checkpoint for "@ + thread@ + ": "@ + error@,
{
}

/// Of a stored session only what the program knows is put back: an envelope stays exactly where its agent
/// is known, and a thread at work stays exactly where its agent is known and no target resumes it anyway.
pub proof fn law_only_known_agents_are_put_back(
    snapshot: &mut AgentRuntimeSnapshot,
    agents: &Vec<String>,
    targets: &StringMap<ResumeTarget>,
    envelope: EnvelopeView,
    thread: Seq<char>,
)
    requires
        call_ensures(recovery::keep_known_part, (snapshot, agents, targets), ()),
    ensures
        agents.deep_view().contains(envelope.to.name) ==> stays(
            old(snapshot)@,
            final(snapshot)@,
            envelope,
        ),
        !agents.deep_view().contains(envelope.to.name) ==> gone(final(snapshot)@, envelope),
        final(snapshot)@.active_threads.contains_key(thread) <==> {
            &&& old(snapshot)@.active_threads.contains_key(thread)
            &&& agents.deep_view().contains(old(snapshot)@.active_threads[thread])
            &&& forall|key: Seq<char>| #[trigger]
                targets.deep_view().contains_key(key) ==> targets.deep_view()[key].thread_id
                    != thread
        },
        final(snapshot)@.active_threads.contains_key(thread)
            ==> final(snapshot)@.active_threads[thread] == old(snapshot)@.active_threads[thread],
{
    let keep = recovery::addressed_to(agents.deep_view());
    lemma_sifted(old(snapshot)@.drained_envelopes, keep, envelope);
    lemma_sifted(old(snapshot)@.agent_drained_envelopes, keep, envelope);
    assert(keep(envelope) == agents.deep_view().contains(envelope.to.name));
    assert(final(snapshot)@.active_threads.contains_key(thread)
        == final(snapshot)@.active_threads.dom().contains(thread));
}

/// The threads whose checkpoints a recovery reads are those at work and those that an answer goes to.
pub proof fn law_the_threads_that_a_recovery_reads(
    snapshot: &AgentRuntimeSnapshot,
    res: Vec<String>,
    replayed: Vec<&Envelope>,
    thread: Seq<char>,
)
    requires
        call_ensures(recovery::recovery_threads, (snapshot,), res),
        call_ensures(recovery::replayed_envelopes, (snapshot,), replayed),
    ensures
        res.deep_view().no_duplicates(),
        res.deep_view().contains(thread) <==> {
            ||| snapshot@.active_threads.contains_key(thread)
            ||| exists|k: int|
                0 <= k < replayed.deep_view().len() && (#[trigger] replayed.deep_view()[k]).to.thread_id
                    == thread && (replayed.deep_view()[k].body is Reply
                    || replayed.deep_view()[k].body is Resume)
        },
{
    broadcast use vstd::seq_lib::group_filter_ensures;

    let all = replayed.deep_view();
    let answers = all.filter(recovery::is_answer());
    let threads = answers.map_values(|envelope: EnvelopeView| envelope.to.thread_id);
    let consulted = recovery::consulted_threads(snapshot@);
    text::lemma_in_order(consulted);
    assert(res.deep_view().contains(thread) == res.deep_view().to_set().contains(thread));
    if threads.to_set().contains(thread) {
        let i = threads.index_of(thread);
        assert(answers.contains(answers[i]));
        all.lemma_filter_contains_rev(recovery::is_answer(), answers[i]);
        let k = all.index_of(answers[i]);
        assert(recovery::is_answer()(answers[i]));
        assert(all[k].to.thread_id == thread);
    }
    if exists|k: int|
        0 <= k < all.len() && (#[trigger] all[k]).to.thread_id == thread && (all[k].body is Reply
            || all[k].body is Resume) {
        let k = choose|k: int|
            0 <= k < all.len() && (#[trigger] all[k]).to.thread_id == thread && (all[k].body is Reply
                || all[k].body is Resume);
        assert(recovery::is_answer()(all[k]));
        assert(answers.contains(all[k]));
        let i = answers.index_of(all[k]);
        assert(threads[i] == thread);
        assert(threads.contains(thread));
    }
}

/// A thread that is resumed on its own brings its turn back, and the answer it owes where it was stored
/// at work for a caller. It is refused where it is not stored, or where another turn is active.
pub proof fn law_a_resumed_thread_brings_its_turn_back(
    target: &ResumeTarget,
    stored: Option<&StoredCheckpoint>,
    gate: &mut TurnGate,
    calls: &mut CallLedger,
    res: Result<(), String>,
)
    requires
        call_ensures(recovery::restore_resumed_turn, (target, stored, gate, calls), res),
    ensures
        stored is None ==> {
            &&& *final(gate) == *old(gate)
            &&& final(calls)@ == old(calls)@
            &&& res matches Err(reason) && reason@ == "missing checkpoint for resumed thread "@
                + target@.thread_id
        },
        stored matches Some(checkpoint) ==> {
            let turn = if checkpoint@.messages.len() > 0 {
                Some(checkpoint@.messages.last().turn_id)
            } else {
                None
            };
            let clashes = turn is Some && old(gate).active is Some && old(gate).active != turn;
            &&& clashes ==> {
                &&& *final(gate) == *old(gate)
                &&& final(calls)@ == old(calls)@
                &&& res matches Err(reason) && reason@
                    == "resumed work belongs to more than one turn"@
            }
            &&& !clashes ==> {
                let owes = match checkpoint@.active_execution {
                    Some(execution) => execution.completion is Caller,
                    None => false,
                };
                &&& res is Ok
                &&& final(gate).active == (if turn is Some {
                    turn
                } else {
                    old(gate).active
                })
                &&& old(gate).active is Some ==> *final(gate) == *old(gate)
                &&& owes ==> final(calls)@ == old(calls)@.insert(target@.thread_id)
                &&& !owes ==> final(calls)@ == old(calls)@
            }
        },
{
}

}
