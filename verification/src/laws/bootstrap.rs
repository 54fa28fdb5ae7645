//! How a session picks up what the last process left.

use crate::agent::{Envelope, EnvelopeView};
use crate::laws::recovery;
use crate::persist::{AgentRuntimeSnapshot, StoredCheckpoint};
use crate::runtime::bootstrap::{self, DriverStart, Recovery};
use crate::runtime::recovery::{
    is_awaited, recovery_threads, register_resumed_work, replayed_envelopes, ResumeTarget,
    ResumeTargetView,
};
use crate::runtime::turn::{CallLedger, TurnGate};
use crate::string_map::StringMap;
use crate::text;
use vstd::prelude::*;

verus! {

/// A recovery takes up what known agents have to do, and nothing else: the decisions for them, the
/// envelopes to them and the threads they were at work on, as far as no decision resumes those. It reads
/// the checkpoints that a recovery of the rest needs.
pub proof fn law_a_recovery_takes_up_what_known_agents_have_to_do(
    agents: &Vec<String>,
    snapshot: Option<AgentRuntimeSnapshot>,
    targets: StringMap<ResumeTarget>,
    res: Recovery,
    key: Seq<char>,
    envelope: EnvelopeView,
    thread: Seq<char>,
    kept: &AgentRuntimeSnapshot,
    threads: Vec<String>,
)
    requires
        call_ensures(bootstrap::begin_recovery, (agents, snapshot, targets), res),
        res@.snapshot is Some ==> kept@ == res@.snapshot->0,
        call_ensures(recovery_threads, (kept,), threads),
    ensures
        res@.targets.contains_key(key) <==> targets.deep_view().contains_key(key)
            && agents.deep_view().contains(targets.deep_view()[key].agent_name),
        res@.targets.contains_key(key) ==> res@.targets[key] == targets.deep_view()[key],
        snapshot is None ==> res@.snapshot is None && res@.consulted.len() == 0,
        snapshot matches Some(left) ==> {
            &&& res@.snapshot is Some
            &&& res@.consulted == threads.deep_view()
            &&& agents.deep_view().contains(envelope.to.name) ==> recovery::stays(
                left@,
                res@.snapshot->0,
                envelope,
            )
            &&& !agents.deep_view().contains(envelope.to.name) ==> recovery::gone(
                res@.snapshot->0,
                envelope,
            )
            &&& res@.snapshot->0.active_threads.contains_key(thread) <==> {
                &&& left@.active_threads.contains_key(thread)
                &&& agents.deep_view().contains(left@.active_threads[thread])
                &&& forall|k: Seq<char>| #[trigger]
                    res@.targets.contains_key(k) ==> res@.targets[k].thread_id != thread
            }
        },
{
    assert(res@.targets.contains_key(key) == res@.targets.dom().contains(key));
    match snapshot {
        Some(left) => {
            let keep = crate::runtime::recovery::addressed_to(agents.deep_view());
            recovery::lemma_sifted(left@.drained_envelopes, keep, envelope);
            recovery::lemma_sifted(left@.agent_drained_envelopes, keep, envelope);
            assert(keep(envelope) == agents.deep_view().contains(envelope.to.name));
            let active = res@.snapshot->0.active_threads;
            assert(active.contains_key(thread) == active.dom().contains(thread));
            assert(res@.consulted =~= threads.deep_view());
            assert(crate::runtime::recovery::resumed(res@.targets, thread) == !(forall|
                k: Seq<char>,
            | #[trigger]
                res@.targets.contains_key(k) ==> res@.targets[k].thread_id != thread));
        },
        None => {},
    }
}

/// Resuming work puts back what is still awaited and drops the rest.
pub proof fn law_resuming_puts_back_what_is_awaited(
    recovery: &mut Recovery,
    checkpoints: &StringMap<StoredCheckpoint>,
    gate: &mut TurnGate,
    calls: &mut CallLedger,
    res: Result<bool, String>,
    envelope: &Envelope,
    awaited: bool,
)
    requires
        call_ensures(bootstrap::resume_work, (recovery, checkpoints, gate, calls), res),
        call_ensures(is_awaited, (envelope, checkpoints), awaited),
        old(recovery)@.snapshot is Some,
        forall|thread: Seq<char>| #[trigger]
            checkpoints.deep_view().contains_key(thread) ==> (
            checkpoints.deep_view()[thread].active_execution is Some
                ==> checkpoints.deep_view()[thread].active_execution->0.scope is Foreground),
    ensures
        final(recovery)@.targets == old(recovery)@.targets,
        final(recovery)@.consulted == old(recovery)@.consulted,
        final(recovery)@.snapshot is Some,
        final(recovery)@.snapshot->0.active_threads == old(recovery)@.snapshot->0.active_threads,
        awaited ==> recovery::stays(
            old(recovery)@.snapshot->0,
            final(recovery)@.snapshot->0,
            envelope@,
        ),
        !awaited ==> recovery::gone(final(recovery)@.snapshot->0, envelope@),
{
    assert(!bootstrap::any_in_background(checkpoints.deep_view())) by {
        if bootstrap::any_in_background(checkpoints.deep_view()) {
            let thread = choose|thread: Seq<char>| #[trigger]
                checkpoints.deep_view().contains_key(thread)
                    && crate::runtime::storage::in_background(checkpoints.deep_view()[thread]);
            assert(checkpoints.deep_view().contains_key(thread));
        }
    }
    let keep = crate::runtime::recovery::awaiting(checkpoints.deep_view());
    recovery::lemma_sifted(old(recovery)@.snapshot->0.drained_envelopes, keep, envelope@);
    recovery::lemma_sifted(old(recovery)@.snapshot->0.agent_drained_envelopes, keep, envelope@);
    assert(keep(envelope@) == awaited);
}

/// Resuming work registers what is put back as a registration of just that would, and is refused where
/// that is. It says whether there is anything to do.
pub proof fn law_resuming_registers_what_is_put_back(
    recovery: &mut Recovery,
    checkpoints: &StringMap<StoredCheckpoint>,
    gate: &mut TurnGate,
    calls: &mut CallLedger,
    res: Result<bool, String>,
    kept: &AgentRuntimeSnapshot,
    gate_alone: &mut TurnGate,
    calls_alone: &mut CallLedger,
    alone: Result<(), String>,
    replayed: Vec<&Envelope>,
)
    requires
        call_ensures(bootstrap::resume_work, (recovery, checkpoints, gate, calls), res),
        old(recovery)@.snapshot is Some,
        forall|thread: Seq<char>| #[trigger]
            checkpoints.deep_view().contains_key(thread) ==> (
            checkpoints.deep_view()[thread].active_execution is Some
                ==> checkpoints.deep_view()[thread].active_execution->0.scope is Foreground),
        kept@ == final(recovery)@.snapshot->0,
        *old(gate_alone) == *old(gate),
        old(calls_alone)@ == old(calls)@,
        call_ensures(register_resumed_work, (kept, checkpoints, gate_alone, calls_alone), alone),
        call_ensures(replayed_envelopes, (kept,), replayed),
    ensures
        *final(gate) == *final(gate_alone),
        final(calls)@ == final(calls_alone)@,
        res is Ok <==> alone is Ok,
        res matches Ok(resuming) ==> (resuming <==> {
            ||| exists|key: Seq<char>| #[trigger] final(recovery)@.targets.contains_key(key)
            ||| exists|thread: Seq<char>| #[trigger] kept@.active_threads.contains_key(thread)
            ||| replayed.deep_view().len() > 0
        }),
{
    assert(!bootstrap::any_in_background(checkpoints.deep_view())) by {
        if bootstrap::any_in_background(checkpoints.deep_view()) {
            let thread = choose|thread: Seq<char>| #[trigger]
                checkpoints.deep_view().contains_key(thread)
                    && crate::runtime::storage::in_background(checkpoints.deep_view()[thread]);
            assert(checkpoints.deep_view().contains_key(thread));
        }
    }
    let targets = final(recovery)@.targets;
    let active = kept@.active_threads;
    if forall|key: Seq<char>| !#[trigger] targets.contains_key(key) {
        assert(targets =~= Map::<Seq<char>, ResumeTargetView>::empty());
    }
    if forall|thread: Seq<char>| !#[trigger] active.contains_key(thread) {
        assert(active =~= Map::<Seq<char>, Seq<char>>::empty());
    }
}

/// Background work in the way stops a recovery before anything is put back.
pub proof fn law_background_work_stops_a_recovery(
    recovery: &mut Recovery,
    checkpoints: &StringMap<StoredCheckpoint>,
    gate: &mut TurnGate,
    calls: &mut CallLedger,
    res: Result<bool, String>,
    thread: Seq<char>,
)
    requires
        call_ensures(bootstrap::resume_work, (recovery, checkpoints, gate, calls), res),
        old(recovery)@.snapshot is Some,
        checkpoints.deep_view().contains_key(thread),
        checkpoints.deep_view()[thread].active_execution is Some,
        checkpoints.deep_view()[thread].active_execution->0.scope is Background,
    ensures
        res matches Err(reason) && reason@
            == "background execution must be aborted before recovery"@,
        final(recovery)@ == old(recovery)@,
        *final(gate) == *old(gate),
        final(calls)@ == old(calls)@,
{
    assert(crate::runtime::storage::in_background(checkpoints.deep_view()[thread]));
    assert(bootstrap::any_in_background(checkpoints.deep_view()));
}

/// Whether a thread has something to do after a restart.
pub open spec fn has_work(
    recovery: &Recovery,
    replayed: Seq<EnvelopeView>,
    thread: Seq<char>,
) -> bool {
    ||| recovery@.snapshot is Some && recovery@.snapshot->0.active_threads.contains_key(thread)
    ||| exists|k: int| 0 <= k < replayed.len() && (#[trigger] replayed[k]).to.thread_id == thread
    ||| exists|key: Seq<char>| #[trigger]
        recovery@.targets.contains_key(key) && recovery@.targets[key].thread_id == thread
}

/// A driver starts for each thread that has something to do, for no other, and for none twice.
pub proof fn law_one_driver_for_each_thread_with_work(
    recovery: &Recovery,
    res: Vec<DriverStart>,
    left: &AgentRuntimeSnapshot,
    replayed: Vec<&Envelope>,
    thread: Seq<char>,
    i: int,
    j: int,
)
    requires
        call_ensures(bootstrap::plan_starts, (recovery,), res),
        recovery@.snapshot == Some(left@),
        recovery@.targets.dom().finite(),
        call_ensures(replayed_envelopes, (left,), replayed),
    ensures
        has_work(recovery, replayed.deep_view(), thread) <==> exists|k: int|
            0 <= k < res.deep_view().len() && (#[trigger] res.deep_view()[k]).thread_id == thread,
        0 <= i < j < res.deep_view().len() ==> res.deep_view()[i].thread_id
            != res.deep_view()[j].thread_id,
{
    bootstrap::law_every_resumed_thread_gets_one_driver(recovery@, thread);
    let all = replayed.deep_view();
    assert(recovery@.left() == left@);
    assert(crate::runtime::recovery::replayed(recovery@.left()) == all);
    assert(crate::runtime::recovery::resumed(recovery@.targets, thread) <==> exists|key: Seq<char>|
        #[trigger] recovery@.targets.contains_key(key) && recovery@.targets[key].thread_id
            == thread);
}

/// Whether this is all that was kept for a thread, in order.
pub open spec fn only_for(
    replayed: Seq<EnvelopeView>,
    thread: Seq<char>,
    inbox: Seq<EnvelopeView>,
    from: Seq<int>,
) -> bool {
    &&& recovery::thinned(replayed, inbox, from)
    &&& forall|k: int| 0 <= k < inbox.len() ==> (#[trigger] inbox[k]).to.thread_id == thread
    &&& forall|k: int|
        0 <= k < replayed.len() && (#[trigger] replayed[k]).to.thread_id == thread
            ==> from.contains(k)
}

/// A driver starts with everything that was kept for its thread and nothing else, in order; with the
/// decision for its thread where there is one; and on its thread where that was at work or is decided
/// on.
pub proof fn law_a_driver_starts_with_what_is_for_its_thread(
    recovery: &Recovery,
    res: Vec<DriverStart>,
    left: &AgentRuntimeSnapshot,
    replayed: Vec<&Envelope>,
    i: int,
)
    requires
        call_ensures(bootstrap::plan_starts, (recovery,), res),
        recovery@.snapshot == Some(left@),
        call_ensures(replayed_envelopes, (left,), replayed),
        0 <= i < res.deep_view().len(),
    ensures
        ({
            let start = res.deep_view()[i];
            let decided = recovery@.targets.contains_key(start.thread_id);
            &&& decided ==> start.decision == Some(recovery@.targets[start.thread_id].decision)
            &&& !decided ==> start.decision is None
            &&& decided || left@.active_threads.contains_key(start.thread_id) ==> start.active
                == Some(start.thread_id)
            &&& !(decided || left@.active_threads.contains_key(start.thread_id))
                ==> start.active is None
            &&& exists|from: Seq<int>| #[trigger]
                only_for(replayed.deep_view(), start.thread_id, start.envelopes, from)
        }),
{
    broadcast use vstd::seq_lib::group_filter_ensures;

    let start = res.deep_view()[i];
    let all = replayed.deep_view();
    let mine = bootstrap::for_thread(start.thread_id);
    assert(recovery@.left() == left@);
    assert(start.envelopes == all.filter(mine));
    let from = recovery::lemma_thinned(all, mine);
    assert forall|k: int| 0 <= k < start.envelopes.len() implies (
    #[trigger] start.envelopes[k]).to.thread_id == start.thread_id by {
        assert(mine(all.filter(mine)[k]));
    }
    assert forall|k: int|
        0 <= k < all.len() && (#[trigger] all[k]).to.thread_id
            == start.thread_id implies from.contains(k) by {
        assert(mine(all[k]));
    }
    assert(only_for(all, start.thread_id, start.envelopes, from));
}

proof fn lemma_recipient(
    assignment: Map<Seq<char>, Seq<char>>,
    envelopes: Seq<EnvelopeView>,
    thread: Seq<char>,
    at: int,
)
    ensures
        0 <= at < envelopes.len() && envelopes[at].to.thread_id == thread && (forall|k: int|
            at < k < envelopes.len() ==> (#[trigger] envelopes[k]).to.thread_id != thread)
            ==> bootstrap::assigned_to_recipients(assignment, envelopes)[thread]
            == envelopes[at].to.name,
        (forall|k: int|
            0 <= k < envelopes.len() ==> (#[trigger] envelopes[k]).to.thread_id != thread)
            ==> bootstrap::assigned_to_recipients(assignment, envelopes)[thread]
            == assignment[thread],
    decreases envelopes.len(),
{
    if envelopes.len() > 0 {
        let fewer = envelopes.drop_last();
        assert(envelopes.last() == envelopes[envelopes.len() - 1]);
        assert forall|k: int| 0 <= k < fewer.len() implies #[trigger] fewer[k] == envelopes[k] by {}
        lemma_recipient(assignment, fewer, thread, at);
    }
}

proof fn lemma_target(
    assignment: Map<Seq<char>, Seq<char>>,
    targets: Map<Seq<char>, ResumeTargetView>,
    keys: Seq<Seq<char>>,
    thread: Seq<char>,
    at: int,
)
    ensures
        0 <= at < keys.len() && targets[keys[at]].thread_id == thread && (forall|k: int|
            at < k < keys.len() ==> targets[#[trigger] keys[k]].thread_id != thread)
            ==> bootstrap::assigned_to_targets(assignment, targets, keys)[thread]
            == targets[keys[at]].agent_name,
        (forall|k: int| 0 <= k < keys.len() ==> targets[#[trigger] keys[k]].thread_id != thread)
            ==> bootstrap::assigned_to_targets(assignment, targets, keys)[thread]
            == assignment[thread],
    decreases keys.len(),
{
    if keys.len() > 0 {
        let fewer = keys.drop_last();
        assert(keys.last() == keys[keys.len() - 1]);
        assert forall|k: int| 0 <= k < fewer.len() implies #[trigger] fewer[k] == keys[k] by {}
        lemma_target(assignment, targets, fewer, thread, at);
    }
}

/// A driver runs the agent that its thread belongs to: the one that asked for the decision where the
/// thread is decided on, else the one that the newest envelope for it names, else the one that was at
/// work on it.
pub proof fn law_a_driver_runs_the_agent_of_its_thread(
    recovery: &Recovery,
    res: Vec<DriverStart>,
    left: &AgentRuntimeSnapshot,
    replayed: Vec<&Envelope>,
    i: int,
    key: Seq<char>,
    at: int,
)
    requires
        call_ensures(bootstrap::plan_starts, (recovery,), res),
        recovery@.snapshot == Some(left@),
        recovery@.targets.dom().finite(),
        call_ensures(replayed_envelopes, (left,), replayed),
        0 <= i < res.deep_view().len(),
    ensures
        ({
            let start = res.deep_view()[i];
            let targets = recovery@.targets;
            let all = replayed.deep_view();
            let decided = targets.contains_key(key) && targets[key].thread_id == start.thread_id && (
            forall|k: Seq<char>| #[trigger]
                targets.contains_key(k) && targets[k].thread_id == start.thread_id ==> k == key);
            let undecided = forall|k: Seq<char>| #[trigger]
                targets.contains_key(k) ==> targets[k].thread_id != start.thread_id;
            &&& decided ==> start.name == targets[key].agent_name
            &&& undecided && 0 <= at < all.len() && all[at].to.thread_id == start.thread_id && (
            forall|k: int|
                at < k < all.len() ==> (#[trigger] all[k]).to.thread_id != start.thread_id)
                ==> start.name == all[at].to.name
            &&& undecided && (forall|k: int|
                0 <= k < all.len() ==> (#[trigger] all[k]).to.thread_id != start.thread_id)
                ==> start.name == left@.active_threads[start.thread_id]
        }),
{
    let start = res.deep_view()[i];
    let targets = recovery@.targets;
    let all = replayed.deep_view();
    let thread = start.thread_id;
    let keys = text::in_order(targets.dom());
    text::lemma_in_order(targets.dom());
    assert(recovery@.left() == left@);
    let between = bootstrap::assigned_to_recipients(left@.active_threads, all);
    lemma_recipient(left@.active_threads, all, thread, at);
    assert forall|k: int| 0 <= k < keys.len() implies #[trigger] targets.contains_key(keys[k]) by {
        assert(keys.to_set().contains(keys[k]));
    }
    if targets.contains_key(key) && targets[key].thread_id == thread && (forall|k: Seq<char>| #[trigger]
        targets.contains_key(k) && targets[k].thread_id == thread ==> k == key) {
        assert(keys.to_set().contains(key));
        let p = keys.index_of(key);
        assert forall|k: int| p < k < keys.len() implies targets[#[trigger] keys[k]].thread_id
            != thread by {
            assert(targets.contains_key(keys[k]));
            assert(keys[k] != keys[p]);
        }
        lemma_target(between, targets, keys, thread, p);
    }
    if forall|k: Seq<char>| #[trigger]
        targets.contains_key(k) ==> targets[k].thread_id != thread {
        assert forall|k: int| 0 <= k < keys.len() implies targets[#[trigger] keys[k]].thread_id
            != thread by {
            assert(targets.contains_key(keys[k]));
        }
        lemma_target(between, targets, keys, thread, 0);
    }
}

}
