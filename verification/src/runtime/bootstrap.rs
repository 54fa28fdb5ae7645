//! Starting a session's agents, with what an earlier process left mid-flight.

use crate::agent::{Envelope, EnvelopeView, ResumeDecision, ResumeDecisionView, ThreadId};
use crate::lists;
use crate::persist::{
    self, AgentRuntimeSnapshot, RuntimeSnapshotView, StoredCheckpoint, StoredCheckpointView,
};
use crate::runtime::recovery::{self, ResumeTarget, ResumeTargetView};
use crate::runtime::storage;
use crate::runtime::turn::{self, CallLedger, TurnGate};
use crate::string_map::StringMap;
use crate::text;
use vstd::prelude::*;

verus! {

/// What is to be resumed when a session starts.
#[derive(Debug)]
pub struct Recovery {
    /// What the last process left mid-flight.
    pub snapshot: Option<AgentRuntimeSnapshot>,
    /// The decisions to deliver, by thread.
    pub targets: StringMap<ResumeTarget>,
    /// The threads whose checkpoints have to be read before work is resumed, in order.
    pub consulted: Vec<String>,
}

/// The content of a [`Recovery`].
#[verifier::ext_equal]
pub struct RecoveryView {
    pub snapshot: Option<RuntimeSnapshotView>,
    pub targets: Map<Seq<char>, ResumeTargetView>,
    pub consulted: Seq<Seq<char>>,
}

impl View for Recovery {
    type V = RecoveryView;

    open spec fn view(&self) -> RecoveryView {
        RecoveryView {
            snapshot: match self.snapshot {
                Some(snapshot) => Some(snapshot@),
                None => None,
            },
            targets: self.targets.deep_view(),
            consulted: self.consulted.deep_view(),
        }
    }
}

/// A driver to start.
#[derive(Debug, PartialEq, Eq)]
pub struct DriverStart {
    /// The agent that drives.
    pub name: String,
    pub thread_id: ThreadId,
    /// The thread to resume at once, where there is unfinished work on it.
    pub active: Option<ThreadId>,
    /// The answer to the approval the thread waits for.
    pub decision: Option<ResumeDecision>,
    /// What stands in its inbox from the start.
    pub envelopes: Vec<Envelope>,
}

/// The content of a [`DriverStart`].
#[verifier::ext_equal]
pub struct DriverStartView {
    pub name: Seq<char>,
    pub thread_id: Seq<char>,
    pub active: Option<Seq<char>>,
    pub decision: Option<ResumeDecisionView>,
    pub envelopes: Seq<EnvelopeView>,
}

impl View for DriverStart {
    type V = DriverStartView;

    open spec fn view(&self) -> DriverStartView {
        DriverStartView {
            name: self.name@,
            thread_id: self.thread_id@,
            active: self.active.deep_view(),
            decision: self.decision.deep_view(),
            envelopes: self.envelopes.deep_view(),
        }
    }
}

impl DeepView for DriverStart {
    type V = DriverStartView;

    open spec fn deep_view(&self) -> DriverStartView {
        self@
    }
}

impl Clone for DriverStart {
    fn clone(&self) -> (res: Self)
        ensures
            res@ == self@,
    {
        let envelopes = self.envelopes.clone();
        assert(envelopes.deep_view() =~= self.envelopes.deep_view());
        DriverStart {
            name: self.name.clone(),
            thread_id: self.thread_id.clone(),
            active: self.active.clone(),
            decision: self.decision.clone(),
            envelopes,
        }
    }
}

impl RecoveryView {
    /// What the last process left mid-flight; nothing where nothing was stored.
    pub open spec fn left(self) -> RuntimeSnapshotView {
        match self.snapshot {
            Some(snapshot) => snapshot,
            None => RuntimeSnapshotView::empty(),
        }
    }

    /// Whether anything will actually run: a thread to resume, or an envelope to replay.
    pub open spec fn resuming(self) -> bool {
        ||| self.targets != Map::<Seq<char>, ResumeTargetView>::empty()
        ||| self.left().active_threads != Map::<Seq<char>, Seq<char>>::empty()
        ||| recovery::replayed(self.left()).len() > 0
    }

    /// The agent that drives each thread.
    pub open spec fn assignment(self) -> Map<Seq<char>, Seq<char>> {
        assigned_to_targets(
            assigned_to_recipients(self.left().active_threads, recovery::replayed(self.left())),
            self.targets,
            text::in_order(self.targets.dom()),
        )
    }

    /// How the driver of a thread starts.
    pub open spec fn start_of(self, thread: Seq<char>) -> DriverStartView {
        DriverStartView {
            name: self.assignment()[thread],
            thread_id: thread,
            active: if self.targets.contains_key(thread) || self.left().active_threads.contains_key(
                thread,
            ) {
                Some(thread)
            } else {
                None
            },
            decision: if self.targets.contains_key(thread) {
                Some(self.targets[thread].decision)
            } else {
                None
            },
            envelopes: recovery::replayed(self.left()).filter(for_thread(thread)),
        }
    }

    /// The drivers to start, in the order of their threads.
    pub open spec fn starts(self) -> Seq<DriverStartView> {
        text::in_order(self.assignment().dom()).map_values(
            |thread: Seq<char>| self.start_of(thread),
        )
    }
}

/// The envelopes addressed to a thread.
pub open spec fn for_thread(thread: Seq<char>) -> spec_fn(EnvelopeView) -> bool {
    |envelope: EnvelopeView| envelope.to.thread_id == thread
}

/// An assignment once the recipients of envelopes have their agents.
pub open spec fn assigned_to_recipients(
    assignment: Map<Seq<char>, Seq<char>>,
    envelopes: Seq<EnvelopeView>,
) -> Map<Seq<char>, Seq<char>>
    decreases envelopes.len(),
{
    if envelopes.len() == 0 {
        assignment
    } else {
        assigned_to_recipients(assignment, envelopes.drop_last()).insert(
            envelopes.last().to.thread_id,
            envelopes.last().to.name,
        )
    }
}

/// An assignment once the threads of decisions have their agents.
pub open spec fn assigned_to_targets(
    assignment: Map<Seq<char>, Seq<char>>,
    targets: Map<Seq<char>, ResumeTargetView>,
    keys: Seq<Seq<char>>,
) -> Map<Seq<char>, Seq<char>>
    decreases keys.len(),
{
    if keys.len() == 0 {
        assignment
    } else {
        assigned_to_targets(assignment, targets, keys.drop_last()).insert(
            targets[keys.last()].thread_id,
            targets[keys.last()].agent_name,
        )
    }
}

/// The decisions for these agents.
pub open spec fn known_targets(
    targets: Map<Seq<char>, ResumeTargetView>,
    agents: Seq<Seq<char>>,
) -> Map<Seq<char>, ResumeTargetView> {
    targets.restrict(Set::new(|key: Seq<char>| agents.contains(targets[key].agent_name)))
}

/// What is to be resumed, with these agents to do it.
pub open spec fn begun(
    agents: Seq<Seq<char>>,
    snapshot: Option<RuntimeSnapshotView>,
    targets: Map<Seq<char>, ResumeTargetView>,
) -> RecoveryView {
    let known = known_targets(targets, agents);
    match snapshot {
        Some(snapshot) => {
            let part = recovery::known_part(snapshot, agents, known);
            RecoveryView {
                snapshot: Some(part),
                targets: known,
                consulted: text::in_order(recovery::consulted_threads(part)),
            }
        },
        None => RecoveryView { snapshot: None, targets: known, consulted: Seq::empty() },
    }
}

/// Keep the decisions for these agents.
fn keep_known_targets(targets: StringMap<ResumeTarget>, agents: &Vec<String>) -> (res: StringMap<
    ResumeTarget,
>)
    ensures
        res.deep_view() == known_targets(targets.deep_view(), agents.deep_view()),
{
    let ghost all = targets.deep_view();
    let ghost names = agents.deep_view();
    let keys = targets.keys();
    let ghost order = keys.deep_view();
    proof {
        text::lemma_in_order(targets@.dom());
    }
    let mut kept: StringMap<ResumeTarget> = StringMap::new();
    let n: usize = keys.len();
    let mut i: usize = 0;
    while i < n
        invariant
            i <= n,
            n == keys@.len(),
            all == targets.deep_view(),
            names == agents.deep_view(),
            order == keys.deep_view(),
            order.to_set() == targets@.dom(),
            forall|key: Seq<char>| #[trigger]
                kept@.contains_key(key) <==> (order.take(i as int).contains(key) && names.contains(
                    all[key].agent_name,
                )),
            forall|key: Seq<char>| #[trigger]
                kept@.contains_key(key) ==> all.contains_key(key) && kept@[key]@ == all[key],
        decreases n - i,
    {
        let key = keys[i].clone();
        proof {
            assert(order[i as int] == key@);
            assert(order.to_set().contains(key@));
            assert(targets@.contains_key(key@));
            assert(order.take(i + 1) =~= order.take(i as int).push(key@));
            assert forall|other: Seq<char>| #[trigger]
                order.take(i + 1).contains(other) == (order.take(i as int).contains(other) || other
                    == key@) by {
                lists::lemma_push_holds(order.take(i as int), key@, other);
            }
        }
        match targets.get(key.as_str()) {
            Some(target) => {
                assert(all[key@] == target@);
                if text::holds_text(agents, target.agent_name.as_str()) {
                    let copy = target.clone();
                    kept.insert(key, copy);
                }
            },
            None => {},
        }
        i += 1;
    }
    proof {
        assert(order.take(n as int) =~= order);
        let known = known_targets(all, names);
        assert forall|key: Seq<char>|
            kept.deep_view().contains_key(key) == known.contains_key(key) by {
            assert(kept@.contains_key(key) <==> (order.contains(key) && names.contains(
                all[key].agent_name,
            )));
            assert(order.to_set().contains(key) == order.contains(key));
        }
        assert(kept.deep_view() =~= known);
    }
    kept
}

/// Begin to start a session: settle what there is to resume with these agents, and which stored threads
/// have to be read for it.
pub fn begin_recovery(
    agents: &Vec<String>,
    snapshot: Option<AgentRuntimeSnapshot>,
    targets: StringMap<ResumeTarget>,
) -> (res: Recovery)
    ensures
        res@ == begun(
            agents.deep_view(),
            (match snapshot {
                Some(left) => Some(left@),
                None => None,
            }),
            targets.deep_view(),
        ),
{
    let targets = keep_known_targets(targets, agents);
    match snapshot {
        Some(snapshot) => {
            let mut snapshot = snapshot;
            recovery::keep_known_part(&mut snapshot, agents, &targets);
            let consulted = recovery::recovery_threads(&snapshot);
            Recovery { snapshot: Some(snapshot), targets, consulted }
        },
        None => {
            let consulted: Vec<String> = Vec::new();
            assert(consulted.deep_view() =~= Seq::empty());
            Recovery { snapshot: None, targets, consulted }
        },
    }
}

/// Why a session with background work cannot be recovered.
pub open spec fn background_in_the_way() -> Seq<char> {
    "background execution must be aborted before recovery"@
}

/// Whether any of these threads works on a background task.
pub open spec fn any_in_background(checkpoints: Map<Seq<char>, StoredCheckpointView>) -> bool {
    exists|thread: Seq<char>| #[trigger]
        checkpoints.contains_key(thread) && storage::in_background(checkpoints[thread])
}

/// Whether any of these threads works on a background task.
fn has_background(checkpoints: &StringMap<StoredCheckpoint>) -> (res: bool)
    ensures
        res == any_in_background(checkpoints.deep_view()),
{
    let ghost all = checkpoints.deep_view();
    let keys = checkpoints.keys();
    let ghost order = keys.deep_view();
    proof {
        text::lemma_in_order(checkpoints@.dom());
    }
    let n: usize = keys.len();
    let mut i: usize = 0;
    while i < n
        invariant
            i <= n,
            n == keys@.len(),
            all == checkpoints.deep_view(),
            order == keys.deep_view(),
            order.to_set() == checkpoints@.dom(),
            forall|k: int| 0 <= k < i ==> !storage::in_background(all[#[trigger] order[k]]),
        decreases n - i,
    {
        assert(order[i as int] == keys@[i as int]@);
        assert(order.to_set().contains(order[i as int]));
        match checkpoints.get(keys[i].as_str()) {
            Some(checkpoint) => {
                assert(all[order[i as int]] == checkpoint@);
                if storage::works_in_background(checkpoint) {
                    assert(all.contains_key(order[i as int]));
                    return true;
                }
            },
            None => {},
        }
        i += 1;
    }
    proof {
        assert forall|thread: Seq<char>| #[trigger]
            all.contains_key(thread) implies !storage::in_background(all[thread]) by {
            assert(order.to_set().contains(thread));
            let k = order.index_of(thread);
            assert(order[k] == thread);
        }
    }
    false
}

/// Put back the turn and the calls of what is to be resumed, given the stored threads that were read
/// for it. Reports whether anything will actually run, which is only known here, once recovery has
/// thrown out what nothing will pick up again.
pub fn resume_work(
    recovery: &mut Recovery,
    checkpoints: &StringMap<StoredCheckpoint>,
    gate: &mut TurnGate,
    calls: &mut CallLedger,
) -> (res: Result<bool, String>)
    requires
        old(gate).well_formed(),
    ensures
        final(gate).well_formed(),
        match old(recovery)@.snapshot {
            None => {
                &&& final(recovery)@ == old(recovery)@
                &&& *final(gate) == *old(gate)
                &&& final(calls)@ == old(calls)@
                &&& res == Ok::<bool, String>(final(recovery)@.resuming())
            },
            Some(snapshot) => if any_in_background(checkpoints.deep_view()) {
                &&& final(recovery)@ == old(recovery)@
                &&& *final(gate) == *old(gate)
                &&& final(calls)@ == old(calls)@
                &&& res matches Err(reason) && reason@ == background_in_the_way()
            } else {
                let kept = recovery::with_only(
                    snapshot,
                    recovery::awaiting(checkpoints.deep_view()),
                );
                let after = recovery::registered(
                    *old(gate),
                    old(calls)@,
                    recovery::evidence_of(kept, checkpoints.deep_view()),
                );
                &&& final(recovery)@ == (RecoveryView { snapshot: Some(kept), ..old(recovery)@ })
                &&& *final(gate) == after.gate
                &&& final(calls)@ == after.owing
                &&& match res {
                    Ok(resuming) => !after.conflict && resuming == final(recovery)@.resuming(),
                    Err(reason) => after.conflict && reason@ == turn::restore_conflict(),
                }
            },
        },
{
    let ghost before = recovery@;
    let mut resuming = !recovery.targets.is_empty();
    proof {
        lemma_empty_is_empty(recovery.targets);
    }
    match recovery.snapshot.take() {
        None => {
            proof {
                recovery::lemma_nothing_to_replay();
            }
            Ok(resuming)
        },
        Some(snapshot) => {
            let mut snapshot = snapshot;
            if has_background(checkpoints) {
                recovery.snapshot = Some(snapshot);
                return Err("background execution must be aborted before recovery".to_owned());
            }
            recovery::drop_stale_envelopes(&mut snapshot, checkpoints);
            let registered = recovery::register_resumed_work(&snapshot, checkpoints, gate, calls);
            if !resuming {
                let replayed = recovery::replayed_envelopes(&snapshot);
                proof {
                    lemma_empty_is_empty(snapshot.active_threads);
                }
                resuming = !snapshot.active_threads.is_empty() || replayed.len() > 0;
            }
            recovery.snapshot = Some(snapshot);
            match registered {
                Ok(_) => Ok(resuming),
                Err(reason) => Err(reason),
            }
        },
    }
}

/// A map is empty where its content is.
proof fn lemma_empty_is_empty<T: DeepView>(map: StringMap<T>)
    ensures
        (map@ == Map::<Seq<char>, T>::empty()) == (map.deep_view() == Map::<Seq<char>, T::V>::empty()),
{
    if map.deep_view() == Map::<Seq<char>, T::V>::empty() {
        assert forall|key: Seq<char>| !map@.contains_key(key) by {
            assert(!map.deep_view().contains_key(key));
        }
        assert(map@ =~= Map::<Seq<char>, T>::empty());
    }
    if map@ == Map::<Seq<char>, T>::empty() {
        assert(map.deep_view() =~= Map::<Seq<char>, T::V>::empty());
    }
}

/// The envelopes addressed to a thread, in order.
fn addressed<'a>(envelopes: &Vec<&'a Envelope>, thread: &str) -> (res: Vec<Envelope>)
    ensures
        res.deep_view() == envelopes.deep_view().filter(for_thread(thread@)),
{
    let ghost all = envelopes.deep_view();
    let ghost mine = for_thread(thread@);
    let mut found: Vec<Envelope> = Vec::new();
    let n: usize = envelopes.len();
    let mut i: usize = 0;
    proof {
        reveal(Seq::filter);
        assert(found.deep_view() =~= all.take(0).filter(mine));
    }
    while i < n
        invariant
            i <= n,
            n == envelopes@.len(),
            all == envelopes.deep_view(),
            mine == for_thread(thread@),
            found.deep_view() == all.take(i as int).filter(mine),
        decreases n - i,
    {
        let ghost before = found.deep_view();
        let envelope = envelopes[i];
        proof {
            reveal(Seq::filter);
            assert(all.take(i + 1).drop_last() =~= all.take(i as int));
            assert(all.take(i + 1).last() == envelope@);
        }
        if text::same_text(envelope.to.thread_id.as_str(), thread) {
            found.push(envelope.clone());
            assert(found.deep_view() =~= before.push(envelope@));
        }
        i += 1;
    }
    assert(all.take(n as int) =~= all);
    found
}

/// The agent that drives each thread.
fn assign(recovery: &Recovery, envelopes: &Vec<&Envelope>) -> (res: StringMap<String>)
    requires
        envelopes.deep_view() == recovery::replayed(recovery@.left()),
    ensures
        res.deep_view() == recovery@.assignment(),
{
    let ghost active = recovery@.left().active_threads;
    let ghost all = envelopes.deep_view();
    let ghost targets = recovery@.targets;
    let mut assignment = match &recovery.snapshot {
        Some(snapshot) => persist::clone_names(&snapshot.active_threads),
        None => {
            let none: StringMap<String> = StringMap::new();
            assert(none.deep_view() =~= Map::empty());
            none
        },
    };
    let n: usize = envelopes.len();
    let mut i: usize = 0;
    assert(all.take(0) =~= Seq::empty());
    while i < n
        invariant
            i <= n,
            n == envelopes@.len(),
            all == envelopes.deep_view(),
            assignment.deep_view() == assigned_to_recipients(active, all.take(i as int)),
        decreases n - i,
    {
        let envelope = envelopes[i];
        let ghost before = assignment.deep_view();
        proof {
            assert(all.take(i + 1).drop_last() =~= all.take(i as int));
            assert(all.take(i + 1).last() == envelope@);
        }
        assignment.insert(envelope.to.thread_id.id.clone(), envelope.to.name.clone());
        assert(assignment.deep_view() =~= before.insert(
            envelope@.to.thread_id,
            envelope@.to.name,
        ));
        i += 1;
    }
    assert(all.take(n as int) =~= all);
    let ghost with_recipients = assignment.deep_view();
    let keys = recovery.targets.keys();
    let ghost order = keys.deep_view();
    proof {
        text::lemma_in_order(recovery.targets@.dom());
        assert(targets.dom() =~= recovery.targets@.dom());
        assert(order.take(0) =~= Seq::empty());
    }
    let m: usize = keys.len();
    let mut j: usize = 0;
    while j < m
        invariant
            j <= m,
            m == keys@.len(),
            order == keys.deep_view(),
            targets == recovery.targets.deep_view(),
            order.to_set() == recovery.targets@.dom(),
            assignment.deep_view() == assigned_to_targets(
                with_recipients,
                targets,
                order.take(j as int),
            ),
        decreases m - j,
    {
        let ghost before = assignment.deep_view();
        proof {
            assert(order[j as int] == keys@[j as int]@);
            assert(order.to_set().contains(order[j as int]));
            assert(order.take(j + 1).drop_last() =~= order.take(j as int));
            assert(order.take(j + 1).last() == order[j as int]);
        }
        match recovery.targets.get(keys[j].as_str()) {
            Some(target) => {
                assert(targets[order[j as int]] == target@);
                assignment.insert(target.thread_id.id.clone(), target.agent_name.clone());
                assert(assignment.deep_view() =~= before.insert(
                    target@.thread_id,
                    target@.agent_name,
                ));
            },
            None => {},
        }
        j += 1;
    }
    assert(order.take(m as int) =~= order);
    assignment
}

/// How the driver of a thread starts.
fn start_driver_of(
    recovery: &Recovery,
    envelopes: &Vec<&Envelope>,
    thread: &String,
    name: &String,
) -> (res: DriverStart)
    requires
        envelopes.deep_view() == recovery::replayed(recovery@.left()),
        name@ == recovery@.assignment()[thread@],
    ensures
        res@ == recovery@.start_of(thread@),
{
    let decision = match recovery.targets.get(thread.as_str()) {
        Some(target) => {
            assert(recovery@.targets[thread@] == target@);
            Some(target.decision.clone())
        },
        None => None,
    };
    let unfinished = match &recovery.snapshot {
        Some(snapshot) => snapshot.active_threads.contains_key(thread.as_str()),
        None => false,
    };
    let active = if decision.is_some() || unfinished {
        Some(ThreadId::from(thread.clone()))
    } else {
        None
    };
    DriverStart {
        name: name.clone(),
        thread_id: ThreadId::from(thread.clone()),
        active,
        decision,
        envelopes: addressed(envelopes, thread.as_str()),
    }
}

/// The drivers to start, one for each thread that has something to do.
pub fn plan_starts(recovery: &Recovery) -> (res: Vec<DriverStart>)
    ensures
        recovery@.assignment().dom().finite(),
        res.deep_view() == recovery@.starts(),
{
    let empty = AgentRuntimeSnapshot::default();
    let envelopes = match &recovery.snapshot {
        Some(snapshot) => recovery::replayed_envelopes(snapshot),
        None => recovery::replayed_envelopes(&empty),
    };
    let assignment = assign(recovery, &envelopes);
    let keys = assignment.keys();
    let ghost order = keys.deep_view();
    let ghost plan = |thread: Seq<char>| recovery@.start_of(thread);
    proof {
        text::lemma_in_order(assignment@.dom());
        assert(recovery@.assignment().dom() =~= assignment@.dom());
    }
    let mut starts: Vec<DriverStart> = Vec::new();
    let n: usize = keys.len();
    let mut i: usize = 0;
    assert(starts.deep_view() =~= order.take(0).map_values(plan));
    while i < n
        invariant
            i <= n,
            n == keys@.len(),
            order == keys.deep_view(),
            order.to_set() == assignment@.dom(),
            assignment.deep_view() == recovery@.assignment(),
            envelopes.deep_view() == recovery::replayed(recovery@.left()),
            plan == (|thread: Seq<char>| recovery@.start_of(thread)),
            starts.deep_view() == order.take(i as int).map_values(plan),
        decreases n - i,
    {
        let ghost before = starts.deep_view();
        proof {
            assert(order[i as int] == keys@[i as int]@);
            assert(order.to_set().contains(order[i as int]));
            assert(assignment@.contains_key(order[i as int]));
        }
        match assignment.get(keys[i].as_str()) {
            Some(name) => {
                assert(recovery@.assignment()[order[i as int]] == name@);
                let start = start_driver_of(recovery, &envelopes, &keys[i], name);
                starts.push(start);
                proof {
                    assert(starts.deep_view() =~= before.push(start@));
                    assert(order.take(i + 1).map_values(plan) =~= order.take(i as int).map_values(
                        plan,
                    ).push(start@));
                }
            },
            None => {},
        }
        i += 1;
    }
    assert(order.take(n as int) =~= order);
    starts
}

/// Assigning recipients keeps what was assigned and adds the recipient of every envelope.
proof fn lemma_recipients_assigned(
    assignment: Map<Seq<char>, Seq<char>>,
    envelopes: Seq<EnvelopeView>,
    thread: Seq<char>,
)
    ensures
        assigned_to_recipients(assignment, envelopes).contains_key(thread) == (
        assignment.contains_key(thread) || exists|k: int|
            0 <= k < envelopes.len() && (#[trigger] envelopes[k]).to.thread_id == thread),
    decreases envelopes.len(),
{
    if envelopes.len() > 0 {
        let fewer = envelopes.drop_last();
        lemma_recipients_assigned(assignment, fewer, thread);
        if envelopes.last().to.thread_id == thread {
            assert(envelopes[envelopes.len() - 1].to.thread_id == thread);
        }
        if exists|k: int| 0 <= k < fewer.len() && (#[trigger] fewer[k]).to.thread_id == thread {
            let k = choose|k: int|
                0 <= k < fewer.len() && (#[trigger] fewer[k]).to.thread_id == thread;
            assert(envelopes[k].to.thread_id == thread);
        }
        if exists|k: int|
            0 <= k < envelopes.len() && (#[trigger] envelopes[k]).to.thread_id == thread {
            let k = choose|k: int|
                0 <= k < envelopes.len() && (#[trigger] envelopes[k]).to.thread_id == thread;
            if k < fewer.len() {
                assert(fewer[k].to.thread_id == thread);
            }
        }
    }
}

/// Assigning decisions keeps what was assigned and adds the thread of every decision.
proof fn lemma_targets_assigned(
    assignment: Map<Seq<char>, Seq<char>>,
    targets: Map<Seq<char>, ResumeTargetView>,
    keys: Seq<Seq<char>>,
    thread: Seq<char>,
)
    ensures
        assigned_to_targets(assignment, targets, keys).contains_key(thread) == (
        assignment.contains_key(thread) || exists|k: int|
            0 <= k < keys.len() && targets[#[trigger] keys[k]].thread_id == thread),
    decreases keys.len(),
{
    if keys.len() > 0 {
        let fewer = keys.drop_last();
        lemma_targets_assigned(assignment, targets, fewer, thread);
        if targets[keys.last()].thread_id == thread {
            assert(targets[keys[keys.len() - 1]].thread_id == thread);
        }
        if exists|k: int| 0 <= k < fewer.len() && targets[#[trigger] fewer[k]].thread_id == thread {
            let k = choose|k: int|
                0 <= k < fewer.len() && targets[#[trigger] fewer[k]].thread_id == thread;
            assert(targets[keys[k]].thread_id == thread);
        }
        if exists|k: int| 0 <= k < keys.len() && targets[#[trigger] keys[k]].thread_id == thread {
            let k = choose|k: int|
                0 <= k < keys.len() && targets[#[trigger] keys[k]].thread_id == thread;
            if k < fewer.len() {
                assert(targets[fewer[k]].thread_id == thread);
            }
        }
    }
}

/// A driver starts for exactly the threads that have something to do: an active thread, the recipient
/// of an envelope, or the thread of a decision. No thread has two.
pub proof fn law_every_resumed_thread_gets_one_driver(recovery: RecoveryView, thread: Seq<char>)
    requires
        recovery.targets.dom().finite(),
        recovery.assignment().dom().finite(),
    ensures
        (exists|i: int|
            0 <= i < recovery.starts().len() && (#[trigger] recovery.starts()[i]).thread_id
                == thread) <==> {
            ||| recovery.left().active_threads.contains_key(thread)
            ||| exists|k: int|
                0 <= k < recovery::replayed(recovery.left()).len() && (
                #[trigger] recovery::replayed(recovery.left())[k]).to.thread_id == thread
            ||| recovery::resumed(recovery.targets, thread)
        },
        forall|i: int, j: int|
            0 <= i < j < recovery.starts().len() ==> (#[trigger] recovery.starts()[i]).thread_id
                != (#[trigger] recovery.starts()[j]).thread_id,
{
    let keys = text::in_order(recovery.targets.dom());
    let order = text::in_order(recovery.assignment().dom());
    let envelopes = recovery::replayed(recovery.left());
    let active = recovery.left().active_threads;
    let starts = recovery.starts();
    text::lemma_in_order(recovery.targets.dom());
    text::lemma_in_order(recovery.assignment().dom());
    lemma_recipients_assigned(active, envelopes, thread);
    lemma_targets_assigned(
        assigned_to_recipients(active, envelopes),
        recovery.targets,
        keys,
        thread,
    );
    assert(recovery::resumed(recovery.targets, thread) <==> exists|k: int|
        0 <= k < keys.len() && recovery.targets[#[trigger] keys[k]].thread_id == thread) by {
        if recovery::resumed(recovery.targets, thread) {
            let key = choose|key: Seq<char>| #[trigger]
                recovery.targets.contains_key(key) && recovery.targets[key].thread_id == thread;
            assert(keys.to_set().contains(key));
            let k = keys.index_of(key);
            assert(recovery.targets[keys[k]].thread_id == thread);
        }
        if exists|k: int|
            0 <= k < keys.len() && recovery.targets[#[trigger] keys[k]].thread_id == thread {
            let k = choose|k: int|
                0 <= k < keys.len() && recovery.targets[#[trigger] keys[k]].thread_id == thread;
            assert(keys.to_set().contains(keys[k]));
            assert(recovery.targets.contains_key(keys[k]));
        }
    }
    if recovery.assignment().contains_key(thread) {
        assert(order.to_set().contains(thread));
        let i = order.index_of(thread);
        assert(starts[i].thread_id == thread);
    }
    if exists|i: int| 0 <= i < starts.len() && (#[trigger] starts[i]).thread_id == thread {
        let i = choose|i: int| 0 <= i < starts.len() && (#[trigger] starts[i]).thread_id == thread;
        assert(order[i] == thread);
        assert(order.to_set().contains(thread));
    }
    assert forall|i: int, j: int| 0 <= i < j < starts.len() implies (
    #[trigger] starts[i]).thread_id != (#[trigger] starts[j]).thread_id by {
        assert(starts[i].thread_id == order[i]);
        assert(starts[j].thread_id == order[j]);
    }
}

/// No envelope is lost or misdirected: every replayed envelope stands in the inbox of the thread it is
/// addressed to, and a driver starts with nothing but the envelopes of its own thread.
pub proof fn law_replayed_envelopes_reach_their_threads(recovery: RecoveryView)
    requires
        recovery.targets.dom().finite(),
        recovery.assignment().dom().finite(),
    ensures
        forall|envelope: EnvelopeView| #[trigger]
            recovery::replayed(recovery.left()).contains(envelope) ==> exists|i: int|
                0 <= i < recovery.starts().len() && (#[trigger] recovery.starts()[i]).thread_id
                    == envelope.to.thread_id && recovery.starts()[i].envelopes.contains(envelope),
        forall|i: int, k: int|
            #![trigger recovery.starts()[i].envelopes[k]]
            0 <= i < recovery.starts().len() && 0 <= k < recovery.starts()[i].envelopes.len()
                ==> recovery.starts()[i].envelopes[k].to.thread_id
                == recovery.starts()[i].thread_id && recovery::replayed(recovery.left()).contains(
                recovery.starts()[i].envelopes[k],
            ),
{
    let envelopes = recovery::replayed(recovery.left());
    let starts = recovery.starts();
    assert forall|envelope: EnvelopeView| #[trigger] envelopes.contains(envelope) implies exists|
        i: int,
    |
        0 <= i < starts.len() && (#[trigger] starts[i]).thread_id == envelope.to.thread_id
            && starts[i].envelopes.contains(envelope) by {
        let thread = envelope.to.thread_id;
        let k = envelopes.index_of(envelope);
        assert(envelopes[k].to.thread_id == thread);
        law_every_resumed_thread_gets_one_driver(recovery, thread);
        let i = choose|i: int| 0 <= i < starts.len() && (#[trigger] starts[i]).thread_id == thread;
        envelopes.lemma_filter_contains(for_thread(thread), k);
        assert(starts[i].envelopes.contains(envelope));
    }
    assert forall|i: int, k: int|
        #![trigger starts[i].envelopes[k]]
        0 <= i < starts.len() && 0 <= k
            < starts[i].envelopes.len() implies starts[i].envelopes[k].to.thread_id
        == starts[i].thread_id && envelopes.contains(starts[i].envelopes[k]) by {
        let mine = for_thread(starts[i].thread_id);
        assert(starts[i].envelopes == envelopes.filter(mine));
        envelopes.lemma_filter_pred(mine, k);
        envelopes.lemma_filter_contains_rev(mine, starts[i].envelopes[k]);
    }
}

}
