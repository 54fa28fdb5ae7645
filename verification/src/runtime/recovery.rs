//! Putting back what a session left mid-flight.

use crate::agent::{
    Envelope, EnvelopeBody, EnvelopeBodyView, EnvelopeView, PendingReply, ResumeDecision,
    ResumeDecisionView, ResumePointView, Sender, SenderView, ThreadId,
};
use crate::execution::StoredExecutionView;
use crate::ids::{self, Timestamp, TurnId};
use crate::lists;
use crate::persist::{
    AgentRuntimeSnapshot, RuntimeSnapshotView, StoredCheckpoint, StoredCheckpointView,
    StoredResumePoint, StoredResumePointView,
};
use crate::runtime::agent_loop::{self, LoopView, TurnEndView};
use crate::runtime::turn::{self, CallLedger, TurnGate};
use crate::string_map::StringMap;
use crate::text;
use vstd::multiset::Multiset;
use vstd::prelude::*;

verus! {

/// A caller's answer to one agent's pending approval, addressed to the thread that is parked on it.
///
/// The thread comes from the checkpoint that holds the approval, not from the runtime snapshot: the
/// snapshot is written when an agent exits, so it is missing for a session that was killed while it
/// waited.
#[derive(Debug, PartialEq, Eq)]
pub struct ResumeTarget {
    pub agent_name: String,
    pub thread_id: ThreadId,
    pub decision: ResumeDecision,
}

/// The content of a [`ResumeTarget`].
#[verifier::ext_equal]
pub struct ResumeTargetView {
    pub agent_name: Seq<char>,
    pub thread_id: Seq<char>,
    pub decision: ResumeDecisionView,
}

impl View for ResumeTarget {
    type V = ResumeTargetView;

    open spec fn view(&self) -> ResumeTargetView {
        ResumeTargetView {
            agent_name: self.agent_name@,
            thread_id: self.thread_id@,
            decision: self.decision@,
        }
    }
}

impl DeepView for ResumeTarget {
    type V = ResumeTargetView;

    open spec fn deep_view(&self) -> ResumeTargetView {
        self@
    }
}

impl Clone for ResumeTarget {
    fn clone(&self) -> (res: Self)
        ensures
            res@ == self@,
    {
        ResumeTarget {
            agent_name: self.agent_name.clone(),
            thread_id: self.thread_id.clone(),
            decision: self.decision.clone(),
        }
    }
}

/// The envelopes kept for one thread.
pub open spec fn kept_for(envelopes: Map<Seq<char>, Seq<EnvelopeView>>, thread: Seq<char>) -> Seq<
    EnvelopeView,
> {
    if envelopes.contains_key(thread) {
        envelopes[thread]
    } else {
        Seq::empty()
    }
}

/// The envelopes kept for these threads, thread by thread: what stood in a thread's inbox comes before
/// what arrived during the final drain.
pub open spec fn replayed_for(snapshot: RuntimeSnapshotView, threads: Seq<Seq<char>>) -> Seq<
    EnvelopeView,
>
    decreases threads.len(),
{
    if threads.len() == 0 {
        Seq::empty()
    } else {
        replayed_for(snapshot, threads.drop_last()) + kept_for(
            snapshot.agent_drained_envelopes,
            threads.last(),
        ) + kept_for(snapshot.drained_envelopes, threads.last())
    }
}

/// Every envelope that a recovery is about to put back, in the order of the threads they are kept for.
pub open spec fn replayed(snapshot: RuntimeSnapshotView) -> Seq<EnvelopeView> {
    replayed_for(
        snapshot,
        text::in_order(
            snapshot.agent_drained_envelopes.dom().union(snapshot.drained_envelopes.dom()),
        ),
    )
}

/// Append the envelopes kept for a thread.
fn append_kept<'a>(
    list: &mut Vec<&'a Envelope>,
    envelopes: &'a StringMap<Vec<Envelope>>,
    thread: &str,
)
    ensures
        final(list).deep_view() == old(list).deep_view() + kept_for(envelopes.deep_view(), thread@),
{
    match envelopes.get(thread) {
        Some(kept) => {
            let ghost start = list.deep_view();
            let ghost all = kept.deep_view();
            assert(envelopes.deep_view()[thread@] == all);
            let n: usize = kept.len();
            let mut i: usize = 0;
            assert(list.deep_view() =~= start + all.take(0));
            while i < n
                invariant
                    i <= n,
                    n == kept@.len(),
                    all == kept.deep_view(),
                    list.deep_view() == start + all.take(i as int),
                decreases n - i,
            {
                let ghost before = list.deep_view();
                list.push(&kept[i]);
                assert(list.deep_view() =~= before.push(kept@[i as int]@));
                assert(all.take(i + 1) =~= all.take(i as int).push(kept@[i as int]@));
                assert(list.deep_view() =~= start + all.take(i + 1));
                i += 1;
            }
            assert(all.take(n as int) =~= all);
        },
        None => {
            assert(list.deep_view() =~= old(list).deep_view() + kept_for(
                envelopes.deep_view(),
                thread@,
            ));
        },
    }
}

/// Every envelope that a recovery is about to put back. Thread ids are sorted to keep recovery
/// deterministic.
pub fn replayed_envelopes(snapshot: &AgentRuntimeSnapshot) -> (res: Vec<&Envelope>)
    ensures
        res.deep_view() == replayed(snapshot@),
{
    let threads = kept_threads(snapshot);
    let ghost order = threads.deep_view();
    let mut list: Vec<&Envelope> = Vec::new();
    let n: usize = threads.len();
    let mut i: usize = 0;
    assert(list.deep_view() =~= replayed_for(snapshot@, order.take(0)));
    while i < n
        invariant
            i <= n,
            n == threads@.len(),
            order == threads.deep_view(),
            list.deep_view() == replayed_for(snapshot@, order.take(i as int)),
        decreases n - i,
    {
        proof {
            assert(order.take(i + 1).drop_last() =~= order.take(i as int));
            assert(order.take(i + 1).last() == threads@[i as int]@);
        }
        append_kept(&mut list, &snapshot.agent_drained_envelopes, threads[i].as_str());
        append_kept(&mut list, &snapshot.drained_envelopes, threads[i].as_str());
        i += 1;
    }
    assert(order.take(n as int) =~= order);
    list
}

/// The threads that envelopes are kept for, in order.
fn kept_threads(snapshot: &AgentRuntimeSnapshot) -> (res: Vec<String>)
    ensures
        res.deep_view() == text::in_order(
            snapshot@.agent_drained_envelopes.dom().union(snapshot@.drained_envelopes.dom()),
        ),
{
    let mut threads = snapshot.agent_drained_envelopes.keys();
    let mut more = snapshot.drained_envelopes.keys();
    let ghost first = threads.deep_view();
    let ghost second = more.deep_view();
    threads.append(&mut more);
    proof {
        text::lemma_in_order(snapshot.agent_drained_envelopes@.dom());
        text::lemma_in_order(snapshot.drained_envelopes@.dom());
        assert(threads.deep_view() =~= first + second);
        assert((first + second).to_set() =~= snapshot@.agent_drained_envelopes.dom().union(
            snapshot@.drained_envelopes.dom(),
        )) by {
            vstd::seq_lib::seq_to_set_distributes_over_add(first, second);
            assert(first.to_set() =~= snapshot@.agent_drained_envelopes.dom());
            assert(second.to_set() =~= snapshot@.drained_envelopes.dom());
        }
    }
    text::sorted_distinct(threads)
}

/// The turn a stored thread was last working on.
pub open spec fn turn_of(checkpoint: StoredCheckpointView) -> Option<TurnId> {
    if checkpoint.messages.len() == 0 {
        None
    } else {
        Some(checkpoint.messages.last().turn_id)
    }
}

/// The turn a stored thread was last working on.
pub fn last_turn(checkpoint: &StoredCheckpoint) -> (res: Option<TurnId>)
    ensures
        res == turn_of(checkpoint@),
{
    let n: usize = checkpoint.messages.len();
    if n == 0 {
        None
    } else {
        assert(checkpoint@.messages.last() == checkpoint.messages@[n - 1]@);
        Some(checkpoint.messages[n - 1].turn_id)
    }
}

/// Whether the thread an envelope is addressed to is still waiting for it. Work carries what it opens,
/// so nothing has to be waiting for it. A thread with no checkpoint has no state to take an answer
/// into.
///
/// Answers are matched by the envelope that carried the call out: a call id is only unique within one
/// assistant message, so an answer to an earlier invocation that reused it would pass for the one being
/// waited on.
pub open spec fn awaited(
    envelope: EnvelopeView,
    checkpoints: Map<Seq<char>, StoredCheckpointView>,
) -> bool {
    let thread = envelope.to.thread_id;
    match envelope.body {
        EnvelopeBodyView::Task { .. } => true,
        EnvelopeBodyView::ToolCall { .. } => true,
        EnvelopeBodyView::Reply { .. } => checkpoints.contains_key(thread) && waits_for_reply(
            checkpoints[thread].resume_point,
            envelope.reply_to,
        ),
        EnvelopeBodyView::Resume(_) => checkpoints.contains_key(thread)
            && checkpoints[thread].resume_point is PendingApproval,
    }
}

/// Whether a stored thread waits for the answer to the call that `reply_to` carried out.
pub open spec fn waits_for_reply(point: StoredResumePointView, reply_to: Option<Seq<char>>) -> bool {
    match point {
        StoredResumePointView::ToolExecution(state) => exists|k: int|
            0 <= k < state.pending_replies.len() && reply_to == Some(
                (#[trigger] state.pending_replies[k]).call_envelope_id,
            ),
        _ => false,
    }
}

/// The envelopes that are still awaited.
pub open spec fn awaiting(checkpoints: Map<Seq<char>, StoredCheckpointView>) -> spec_fn(
    EnvelopeView,
) -> bool {
    |envelope: EnvelopeView| awaited(envelope, checkpoints)
}

/// The envelopes that are addressed to one of these agents.
pub open spec fn addressed_to(agents: Seq<Seq<char>>) -> spec_fn(EnvelopeView) -> bool {
    |envelope: EnvelopeView| agents.contains(envelope.to.name)
}

/// A snapshot with only those envelopes for which `keep` holds.
pub open spec fn with_only(snapshot: RuntimeSnapshotView, keep: spec_fn(EnvelopeView) -> bool) ->
    RuntimeSnapshotView {
    RuntimeSnapshotView {
        drained_envelopes: snapshot.drained_envelopes.map_values(
            |envelopes: Seq<EnvelopeView>| envelopes.filter(keep),
        ),
        agent_drained_envelopes: snapshot.agent_drained_envelopes.map_values(
            |envelopes: Seq<EnvelopeView>| envelopes.filter(keep),
        ),
        ..snapshot
    }
}

/// Which envelopes a recovery keeps.
enum Sieve<'a> {
    /// Those addressed to one of these agents.
    Known(&'a Vec<String>),
    /// Those their recipient still waits for.
    Awaited(&'a StringMap<StoredCheckpoint>),
}

impl<'a> Sieve<'a> {
    spec fn keep(self) -> spec_fn(EnvelopeView) -> bool {
        match self {
            Sieve::Known(agents) => addressed_to(agents.deep_view()),
            Sieve::Awaited(checkpoints) => awaiting(checkpoints.deep_view()),
        }
    }

    fn keeps(&self, envelope: &Envelope) -> (res: bool)
        ensures
            res == (self.keep())(envelope@),
    {
        match self {
            Sieve::Known(agents) => text::holds_text(agents, envelope.to.name.as_str()),
            Sieve::Awaited(checkpoints) => is_awaited(envelope, checkpoints),
        }
    }

    /// The envelopes that pass, in order.
    fn sift(&self, envelopes: &Vec<Envelope>) -> (res: Vec<Envelope>)
        ensures
            res.deep_view() == envelopes.deep_view().filter(self.keep()),
    {
        let ghost all = envelopes.deep_view();
        let ghost keep = self.keep();
        let mut kept: Vec<Envelope> = Vec::new();
        let n: usize = envelopes.len();
        let mut i: usize = 0;
        proof {
            reveal(Seq::filter);
            assert(kept.deep_view() =~= all.take(0).filter(keep));
        }
        while i < n
            invariant
                i <= n,
                n == envelopes@.len(),
                all == envelopes.deep_view(),
                keep == self.keep(),
                kept.deep_view() == all.take(i as int).filter(keep),
            decreases n - i,
        {
            let ghost before = kept.deep_view();
            proof {
                reveal(Seq::filter);
                assert(all.take(i + 1).drop_last() =~= all.take(i as int));
                assert(all.take(i + 1).last() == envelopes@[i as int]@);
            }
            if self.keeps(&envelopes[i]) {
                kept.push(envelopes[i].clone());
                assert(kept.deep_view() =~= before.push(envelopes@[i as int]@));
            }
            i += 1;
        }
        assert(all.take(n as int) =~= all);
        kept
    }

    /// The envelopes that pass, by thread.
    fn sift_all(&self, envelopes: &StringMap<Vec<Envelope>>) -> (res: StringMap<Vec<Envelope>>)
        ensures
            res.deep_view() == envelopes.deep_view().map_values(
                |list: Seq<EnvelopeView>| list.filter(self.keep()),
            ),
    {
        let keys = envelopes.keys();
        let ghost order = keys.deep_view();
        let ghost keep = |list: Seq<EnvelopeView>| list.filter(self.keep());
        let ghost all = envelopes.deep_view();
        proof {
            text::lemma_in_order(envelopes@.dom());
        }
        let mut kept: StringMap<Vec<Envelope>> = StringMap::new();
        let n: usize = keys.len();
        let mut i: usize = 0;
        while i < n
            invariant
                i <= n,
                n == keys@.len(),
                order == keys.deep_view(),
                all == envelopes.deep_view(),
                order.to_set() == envelopes@.dom(),
                keep == (|list: Seq<EnvelopeView>| list.filter(self.keep())),
                forall|thread: Seq<char>| #[trigger]
                    kept@.contains_key(thread) <==> order.take(i as int).contains(thread),
                forall|thread: Seq<char>| #[trigger]
                    kept@.contains_key(thread) ==> all.contains_key(thread)
                        && kept@[thread].deep_view() == keep(all[thread]),
            decreases n - i,
        {
            let thread = keys[i].clone();
            proof {
                assert(order[i as int] == thread@);
                assert(order.to_set().contains(thread@));
                assert(order.take(i + 1) =~= order.take(i as int).push(thread@));
                assert forall|other: Seq<char>| #[trigger]
                    order.take(i + 1).contains(other) == (order.take(i as int).contains(other)
                        || other == thread@) by {
                    lists::lemma_push_holds(order.take(i as int), thread@, other);
                }
            }
            match envelopes.get(thread.as_str()) {
                Some(list) => {
                    let passed = self.sift(list);
                    assert(all[thread@] == list.deep_view());
                    kept.insert(thread, passed);
                },
                None => {},
            }
            i += 1;
        }
        proof {
            assert(order.take(n as int) =~= order);
            assert forall|thread: Seq<char>|
                kept.deep_view().contains_key(thread) == all.map_values(keep).contains_key(
                    thread,
                ) by {
                assert(kept@.contains_key(thread) <==> order.contains(thread));
                assert(order.to_set().contains(thread) == order.contains(thread));
            }
            assert(kept.deep_view() =~= all.map_values(keep));
        }
        kept
    }
}

/// Whether the thread an envelope is addressed to is still waiting for it.
pub fn is_awaited(envelope: &Envelope, checkpoints: &StringMap<StoredCheckpoint>) -> (res: bool)
    ensures
        res == awaited(envelope@, checkpoints.deep_view()),
{
    let stored = checkpoints.get(envelope.to.thread_id.as_str());
    match &envelope.body {
        EnvelopeBody::Task { .. } => true,
        EnvelopeBody::ToolCall { .. } => true,
        EnvelopeBody::Reply { .. } => match stored {
            Some(checkpoint) => {
                assert(checkpoints.deep_view()[envelope@.to.thread_id] == checkpoint@);
                awaits_reply(&checkpoint.resume_point, &envelope.reply_to)
            },
            None => false,
        },
        EnvelopeBody::Resume(_) => match stored {
            Some(checkpoint) => {
                assert(checkpoints.deep_view()[envelope@.to.thread_id] == checkpoint@);
                match &checkpoint.resume_point {
                    StoredResumePoint::PendingApproval { .. } => true,
                    _ => false,
                }
            },
            None => false,
        },
    }
}

/// Whether a stored thread waits for the answer to the call that `reply_to` carried out.
fn awaits_reply(point: &StoredResumePoint, reply_to: &Option<String>) -> (res: bool)
    ensures
        res == waits_for_reply(point@, reply_to.deep_view()),
{
    match (point, reply_to) {
        (StoredResumePoint::ToolExecution(state), Some(call)) => names_call(
            &state.pending_replies,
            call.as_str(),
        ),
        _ => false,
    }
}

/// Whether one of these answers is owed to the call that `envelope_id` carried out.
fn names_call(pending: &Vec<PendingReply>, envelope_id: &str) -> (res: bool)
    ensures
        res == exists|k: int|
            0 <= k < pending.deep_view().len() && Some(envelope_id@) == Some(
                (#[trigger] pending.deep_view()[k]).call_envelope_id,
            ),
{
    let ghost all = pending.deep_view();
    let n: usize = pending.len();
    let mut i: usize = 0;
    while i < n
        invariant
            i <= n,
            n == pending@.len(),
            all == pending.deep_view(),
            forall|k: int| 0 <= k < i ==> (#[trigger] all[k]).call_envelope_id != envelope_id@,
        decreases n - i,
    {
        assert(all[i as int] == pending@[i as int]@);
        if text::same_text(pending[i].call_envelope_id.as_str(), envelope_id) {
            assert(all[i as int].call_envelope_id == envelope_id@);
            return true;
        }
        i += 1;
    }
    false
}

/// Throw away the replayed envelopes their recipient is no longer waiting for.
///
/// Nothing rewrites a snapshot until an agent exits, so a second crash hands back envelopes the first
/// recovery already delivered. The thread drops such an answer on arrival, but only after it has
/// restored the finished turn the answer names, leaving that turn on the books with nothing to end it.
pub fn drop_stale_envelopes(
    snapshot: &mut AgentRuntimeSnapshot,
    checkpoints: &StringMap<StoredCheckpoint>,
)
    ensures
        final(snapshot)@ == with_only(old(snapshot)@, awaiting(checkpoints.deep_view())),
{
    let sieve = Sieve::Awaited(checkpoints);
    snapshot.drained_envelopes = sieve.sift_all(&snapshot.drained_envelopes);
    snapshot.agent_drained_envelopes = sieve.sift_all(&snapshot.agent_drained_envelopes);
    assert(snapshot@ =~= with_only(old(snapshot)@, awaiting(checkpoints.deep_view())));
}

/// What one piece of evidence says about resumed work: the turn it belongs to, and the thread that will
/// settle an answer for it.
#[verifier::ext_equal]
pub struct Evidence {
    pub turn: Option<TurnId>,
    pub owes: Option<Seq<char>>,
}

/// Whether a stored thread still owes its caller an answer. A reply target outlives only an unanswered
/// call: it is taken before the checkpoint that precedes the reply.
pub open spec fn owes_answer(checkpoint: StoredCheckpointView) -> bool {
    match checkpoint.active_execution {
        Some(execution) => execution.reply_target() is Some,
        None => false,
    }
}

/// A thread that has answered its caller is not stored as owing an answer: whatever is stored of a run
/// owes one only while the run still has somebody to answer, and has not just ended. So no obligation is
/// put back that nothing will settle.
pub proof fn law_an_answered_thread_owes_nothing(
    run: LoopView,
    point: ResumePointView,
    suspended_at: Timestamp,
    execution: Option<StoredExecutionView>,
    owed: TurnEndView,
)
    ensures
        ({
            let stored = agent_loop::checkpoint_of(run, point, suspended_at, execution, owed);
            &&& owes_answer(stored) ==> run.reply_target is Some && stored.reply_target is Some
            &&& owes_answer(stored) ==> !owed.ends_work()
        }),
{
}

/// What a thread that was parked mid-turn says.
pub open spec fn evidence_of_thread(thread: Seq<char>, checkpoint: StoredCheckpointView) -> Evidence {
    Evidence {
        turn: turn_of(checkpoint),
        owes: if owes_answer(checkpoint) {
            Some(thread)
        } else {
            None
        },
    }
}

/// What an active thread says, as far as it is stored.
pub open spec fn evidence_of_active(
    thread: Seq<char>,
    checkpoints: Map<Seq<char>, StoredCheckpointView>,
) -> Evidence {
    if checkpoints.contains_key(thread) {
        evidence_of_thread(thread, checkpoints[thread])
    } else {
        Evidence { turn: None, owes: None }
    }
}

/// The turn that the recipient of an answer is in.
pub open spec fn turn_of_recipient(
    envelope: EnvelopeView,
    checkpoints: Map<Seq<char>, StoredCheckpointView>,
) -> Option<TurnId> {
    if checkpoints.contains_key(envelope.to.thread_id) {
        turn_of(checkpoints[envelope.to.thread_id])
    } else {
        None
    }
}

/// What an envelope that is about to be put back says. A dispatched call that its recipient has not
/// picked up is owed an answer; an answer nobody has taken yet still settles one when its caller takes
/// it.
pub open spec fn evidence_of_envelope(
    envelope: EnvelopeView,
    checkpoints: Map<Seq<char>, StoredCheckpointView>,
) -> Evidence {
    match envelope.body {
        EnvelopeBodyView::Task { message_id, .. } => Evidence {
            turn: Some(ids::turn_opened_by(message_id)),
            owes: None,
        },
        EnvelopeBodyView::ToolCall { turn_id, .. } => Evidence {
            turn: Some(turn_id),
            owes: Some(envelope.to.thread_id),
        },
        EnvelopeBodyView::Reply { .. } => Evidence {
            turn: turn_of_recipient(envelope, checkpoints),
            owes: match envelope.from {
                SenderView::Agent { thread_id, .. } => Some(thread_id),
                SenderView::User => None,
            },
        },
        EnvelopeBodyView::Resume(_) => Evidence {
            turn: turn_of_recipient(envelope, checkpoints),
            owes: None,
        },
    }
}

/// What the work of a snapshot says: its active threads first, then the envelopes to put back. They are
/// independent evidence for the same turn.
pub open spec fn evidence_of(
    snapshot: RuntimeSnapshotView,
    checkpoints: Map<Seq<char>, StoredCheckpointView>,
) -> Seq<Evidence> {
    text::in_order(snapshot.active_threads.dom()).map_values(
        |thread: Seq<char>| evidence_of_active(thread, checkpoints),
    ) + replayed(snapshot).map_values(
        |envelope: EnvelopeView| evidence_of_envelope(envelope, checkpoints),
    )
}

/// The turn slot and the call ledger once evidence was registered.
#[verifier::ext_equal]
pub struct Registered {
    pub gate: TurnGate,
    pub owing: Multiset<Seq<char>>,
    /// Whether two pieces of evidence named different turns; nothing after that was registered.
    pub conflict: bool,
}

/// One piece of evidence registered.
pub open spec fn registered_one(before: Registered, evidence: Evidence) -> Registered {
    let gate = match evidence.turn {
        Some(turn) => before.gate.restored(turn),
        None => Some(before.gate),
    };
    if before.conflict {
        before
    } else {
        match gate {
            None => Registered { conflict: true, ..before },
            Some(gate) => Registered {
                gate,
                owing: match evidence.owes {
                    Some(thread) => before.owing.insert(thread),
                    None => before.owing,
                },
                conflict: false,
            },
        }
    }
}

/// Evidence registered, one piece after the other.
pub open spec fn registered(
    gate: TurnGate,
    owing: Multiset<Seq<char>>,
    evidence: Seq<Evidence>,
) -> Registered
    decreases evidence.len(),
{
    if evidence.len() == 0 {
        Registered { gate, owing, conflict: false }
    } else {
        registered_one(registered(gate, owing, evidence.drop_last()), evidence.last())
    }
}

proof fn lemma_registered_more(
    gate: TurnGate,
    owing: Multiset<Seq<char>>,
    evidence: Seq<Evidence>,
    n: int,
)
    requires
        0 <= n < evidence.len(),
    ensures
        registered(gate, owing, evidence.take(n + 1)) == registered_one(
            registered(gate, owing, evidence.take(n)),
            evidence[n],
        ),
{
    assert(evidence.take(n + 1).drop_last() =~= evidence.take(n));
}

proof fn lemma_conflict_stays(
    gate: TurnGate,
    owing: Multiset<Seq<char>>,
    evidence: Seq<Evidence>,
    n: int,
)
    requires
        0 <= n <= evidence.len(),
        registered(gate, owing, evidence.take(n)).conflict,
    ensures
        registered(gate, owing, evidence) == registered(gate, owing, evidence.take(n)),
    decreases evidence.len() - n,
{
    if n < evidence.len() {
        lemma_registered_more(gate, owing, evidence, n);
        lemma_conflict_stays(gate, owing, evidence, n + 1);
    } else {
        assert(evidence.take(n) =~= evidence);
    }
}

/// Register one piece of evidence.
fn register_evidence(
    turn: Option<TurnId>,
    owes: Option<&ThreadId>,
    gate: &mut TurnGate,
    calls: &mut CallLedger,
) -> (res: Result<(), String>)
    requires
        old(gate).well_formed(),
    ensures
        final(gate).well_formed(),
        ({
            let after = registered_one(
                Registered { gate: *old(gate), owing: old(calls)@, conflict: false },
                Evidence { turn, owes: owes.deep_view() },
            );
            &&& *final(gate) == after.gate
            &&& final(calls)@ == after.owing
            &&& match res {
                Ok(_) => !after.conflict,
                Err(reason) => after.conflict && reason@ == turn::restore_conflict(),
            }
        }),
{
    match turn {
        Some(turn) => {
            match gate.restore(turn) {
                Ok(_) => {},
                Err(reason) => {
                    return Err(reason);
                },
            }
        },
        None => {},
    }
    match owes {
        Some(thread) => {
            calls.begin(thread);
        },
        None => {},
    }
    Ok(())
}

/// Register what a thread that was parked mid-turn says.
fn register_thread(
    thread: &ThreadId,
    checkpoint: &StoredCheckpoint,
    gate: &mut TurnGate,
    calls: &mut CallLedger,
) -> (res: Result<(), String>)
    requires
        old(gate).well_formed(),
    ensures
        final(gate).well_formed(),
        ({
            let after = registered_one(
                Registered { gate: *old(gate), owing: old(calls)@, conflict: false },
                evidence_of_thread(thread@, checkpoint@),
            );
            &&& *final(gate) == after.gate
            &&& final(calls)@ == after.owing
            &&& match res {
                Ok(_) => !after.conflict,
                Err(reason) => after.conflict && reason@ == turn::restore_conflict(),
            }
        }),
{
    let owes = match &checkpoint.active_execution {
        Some(execution) => execution.reply_target().is_some(),
        None => false,
    };
    register_evidence(
        last_turn(checkpoint),
        if owes {
            Some(thread)
        } else {
            None
        },
        gate,
        calls,
    )
}

/// Register what an envelope that is about to be put back says.
fn register_envelope(
    envelope: &Envelope,
    checkpoints: &StringMap<StoredCheckpoint>,
    gate: &mut TurnGate,
    calls: &mut CallLedger,
) -> (res: Result<(), String>)
    requires
        old(gate).well_formed(),
    ensures
        final(gate).well_formed(),
        ({
            let after = registered_one(
                Registered { gate: *old(gate), owing: old(calls)@, conflict: false },
                evidence_of_envelope(envelope@, checkpoints.deep_view()),
            );
            &&& *final(gate) == after.gate
            &&& final(calls)@ == after.owing
            &&& match res {
                Ok(_) => !after.conflict,
                Err(reason) => after.conflict && reason@ == turn::restore_conflict(),
            }
        }),
{
    let recipient = match checkpoints.get(envelope.to.thread_id.as_str()) {
        Some(checkpoint) => {
            assert(checkpoints.deep_view()[envelope@.to.thread_id] == checkpoint@);
            last_turn(checkpoint)
        },
        None => None,
    };
    match &envelope.body {
        EnvelopeBody::Task { message_id, .. } => register_evidence(
            Some(TurnId::from(*message_id)),
            None,
            gate,
            calls,
        ),
        EnvelopeBody::ToolCall { turn_id, .. } => register_evidence(
            Some(*turn_id),
            Some(&envelope.to.thread_id),
            gate,
            calls,
        ),
        EnvelopeBody::Reply { .. } => register_evidence(
            recipient,
            match &envelope.from {
                Sender::Agent { thread_id, .. } => Some(thread_id),
                Sender::User => None,
            },
            gate,
            calls,
        ),
        EnvelopeBody::Resume(_) => register_evidence(recipient, None, gate, calls),
    }
}

/// Put back the turn and the outstanding calls this process is about to resume, before any agent can
/// see an envelope: an abort right after a restart has to find the turn, and inbox arbitration has to
/// find the calls.
///
/// Only work that will really run counts: threads the snapshot parked mid-turn, and envelopes about to
/// be replayed. A turn nothing will pick up again must stay out of the active slot, or the session
/// would reject new work forever.
pub fn register_resumed_work(
    snapshot: &AgentRuntimeSnapshot,
    checkpoints: &StringMap<StoredCheckpoint>,
    gate: &mut TurnGate,
    calls: &mut CallLedger,
) -> (res: Result<(), String>)
    requires
        old(gate).well_formed(),
    ensures
        final(gate).well_formed(),
        ({
            let after = registered(
                *old(gate),
                old(calls)@,
                evidence_of(snapshot@, checkpoints.deep_view()),
            );
            &&& *final(gate) == after.gate
            &&& final(calls)@ == after.owing
            &&& match res {
                Ok(_) => !after.conflict,
                Err(reason) => after.conflict && reason@ == turn::restore_conflict(),
            }
        }),
{
    let ghost evidence = evidence_of(snapshot@, checkpoints.deep_view());
    let ghost gate_before = *gate;
    let ghost owing_before = calls@;
    let threads = snapshot.active_threads.keys();
    let ghost order = threads.deep_view();
    let n: usize = threads.len();
    let mut i: usize = 0;
    proof {
        assert(snapshot@.active_threads.dom() =~= snapshot.active_threads@.dom());
        assert(evidence.take(0) =~= Seq::empty());
    }
    while i < n
        invariant
            i <= n,
            n == threads@.len(),
            order == threads.deep_view(),
            order == text::in_order(snapshot@.active_threads.dom()),
            evidence == evidence_of(snapshot@, checkpoints.deep_view()),
            gate_before == *old(gate),
            owing_before == old(calls)@,
            gate.well_formed(),
            registered(gate_before, owing_before, evidence.take(i as int)) == (Registered {
                gate: *gate,
                owing: calls@,
                conflict: false,
            }),
        decreases n - i,
    {
        let thread = ThreadId::from(threads[i].clone());
        proof {
            assert(order[i as int] == thread@);
            assert(evidence[i as int] == evidence_of_active(thread@, checkpoints.deep_view()));
            lemma_registered_more(gate_before, owing_before, evidence, i as int);
        }
        match checkpoints.get(thread.as_str()) {
            Some(checkpoint) => {
                assert(checkpoints.deep_view()[thread@] == checkpoint@);
                match register_thread(&thread, checkpoint, gate, calls) {
                    Ok(_) => {},
                    Err(reason) => {
                        proof {
                            lemma_conflict_stays(gate_before, owing_before, evidence, i + 1);
                        }
                        return Err(reason);
                    },
                }
            },
            None => {},
        }
        i += 1;
    }
    let envelopes = replayed_envelopes(snapshot);
    let ghost all = envelopes.deep_view();
    let m: usize = envelopes.len();
    let mut j: usize = 0;
    while j < m
        invariant
            j <= m,
            m == envelopes@.len(),
            all == envelopes.deep_view(),
            all == replayed(snapshot@),
            n == order.len(),
            order == text::in_order(snapshot@.active_threads.dom()),
            evidence == evidence_of(snapshot@, checkpoints.deep_view()),
            gate_before == *old(gate),
            owing_before == old(calls)@,
            gate.well_formed(),
            registered(gate_before, owing_before, evidence.take(n + j)) == (Registered {
                gate: *gate,
                owing: calls@,
                conflict: false,
            }),
        decreases m - j,
    {
        let envelope = envelopes[j];
        proof {
            assert(all[j as int] == envelope@);
            assert(evidence[n + j] == evidence_of_envelope(envelope@, checkpoints.deep_view()));
            lemma_registered_more(gate_before, owing_before, evidence, n + j);
        }
        match register_envelope(envelope, checkpoints, gate, calls) {
            Ok(_) => {},
            Err(reason) => {
                proof {
                    lemma_conflict_stays(gate_before, owing_before, evidence, n + j + 1);
                }
                return Err(reason);
            },
        }
        j += 1;
    }
    assert(evidence.take(n + m) =~= evidence);
    Ok(())
}

/// Why a resumed thread cannot be put back.
pub open spec fn missing_checkpoint(thread: Seq<char>) -> Seq<char> {
    "missing checkpoint for resumed thread "@ + thread
}

/// Why a recovery gives up: every decision it takes is made by reading the stored threads, so guessing
/// would either throw away an undelivered answer or restore a turn nothing will finish.
pub open spec fn load_failure(thread: Seq<char>, error: Seq<char>) -> Seq<char> {
    "failed to load checkpoint for "@ + thread + ": "@ + error
}

/// Why a recovery gives up when a stored thread could not be read.
pub fn describe_load_failure(thread: &str, error: &str) -> (res: String)
    ensures
        res@ == load_failure(thread@, error@),
{
    let res = text::concat("failed to load checkpoint for ", thread, ": ", error, "");
    proof {
        reveal_strlit("");
        assert(res@ =~= load_failure(thread@, error@));
    }
    res
}

/// Put back the turn and the outstanding reply that a decision is about to continue.
///
/// A snapshot names only threads that exited with unfinished work, and the sessions this exists for
/// (killed while waiting for approval) have no snapshot naming them. Left out of the active slot, the
/// resumed work would run outside single flight: a task submitted alongside it would open a second
/// turn, and an abort would find nothing to mark.
pub fn restore_resumed_turn(
    target: &ResumeTarget,
    stored: Option<&StoredCheckpoint>,
    gate: &mut TurnGate,
    calls: &mut CallLedger,
) -> (res: Result<(), String>)
    requires
        old(gate).well_formed(),
    ensures
        final(gate).well_formed(),
        match stored {
            None => {
                &&& *final(gate) == *old(gate)
                &&& final(calls)@ == old(calls)@
                &&& res matches Err(reason) && reason@ == missing_checkpoint(target@.thread_id)
            },
            Some(checkpoint) => {
                let after = registered_one(
                    Registered { gate: *old(gate), owing: old(calls)@, conflict: false },
                    evidence_of_thread(target@.thread_id, checkpoint@),
                );
                &&& *final(gate) == after.gate
                &&& final(calls)@ == after.owing
                &&& match res {
                    Ok(_) => !after.conflict,
                    Err(reason) => after.conflict && reason@ == turn::restore_conflict(),
                }
            },
        },
{
    match stored {
        None => {
            let reason = text::concat(
                "missing checkpoint for resumed thread ",
                target.thread_id.as_str(),
                "",
                "",
                "",
            );
            proof {
                reveal_strlit("");
                assert(reason@ =~= missing_checkpoint(target@.thread_id));
            }
            Err(reason)
        },
        Some(checkpoint) => register_thread(&target.thread_id, checkpoint, gate, calls),
    }
}

/// The turn slot and the call ledger once resumed threads were put back.
#[verifier::ext_equal]
pub struct Restored {
    pub gate: TurnGate,
    pub owing: Multiset<Seq<char>>,
    /// Why putting them back was given up; nothing after that was put back.
    pub fault: Option<Seq<char>>,
}

/// One more resumed thread put back.
pub open spec fn target_restored(
    before: Restored,
    target: ResumeTargetView,
    checkpoints: Map<Seq<char>, StoredCheckpointView>,
) -> Restored {
    let thread = target.thread_id;
    if before.fault is Some {
        before
    } else if !checkpoints.contains_key(thread) {
        Restored { fault: Some(missing_checkpoint(thread)), ..before }
    } else {
        let after = registered_one(
            Registered { gate: before.gate, owing: before.owing, conflict: false },
            evidence_of_thread(thread, checkpoints[thread]),
        );
        Restored {
            gate: after.gate,
            owing: after.owing,
            fault: if after.conflict {
                Some(turn::restore_conflict())
            } else {
                None
            },
        }
    }
}

/// Resumed threads put back, one after the other.
pub open spec fn targets_restored(
    gate: TurnGate,
    owing: Multiset<Seq<char>>,
    targets: Map<Seq<char>, ResumeTargetView>,
    keys: Seq<Seq<char>>,
    checkpoints: Map<Seq<char>, StoredCheckpointView>,
) -> Restored
    decreases keys.len(),
{
    if keys.len() == 0 {
        Restored { gate, owing, fault: None }
    } else {
        target_restored(
            targets_restored(gate, owing, targets, keys.drop_last(), checkpoints),
            targets[keys.last()],
            checkpoints,
        )
    }
}

/// Once something could not be put back, nothing more is.
proof fn lemma_a_fault_stays(
    gate: TurnGate,
    owing: Multiset<Seq<char>>,
    targets: Map<Seq<char>, ResumeTargetView>,
    keys: Seq<Seq<char>>,
    checkpoints: Map<Seq<char>, StoredCheckpointView>,
    n: int,
)
    requires
        0 <= n <= keys.len(),
        targets_restored(gate, owing, targets, keys.take(n), checkpoints).fault is Some,
    ensures
        targets_restored(gate, owing, targets, keys, checkpoints) == targets_restored(
            gate,
            owing,
            targets,
            keys.take(n),
            checkpoints,
        ),
    decreases keys.len() - n,
{
    if n < keys.len() {
        assert(keys.take(n + 1).drop_last() =~= keys.take(n));
        lemma_a_fault_stays(gate, owing, targets, keys, checkpoints, n + 1);
    } else {
        assert(keys.take(n) =~= keys);
    }
}

/// Put back the turn and the outstanding reply of every thread that a decision is about to continue,
/// given the stored threads that were read for it. The first that cannot be put back ends it.
pub fn restore_resumed_turns(
    targets: &StringMap<ResumeTarget>,
    checkpoints: &StringMap<StoredCheckpoint>,
    gate: &mut TurnGate,
    calls: &mut CallLedger,
) -> (res: Result<(), String>)
    requires
        old(gate).well_formed(),
    ensures
        final(gate).well_formed(),
        ({
            let after = targets_restored(
                *old(gate),
                old(calls)@,
                targets.deep_view(),
                text::in_order(targets.deep_view().dom()),
                checkpoints.deep_view(),
            );
            &&& *final(gate) == after.gate
            &&& final(calls)@ == after.owing
            &&& match res {
                Ok(_) => after.fault is None,
                Err(reason) => after.fault == Some(reason@),
            }
        }),
{
    let ghost all = targets.deep_view();
    let ghost stored = checkpoints.deep_view();
    let ghost slot = *gate;
    let ghost owing = calls@;
    let keys = targets.keys();
    let ghost order = keys.deep_view();
    proof {
        text::lemma_in_order(targets@.dom());
        assert(all.dom() =~= targets@.dom());
        assert(order.take(0) =~= Seq::empty());
    }
    let n: usize = keys.len();
    let mut i: usize = 0;
    while i < n
        invariant
            i <= n,
            n == keys@.len(),
            all == targets.deep_view(),
            stored == checkpoints.deep_view(),
            order == keys.deep_view(),
            order == text::in_order(all.dom()),
            order.to_set() == targets@.dom(),
            slot == *old(gate),
            owing == old(calls)@,
            gate.well_formed(),
            targets_restored(slot, owing, all, order.take(i as int), stored) == (Restored {
                gate: *gate,
                owing: calls@,
                fault: None,
            }),
        decreases n - i,
    {
        proof {
            assert(order[i as int] == keys@[i as int]@);
            assert(order.to_set().contains(order[i as int]));
            assert(order.take(i + 1).drop_last() =~= order.take(i as int));
            assert(order.take(i + 1).last() == order[i as int]);
        }
        match targets.get(keys[i].as_str()) {
            Some(target) => {
                assert(all[order[i as int]] == target@);
                let checkpoint = checkpoints.get(target.thread_id.as_str());
                proof {
                    if checkpoint is Some {
                        assert(stored[target@.thread_id] == checkpoint->0@);
                    }
                }
                match restore_resumed_turn(target, checkpoint, gate, calls) {
                    Ok(_) => {},
                    Err(reason) => {
                        proof {
                            lemma_a_fault_stays(slot, owing, all, order, stored, i + 1);
                        }
                        return Err(reason);
                    },
                }
            },
            None => {},
        }
        i += 1;
    }
    assert(order.take(n as int) =~= order);
    Ok(())
}

/// Whether a decision is about to resume a thread.
pub open spec fn resumed(targets: Map<Seq<char>, ResumeTargetView>, thread: Seq<char>) -> bool {
    exists|key: Seq<char>| #[trigger]
        targets.contains_key(key) && targets[key].thread_id == thread
}

/// The part of a snapshot that these agents can pick up again, without the threads that a decision is
/// about to resume.
pub open spec fn known_part(
    snapshot: RuntimeSnapshotView,
    agents: Seq<Seq<char>>,
    targets: Map<Seq<char>, ResumeTargetView>,
) -> RuntimeSnapshotView {
    RuntimeSnapshotView {
        active_threads: snapshot.active_threads.restrict(
            Set::new(
                |thread: Seq<char>|
                    agents.contains(snapshot.active_threads[thread]) && !resumed(targets, thread),
            ),
        ),
        ..with_only(snapshot, addressed_to(agents))
    }
}

/// Whether a decision is about to resume a thread.
fn is_resumed(targets: &StringMap<ResumeTarget>, thread: &str) -> (res: bool)
    ensures
        res == resumed(targets.deep_view(), thread@),
{
    let ghost all = targets.deep_view();
    let keys = targets.keys();
    let ghost order = keys.deep_view();
    proof {
        text::lemma_in_order(targets@.dom());
    }
    let n: usize = keys.len();
    let mut i: usize = 0;
    while i < n
        invariant
            i <= n,
            n == keys@.len(),
            all == targets.deep_view(),
            order == keys.deep_view(),
            order.to_set() == targets@.dom(),
            forall|k: int| 0 <= k < i ==> all[#[trigger] order[k]].thread_id != thread@,
        decreases n - i,
    {
        assert(order[i as int] == keys@[i as int]@);
        assert(order.to_set().contains(order[i as int]));
        match targets.get(keys[i].as_str()) {
            Some(target) => {
                assert(all[order[i as int]] == target@);
                if text::same_text(target.thread_id.as_str(), thread) {
                    assert(all.contains_key(order[i as int]));
                    return true;
                }
            },
            None => {},
        }
        i += 1;
    }
    proof {
        assert forall|key: Seq<char>| #[trigger] all.contains_key(key) implies all[key].thread_id
            != thread@ by {
            assert(order.to_set().contains(key));
            let k = order.index_of(key);
            assert(order[k] == key);
        }
    }
    false
}

/// Keep of a snapshot what these agents can pick up again, without the threads that a decision is about
/// to resume.
pub fn keep_known_part(
    snapshot: &mut AgentRuntimeSnapshot,
    agents: &Vec<String>,
    targets: &StringMap<ResumeTarget>,
)
    ensures
        final(snapshot)@ == known_part(old(snapshot)@, agents.deep_view(), targets.deep_view()),
{
    let ghost before = snapshot@;
    let ghost names = agents.deep_view();
    let ghost all = targets.deep_view();
    let sieve = Sieve::Known(agents);
    snapshot.drained_envelopes = sieve.sift_all(&snapshot.drained_envelopes);
    snapshot.agent_drained_envelopes = sieve.sift_all(&snapshot.agent_drained_envelopes);
    let keys = snapshot.active_threads.keys();
    let ghost order = keys.deep_view();
    proof {
        text::lemma_in_order(snapshot.active_threads@.dom());
    }
    let mut kept: StringMap<String> = StringMap::new();
    let n: usize = keys.len();
    let mut i: usize = 0;
    while i < n
        invariant
            i <= n,
            n == keys@.len(),
            names == agents.deep_view(),
            all == targets.deep_view(),
            order == keys.deep_view(),
            snapshot.active_threads.deep_view() == before.active_threads,
            order.to_set() == snapshot.active_threads@.dom(),
            forall|thread: Seq<char>| #[trigger]
                kept@.contains_key(thread) <==> (order.take(i as int).contains(thread)
                    && names.contains(before.active_threads[thread]) && !resumed(all, thread)),
            forall|thread: Seq<char>| #[trigger]
                kept@.contains_key(thread) ==> before.active_threads.contains_key(thread)
                    && kept@[thread]@ == before.active_threads[thread],
        decreases n - i,
    {
        let thread = keys[i].clone();
        proof {
            assert(order[i as int] == thread@);
            assert(order.to_set().contains(thread@));
            assert(snapshot.active_threads@.contains_key(thread@));
            assert(order.take(i + 1) =~= order.take(i as int).push(thread@));
            assert forall|other: Seq<char>| #[trigger]
                order.take(i + 1).contains(other) == (order.take(i as int).contains(other) || other
                    == thread@) by {
                lists::lemma_push_holds(order.take(i as int), thread@, other);
            }
        }
        match snapshot.active_threads.get(thread.as_str()) {
            Some(name) => {
                assert(before.active_threads[thread@] == name@);
                if text::holds_text(agents, name.as_str()) && !is_resumed(
                    targets,
                    thread.as_str(),
                ) {
                    let copy = name.clone();
                    kept.insert(thread, copy);
                }
            },
            None => {},
        }
        i += 1;
    }
    snapshot.active_threads = kept;
    proof {
        let part = known_part(before, names, all);
        assert(order.take(n as int) =~= order);
        assert forall|thread: Seq<char>|
            kept.deep_view().contains_key(thread) == part.active_threads.contains_key(thread) by {
            assert(kept@.contains_key(thread) <==> (order.contains(thread) && names.contains(
                before.active_threads[thread],
            ) && !resumed(all, thread)));
            assert(order.to_set().contains(thread) == order.contains(thread));
        }
        assert(kept.deep_view() =~= part.active_threads);
        assert(snapshot@ =~= part);
    }
}

/// Whether an envelope answers something: a call, or a request for approval.
pub open spec fn is_answer() -> spec_fn(EnvelopeView) -> bool {
    |envelope: EnvelopeView| envelope.body is Reply || envelope.body is Resume
}

/// The threads whose checkpoints a recovery has to consult: those that are to go on, and the recipients
/// of answers. Work is judged by what it carries, not by the state it lands in.
pub open spec fn consulted_threads(snapshot: RuntimeSnapshotView) -> Set<Seq<char>> {
    snapshot.active_threads.dom().union(
        replayed(snapshot).filter(is_answer()).map_values(
            |envelope: EnvelopeView| envelope.to.thread_id,
        ).to_set(),
    )
}

/// The threads whose checkpoints a recovery has to consult, once each, in order.
pub fn recovery_threads(snapshot: &AgentRuntimeSnapshot) -> (res: Vec<String>)
    ensures
        consulted_threads(snapshot@).finite(),
        res.deep_view() == text::in_order(consulted_threads(snapshot@)),
{
    let ghost recipient = |envelope: EnvelopeView| envelope.to.thread_id;
    let mut threads = snapshot.active_threads.keys();
    let ghost active = threads.deep_view();
    let envelopes = replayed_envelopes(snapshot);
    let ghost all = envelopes.deep_view();
    let n: usize = envelopes.len();
    let mut i: usize = 0;
    proof {
        reveal(Seq::filter);
        assert(threads.deep_view() =~= active + all.take(0).filter(is_answer()).map_values(
            recipient,
        ));
    }
    while i < n
        invariant
            i <= n,
            n == envelopes@.len(),
            all == envelopes.deep_view(),
            recipient == (|envelope: EnvelopeView| envelope.to.thread_id),
            threads.deep_view() == active + all.take(i as int).filter(is_answer()).map_values(
                recipient,
            ),
        decreases n - i,
    {
        let envelope = envelopes[i];
        let ghost before = all.take(i as int).filter(is_answer());
        proof {
            reveal(Seq::filter);
            assert(all.take(i + 1).drop_last() =~= all.take(i as int));
            assert(all.take(i + 1).last() == envelope@);
        }
        let answers = match &envelope.body {
            EnvelopeBody::Reply { .. } => true,
            EnvelopeBody::Resume(_) => true,
            _ => false,
        };
        if answers {
            let ghost listed = threads.deep_view();
            threads.push(envelope.to.thread_id.id.clone());
            proof {
                assert(threads.deep_view() =~= listed.push(envelope@.to.thread_id));
                assert(all.take(i + 1).filter(is_answer()) == before.push(envelope@));
                assert(before.push(envelope@).map_values(recipient) =~= before.map_values(
                    recipient,
                ).push(envelope@.to.thread_id));
                assert(threads.deep_view() =~= active + all.take(i + 1).filter(
                    is_answer(),
                ).map_values(recipient));
            }
        }
        i += 1;
    }
    proof {
        assert(all.take(n as int) =~= all);
        let recipients = all.filter(is_answer()).map_values(recipient);
        text::lemma_in_order(snapshot.active_threads@.dom());
        vstd::seq_lib::seq_to_set_distributes_over_add(active, recipients);
        assert(active.to_set() =~= snapshot@.active_threads.dom());
        assert(consulted_threads(snapshot@) =~= threads.deep_view().to_set());
        vstd::seq_lib::seq_to_set_is_finite(threads.deep_view());
    }
    text::sorted_distinct(threads)
}

/// A session that left nothing has nothing to put back.
pub proof fn lemma_nothing_to_replay()
    ensures
        replayed(RuntimeSnapshotView::empty()) == Seq::<EnvelopeView>::empty(),
{
    let empty = RuntimeSnapshotView::empty();
    let none = empty.agent_drained_envelopes.dom().union(empty.drained_envelopes.dom());
    assert(none =~= Set::<Seq<char>>::empty());
    text::lemma_in_order(none);
    assert(text::in_order(none).to_set() == none);
    if text::in_order(none).len() > 0 {
        assert(none.contains(text::in_order(none)[0]));
    }
}

/// Sifting a snapshot sifts what is put back, and keeps its order.
proof fn lemma_sifted_replay(
    snapshot: RuntimeSnapshotView,
    keep: spec_fn(EnvelopeView) -> bool,
    threads: Seq<Seq<char>>,
)
    ensures
        replayed_for(with_only(snapshot, keep), threads) == replayed_for(snapshot, threads).filter(
            keep,
        ),
    decreases threads.len(),
{
    reveal(Seq::filter);
    if threads.len() > 0 {
        let first = replayed_for(snapshot, threads.drop_last());
        let second = kept_for(snapshot.agent_drained_envelopes, threads.last());
        let third = kept_for(snapshot.drained_envelopes, threads.last());
        lemma_sifted_replay(snapshot, keep, threads.drop_last());
        Seq::filter_distributes_over_add(first, second, keep);
        Seq::filter_distributes_over_add(first + second, third, keep);
        let sifted = with_only(snapshot, keep);
        assert(kept_for(sifted.agent_drained_envelopes, threads.last()) =~= second.filter(keep));
        assert(kept_for(sifted.drained_envelopes, threads.last()) =~= third.filter(keep));
    } else {
        assert(replayed_for(snapshot, threads).filter(keep) =~= Seq::empty());
    }
}

/// A recovery puts back exactly what is still awaited, in the order it was kept: no answer is delivered
/// twice, and none that a thread still waits for is lost.
pub proof fn law_only_awaited_envelopes_are_put_back(
    snapshot: RuntimeSnapshotView,
    checkpoints: Map<Seq<char>, StoredCheckpointView>,
)
    ensures
        replayed(with_only(snapshot, awaiting(checkpoints))) == replayed(snapshot).filter(
            awaiting(checkpoints),
        ),
        with_only(snapshot, awaiting(checkpoints)).active_threads == snapshot.active_threads,
{
    let sifted = with_only(snapshot, awaiting(checkpoints));
    let threads = snapshot.agent_drained_envelopes.dom().union(snapshot.drained_envelopes.dom());
    assert(sifted.agent_drained_envelopes.dom() =~= snapshot.agent_drained_envelopes.dom());
    assert(sifted.drained_envelopes.dom() =~= snapshot.drained_envelopes.dom());
    lemma_sifted_replay(snapshot, awaiting(checkpoints), text::in_order(threads));
}

/// Whether a turn fits the turn slot and every piece of evidence.
pub open spec fn fits(gate: TurnGate, evidence: Seq<Evidence>, turn: TurnId) -> bool {
    &&& gate.active is Some ==> gate.active == Some(turn)
    &&& forall|i: int|
        0 <= i < evidence.len() && (#[trigger] evidence[i]).turn is Some ==> evidence[i].turn
            == Some(turn)
}

/// Resumed work belongs to one turn: registering it succeeds exactly where one turn fits everything
/// that is resumed. That turn is then active where anything names it, and where nothing does the
/// session is left in the turn it was in, or in none.
pub proof fn law_resumed_work_belongs_to_one_turn(
    gate: TurnGate,
    owing: Multiset<Seq<char>>,
    evidence: Seq<Evidence>,
)
    ensures
        !registered(gate, owing, evidence).conflict <==> exists|turn: TurnId| #[trigger]
            fits(gate, evidence, turn),
        !registered(gate, owing, evidence).conflict ==> forall|i: int|
            0 <= i < evidence.len() && (#[trigger] evidence[i]).turn is Some ==> registered(
                gate,
                owing,
                evidence,
            ).gate.active == evidence[i].turn,
        (forall|i: int| 0 <= i < evidence.len() ==> (#[trigger] evidence[i]).turn is None)
            ==> registered(gate, owing, evidence).gate == gate,
        !registered(gate, owing, evidence).conflict && gate.active is Some ==> registered(
            gate,
            owing,
            evidence,
        ).gate == gate,
    decreases evidence.len(),
{
    let after = registered(gate, owing, evidence);
    if evidence.len() == 0 {
        let turn = match gate.active {
            Some(active) => active,
            None => arbitrary(),
        };
        assert(fits(gate, evidence, turn));
    } else {
        let fewer = evidence.drop_last();
        let before = registered(gate, owing, fewer);
        law_resumed_work_belongs_to_one_turn(gate, owing, fewer);
        assert forall|i: int| 0 <= i < fewer.len() implies #[trigger] fewer[i] == evidence[i] by {}
        let last = evidence[evidence.len() - 1];
        if exists|turn: TurnId| #[trigger] fits(gate, evidence, turn) {
            let turn = choose|turn: TurnId| #[trigger] fits(gate, evidence, turn);
            assert forall|i: int|
                0 <= i < fewer.len() && (#[trigger] fewer[i]).turn is Some implies fewer[i].turn
                == Some(turn) by {
                assert(evidence[i].turn == Some(turn));
            }
            assert(fits(gate, fewer, turn));
            lemma_active_fits(gate, owing, fewer, turn);
        }
        if !after.conflict {
            assert(!before.conflict);
            let turn = match after.gate.active {
                Some(active) => active,
                None => arbitrary(),
            };
            assert forall|i: int|
                0 <= i < evidence.len() && (#[trigger] evidence[i]).turn is Some implies
                after.gate.active == evidence[i].turn by {
                if i < fewer.len() {
                    assert(fewer[i].turn is Some);
                    assert(before.gate.active == fewer[i].turn);
                }
            }
            assert(fits(gate, evidence, turn));
        }
        if forall|i: int| 0 <= i < evidence.len() ==> (#[trigger] evidence[i]).turn is None {
            assert forall|i: int| 0 <= i < fewer.len() implies (#[trigger] fewer[i]).turn is None by {
                assert(evidence[i].turn is None);
            }
        }
    }
}

/// Registering evidence that a turn fits leaves the slot with that turn, or without one.
proof fn lemma_active_fits(
    gate: TurnGate,
    owing: Multiset<Seq<char>>,
    evidence: Seq<Evidence>,
    turn: TurnId,
)
    requires
        fits(gate, evidence, turn),
    ensures
        registered(gate, owing, evidence).gate.active is Some ==> registered(
            gate,
            owing,
            evidence,
        ).gate.active == Some(turn),
    decreases evidence.len(),
{
    if evidence.len() > 0 {
        let fewer = evidence.drop_last();
        assert forall|i: int|
            0 <= i < fewer.len() && (#[trigger] fewer[i]).turn is Some implies fewer[i].turn
            == Some(turn) by {
            assert(evidence[i].turn == Some(turn));
        }
        assert(evidence[evidence.len() - 1] == evidence.last());
        lemma_active_fits(gate, owing, fewer, turn);
    }
}

/// The threads that will settle an answer, one entry per answer.
pub open spec fn answers_to_come(evidence: Seq<Evidence>) -> Multiset<Seq<char>>
    decreases evidence.len(),
{
    if evidence.len() == 0 {
        Multiset::empty()
    } else {
        match evidence.last().owes {
            Some(thread) => answers_to_come(evidence.drop_last()).insert(thread),
            None => answers_to_come(evidence.drop_last()),
        }
    }
}

/// The ledger stays balanced over a restart: one obligation is registered for every answer that is
/// still to come, and nothing else.
pub proof fn law_one_obligation_per_answer_to_come(
    gate: TurnGate,
    owing: Multiset<Seq<char>>,
    evidence: Seq<Evidence>,
)
    requires
        !registered(gate, owing, evidence).conflict,
    ensures
        registered(gate, owing, evidence).owing == owing.add(answers_to_come(evidence)),
    decreases evidence.len(),
{
    if evidence.len() > 0 {
        law_one_obligation_per_answer_to_come(gate, owing, evidence.drop_last());
    }
    assert(registered(gate, owing, evidence).owing =~= owing.add(answers_to_come(evidence)));
}

}
