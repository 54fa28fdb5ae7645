//! The turn a session is in, and the calls its threads still owe answers to.

use crate::agent::ThreadId;
use crate::ids::TurnId;
use crate::text;
use vstd::multiset::Multiset;
use vstd::prelude::*;

verus! {

/// A turn was opened while another one was active.
#[derive(Debug, Clone, Copy, PartialEq, Eq, Structural)]
pub struct TurnAlreadyActive;

/// Why a turn cannot be put back.
pub open spec fn restore_conflict() -> Seq<char> {
    "resumed work belongs to more than one turn"@
}

/// A session's single active-turn slot.
///
/// A turn is active from the moment it is opened until it is closed, and may be marked as asked to
/// stop in between. The mark belongs to the turn: it goes when the turn does.
#[derive(Debug, Clone, Copy, PartialEq, Eq, Structural)]
pub struct TurnGate {
    pub active: Option<TurnId>,
    pub cancelled: bool,
}

impl TurnGate {
    /// The mark is only ever set on an active turn.
    pub open spec fn well_formed(self) -> bool {
        self.cancelled ==> self.active is Some
    }

    /// Whether `turn` is active and asked to stop.
    pub open spec fn stops(self, turn: TurnId) -> bool {
        self.cancelled && self.active == Some(turn)
    }

    /// The slot of a session without a turn.
    pub open spec fn idle() -> Self {
        TurnGate { active: None, cancelled: false }
    }

    /// The slot once `turn` was opened; `None` where another turn is active.
    pub open spec fn opened(self, turn: TurnId) -> Option<Self> {
        match self.active {
            None => Some(TurnGate { active: Some(turn), cancelled: false }),
            Some(_) => None,
        }
    }

    /// The slot once `turn` was asked to stop.
    pub open spec fn asked_to_stop(self, turn: TurnId) -> Self {
        TurnGate { cancelled: self.cancelled || self.active == Some(turn), ..self }
    }

    /// The slot once `turn` was closed.
    pub open spec fn closed(self, turn: TurnId) -> Self {
        if self.active == Some(turn) {
            TurnGate::idle()
        } else {
            self
        }
    }

    /// The slot once `turn` was put back; `None` where another turn is active.
    pub open spec fn restored(self, turn: TurnId) -> Option<Self> {
        match self.active {
            None => Some(TurnGate { active: Some(turn), cancelled: false }),
            Some(active) => if active == turn {
                Some(self)
            } else {
                None
            },
        }
    }

    /// The slot of a session without a turn.
    pub fn new() -> (res: Self)
        ensures
            res == TurnGate::idle(),
            res.well_formed(),
    {
        TurnGate { active: None, cancelled: false }
    }

    /// Open a turn. Refused while another one is active.
    pub fn open(&mut self, turn: TurnId) -> (res: Result<(), TurnAlreadyActive>)
        requires
            old(self).well_formed(),
        ensures
            final(self).well_formed(),
            match old(self).opened(turn) {
                Some(gate) => res is Ok && *final(self) == gate,
                None => res is Err && *final(self) == *old(self),
            },
    {
        match self.active {
            Some(_) => Err(TurnAlreadyActive),
            None => {
                self.active = Some(turn);
                self.cancelled = false;
                Ok(())
            },
        }
    }

    /// Put back a turn that was active before a restart. All evidence of resumed work has to name
    /// the same turn.
    pub fn restore(&mut self, turn: TurnId) -> (res: Result<(), String>)
        requires
            old(self).well_formed(),
        ensures
            final(self).well_formed(),
            match old(self).restored(turn) {
                Some(gate) => res is Ok && *final(self) == gate,
                None => res matches Err(reason) && reason@ == restore_conflict() && *final(self)
                    == *old(self),
            },
    {
        match self.active {
            Some(active) => {
                if active == turn {
                    Ok(())
                } else {
                    Err("resumed work belongs to more than one turn".to_owned())
                }
            },
            None => {
                self.active = Some(turn);
                self.cancelled = false;
                Ok(())
            },
        }
    }

    /// Ask `turn` to stop, if it is the active one.
    pub fn cancel(&mut self, turn: TurnId)
        requires
            old(self).well_formed(),
        ensures
            final(self).well_formed(),
            *final(self) == old(self).asked_to_stop(turn),
    {
        match self.active {
            Some(active) => {
                if active == turn {
                    self.cancelled = true;
                }
            },
            None => {},
        }
    }

    /// Ask the active turn to stop.
    pub fn cancel_active(&mut self)
        requires
            old(self).well_formed(),
        ensures
            final(self).well_formed(),
            *final(self) == (TurnGate { cancelled: old(self).active is Some, ..*old(self) }),
    {
        self.cancelled = self.active.is_some();
    }

    /// Whether `turn` is active and asked to stop.
    pub fn is_cancelled(&self, turn: TurnId) -> (res: bool)
        ensures
            res == self.stops(turn),
    {
        match self.active {
            Some(active) => self.cancelled && active == turn,
            None => false,
        }
    }

    /// The active turn.
    pub fn active_id(&self) -> (res: Option<TurnId>)
        ensures
            res == self.active,
    {
        self.active
    }

    /// End `turn`. A turn that is not the active one has already ended.
    pub fn close(&mut self, turn: TurnId)
        requires
            old(self).well_formed(),
        ensures
            final(self).well_formed(),
            *final(self) == old(self).closed(turn),
    {
        match self.active {
            Some(active) => {
                if active == turn {
                    self.active = None;
                    self.cancelled = false;
                }
            },
            None => {},
        }
    }
}

impl Default for TurnGate {
    fn default() -> (res: Self)
        ensures
            res == TurnGate::idle(),
    {
        TurnGate::new()
    }
}

/// The calls that are being answered: one entry per answer a thread still owes.
#[derive(Debug)]
pub struct CallLedger {
    owing: Vec<String>,
}

impl View for CallLedger {
    type V = Multiset<Seq<char>>;

    closed spec fn view(&self) -> Multiset<Seq<char>> {
        self.owing.deep_view().to_multiset()
    }
}

impl CallLedger {
    /// Whether a thread owes an answer.
    pub open spec fn answering(self, thread: Seq<char>) -> bool {
        self@.count(thread) > 0
    }

    /// A ledger without obligations.
    pub fn new() -> (res: Self)
        ensures
            res@ == Multiset::<Seq<char>>::empty(),
    {
        let owing: Vec<String> = Vec::new();
        proof {
            vstd::seq_lib::to_multiset_len(owing.deep_view());
            assert(owing.deep_view().to_multiset() =~= Multiset::<Seq<char>>::empty()) by {
                assert forall|thread: Seq<char>|
                    owing.deep_view().to_multiset().count(thread) == 0 by {
                    vstd::seq_lib::to_multiset_contains(owing.deep_view(), thread);
                }
            }
        }
        CallLedger { owing }
    }

    fn position(&self, thread: &str) -> (res: Option<usize>)
        ensures
            match res {
                Some(i) => i < self.owing@.len() && self.owing.deep_view()[i as int] == thread@,
                None => !self.owing.deep_view().contains(thread@),
            },
    {
        let n: usize = self.owing.len();
        let mut i: usize = 0;
        while i < n
            invariant
                i <= n,
                n == self.owing@.len(),
                forall|j: int| 0 <= j < i ==> self.owing.deep_view()[j] != thread@,
            decreases n - i,
        {
            assert(self.owing.deep_view()[i as int] == self.owing@[i as int]@);
            if text::same_text(self.owing[i].as_str(), thread) {
                return Some(i);
            }
            i += 1;
        }
        None
    }

    /// Whether a thread owes an answer.
    pub fn is_answering(&self, thread: &ThreadId) -> (res: bool)
        ensures
            res == self.answering(thread@),
    {
        proof {
            vstd::seq_lib::to_multiset_contains(self.owing.deep_view(), thread@);
        }
        match self.position(thread.as_str()) {
            Some(i) => {
                assert(self.owing.deep_view().contains(thread@));
                true
            },
            None => false,
        }
    }

    /// Register one more answer that a thread owes.
    pub fn begin(&mut self, thread: &ThreadId)
        ensures
            final(self)@ == old(self)@.insert(thread@),
    {
        let id = thread.id.clone();
        self.owing.push(id);
        proof {
            assert(self.owing.deep_view() =~= old(self).owing.deep_view().push(thread@));
            vstd::seq_lib::to_multiset_build(old(self).owing.deep_view(), thread@);
        }
    }

    /// Register an answer that a thread owes, unless it already owes one.
    pub fn try_begin(&mut self, thread: &ThreadId) -> (res: bool)
        ensures
            res == !old(self).answering(thread@),
            final(self)@ == (if res {
                old(self)@.insert(thread@)
            } else {
                old(self)@
            }),
    {
        if self.is_answering(thread) {
            false
        } else {
            self.begin(thread);
            true
        }
    }

    /// Settle one answer that a thread owes, if it owes any.
    pub fn end(&mut self, thread: &ThreadId)
        ensures
            final(self)@ == old(self)@.remove(thread@),
    {
        proof {
            vstd::seq_lib::to_multiset_contains(self.owing.deep_view(), thread@);
        }
        match self.position(thread.as_str()) {
            Some(i) => {
                let ghost before = self.owing.deep_view();
                self.owing.remove(i);
                proof {
                    assert(self.owing.deep_view() =~= before.remove(i as int));
                    vstd::seq_lib::to_multiset_remove(before, i as int);
                }
            },
            None => {
                proof {
                    assert(self@.count(thread@) == 0);
                    assert(self@.remove(thread@) =~= self@);
                }
            },
        }
    }

    /// Forget every answer that a thread owes.
    pub fn clear(&mut self, thread: &ThreadId)
        ensures
            forall|other: Seq<char>| #[trigger]
                final(self)@.count(other) == (if other == thread@ {
                    0
                } else {
                    old(self)@.count(other)
                }),
            final(self)@ == old(self)@.filter(|other: Seq<char>| other != thread@),
    {
        while self.is_answering(thread)
            invariant
                forall|other: Seq<char>|
                    other != thread@ ==> #[trigger] self@.count(other) == old(self)@.count(other),
            decreases self@.count(thread@),
        {
            self.end(thread);
        }
        assert(self@ =~= old(self)@.filter(|other: Seq<char>| other != thread@));
    }
}

impl Default for CallLedger {
    fn default() -> (res: Self)
        ensures
            res@ == Multiset::<Seq<char>>::empty(),
    {
        CallLedger::new()
    }
}

/// Single flight: once a turn is opened no other can be until it is closed, and closing any other
/// turn changes nothing.
pub proof fn law_one_turn_at_a_time(gate: TurnGate, first: TurnId, second: TurnId)
    requires
        gate.opened(first) is Some,
    ensures
        gate.opened(first)->0.opened(second) is None,
        gate.opened(first)->0.asked_to_stop(first).opened(second) is None,
        gate.opened(first)->0.closed(first).opened(second) is Some,
        first != second ==> gate.opened(first)->0.closed(second) == gate.opened(first)->0,
{
}

/// The request to stop belongs to one turn: asking one turn to stop never stops another, and the
/// request is gone once the turn is closed, so that the next turn starts without it.
pub proof fn law_a_request_to_stop_ends_with_its_turn(gate: TurnGate, turn: TurnId, next: TurnId)
    requires
        gate.well_formed(),
        gate.active == Some(turn),
    ensures
        gate.asked_to_stop(turn).stops(turn),
        next != turn ==> !gate.asked_to_stop(turn).stops(next),
        next != turn ==> gate.asked_to_stop(next) == gate,
        gate.asked_to_stop(turn).closed(turn).opened(next) is Some,
        !gate.asked_to_stop(turn).closed(turn).opened(next)->0.stops(next),
{
}

/// Answers balance: registering an answer and settling it leaves the ledger as it was.
pub proof fn law_a_settled_answer_leaves_no_trace(owing: Multiset<Seq<char>>, thread: Seq<char>)
    ensures
        owing.insert(thread).remove(thread) == owing,
{
    assert(owing.insert(thread).remove(thread) =~= owing);
}

}
