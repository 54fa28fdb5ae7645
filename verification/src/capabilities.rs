//! What an agent may use of the runtime, apart from its ordinary tools.

use crate::text;
use vstd::prelude::*;

verus! {

/// Runtime capabilities available independently of an agent's ordinary tools.
#[derive(Debug, Clone, Copy, PartialEq, Eq, PartialOrd, Ord, Structural)]
pub enum Capability {
    Background,
    Ptc,
}

impl Capability {
    /// The name a configuration gives a capability.
    pub open spec fn name(self) -> Seq<char> {
        match self {
            Capability::Background => "background"@,
            Capability::Ptc => "ptc"@,
        }
    }

    /// The capability with a name.
    pub fn named(name: &str) -> (res: Option<Capability>)
        ensures
            match res {
                Some(capability) => name@ == capability.name(),
                None => forall|capability: Capability|
                    #![trigger capability.name()]
                    name@ != capability.name(),
            },
    {
        if text::same_text(name, "background") {
            Some(Capability::Background)
        } else if text::same_text(name, "ptc") {
            Some(Capability::Ptc)
        } else {
            proof {
                assert forall|capability: Capability| name@ != #[trigger] capability.name() by {
                    match capability {
                        Capability::Background => {},
                        Capability::Ptc => {},
                    }
                }
            }
            None
        }
    }
}

/// A configuration named a capability that does not exist.
#[derive(Debug, PartialEq, Eq)]
pub struct UnknownCapability {
    pub name: String,
}

/// A resolved capability selection. Default enables all supported capabilities; an explicit list selects
/// exactly its entries, including none.
#[derive(Debug, Clone, Copy, PartialEq, Eq, Structural)]
pub struct Capabilities {
    background: bool,
    ptc: bool,
}

impl View for Capabilities {
    type V = Set<Capability>;

    closed spec fn view(&self) -> Set<Capability> {
        Set::new(
            |capability: Capability|
                match capability {
                    Capability::Background => self.background,
                    Capability::Ptc => self.ptc,
                },
        )
    }
}

/// The position of the first name that no capability has.
pub open spec fn first_unknown(names: Seq<Seq<char>>) -> Option<int>
    decreases names.len(),
{
    if names.len() == 0 {
        None
    } else {
        match first_unknown(names.drop_last()) {
            Some(i) => Some(i),
            None => if exists|capability: Capability| names.last() == #[trigger] capability.name() {
                None
            } else {
                Some(names.len() - 1)
            },
        }
    }
}

impl Capabilities {
    /// Everything.
    pub fn all() -> (res: Self)
        ensures
            res@ == Set::<Capability>::full(),
    {
        let res = Capabilities { background: true, ptc: true };
        assert(res@ =~= Set::<Capability>::full());
        res
    }

    /// Nothing.
    pub fn none() -> (res: Self)
        ensures
            res@ == Set::<Capability>::empty(),
    {
        let res = Capabilities { background: false, ptc: false };
        assert(res@ =~= Set::<Capability>::empty());
        res
    }

    /// Whether a capability is selected.
    pub fn contains(&self, capability: Capability) -> (res: bool)
        ensures
            res == self@.contains(capability),
    {
        match capability {
            Capability::Background => self.background,
            Capability::Ptc => self.ptc,
        }
    }

    /// Select one more capability.
    fn insert(&mut self, capability: Capability)
        ensures
            final(self)@ == old(self)@.insert(capability),
    {
        match capability {
            Capability::Background => {
                self.background = true;
            },
            Capability::Ptc => {
                self.ptc = true;
            },
        }
        assert(self@ =~= old(self)@.insert(capability));
    }

    /// Exactly the capabilities of a list, however often it has them.
    pub fn of(list: &Vec<Capability>) -> (res: Self)
        ensures
            res@ == list@.to_set(),
    {
        let mut selected = Capabilities::none();
        let n: usize = list.len();
        let mut i: usize = 0;
        assert(list@.take(0).to_set() =~= Set::<Capability>::empty());
        while i < n
            invariant
                i <= n,
                n == list@.len(),
                selected@ == list@.take(i as int).to_set(),
            decreases n - i,
        {
            proof {
                assert(list@.take(i + 1) =~= list@.take(i as int).push(list@[i as int]));
                crate::lists::lemma_push_to_set(list@.take(i as int), list@[i as int]);
            }
            selected.insert(list[i]);
            i += 1;
        }
        assert(list@.take(n as int) =~= list@);
        selected
    }

    /// Exactly the capabilities that a configuration names. A name that no capability has is refused.
    pub fn select(names: &Vec<String>) -> (res: Result<Self, UnknownCapability>)
        ensures
            match first_unknown(names.deep_view()) {
                None => {
                    &&& res matches Ok(selected) && forall|capability: Capability|
                        #![trigger selected@.contains(capability)]
                        selected@.contains(capability) <==> names.deep_view().contains(
                            capability.name(),
                        )
                },
                Some(i) => res matches Err(unknown) && unknown.name@ == names.deep_view()[i],
            },
    {
        let ghost all = names.deep_view();
        let mut selected = Capabilities::none();
        let n: usize = names.len();
        let mut i: usize = 0;
        while i < n
            invariant
                i <= n,
                n == names@.len(),
                all == names.deep_view(),
                first_unknown(all.take(i as int)) is None,
                forall|capability: Capability| #[trigger]
                    selected@.contains(capability) <==> all.take(i as int).contains(
                        capability.name(),
                    ),
            decreases n - i,
        {
            let ghost name = names@[i as int]@;
            let ghost before = selected@;
            proof {
                assert(all[i as int] == name);
                assert(all.take(i + 1).drop_last() =~= all.take(i as int));
                assert(all.take(i + 1) =~= all.take(i as int).push(name));
            }
            match Capability::named(names[i].as_str()) {
                Some(capability) => {
                    selected.insert(capability);
                    proof {
                        assert forall|other: Capability| #[trigger]
                            selected@.contains(other) <==> all.take(i + 1).contains(
                            other.name(),
                        ) by {
                            crate::lists::lemma_push_holds(
                                all.take(i as int),
                                name,
                                other.name(),
                            );
                            lemma_names_differ(other, capability);
                        }
                    }
                },
                None => {
                    proof {
                        lemma_first_unknown(all, i as int);
                    }
                    return Err(UnknownCapability { name: names[i].clone() });
                },
            }
            i += 1;
        }
        assert(all.take(n as int) =~= all);
        Ok(selected)
    }
}

/// No two capabilities share a name.
pub proof fn lemma_names_differ(a: Capability, b: Capability)
    ensures
        a.name() == b.name() ==> a == b,
{
    reveal_strlit("background");
    reveal_strlit("ptc");
    if a != b {
        assert(a.name().len() != b.name().len());
    }
}

/// Where the first names are known and the next is not, that one is the first unknown of all.
proof fn lemma_first_unknown(names: Seq<Seq<char>>, i: int)
    requires
        0 <= i < names.len(),
        first_unknown(names.take(i)) is None,
        forall|capability: Capability| names[i] != #[trigger] capability.name(),
    ensures
        first_unknown(names) == Some(i),
    decreases names.len(),
{
    if i == names.len() - 1 {
        assert(names.drop_last() =~= names.take(i));
    } else {
        assert(names.drop_last().take(i) =~= names.take(i));
        lemma_first_unknown(names.drop_last(), i);
    }
}

impl Default for Capabilities {
    fn default() -> (res: Self)
        ensures
            res@ == Set::<Capability>::full(),
    {
        Capabilities::all()
    }
}

}
