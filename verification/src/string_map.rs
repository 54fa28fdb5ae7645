//! A map keyed by text.

use crate::text;
use vstd::prelude::*;

verus! {

/// A map from text to values. No key occurs twice.
#[derive(Debug)]
pub struct StringMap<T> {
    entries: Vec<(String, T)>,
}

/// Whether `key` is the key of entry `i`.
spec fn key_at<T>(entries: Seq<(String, T)>, i: int, key: Seq<char>) -> bool {
    0 <= i < entries.len() && entries[i].0@ == key
}

spec fn distinct_keys<T>(entries: Seq<(String, T)>) -> bool {
    forall|i: int, j: int|
        0 <= i < j < entries.len() ==> (#[trigger] entries[i]).0@ != (#[trigger] entries[j]).0@
}

spec fn entries_map<T>(entries: Seq<(String, T)>) -> Map<Seq<char>, T> {
    Map::new(
        |key: Seq<char>| exists|i: int| #[trigger] key_at(entries, i, key),
        |key: Seq<char>| entries[choose|i: int| #[trigger] key_at(entries, i, key)].1,
    )
}

impl<T> View for StringMap<T> {
    type V = Map<Seq<char>, T>;

    closed spec fn view(&self) -> Map<Seq<char>, T> {
        entries_map(self.entries@)
    }
}

impl<T: DeepView> DeepView for StringMap<T> {
    type V = Map<Seq<char>, T::V>;

    open spec fn deep_view(&self) -> Map<Seq<char>, T::V> {
        self@.map_values(|value: T| value.deep_view())
    }
}

proof fn lemma_entry<T>(entries: Seq<(String, T)>, i: int)
    requires
        distinct_keys(entries),
        0 <= i < entries.len(),
    ensures
        entries_map(entries).contains_key(entries[i].0@),
        entries_map(entries)[entries[i].0@] == entries[i].1,
{
    let key = entries[i].0@;
    assert(key_at(entries, i, key));
    let j = choose|j: int| #[trigger] key_at(entries, j, key);
    assert(key_at(entries, j, key));
    if i < j {
        assert(entries[i].0@ != entries[j].0@);
    } else if j < i {
        assert(entries[j].0@ != entries[i].0@);
    }
}

proof fn lemma_no_entry<T>(entries: Seq<(String, T)>, key: Seq<char>)
    requires
        forall|i: int| 0 <= i < entries.len() ==> (#[trigger] entries[i]).0@ != key,
    ensures
        !entries_map(entries).contains_key(key),
{
    if exists|i: int| #[trigger] key_at(entries, i, key) {
        let i = choose|i: int| #[trigger] key_at(entries, i, key);
        assert(key_at(entries, i, key));
        assert(entries[i].0@ != key);
    }
}

proof fn lemma_key_has_entry<T>(entries: Seq<(String, T)>, key: Seq<char>) -> (i: int)
    requires
        distinct_keys(entries),
        entries_map(entries).contains_key(key),
    ensures
        0 <= i < entries.len(),
        entries[i].0@ == key,
        entries_map(entries)[key] == entries[i].1,
{
    let i = choose|i: int| #[trigger] key_at(entries, i, key);
    assert(key_at(entries, i, key));
    lemma_entry(entries, i);
    i
}

/// Two entry lists make the same map if they agree, key by key.
proof fn lemma_update<T>(old_entries: Seq<(String, T)>, i: int, key: String, value: T)
    requires
        distinct_keys(old_entries),
        0 <= i < old_entries.len(),
        old_entries[i].0@ == key@,
    ensures
        distinct_keys(old_entries.update(i, (key, value))),
        entries_map(old_entries.update(i, (key, value))) == entries_map(old_entries).insert(
            key@,
            value,
        ),
{
    let new_entries = old_entries.update(i, (key, value));
    let before = entries_map(old_entries);
    let after = entries_map(new_entries);
    assert forall|k: Seq<char>| after.contains_key(k) == before.insert(key@, value).contains_key(
        k,
    ) by {
        if after.contains_key(k) {
            let j = lemma_key_has_entry(new_entries, k);
            if j != i {
                lemma_entry(old_entries, j);
            }
        }
        if before.contains_key(k) {
            let j = lemma_key_has_entry(old_entries, k);
            lemma_entry(new_entries, j);
        }
        lemma_entry(new_entries, i);
    }
    assert forall|k: Seq<char>| after.contains_key(k) implies after[k] == before.insert(
        key@,
        value,
    )[k] by {
        let j = lemma_key_has_entry(new_entries, k);
        if j != i {
            lemma_entry(old_entries, j);
        }
    }
    assert(after =~= before.insert(key@, value));
}

proof fn lemma_push<T>(old_entries: Seq<(String, T)>, key: String, value: T)
    requires
        distinct_keys(old_entries),
        forall|i: int| 0 <= i < old_entries.len() ==> (#[trigger] old_entries[i]).0@ != key@,
    ensures
        distinct_keys(old_entries.push((key, value))),
        entries_map(old_entries.push((key, value))) == entries_map(old_entries).insert(key@, value),
{
    let new_entries = old_entries.push((key, value));
    let before = entries_map(old_entries);
    let after = entries_map(new_entries);
    let n = old_entries.len() as int;
    assert forall|k: Seq<char>| after.contains_key(k) == before.insert(key@, value).contains_key(
        k,
    ) by {
        if after.contains_key(k) {
            let j = lemma_key_has_entry(new_entries, k);
            if j != n {
                lemma_entry(old_entries, j);
            }
        }
        if before.contains_key(k) {
            let j = lemma_key_has_entry(old_entries, k);
            lemma_entry(new_entries, j);
        }
        lemma_entry(new_entries, n);
    }
    assert forall|k: Seq<char>| after.contains_key(k) implies after[k] == before.insert(
        key@,
        value,
    )[k] by {
        let j = lemma_key_has_entry(new_entries, k);
        if j != n {
            lemma_entry(old_entries, j);
        }
    }
    assert(after =~= before.insert(key@, value));
}

proof fn lemma_remove<T>(old_entries: Seq<(String, T)>, at: int)
    requires
        distinct_keys(old_entries),
        0 <= at < old_entries.len(),
    ensures
        distinct_keys(old_entries.remove(at)),
        entries_map(old_entries.remove(at)) == entries_map(old_entries).remove(old_entries[at].0@),
{
    let new_entries = old_entries.remove(at);
    let before = entries_map(old_entries);
    let after = entries_map(new_entries);
    let key = old_entries[at].0@;
    assert forall|j: int| 0 <= j < new_entries.len() implies #[trigger] new_entries[j] == (if j
        < at {
        old_entries[j]
    } else {
        old_entries[j + 1]
    }) by {}
    assert(distinct_keys(new_entries));
    assert forall|k: Seq<char>| after.contains_key(k) == before.remove(key).contains_key(k) by {
        if after.contains_key(k) {
            let j = lemma_key_has_entry(new_entries, k);
            if j < at {
                lemma_entry(old_entries, j);
            } else {
                lemma_entry(old_entries, j + 1);
            }
        }
        if before.remove(key).contains_key(k) {
            let j = lemma_key_has_entry(old_entries, k);
            if j < at {
                lemma_entry(new_entries, j);
            } else {
                lemma_entry(new_entries, j - 1);
            }
        }
    }
    assert forall|k: Seq<char>| after.contains_key(k) implies after[k] == before.remove(key)[k] by {
        let j = lemma_key_has_entry(new_entries, k);
        if j < at {
            lemma_entry(old_entries, j);
        } else {
            lemma_entry(old_entries, j + 1);
        }
    }
    assert(after =~= before.remove(key));
}

impl<T> StringMap<T> {
    #[verifier::type_invariant]
    spec fn well_formed(self) -> bool {
        distinct_keys(self.entries@)
    }

    /// The map without entries.
    pub fn new() -> (res: Self)
        ensures
            res@ == Map::<Seq<char>, T>::empty(),
    {
        let entries: Vec<(String, T)> = Vec::new();
        proof {
            assert forall|key: Seq<char>| !entries_map(entries@).contains_key(key) by {
                lemma_no_entry(entries@, key);
            }
            assert(entries_map(entries@) =~= Map::<Seq<char>, T>::empty());
        }
        StringMap { entries }
    }

    /// Where `key` stands among the entries.
    fn position(&self, key: &str) -> (res: Option<usize>)
        ensures
            match res {
                Some(i) => i < self.entries@.len() && self.entries@[i as int].0@ == key@,
                None => forall|i: int|
                    0 <= i < self.entries@.len() ==> (#[trigger] self.entries@[i]).0@ != key@,
            },
    {
        let n: usize = self.entries.len();
        let mut i: usize = 0;
        while i < n
            invariant
                i <= n,
                n == self.entries@.len(),
                forall|j: int| 0 <= j < i ==> (#[trigger] self.entries@[j]).0@ != key@,
            decreases n - i,
        {
            if text::same_text(self.entries[i].0.as_str(), key) {
                return Some(i);
            }
            i += 1;
        }
        None
    }

    /// Whether the map has no entries.
    pub fn is_empty(&self) -> (res: bool)
        ensures
            res == (self@ == Map::<Seq<char>, T>::empty()),
    {
        proof {
            use_type_invariant(self);
            if self.entries@.len() > 0 {
                lemma_entry(self.entries@, 0);
            } else {
                assert forall|key: Seq<char>| !self@.contains_key(key) by {
                    lemma_no_entry(self.entries@, key);
                }
                assert(self@ =~= Map::<Seq<char>, T>::empty());
            }
        }
        self.entries.len() == 0
    }

    /// The value at `key`.
    pub fn get(&self, key: &str) -> (res: Option<&T>)
        ensures
            match res {
                Some(value) => self@.contains_key(key@) && self@[key@] == *value,
                None => !self@.contains_key(key@),
            },
    {
        proof {
            use_type_invariant(self);
        }
        match self.position(key) {
            Some(i) => {
                proof {
                    lemma_entry(self.entries@, i as int);
                }
                Some(&self.entries[i].1)
            },
            None => {
                proof {
                    lemma_no_entry(self.entries@, key@);
                }
                None
            },
        }
    }

    /// Whether there is a value at `key`.
    pub fn contains_key(&self, key: &str) -> (res: bool)
        ensures
            res == self@.contains_key(key@),
    {
        self.get(key).is_some()
    }

    /// Set the value at `key`.
    pub fn insert(&mut self, key: String, value: T)
        ensures
            final(self)@ == old(self)@.insert(key@, value),
    {
        proof {
            use_type_invariant(&*self);
        }
        let at = self.position(key.as_str());
        let mut entries: Vec<(String, T)> = Vec::new();
        std::mem::swap(&mut entries, &mut self.entries);
        match at {
            Some(i) => {
                proof {
                    lemma_update(entries@, i as int, key, value);
                }
                entries.set(i, (key, value));
            },
            None => {
                proof {
                    lemma_push(entries@, key, value);
                }
                entries.push((key, value));
            },
        }
        self.entries = entries;
    }

    /// Take the value at `key` out of the map.
    pub fn remove(&mut self, key: &str) -> (res: Option<T>)
        ensures
            final(self)@ == old(self)@.remove(key@),
            match res {
                Some(value) => old(self)@.contains_key(key@) && old(self)@[key@] == value,
                None => !old(self)@.contains_key(key@),
            },
    {
        proof {
            use_type_invariant(&*self);
        }
        let at = self.position(key);
        match at {
            Some(i) => {
                let mut entries: Vec<(String, T)> = Vec::new();
                std::mem::swap(&mut entries, &mut self.entries);
                proof {
                    lemma_remove(entries@, i as int);
                    lemma_entry(entries@, i as int);
                }
                let (_, value) = entries.remove(i);
                self.entries = entries;
                Some(value)
            },
            None => {
                proof {
                    lemma_no_entry(self.entries@, key@);
                    assert(self@.remove(key@) =~= self@);
                }
                None
            },
        }
    }

    /// The keys, in the text order.
    pub fn keys(&self) -> (res: Vec<String>)
        ensures
            self@.dom().finite(),
            res.deep_view() == text::in_order(self@.dom()),
    {
        let mut keys: Vec<String> = Vec::new();
        let n: usize = self.entries.len();
        let mut i: usize = 0;
        while i < n
            invariant
                i <= n,
                n == self.entries@.len(),
                keys@.len() == i,
                forall|j: int| 0 <= j < i ==> (#[trigger] keys@[j])@ == self.entries@[j].0@,
            decreases n - i,
        {
            keys.push(self.entries[i].0.clone());
            i += 1;
        }
        proof {
            use_type_invariant(self);
            let listed = keys.deep_view();
            assert forall|a: int, b: int|
                0 <= a < listed.len() && 0 <= b < listed.len() && a != b implies listed[a]
                != listed[b] by {
                assert(listed[a] == self.entries@[a].0@);
                assert(listed[b] == self.entries@[b].0@);
            }
            assert forall|key: Seq<char>| listed.to_set().contains(key) == self@.dom().contains(
                key,
            ) by {
                if listed.contains(key) {
                    let j = choose|j: int| 0 <= j < listed.len() && listed[j] == key;
                    assert(listed[j] == self.entries@[j].0@);
                    lemma_entry(self.entries@, j);
                }
                if self@.contains_key(key) {
                    let j = lemma_key_has_entry(self.entries@, key);
                    assert(listed[j] == key);
                }
            }
            assert(listed.to_set() =~= self@.dom());
            vstd::seq_lib::seq_to_set_is_finite(listed);
            text::lemma_sorting_distinct_texts(listed);
        }
        text::sort_texts(keys)
    }
}

impl<T> Default for StringMap<T> {
    fn default() -> (res: Self)
        ensures
            res@ == Map::<Seq<char>, T>::empty(),
    {
        StringMap::new()
    }
}

impl<T: Clone> Clone for StringMap<T> {
    fn clone(&self) -> (res: Self)
        ensures
            res@.dom() == self@.dom(),
            forall|key: Seq<char>| #[trigger]
                self@.contains_key(key) ==> cloned(self@[key], res@[key]),
    {
        let mut entries: Vec<(String, T)> = Vec::new();
        let n: usize = self.entries.len();
        let mut i: usize = 0;
        proof {
            use_type_invariant(self);
        }
        while i < n
            invariant
                i <= n,
                n == self.entries@.len(),
                entries@.len() == i,
                forall|j: int|
                    0 <= j < i ==> (#[trigger] entries@[j]).0@ == self.entries@[j].0@ && cloned(
                        self.entries@[j].1,
                        entries@[j].1,
                    ),
            decreases n - i,
        {
            let key = self.entries[i].0.clone();
            let value = self.entries[i].1.clone();
            entries.push((key, value));
            i += 1;
        }
        proof {
            assert(distinct_keys(entries@)) by {
                assert forall|a: int, b: int| 0 <= a < b < entries@.len() implies (
                #[trigger] entries@[a]).0@ != (#[trigger] entries@[b]).0@ by {
                    assert(self.entries@[a].0@ != self.entries@[b].0@);
                }
            }
            let copy = entries_map(entries@);
            assert forall|key: Seq<char>| copy.contains_key(key) == self@.contains_key(key) by {
                if copy.contains_key(key) {
                    let j = lemma_key_has_entry(entries@, key);
                    lemma_entry(self.entries@, j);
                }
                if self@.contains_key(key) {
                    let j = lemma_key_has_entry(self.entries@, key);
                    lemma_entry(entries@, j);
                }
            }
            assert(copy.dom() =~= self@.dom());
            assert forall|key: Seq<char>| #[trigger] self@.contains_key(key) implies cloned(
                self@[key],
                copy[key],
            ) by {
                let j = lemma_key_has_entry(self.entries@, key);
                lemma_entry(self.entries@, j);
                lemma_entry(entries@, j);
            }
        }
        StringMap { entries }
    }
}

}
