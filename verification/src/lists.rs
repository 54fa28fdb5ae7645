//! Facts about sequences that several modules need.

use vstd::prelude::*;

verus! {

/// A sequence with one more element holds that element and what it held before.
pub proof fn lemma_push_holds<T>(list: Seq<T>, last: T, x: T)
    ensures
        list.push(last).contains(x) == (list.contains(x) || x == last),
{
    let all = list.push(last);
    if x == last {
        assert(all[list.len() as int] == x);
    }
    if list.contains(x) {
        let k = choose|k: int| 0 <= k < list.len() && list[k] == x;
        assert(all[k] == x);
    }
    if all.contains(x) {
        let k = choose|k: int| 0 <= k < all.len() && all[k] == x;
        if k < list.len() {
            assert(list[k] == x);
        }
    }
}

/// A sequence with one more element has the set with one more element.
pub proof fn lemma_push_to_set<T>(list: Seq<T>, last: T)
    ensures
        list.push(last).to_set() == list.to_set().insert(last),
{
    assert forall|x: T| list.push(last).to_set().contains(x) == list.to_set().insert(
        last,
    ).contains(x) by {
        lemma_push_holds(list, last, x);
    }
    assert(list.push(last).to_set() =~= list.to_set().insert(last));
}

}
