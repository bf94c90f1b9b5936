//! Sorting a vector of digits into ascending order.

use vstd::prelude::*;
use vstd::relations::sorted_by;
use vstd::seq_lib::group_to_multiset_ensures;
use vstd::seq_lib::lemma_sorted_unique;

verus! {

/// The order by which digits are sorted: `a` comes no later than `b`.
pub open spec fn ascending() -> spec_fn(u32, u32) -> bool {
    |a: u32, b: u32| a <= b
}

/// Exchanging two entries of a sequence leaves its multiset as it was.
pub proof fn lemma_swap_keeps_multiset(s: Seq<u32>, i: int, j: int)
    requires
        0 <= i < s.len(),
        0 <= j < s.len(),
    ensures
        s.update(i, s[j]).update(j, s[i]).to_multiset() == s.to_multiset(),
{
    broadcast use group_to_multiset_ensures;
    broadcast use vstd::multiset::group_multiset_axioms;
    let half = s.update(i, s[j]);
    assert(half.to_multiset() == s.to_multiset().insert(s[j]).remove(s[i]));
    assert(half.update(j, s[i]).to_multiset() == half.to_multiset().insert(s[i]).remove(half[j]));
    assert(s.to_multiset().count(s[i]) > 0);
    assert(s.to_multiset().count(s[j]) > 0);
    assert(half.update(j, s[i]).to_multiset() =~= s.to_multiset());
}

/// Sorts `values` into ascending order: the result holds every entry of
/// `values` as often as `values` does, the smaller before the larger.
pub fn sort_ascending(values: Vec<u32>) -> (sorted: Vec<u32>)
    ensures
        sorted@ == values@.sort_by(ascending()),
        sorted_by(sorted@, ascending()),
        sorted@.to_multiset() == values@.to_multiset(),
{
    broadcast use group_to_multiset_ensures;
    let mut sorted: Vec<u32> = values;
    let mut i: usize = 1;
    while i < sorted.len()
        invariant
            sorted.len() == values.len(),
            sorted@.to_multiset() == values@.to_multiset(),
            forall|a: int, b: int| 0 <= a < b < i && b < sorted.len() ==> sorted[a] <= sorted[b],
        decreases sorted.len() - i,
    {
        // Let the entry at `i` sink to its place among the sorted entries
        // before it.
        let mut j: usize = i;
        while j > 0 && sorted[j - 1] > sorted[j]
            invariant
                j <= i < sorted.len(),
                sorted.len() == values.len(),
                sorted@.to_multiset() == values@.to_multiset(),
                forall|a: int, b: int| 0 <= a < b <= i && b != j ==> sorted[a] <= sorted[b],
            decreases j,
        {
            let upper: u32 = sorted[j - 1];
            let lower: u32 = sorted[j];
            let ghost before = sorted@;
            sorted.set(j - 1, lower);
            sorted.set(j, upper);
            assert(sorted@.to_multiset() =~= before.to_multiset()) by {
                lemma_swap_keeps_multiset(before, j - 1, j as int);
            }
            j -= 1;
        }
        i += 1;
    }
    proof {
        values@.lemma_sort_by_ensures(ascending());
        lemma_sorted_unique(sorted@, values@.sort_by(ascending()), ascending());
    }
    sorted
}

} // verus!
