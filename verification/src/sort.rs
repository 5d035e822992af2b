//! Sorting the growable buffer.

use vstd::prelude::*;
use vstd::relations::*;
use vstd::seq_lib::*;

verus! {

/// The elements of `s` stand in ascending order.
pub open spec fn sorted(s: Seq<i32>) -> bool {
    forall|i: int, j: int| 0 <= i <= j < s.len() ==> s[i] <= s[j]
}

/// The order on the elements, as a relation.
pub open spec fn at_most() -> spec_fn(i32, i32) -> bool {
    |a: i32, b: i32| a <= b
}

/// There is only one way to put given elements in ascending order.
pub proof fn lemma_sorted_same(a: Seq<i32>, b: Seq<i32>)
    requires
        sorted(a),
        sorted(b),
        a.to_multiset() == b.to_multiset(),
    ensures
        a == b,
{
    assert(sorted_by(a, at_most()));
    assert(sorted_by(b, at_most()));
    assert(total_ordering(at_most()));
    lemma_sorted_unique(a, b, at_most());
}

/// Sorts `xs` in ascending order.
pub fn sort(xs: &mut Vec<i32>)
    ensures
        sorted(final(xs)@),
        final(xs)@.to_multiset() == old(xs)@.to_multiset(),
{
    let n: usize = xs.len();
    let mut i: usize = 1;
    while i < n
        invariant
            xs@.len() == n,
            1 <= i,
            forall|a: int, b: int| 0 <= a <= b < i && b < n ==> xs@[a] <= xs@[b],
            xs@.to_multiset() == old(xs)@.to_multiset(),
        decreases n - i,
    {
        let mut j: usize = i;
        while j > 0 && xs[j - 1] > xs[j]
            invariant
                xs@.len() == n,
                j <= i < n,
                xs@.to_multiset() == old(xs)@.to_multiset(),
                forall|a: int, b: int| 0 <= a <= b <= i && a != j && b != j ==> xs@[a] <= xs@[b],
                forall|b: int| j < b <= i ==> xs@[j as int] <= xs@[b],
            decreases j,
        {
            let low: i32 = xs[j - 1];
            let high: i32 = xs[j];
            proof {
                broadcast use vstd::multiset::group_multiset_axioms;

                let s0 = xs@;
                let s1 = s0.update(j - 1, high);
                let s2 = s1.update(j as int, low);
                s0.to_multiset_ensures();
                assert(s0[j - 1] == low && s0.contains(low));
                assert(s0[j as int] == high && s0.contains(high));
                to_multiset_update(s0, j - 1, high);
                to_multiset_update(s1, j as int, low);
                assert(s2.to_multiset() =~= s0.to_multiset());
            }
            xs[j - 1] = high;
            xs[j] = low;
            j = j - 1;
        }
        i = i + 1;
    }
}

} // verus!
