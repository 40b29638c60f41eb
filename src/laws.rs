//! What holds of every `SortedVec`, across its operations.

use crate::order::{le, lemma_sorted_unique, sorted, total_order};
use crate::sorted_vec::SortedVec;
use core::cmp::Ordering;
use vstd::prelude::*;
use vstd::std_specs::cmp::{OrdSpec, PartialEqSpec};

verus! {

/// Sorting is determined by the input: two sorted sequences that each hold
/// the elements of `x`, each as often as `x` does, are the same sequence. So
/// what `SortedVec::from_sequence(x)` holds is what any correct sort of `x` gives.
pub proof fn lemma_sort_is_unique<T: Ord>(x: Seq<T>, r: Seq<T>, s: Seq<T>)
    requires
        total_order::<T>(),
        sorted(r),
        r.to_multiset() == x.to_multiset(),
        sorted(s),
        s.to_multiset() == x.to_multiset(),
    ensures
        r == s,
{
    lemma_sorted_unique(r, s);
}

/// Two vectors built from orderings of the same elements are equal: they hold
/// one sequence, and `==` on them returns `true`.
pub proof fn lemma_permutations_equal<T: Ord>(x: Seq<T>, y: Seq<T>, a: SortedVec<T>, b: SortedVec<T>)
    requires
        total_order::<T>(),
        x.to_multiset() == y.to_multiset(),
        sorted(a@),
        a@.to_multiset() == x.to_multiset(),
        sorted(b@),
        b@.to_multiset() == y.to_multiset(),
    ensures
        a@ == b@,
        a.eq_spec(&b),
{
    lemma_sorted_unique(a@, b@);
    lemma_eq_is_structural(a, b);
}

/// `==` on two vectors compares their elements position by position, and
/// nothing else: it holds exactly when they hold one sequence.
pub proof fn lemma_eq_is_structural<T: Ord>(a: SortedVec<T>, b: SortedVec<T>)
    requires
        total_order::<T>(),
    ensures
        a.eq_spec(&b) <==> a@ == b@,
{
    if a.eq_spec(&b) {
        assert(a@ =~= b@);
    }
}

/// In a sorted sequence the element at the last position is the greatest.
pub proof fn lemma_last_is_greatest<T: Ord>(s: Seq<T>)
    requires
        total_order::<T>(),
        sorted(s),
        s.len() > 0,
    ensures
        forall|i: int| 0 <= i < s.len() ==> le(#[trigger] s[i], s.last()),
{
    assert forall|i: int| 0 <= i < s.len() implies le(#[trigger] s[i], s.last()) by {
        if i == s.len() - 1 {
            assert(s[i].cmp_spec(&s[i]) == Ordering::Equal);
        }
    }
}

} // verus!
