//! Sorting a vector by `Ord::cmp`, keeping every element.

use crate::order::{le, lemma_le_trans, lemma_not_le, sorted, total_order};
use core::cmp::Ordering;
use vstd::multiset::Multiset;
use vstd::prelude::*;
use vstd::seq_lib::group_to_multiset_ensures;
use vstd::std_specs::cmp::OrdSpec;

verus! {

/// Inserts `x` into `out` after the leading elements that are no greater than it;
/// a sorted `out` stays sorted.
fn insert_sorted<T: Ord>(out: &mut Vec<T>, x: T)
    requires
        total_order::<T>() ==> sorted(old(out)@),
    ensures
        total_order::<T>() ==> sorted(final(out)@),
        final(out)@.to_multiset() == old(out)@.to_multiset().insert(x),
{
    broadcast use group_to_multiset_ensures;

    let mut p: usize = 0;
    while p < out.len()
        invariant
            total_order::<T>() ==> sorted(out@),
            p <= out.len(),
            total_order::<T>() ==> forall|i: int| 0 <= i < p ==> le(#[trigger] out@[i], x),
        ensures
            p <= out.len(),
            total_order::<T>() ==> forall|i: int| 0 <= i < p ==> le(#[trigger] out@[i], x),
            total_order::<T>() ==> p < out.len() ==> !le(out@[p as int], x),
        decreases out.len() - p,
    {
        match out[p].cmp(&x) {
            Ordering::Greater => break,
            _ => p = p + 1,
        }
    }
    let ghost prev = out@;
    out.insert(p, x);
    proof {
        assert(out@ == prev.insert(p as int, x));
        vstd::seq_lib::to_multiset_insert(prev, p as int, x);
        if total_order::<T>() {
            if p < prev.len() {
                lemma_not_le(prev[p as int], x);
            }
            assert forall|i: int, j: int| 0 <= i < j < out@.len() implies le(
                #[trigger] out@[i],
                #[trigger] out@[j],
            ) by {
                if j < p {
                    assert(le(prev[i], prev[j]));
                } else if j == p {
                    assert(le(prev[i], x));
                } else if i < p {
                    assert(le(prev[i], prev[j - 1]));
                } else if i == p {
                    if j - 1 > p {
                        assert(le(prev[p as int], prev[j - 1]));
                        lemma_le_trans(x, prev[p as int], prev[j - 1]);
                    }
                } else {
                    assert(le(prev[i - 1], prev[j - 1]));
                }
            }
        }
    }
}

/// Whether each element of `v` is no greater than the next one; under a total
/// order that makes the whole of `v` sorted.
pub fn is_sorted<T: Ord>(v: &Vec<T>) -> (r: bool)
    ensures
        total_order::<T>() ==> (r <==> sorted(v@)),
{
    let n = v.len();
    if n == 0 {
        return true;
    }
    let mut i: usize = 1;
    while i < n
        invariant
            n == v@.len(),
            1 <= i <= n,
            total_order::<T>() ==> sorted(v@.subrange(0, i as int)),
        decreases n - i,
    {
        let ghost prefix = v@.subrange(0, i as int);
        match v[i - 1].cmp(&v[i]) {
            Ordering::Greater => {
                proof {
                    if total_order::<T>() {
                        assert(!le(v@[i - 1], v@[i as int]));
                    }
                }
                return false;
            },
            _ => {},
        }
        proof {
            if total_order::<T>() {
                let next = v@.subrange(0, i + 1);
                assert forall|a: int, b: int| 0 <= a < b < next.len() implies le(
                    #[trigger] next[a],
                    #[trigger] next[b],
                ) by {
                    if b < i {
                        assert(le(prefix[a], prefix[b]));
                    } else if a < i - 1 {
                        assert(le(prefix[a], prefix[i - 1]));
                        lemma_le_trans(v@[a], v@[i - 1], v@[i as int]);
                    }
                }
            }
        }
        i = i + 1;
    }
    proof {
        assert(v@.subrange(0, n as int) =~= v@);
    }
    true
}

/// Sorts `v` into non-decreasing order; the result holds the same elements,
/// each as often. Where `cmp` is no total order, only the latter is promised.
/// A vector that is already in order is handed back as it is.
pub fn sort_vec<T: Ord>(v: Vec<T>) -> (r: Vec<T>)
    ensures
        total_order::<T>() ==> sorted(r@),
        r@.to_multiset() == v@.to_multiset(),
        r@.len() == v@.len(),
{
    broadcast use group_to_multiset_ensures;

    if is_sorted(&v) {
        return v;
    }
    let mut rest = v;
    let mut out: Vec<T> = Vec::new();
    while rest.len() > 0
        invariant
            total_order::<T>() ==> sorted(out@),
            out@.to_multiset().add(rest@.to_multiset()) == v@.to_multiset(),
        decreases rest.len(),
    {
        let ghost before = rest@;
        match rest.pop() {
            Some(x) => {
                let ghost placed = out@;
                proof {
                    assert(before =~= rest@.push(x));
                    vstd::seq_lib::to_multiset_build(rest@, x);
                }
                insert_sorted(&mut out, x);
                proof {
                    assert(out@.to_multiset().add(rest@.to_multiset()) =~= placed.to_multiset().add(
                        before.to_multiset(),
                    ));
                }
            },
            None => {},
        }
    }
    proof {
        assert(rest@.to_multiset().len() == 0);
        assert(rest@.to_multiset() =~= Multiset::empty());
        assert(out@.to_multiset().add(Multiset::empty()) =~= out@.to_multiset());
        assert(out@.to_multiset().len() == out@.len());
        assert(v@.to_multiset().len() == v@.len());
    }
    out
}

} // verus!
