//! The order that a `SortedVec` keeps, stated over `Ord::cmp`.

use core::cmp::Ordering;
use vstd::prelude::*;
use vstd::seq_lib::group_to_multiset_ensures;
use vstd::std_specs::cmp::{OrdSpec, PartialEqSpec};

verus! {

/// `T`'s `cmp` is a total order whose `Equal` is equality of values, and
/// `T`'s `==` is that same equality.
pub open spec fn total_order<T: Ord>() -> bool {
    &&& T::obeys_cmp_spec()
    &&& T::obeys_eq_spec()
    &&& forall|a: T, b: T| #[trigger] a.eq_spec(&b) <==> a == b
    &&& forall|a: T, b: T| #[trigger] a.cmp_spec(&b) == Ordering::Equal <==> a == b
    &&& forall|a: T, b: T|
        #[trigger] a.cmp_spec(&b) == Ordering::Less <==> #[trigger] b.cmp_spec(&a)
            == Ordering::Greater
    &&& forall|a: T, b: T, c: T|
        #[trigger] a.cmp_spec(&b) == Ordering::Less && #[trigger] b.cmp_spec(&c) == Ordering::Less
            ==> a.cmp_spec(&c) == Ordering::Less
}

/// `a` comes no later than `b`.
pub open spec fn le<T: Ord>(a: T, b: T) -> bool {
    a.cmp_spec(&b) != Ordering::Greater
}

/// Every element is no greater than each one after it.
pub open spec fn sorted<T: Ord>(s: Seq<T>) -> bool {
    forall|i: int, j: int| 0 <= i < j < s.len() ==> le(#[trigger] s[i], #[trigger] s[j])
}

/// `le` is transitive.
pub proof fn lemma_le_trans<T: Ord>(a: T, b: T, c: T)
    requires
        total_order::<T>(),
        le(a, b),
        le(b, c),
    ensures
        le(a, c),
{
    if a.cmp_spec(&c) == Ordering::Greater {
        assert(c.cmp_spec(&a) == Ordering::Less);
        if a == b {
            assert(b.cmp_spec(&c) == Ordering::Greater);
        } else if b == c {
            assert(a.cmp_spec(&b) == Ordering::Greater);
        } else {
            assert(a.cmp_spec(&b) == Ordering::Less);
            assert(b.cmp_spec(&c) == Ordering::Less);
        }
    }
}

/// Two values each no greater than the other are one value.
pub proof fn lemma_le_antisym<T: Ord>(a: T, b: T)
    requires
        total_order::<T>(),
        le(a, b),
        le(b, a),
    ensures
        a == b,
{
    if a.cmp_spec(&b) == Ordering::Less {
        assert(b.cmp_spec(&a) == Ordering::Greater);
    }
}

/// Of two values, one is no greater than the other.
pub proof fn lemma_not_le<T: Ord>(a: T, b: T)
    requires
        total_order::<T>(),
        !le(a, b),
    ensures
        le(b, a),
        b != a,
{
    assert(a.cmp_spec(&b) == Ordering::Greater);
    assert(b.cmp_spec(&a) == Ordering::Less);
}

/// The first element of a sorted sequence is no greater than any it holds.
pub proof fn lemma_first_is_least<T: Ord>(s: Seq<T>, x: T)
    requires
        total_order::<T>(),
        sorted(s),
        s.contains(x),
    ensures
        le(s[0], x),
{
    let j = choose|j: int| 0 <= j < s.len() && s[j] == x;
    if j == 0 {
        assert(s[0].cmp_spec(&s[0]) == Ordering::Equal);
    } else {
        assert(le(s[0], s[j]));
    }
}

/// Two sorted sequences that hold the same elements, each as often, are one sequence.
pub proof fn lemma_sorted_unique<T: Ord>(a: Seq<T>, b: Seq<T>)
    requires
        total_order::<T>(),
        sorted(a),
        sorted(b),
        a.to_multiset() == b.to_multiset(),
    ensures
        a == b,
    decreases a.len(),
{
    broadcast use group_to_multiset_ensures;

    assert(a.to_multiset().len() == a.len());
    assert(b.to_multiset().len() == b.len());
    if a.len() == 0 {
        assert(a =~= b);
    } else {
        assert(a.to_multiset().count(a[0]) > 0);
        assert(b.to_multiset().count(b[0]) > 0);
        lemma_first_is_least(b, a[0]);
        lemma_first_is_least(a, b[0]);
        lemma_le_antisym(a[0], b[0]);
        assert(a.remove(0) =~= a.drop_first());
        assert(b.remove(0) =~= b.drop_first());
        assert(a.drop_first().to_multiset() == a.to_multiset().remove(a[0]));
        assert(b.drop_first().to_multiset() == b.to_multiset().remove(b[0]));
        assert(sorted(a.drop_first())) by {
            assert forall|i: int, j: int| 0 <= i < j < a.drop_first().len() implies le(
                #[trigger] a.drop_first()[i],
                #[trigger] a.drop_first()[j],
            ) by {
                assert(le(a[i + 1], a[j + 1]));
            }
        }
        assert(sorted(b.drop_first())) by {
            assert forall|i: int, j: int| 0 <= i < j < b.drop_first().len() implies le(
                #[trigger] b.drop_first()[i],
                #[trigger] b.drop_first()[j],
            ) by {
                assert(le(b[i + 1], b[j + 1]));
            }
        }
        lemma_sorted_unique(a.drop_first(), b.drop_first());
        assert(a =~= b) by {
            assert forall|i: int| 0 <= i < a.len() implies a[i] == b[i] by {
                if i > 0 {
                    assert(a[i] == a.drop_first()[i - 1]);
                    assert(b[i] == b.drop_first()[i - 1]);
                }
            }
        }
    }
}

} // verus!
