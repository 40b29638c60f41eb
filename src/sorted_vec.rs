//! `SortedVec`: a vector whose elements stay in non-decreasing order.

use crate::order::{sorted, total_order};
use crate::sort::sort_vec;
use std::collections::BTreeSet;
use vstd::laws_cmp::obeys_cmp;
use vstd::prelude::*;
use vstd::std_specs::cmp::{PartialEqSpec, PartialEqSpecImpl};
use vstd::std_specs::convert::FromSpecImpl;
use vstd::std_specs::iter::IteratorSpec;

verus! {

/// A `Vec` that is guaranteed to be sorted.
///
/// It is built in one step, from a vector, a set or any iterable, and is
/// read from after that: nothing inserts or removes an element.
#[derive(Debug, Eq, PartialOrd, Ord, Hash)]
pub struct SortedVec<T: Ord> {
    v: Vec<T>,
}

impl<T: Ord> View for SortedVec<T> {
    type V = Seq<T>;

    closed spec fn view(&self) -> Seq<T> {
        self.v@
    }
}

impl<T: Ord> SortedVec<T> {
    /// The elements are in order wherever `cmp` orders them.
    #[verifier::type_invariant]
    closed spec fn inv(&self) -> bool {
        total_order::<T>() ==> sorted(self.v@)
    }

    /// Constructs a new, empty, `SortedVec<T>`.
    pub fn new() -> (r: Self)
        ensures
            r@ == Seq::<T>::empty(),
            total_order::<T>() ==> sorted(r@),
    {
        SortedVec { v: Vec::new() }
    }

    /// Sorts `v` and wraps it.
    pub fn from_sequence(v: Vec<T>) -> (r: Self)
        ensures
            r@.to_multiset() == v@.to_multiset(),
            r@.len() == v@.len(),
            total_order::<T>() ==> sorted(r@),
    {
        SortedVec { v: sort_vec(v) }
    }

    /// Gathers the items of `items` and sorts them.
    pub fn from_iterable<I: Iterator<Item = T>>(items: I) -> (r: Self)
        ensures
            items.obeys_prophetic_iter_laws() ==> r@.to_multiset() == items.remaining().to_multiset(),
            items.obeys_prophetic_iter_laws() ==> r@.len() == items.remaining().len(),
            total_order::<T>() ==> sorted(r@),
    {
        SortedVec::from_sequence(collect_vec(items))
    }

    /// Takes the elements of an ordered set, in order. The set already yields
    /// them sorted, so the sort that follows only checks that.
    pub fn from_ordered_set(t: BTreeSet<T>) -> (r: Self)
        ensures
            obeys_cmp::<T>() ==> r@.to_set() == t@ && r@.no_duplicates(),
            total_order::<T>() ==> sorted(r@),
    {
        let v = btree_set_into_vec(t);
        let s = sort_vec(v);
        proof {
            lemma_same_elements(v@, s@);
        }
        SortedVec { v: s }
    }

    /// Extracts a slice containing the entire vector.
    pub fn as_slice(&self) -> (r: &[T])
        ensures
            r@ == self@,
            total_order::<T>() ==> sorted(r@),
    {
        proof {
            use_type_invariant(self);
        }
        self.v.as_slice()
    }

    /// Returns the number of elements in the vector.
    pub fn len(&self) -> (r: usize)
        ensures
            r == self@.len(),
    {
        self.v.len()
    }

    /// Returns `true` if the vector contains no elements.
    pub fn is_empty(&self) -> (r: bool)
        ensures
            r == (self@.len() == 0),
    {
        self.v.is_empty()
    }

    /// Gives up the wrapper and returns the elements, in order.
    pub fn into_vec(self) -> (r: Vec<T>)
        ensures
            r@ == self@,
            total_order::<T>() ==> sorted(r@),
    {
        proof {
            use_type_invariant(&self);
        }
        self.v
    }
}

/// Relies on `Vec::from_iter` over a `BTreeSet`, whose iterator moves out
/// each element of the set once.
#[verifier::external_body]
fn btree_set_into_vec<T: Ord>(t: BTreeSet<T>) -> (r: Vec<T>)
    ensures
        obeys_cmp::<T>() ==> r@.to_set() == t@ && r@.no_duplicates(),
{
    Vec::from_iter(t)
}

/// Relies on `Vec::from_iter`, which gathers every item an iterator yields,
/// in the order it yields them.
#[verifier::external_body]
fn collect_vec<T, I: Iterator<Item = T>>(iter: I) -> (r: Vec<T>)
    ensures
        iter.obeys_prophetic_iter_laws() ==> r@ == iter.remaining(),
{
    Vec::from_iter(iter)
}

/// Two sequences with the same elements, each as often, hold the same set,
/// and one is free of repeats when the other is.
proof fn lemma_same_elements<T>(a: Seq<T>, b: Seq<T>)
    requires
        a.to_multiset() == b.to_multiset(),
    ensures
        a.to_set() == b.to_set(),
        a.no_duplicates() ==> b.no_duplicates(),
{
    broadcast use vstd::seq_lib::group_to_multiset_ensures;

    assert forall|x: T| a.to_set().contains(x) <==> b.to_set().contains(x) by {
        assert(a.contains(x) <==> a.to_multiset().count(x) > 0);
        assert(b.contains(x) <==> b.to_multiset().count(x) > 0);
    }
    assert(a.to_set() =~= b.to_set());
    if a.no_duplicates() {
        a.lemma_multiset_has_no_duplicates();
        b.lemma_multiset_has_no_duplicates_conv();
    }
}

impl<T: Ord> Default for SortedVec<T> {
    /// An empty vector.
    fn default() -> (r: Self)
        ensures
            r@ == Seq::<T>::empty(),
    {
        SortedVec::new()
    }
}

impl<T: Ord> From<Vec<T>> for SortedVec<T> {
    /// Sorts `v` and wraps it.
    fn from(v: Vec<T>) -> (r: Self)
        ensures
            r@.to_multiset() == v@.to_multiset(),
            total_order::<T>() ==> sorted(r@),
    {
        SortedVec::from_sequence(v)
    }
}

impl<T: Ord> FromSpecImpl<Vec<T>> for SortedVec<T> {
    /// No single value is named here: `from`'s own `ensures` says what it returns.
    open spec fn obeys_from_spec() -> bool {
        false
    }

    /// A sorted arrangement of `v`; unused while `obeys_from_spec` is false.
    open spec fn from_spec(v: Vec<T>) -> Self {
        choose|r: Self| r@.to_multiset() == v@.to_multiset() && (total_order::<T>() ==> sorted(r@))
    }
}

impl<T: Ord> From<BTreeSet<T>> for SortedVec<T> {
    /// Takes the elements of an ordered set, in order.
    fn from(t: BTreeSet<T>) -> (r: Self)
        ensures
            obeys_cmp::<T>() ==> r@.to_set() == t@ && r@.no_duplicates(),
            total_order::<T>() ==> sorted(r@),
    {
        SortedVec::from_ordered_set(t)
    }
}

impl<T: Ord> FromSpecImpl<BTreeSet<T>> for SortedVec<T> {
    /// No single value is named here: `from`'s own `ensures` says what it returns.
    open spec fn obeys_from_spec() -> bool {
        false
    }

    /// The elements of `t` in order; unused while `obeys_from_spec` is false.
    open spec fn from_spec(t: BTreeSet<T>) -> Self {
        choose|r: Self|
            r@.to_set() == t@ && r@.no_duplicates() && (total_order::<T>() ==> sorted(r@))
    }
}

impl<T: Ord> core::ops::Deref for SortedVec<T> {
    type Target = [T];

    /// Reads the elements as a slice, in order.
    fn deref(&self) -> (r: &[T])
        ensures
            r@ == self@,
            total_order::<T>() ==> sorted(r@),
    {
        self.as_slice()
    }
}

impl<T: Ord> core::ops::Index<usize> for SortedVec<T> {
    type Output = T;

    /// The element at position `index` in order.
    fn index(&self, index: usize) -> (r: &T)
        ensures
            *r == self@[index as int],
    {
        &self.v[index]
    }
}

impl<T: Ord> vstd::std_specs::core::IndexSpecImpl<usize> for SortedVec<T> {
    open spec fn index_req(&self, index: &usize) -> bool {
        *index < self@.len()
    }
}

/// A clone of an element need not compare as its source does, so the copy is
/// checked and sorted again where it is out of order.
impl<T: Ord + Clone> Clone for SortedVec<T> {
    fn clone(&self) -> (r: Self)
        ensures
            r@.len() == self@.len(),
    {
        SortedVec { v: sort_vec(self.v.clone()) }
    }
}

/// Two vectors are equal when they hold equal elements at each position.
impl<T: Ord> PartialEq for SortedVec<T> {
    fn eq(&self, other: &Self) -> (r: bool) {
        let n = self.v.len();
        if n != other.v.len() {
            return false;
        }
        let mut i: usize = 0;
        while i < n
            invariant
                n == self@.len(),
                n == other@.len(),
                i <= n,
                T::obeys_eq_spec() ==> forall|k: int|
                    0 <= k < i ==> (#[trigger] self@[k]).eq_spec(&other@[k]),
            decreases n - i,
        {
            if !(self.v[i] == other.v[i]) {
                return false;
            }
            i = i + 1;
        }
        true
    }
}

impl<T: Ord> PartialEqSpecImpl for SortedVec<T> {
    open spec fn obeys_eq_spec() -> bool {
        T::obeys_eq_spec()
    }

    open spec fn eq_spec(&self, other: &Self) -> bool {
        &&& self@.len() == other@.len()
        &&& forall|k: int| 0 <= k < self@.len() ==> (#[trigger] self@[k]).eq_spec(&other@[k])
    }
}

} // verus!
