use sorted_vec::SortedVec;
use std::collections::BTreeSet;

#[test]
fn new_is_empty() {
    let sv: SortedVec<i32> = SortedVec::new();
    assert_eq!(sv.len(), 0);
    assert!(sv.is_empty());
    assert!(sv.as_slice().is_empty());
    assert_eq!(sv.iter().count(), 0);
    assert!(sv.get(0).is_none());
    assert!(sv.into_vec().is_empty());
}

#[test]
fn default_is_empty() {
    let sv: SortedVec<u8> = SortedVec::default();
    assert!(sv.is_empty());
    assert_eq!(sv, SortedVec::new());
}

#[test]
fn example_scenario() {
    let sv = SortedVec::from_iterable(vec![5, 3, 3, 1, 4].into_iter());
    assert_eq!(sv.as_slice(), &[1, 3, 3, 4, 5]);
    assert_eq!(sv.len(), 5);
    assert!(!sv.is_empty());
    assert_eq!(sv[0], 1);
    assert_eq!(sv[4], 5);
    let first: Vec<i32> = sv.iter().cloned().collect();
    let second: Vec<i32> = sv.iter().cloned().collect();
    assert_eq!(first, vec![1, 3, 3, 4, 5]);
    assert_eq!(first, second);
    assert_eq!(sv.len(), 5);
}

#[test]
fn from_sequence_sorts() {
    let sv = SortedVec::from_sequence(vec![9, -2, 7, 0, 7, -2]);
    assert_eq!(sv.as_slice(), &[-2, -2, 0, 7, 7, 9]);
}

#[test]
fn from_vec_trait_sorts() {
    let sv: SortedVec<u64> = SortedVec::from(vec![3, 1, 2]);
    assert_eq!(sv.into_vec(), vec![1, 2, 3]);
}

#[test]
fn already_sorted_input_kept() {
    let sv = SortedVec::from_sequence(vec![1, 2, 2, 3, 10]);
    assert_eq!(sv.as_slice(), &[1, 2, 2, 3, 10]);
}

#[test]
fn descending_input_reversed() {
    let input: Vec<u32> = (0..200).rev().collect();
    let sv = SortedVec::from_sequence(input);
    let expected: Vec<u32> = (0..200).collect();
    assert_eq!(sv.as_slice(), expected.as_slice());
}

#[test]
fn sortedness_holds_for_every_construction() {
    let a = SortedVec::from_sequence(vec![4, 8, 1, 9, 1, 0, 5]);
    let b = SortedVec::from_iterable([7, 7, 2, 6, 3].iter().cloned());
    let c = SortedVec::from(BTreeSet::from([10, 2, 8, 4]));
    let d = a.clone();
    for sv in [&a, &b, &c, &d] {
        for w in sv.as_slice().windows(2) {
            assert!(w[0] <= w[1]);
        }
    }
}

#[test]
fn content_is_preserved() {
    let input = vec![3, 1, 4, 1, 5, 9, 2, 6, 5, 3, 5];
    let sv = SortedVec::from_iterable(input.clone().into_iter());
    assert_eq!(sv.len(), input.len());
    for x in 0..10 {
        let want = input.iter().filter(|y| **y == x).count();
        let got = sv.iter().filter(|y| **y == x).count();
        assert_eq!(got, want);
    }
}

#[test]
fn matches_reference_sort() {
    let input = vec!["pear", "apple", "fig", "apple", "kiwi"];
    let mut reference = input.clone();
    reference.sort();
    let sv = SortedVec::from_iterable(input.into_iter());
    assert_eq!(sv.into_vec(), reference);
}

#[test]
fn permutations_are_equal() {
    let a = SortedVec::from_sequence(vec![2, 1, 3, 1]);
    let b = SortedVec::from_sequence(vec![1, 3, 1, 2]);
    assert_eq!(a, b);
}

#[test]
fn different_contents_are_unequal() {
    let a = SortedVec::from_sequence(vec![1, 2, 3]);
    let b = SortedVec::from_sequence(vec![1, 2, 4]);
    let c = SortedVec::from_sequence(vec![1, 2]);
    assert_ne!(a, b);
    assert_ne!(a, c);
}

#[test]
fn order_is_lexicographic() {
    let a = SortedVec::from_sequence(vec![1, 2, 3]);
    let b = SortedVec::from_sequence(vec![1, 2, 4]);
    let c = SortedVec::from_sequence(vec![1, 2]);
    assert!(a < b);
    assert!(c < a);
}

#[test]
fn last_position_is_maximum() {
    let sv = SortedVec::from_sequence(vec![12, 40, 7, 33]);
    let n = sv.len();
    assert_eq!(sv[n - 1], 40);
    assert_eq!(sv.iter().max(), Some(&40));
    assert!(sv.get(n).is_none());
    assert!(sv.get(n + 3).is_none());
}

#[test]
fn ordered_set_conversion() {
    let set: BTreeSet<i32> = [6, 2, 4].into_iter().collect();
    let sv = SortedVec::from_ordered_set(set);
    assert_eq!(sv.as_slice(), &[2, 4, 6]);
    assert_eq!(sv.len(), 3);
}

#[test]
fn ordered_set_trait_conversion() {
    let set: BTreeSet<String> = ["b", "c", "a"].iter().map(|s| s.to_string()).collect();
    let sv: SortedVec<String> = SortedVec::from(set);
    assert_eq!(sv.as_slice(), &["a".to_string(), "b".to_string(), "c".to_string()]);
}

#[test]
fn clone_is_equal() {
    let a = SortedVec::from_sequence(vec![5, 1, 3]);
    let b = a.clone();
    assert_eq!(a, b);
    assert_eq!(b.as_slice(), &[1, 3, 5]);
}

#[test]
fn deref_gives_slice() {
    let sv = SortedVec::from_sequence(vec![30, 10, 20]);
    let s: &[i32] = &sv;
    assert_eq!(s, &[10, 20, 30]);
    assert_eq!(sv.binary_search(&20), Ok(1));
    assert_eq!(sv.first(), Some(&10));
}

#[test]
fn iterable_keeps_duplicates() {
    let sv = SortedVec::from_iterable(vec![2, 2, 2].into_iter());
    assert_eq!(sv.as_slice(), &[2, 2, 2]);
    assert_eq!(sv.len(), 3);
}

#[test]
fn iterable_permutations_are_equal() {
    let a = SortedVec::from_iterable(vec![3, 1, 2].into_iter());
    let b = SortedVec::from_iterable(vec![2, 3, 1].into_iter());
    assert_eq!(a, b);
    assert_eq!(a.as_slice(), &[1, 2, 3]);
    let c = SortedVec::from_iterable(vec![1, 1, 2].into_iter());
    let d = SortedVec::from_iterable(vec![1, 2, 2].into_iter());
    assert_eq!(c.as_slice(), &[1, 1, 2]);
    assert_ne!(c, d);
}

#[test]
fn iterable_agrees_with_from_vec() {
    let input = vec![8, 6, 7, 5, 3, 0, 9];
    let a = SortedVec::from_iterable(input.clone().into_iter());
    let b = SortedVec::from(input);
    assert_eq!(a, b);
    let rebuilt = SortedVec::from_iterable(a.clone().into_vec().into_iter());
    assert_eq!(rebuilt, a);
}
