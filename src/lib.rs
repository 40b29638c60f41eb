//! A vector-backed sorted multiset, built once and then read.
//!
//! The elements are kept in non-decreasing order at every point where the
//! container is observable; duplicates are kept.

pub mod laws;
pub mod order;
mod sort;
pub mod sorted_vec;

pub use order::{le, sorted, total_order};
pub use sorted_vec::SortedVec;
