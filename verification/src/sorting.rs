//! Ordering of per-second buckets.

use itertools::Itertools;
use std::cmp::Ordering;
use vstd::prelude::*;

verus! {

/// `a` comes no later than `b` when buckets are ordered by their second and,
/// within one second, by their count.
pub open spec fn lex_le(a: (u64, u64), b: (u64, u64)) -> bool {
    a.0 < b.0 || (a.0 == b.0 && a.1 <= b.1)
}

/// Compares two buckets by their second and, within one second, by their count.
pub fn compare_buckets(a: &(u64, u64), b: &(u64, u64)) -> (o: Ordering)
    ensures
        o == Ordering::Less <==> lex_le(*a, *b) && *a != *b,
        o == Ordering::Equal <==> *a == *b,
        o == Ordering::Greater <==> !lex_le(*a, *b),
{
    if a.0 < b.0 {
        Ordering::Less
    } else if a.0 > b.0 {
        Ordering::Greater
    } else if a.1 < b.1 {
        Ordering::Less
    } else if a.1 > b.1 {
        Ordering::Greater
    } else {
        Ordering::Equal
    }
}

/// Calls `Itertools::sorted_by` with [`compare_buckets`] as the comparator.
///
/// Not proved: that the result holds the same buckets as `buckets`, each as
/// often as it occurs there, in ascending order of the comparator. The
/// function sorts a copy of the items with `slice::sort_by`.
#[verifier::external_body]
pub(crate) fn sorted_buckets(buckets: Vec<(u64, u64)>) -> (sorted: Vec<(u64, u64)>)
    ensures
        sorted@.to_multiset() == buckets@.to_multiset(),
        forall|i: int, j: int| 0 <= i <= j < sorted@.len() ==> lex_le(sorted@[i], sorted@[j]),
{
    buckets.into_iter().sorted_by(|a, b| compare_buckets(a, b)).collect()
}

} // verus!
