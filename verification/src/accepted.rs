//! The set of coordinates already claimed by accepted calls.
//!
//! The set is an `IntervalSet<u32>` of the `interval` crate. Verus cannot look
//! inside it, so this module names what it holds and states, for each
//! operation the resolver uses, what the crate's code does to that content.
//! Nothing in this module is proved; everything else rests on it.

use vstd::prelude::*;
use interval::interval_set::IntervalSet;

verus! {

/// A set of coordinates, kept as an `IntervalSet<u32>` of the `interval`
/// crate: sorted, disjoint closed intervals. The crate bounds the type's
/// parameter by a trait of its own, which the verifier does not know, so
/// the set is held in a struct whose body the verifier does not read.
#[verifier::external_body]
pub struct CoordinateSet {
    intervals: IntervalSet<u32>,
}

/// The coordinates that a set holds: every integer that lies in one of its
/// closed intervals.
pub uninterp spec fn covered(set: CoordinateSet) -> Set<int>;

/// The integers from `low` to `high`, both included.
pub open spec fn closed_range(low: int, high: int) -> Set<int> {
    Set::new(|x: int| low <= x <= high)
}

/// `IntervalSet::<u32>::empty()` of the `interval` crate (trait
/// `gcollections::ops::Empty`): a set with no interval, which holds no
/// coordinate.
#[verifier::external_body]
pub(crate) fn empty_set() -> (set: CoordinateSet)
    ensures
        covered(set) == Set::<int>::empty(),
{
    CoordinateSet { intervals: <IntervalSet<u32> as gcollections::ops::Empty>::empty() }
}

/// `IntervalSet::<u32>::new(low, high)` of the `interval` crate (trait
/// `interval::ops::Range`): the set made of the one closed interval
/// `[low, high]`. The crate asserts `low <= high` and that `high` stays below
/// the largest `u32`, which it reserves so that a width always fits.
#[verifier::external_body]
pub(crate) fn range_set(low: u32, high: u32) -> (set: CoordinateSet)
    requires
        low <= high,
        high < u32::MAX,
    ensures
        covered(set) == closed_range(low as int, high as int),
{
    CoordinateSet { intervals: <IntervalSet<u32> as interval::ops::Range>::new(low, high) }
}

/// `IntervalSet::overlap(&self, &u32)` of the `interval` crate (trait
/// `gcollections::ops::Overlap<u32>`): whether the value lies in one of the
/// set's intervals, bounds included.
#[verifier::external_body]
pub(crate) fn holds_point(set: &CoordinateSet, point: u32) -> (found: bool)
    ensures
        found == covered(*set).contains(point as int),
{
    gcollections::ops::Overlap::overlap(&set.intervals, &point)
}

/// `IntervalSet::overlap(&self, &IntervalSet)` of the `interval` crate (trait
/// `gcollections::ops::Overlap`): whether the two sets share a value.
#[verifier::external_body]
pub(crate) fn shares_point(set: &CoordinateSet, other: &CoordinateSet) -> (found: bool)
    ensures
        found == !covered(*set).disjoint(covered(*other)),
{
    gcollections::ops::Overlap::overlap(&set.intervals, &other.intervals)
}

/// `IntervalSet::union(&self, &IntervalSet)` of the `interval` crate (trait
/// `gcollections::ops::Union`): a new set that holds every value of either
/// operand and no other.
#[verifier::external_body]
pub(crate) fn united(set: &CoordinateSet, other: &CoordinateSet) -> (both: CoordinateSet)
    ensures
        covered(both) == covered(*set).union(covered(*other)),
{
    CoordinateSet { intervals: gcollections::ops::Union::union(&set.intervals, &other.intervals) }
}

} // verus!
