//! Bounds of time ranges and their intersection.
//!
//! Time is measured in nanoseconds and held as `u64` throughout the library.
use vstd::prelude::*;

verus! {

/// An endpoint of a range of time points.
#[derive(Clone, Copy, Debug, PartialEq, Eq)]
pub enum Bound {
    /// The endpoint is part of the range.
    Included(u64),
    /// The endpoint is not part of the range.
    Excluded(u64),
    /// The range is unbounded on this side.
    Unbounded,
}

impl Bound {
    /// A time point lies on the allowed side of this bound when it is the start of a range.
    pub open spec fn admits_from_below(self, t: int) -> bool {
        match self {
            Bound::Included(s) => s <= t,
            Bound::Excluded(s) => s < t,
            Bound::Unbounded => true,
        }
    }

    /// A time point lies on the allowed side of this bound when it is the end of a range.
    pub open spec fn admits_from_above(self, t: int) -> bool {
        match self {
            Bound::Included(e) => t <= e,
            Bound::Excluded(e) => t < e,
            Bound::Unbounded => true,
        }
    }
}

/// A range of time points given by its two bounds.
pub open spec fn range_contains(range: (Bound, Bound), t: int) -> bool {
    range.0.admits_from_below(t) && range.1.admits_from_above(t)
}

/// The smaller of two time points.
pub fn partial_min(a: u64, b: u64) -> (r: u64)
    ensures
        r == if a < b { a } else { b },
{
    if a < b {
        a
    } else {
        b
    }
}

/// The larger of two time points.
pub fn partial_max(a: u64, b: u64) -> (r: u64)
    ensures
        r == if a > b { a } else { b },
{
    if a > b {
        a
    } else {
        b
    }
}

/// The start bound of the intersection of two ranges with the given start bounds.
pub open spec fn spec_intersect_start(l: Bound, r: Bound) -> Bound {
    match (l, r) {
        (Bound::Included(a), Bound::Included(b)) => Bound::Included(if a > b { a } else { b }),
        (Bound::Excluded(a), Bound::Excluded(b)) => Bound::Excluded(if a > b { a } else { b }),
        (Bound::Included(a), Bound::Excluded(b)) => if a > b { Bound::Included(a) } else { Bound::Excluded(b) },
        (Bound::Excluded(b), Bound::Included(a)) => if a > b { Bound::Included(a) } else { Bound::Excluded(b) },
        (Bound::Unbounded, other) => other,
        (other, Bound::Unbounded) => other,
    }
}

/// The end bound of the intersection of two ranges with the given end bounds.
pub open spec fn spec_intersect_end(l: Bound, r: Bound) -> Bound {
    match (l, r) {
        (Bound::Included(a), Bound::Included(b)) => Bound::Included(if a < b { a } else { b }),
        (Bound::Excluded(a), Bound::Excluded(b)) => Bound::Excluded(if a < b { a } else { b }),
        (Bound::Included(a), Bound::Excluded(b)) => if a < b { Bound::Included(a) } else { Bound::Excluded(b) },
        (Bound::Excluded(b), Bound::Included(a)) => if a < b { Bound::Included(a) } else { Bound::Excluded(b) },
        (Bound::Unbounded, other) => other,
        (other, Bound::Unbounded) => other,
    }
}

/// Compute the intersection of two ranges.
///
/// A time point lies in the result exactly when it lies in both ranges.
pub fn intersect_bounds(lhs: &(Bound, Bound), rhs: &(Bound, Bound)) -> (r: (Bound, Bound))
    ensures
        r.0 == spec_intersect_start(lhs.0, rhs.0),
        r.1 == spec_intersect_end(lhs.1, rhs.1),
        forall|t: int| range_contains(r, t) <==> range_contains(*lhs, t) && range_contains(*rhs, t),
{
    let start = match (lhs.0, rhs.0) {
        (Bound::Included(l), Bound::Included(r)) => Bound::Included(partial_max(l, r)),
        (Bound::Excluded(l), Bound::Excluded(r)) => Bound::Excluded(partial_max(l, r)),
        (Bound::Included(l), Bound::Excluded(r)) => if l > r {
            Bound::Included(l)
        } else {
            Bound::Excluded(r)
        },
        (Bound::Excluded(r), Bound::Included(l)) => if l > r {
            Bound::Included(l)
        } else {
            Bound::Excluded(r)
        },
        (Bound::Unbounded, other) => other,
        (other, Bound::Unbounded) => other,
    };
    let end = match (lhs.1, rhs.1) {
        (Bound::Included(l), Bound::Included(r)) => Bound::Included(partial_min(l, r)),
        (Bound::Excluded(l), Bound::Excluded(r)) => Bound::Excluded(partial_min(l, r)),
        (Bound::Included(l), Bound::Excluded(r)) => if l < r {
            Bound::Included(l)
        } else {
            Bound::Excluded(r)
        },
        (Bound::Excluded(r), Bound::Included(l)) => if l < r {
            Bound::Included(l)
        } else {
            Bound::Excluded(r)
        },
        (Bound::Unbounded, other) => other,
        (other, Bound::Unbounded) => other,
    };
    (start, end)
}

} // verus!
