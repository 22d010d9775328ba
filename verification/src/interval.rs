//! Time intervals of temporal operators.
use vstd::prelude::*;

use crate::bound::Bound;

verus! {

/// A time interval for a temporal expression.
#[derive(Clone, Copy, Debug, PartialEq, Eq)]
pub struct Interval {
    /// Start of the interval
    pub start: Bound,
    /// End of the interval
    pub end: Bound,
}

impl Interval {
    /// The shape that [`Interval::new`] produces: an included start and an end that is
    /// included or unbounded (or both ends unbounded).
    pub open spec fn is_normal(self) -> bool {
        ||| (self.start is Included && !(self.end is Excluded))
        ||| (self.start is Unbounded && self.end is Unbounded)
    }

    /// Create a new interval.
    ///
    /// Excluded bounds are turned into included ones, and an unbounded start becomes
    /// an included start at time zero.
    pub fn new(start: Bound, end: Bound) -> (r: Self)
        ensures
            r.start == (match start {
                Bound::Included(a) => Bound::Included(a),
                Bound::Excluded(a) => Bound::Included(a),
                Bound::Unbounded => Bound::Included(0),
            }),
            r.end == (match end {
                Bound::Excluded(b) => Bound::Included(b),
                other => other,
            }),
            r.is_normal(),
    {
        let start = match start {
            Bound::Included(a) => Bound::Included(a),
            Bound::Excluded(a) => Bound::Included(a),
            Bound::Unbounded => Bound::Included(0),
        };
        let end = match end {
            Bound::Excluded(b) => Bound::Included(b),
            other => other,
        };
        Interval { start, end }
    }

    /// No time point lies in the interval.
    pub open spec fn spec_is_empty(self) -> bool {
        match (self.start, self.end) {
            (Bound::Included(a), Bound::Included(b)) => a > b,
            (Bound::Included(a), Bound::Excluded(b)) => a >= b,
            (Bound::Excluded(a), Bound::Included(b)) => a >= b,
            (Bound::Excluded(a), Bound::Excluded(b)) => a >= b,
            (Bound::Unbounded, Bound::Excluded(b)) => b == 0,
            _ => false,
        }
    }

    /// Check if the interval is empty
    pub fn is_empty(&self) -> (r: bool)
        ensures
            r == self.spec_is_empty(),
    {
        match (self.start, self.end) {
            (Bound::Included(a), Bound::Included(b)) => a > b,
            (Bound::Included(a), Bound::Excluded(b)) => a >= b,
            (Bound::Excluded(a), Bound::Included(b)) => a >= b,
            (Bound::Excluded(a), Bound::Excluded(b)) => a >= b,
            (Bound::Unbounded, Bound::Excluded(b)) => b == 0,
            _ => false,
        }
    }

    /// Exactly one time point lies in the interval.
    pub open spec fn spec_is_singleton(self) -> bool {
        match (self.start, self.end) {
            (Bound::Included(a), Bound::Included(b)) => a == b,
            (Bound::Unbounded, Bound::Included(b)) => b == 0,
            _ => false,
        }
    }

    /// Check if the interval is a singleton, i.e., only one time point lies in it.
    pub fn is_singleton(&self) -> (r: bool)
        ensures
            r == self.spec_is_singleton(),
    {
        match (self.start, self.end) {
            (Bound::Included(a), Bound::Included(b)) => a == b,
            (Bound::Unbounded, Bound::Included(b)) => b == 0,
            _ => false,
        }
    }

    /// The interval covers `[0, ..)`.
    pub open spec fn spec_is_untimed(self) -> bool {
        match (self.start, self.end) {
            (Bound::Unbounded, Bound::Unbounded) => true,
            (Bound::Included(a), Bound::Unbounded) => a == 0,
            _ => false,
        }
    }

    /// Check if the interval covers `[0, ..)`.
    ///
    /// The interval must be in the shape that [`Interval::new`] produces.
    pub fn is_untimed(&self) -> (r: bool)
        requires
            self.is_normal(),
        ensures
            r == self.spec_is_untimed(),
    {
        match (self.start, self.end) {
            (Bound::Unbounded, Bound::Unbounded) => true,
            (Bound::Included(a), Bound::Unbounded) => a == 0,
            _ => false,
        }
    }
}

} // verus!
