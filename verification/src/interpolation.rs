//! Interpolation methods.
use vstd::prelude::*;

use crate::signal::Sample;

verus! {

/// The neighborhood around a time point: the samples of a signal just before and
/// just after it (`None` where the time point lies outside the signal's domain).
#[derive(Clone, Copy, Debug)]
pub struct Neighborhood<T> {
    /// The sample before.
    pub first: Option<Sample<T>>,
    /// The sample after.
    pub second: Option<Sample<T>>,
}

/// Trait implemented by interpolation strategies.
pub trait InterpolationMethod<T> {
    /// The value interpolated at `time` between the samples `a` and `b`.
    spec fn spec_at(a: Sample<T>, b: Sample<T>, time: u64) -> Option<T>;

    /// Between two samples, strictly inside them, every method gives a value.
    proof fn lemma_at_inside(a: Sample<T>, b: Sample<T>, time: u64)
        requires
            a.time < time < b.time,
        ensures
            Self::spec_at(a, b, time) is Some,
    ;

    /// Compute the interpolation of two samples at `time`.
    ///
    /// Returns `None` if it isn't possible to interpolate at the given time using the
    /// given samples.
    fn at(a: &Sample<T>, b: &Sample<T>, time: u64) -> (r: Option<T>)
        ensures
            r == Self::spec_at(*a, *b, time),
    ;

    /// The value at `time`, which lies outside the samples, from the sample `s` at the
    /// nearer end of them (the first sample before them, the last after them).
    spec fn spec_beyond(s: Sample<T>, time: u64) -> Option<T>;

    /// Compute the value at `time`, outside the samples, from the sample `s` at their
    /// nearer end; `None` where the method gives none there.
    fn beyond(s: &Sample<T>, time: u64) -> (r: Option<T>)
        ensures
            r == Self::spec_beyond(*s, time),
    ;

    /// The point where the two segments intersect.
    spec fn spec_find_intersection(a: Neighborhood<T>, b: Neighborhood<T>) -> Option<Sample<T>>;

    /// Given two signals with two sample points each, find the intersection of the
    /// two segments.
    fn find_intersection(a: &Neighborhood<T>, b: &Neighborhood<T>) -> (r: Option<Sample<T>>)
        requires
            a.first is Some,
            a.second is Some,
            b.first is Some,
            b.second is Some,
        ensures
            r == Self::spec_find_intersection(*a, *b),
    ;
}

} // verus!

verus! {

/// Constant interpolation.
///
/// Here, the previous signal value is propagated to the requested time point.
pub struct Constant;

impl<T: Copy> InterpolationMethod<T> for Constant {
    open spec fn spec_at(a: Sample<T>, b: Sample<T>, time: u64) -> Option<T> {
        if time == b.time {
            Some(b.value)
        } else if a.time <= time && time < b.time {
            Some(a.value)
        } else {
            None
        }
    }

    proof fn lemma_at_inside(a: Sample<T>, b: Sample<T>, time: u64) {
    }

    fn at(a: &Sample<T>, b: &Sample<T>, time: u64) -> (r: Option<T>) {
        if time == b.time {
            Some(b.value)
        } else if a.time <= time && time < b.time {
            Some(a.value)
        } else {
            None
        }
    }

    open spec fn spec_beyond(s: Sample<T>, time: u64) -> Option<T> {
        None
    }

    fn beyond(s: &Sample<T>, time: u64) -> (r: Option<T>) {
        // There is no earlier sample to hold before the first one, and the signal ends
        // with its last one.
        None
    }

    open spec fn spec_find_intersection(a: Neighborhood<T>, b: Neighborhood<T>) -> Option<Sample<T>> {
        None
    }

    fn find_intersection(a: &Neighborhood<T>, b: &Neighborhood<T>) -> (r: Option<Sample<T>>) {
        // Piecewise constant segments are either parallel or coincide.
        None
    }
}

/// Nearest interpolation.
///
/// Here, the signal value from the nearest sample (time-wise) is propagated to the
/// requested time point; at equal distance the later sample wins. Before the first
/// sample and after the last, the nearest is that end sample.
pub struct Nearest;

impl<T: Copy> InterpolationMethod<T> for Nearest {
    open spec fn spec_at(a: Sample<T>, b: Sample<T>, time: u64) -> Option<T> {
        if time < a.time || time > b.time {
            None
        } else if b.time - time > time - a.time {
            Some(a.value)
        } else {
            Some(b.value)
        }
    }

    proof fn lemma_at_inside(a: Sample<T>, b: Sample<T>, time: u64) {
    }

    fn at(a: &Sample<T>, b: &Sample<T>, time: u64) -> (r: Option<T>) {
        if time < a.time || time > b.time {
            // `time` is outside the segment.
            None
        } else if (b.time - time) > (time - a.time) {
            // a is closer to the required time than b
            Some(a.value)
        } else {
            // b is closer
            Some(b.value)
        }
    }

    open spec fn spec_beyond(s: Sample<T>, time: u64) -> Option<T> {
        Some(s.value)
    }

    fn beyond(s: &Sample<T>, time: u64) -> (r: Option<T>) {
        // The end sample is the nearest one.
        Some(s.value)
    }

    open spec fn spec_find_intersection(a: Neighborhood<T>, b: Neighborhood<T>) -> Option<Sample<T>> {
        None
    }

    fn find_intersection(a: &Neighborhood<T>, b: &Neighborhood<T>) -> (r: Option<Sample<T>>) {
        // As for constant interpolation, the segments are parallel or coincide.
        None
    }
}

/// Linear interpolation.
///
/// Boolean values cannot be interpolated linearly: strictly between two samples the
/// earlier value holds.
pub struct Linear;

/// The crossing point of two boolean segments `a` and `b`.
pub open spec fn spec_bool_crossing(
    a1: Sample<bool>,
    a2: Sample<bool>,
    b1: Sample<bool>,
    b2: Sample<bool>,
) -> Option<Sample<bool>> {
    if a1.value == b1.value {
        // They already meet, at the inner of the two start points.
        if a1.time < b1.time { Some(b1) } else { Some(a1) }
    } else if a2.value == b2.value {
        // They meet at the end, at the outer of the two end points.
        if a2.time < b2.time { Some(b2) } else { Some(a2) }
    } else if a1.value != a2.value {
        // The values swapped; the one that switched earlier meets the other.
        if a2.time < b2.time { Some(a2) } else { Some(b2) }
    } else {
        // The segments are parallel.
        None
    }
}

impl InterpolationMethod<bool> for Linear {
    open spec fn spec_at(a: Sample<bool>, b: Sample<bool>, time: u64) -> Option<bool> {
        if a.time < time && time < b.time {
            Some(a.value)
        } else {
            None
        }
    }

    proof fn lemma_at_inside(a: Sample<bool>, b: Sample<bool>, time: u64) {
    }

    fn at(a: &Sample<bool>, b: &Sample<bool>, time: u64) -> (r: Option<bool>) {
        if a.time < time && time < b.time {
            // A boolean cannot be interpolated linearly, so the previous value holds.
            Some(a.value)
        } else {
            None
        }
    }

    open spec fn spec_beyond(s: Sample<bool>, time: u64) -> Option<bool> {
        None
    }

    fn beyond(s: &Sample<bool>, time: u64) -> (r: Option<bool>) {
        // A line needs two samples.
        None
    }

    open spec fn spec_find_intersection(a: Neighborhood<bool>, b: Neighborhood<bool>) -> Option<
        Sample<bool>,
    > {
        spec_bool_crossing(a.first.unwrap(), a.second.unwrap(), b.first.unwrap(), b.second.unwrap())
    }

    fn find_intersection(a: &Neighborhood<bool>, b: &Neighborhood<bool>) -> (r: Option<Sample<bool>>) {
        let a1 = a.first.unwrap();
        let a2 = a.second.unwrap();
        let b1 = b.first.unwrap();
        let b2 = b.second.unwrap();
        if a1.value == b1.value {
            if a1.time < b1.time {
                Some(b1)
            } else {
                Some(a1)
            }
        } else if a2.value == b2.value {
            if a2.time < b2.time {
                Some(b2)
            } else {
                Some(a2)
            }
        } else if a1.value != a2.value {
            // The values differ at both ends and swapped.
            if a2.time < b2.time {
                Some(a2)
            } else {
                Some(b2)
            }
        } else {
            // The segments are parallel.
            None
        }
    }
}

} // verus!
