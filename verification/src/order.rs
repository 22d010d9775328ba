//! Totally ordered signal values.
use vstd::prelude::*;

verus! {

/// Values that are totally ordered by an integer rank.
///
/// Two values with the same rank are the same value.
pub trait Ranked: Copy {
    /// The position of the value in the order.
    spec fn rank(self) -> int;

    /// Values with equal rank are equal.
    proof fn lemma_rank_injective(a: Self, b: Self)
        requires
            a.rank() == b.rank(),
        ensures
            a == b,
    ;

    /// Compare two values.
    fn less_than(&self, other: &Self) -> (r: bool)
        ensures
            r == (self.rank() < other.rank()),
    ;
}

impl Ranked for bool {
    open spec fn rank(self) -> int {
        if self { 1 } else { 0 }
    }

    proof fn lemma_rank_injective(a: Self, b: Self) {
    }

    fn less_than(&self, other: &Self) -> (r: bool) {
        !*self && *other
    }
}

impl Ranked for i64 {
    open spec fn rank(self) -> int {
        self as int
    }

    proof fn lemma_rank_injective(a: Self, b: Self) {
    }

    fn less_than(&self, other: &Self) -> (r: bool) {
        *self < *other
    }
}

impl Ranked for u64 {
    open spec fn rank(self) -> int {
        self as int
    }

    proof fn lemma_rank_injective(a: Self, b: Self) {
    }

    fn less_than(&self, other: &Self) -> (r: bool) {
        *self < *other
    }
}

impl Ranked for i32 {
    open spec fn rank(self) -> int {
        self as int
    }

    proof fn lemma_rank_injective(a: Self, b: Self) {
    }

    fn less_than(&self, other: &Self) -> (r: bool) {
        *self < *other
    }
}

impl Ranked for u32 {
    open spec fn rank(self) -> int {
        self as int
    }

    proof fn lemma_rank_injective(a: Self, b: Self) {
    }

    fn less_than(&self, other: &Self) -> (r: bool) {
        *self < *other
    }
}

/// `a` is at least as large as `b` (when `max`), or at most as large (otherwise).
pub open spec fn at_least_rank<T: Ranked>(max: bool, a: T, b: T) -> bool {
    if max { a.rank() >= b.rank() } else { a.rank() <= b.rank() }
}

/// The smaller of two values (the second when they are equal).
pub open spec fn spec_min<T: Ranked>(a: T, b: T) -> T {
    if a.rank() < b.rank() { a } else { b }
}

/// The larger of two values (the second when they are equal).
pub open spec fn spec_max<T: Ranked>(a: T, b: T) -> T {
    if a.rank() > b.rank() { a } else { b }
}

/// The smaller of two values (the second when they are equal).
pub fn value_min<T: Ranked>(a: T, b: T) -> (r: T)
    ensures
        r == spec_min(a, b),
{
    if a.less_than(&b) {
        a
    } else {
        b
    }
}

/// The larger of two values (the second when they are equal).
pub fn value_max<T: Ranked>(a: T, b: T) -> (r: T)
    ensures
        r == spec_max(a, b),
{
    if b.less_than(&a) {
        a
    } else {
        b
    }
}

} // verus!
