//! Comparison operators.
use vstd::prelude::*;

verus! {

/// Types of comparison operations.
#[derive(Clone, Copy, Debug, PartialEq, Eq)]
pub enum Relation {
    /// Equality check for two expressions
    Eq,
    /// Non-equality check for two expressions
    NotEq,
    /// Less than check
    Less {
        /// Denotes `lhs < rhs` if `strict`, and `lhs <= rhs` otherwise.
        strict: bool,
    },
    /// Greater than check
    Greater {
        /// Denotes `lhs > rhs` if `strict`, and `lhs >= rhs` otherwise.
        strict: bool,
    },
}

impl Relation {
    /// The relation holds between two values of the given ranks.
    pub open spec fn holds(self, a: int, b: int) -> bool {
        match self {
            Relation::Eq => a == b,
            Relation::NotEq => a != b,
            Relation::Less { strict } => if strict { a < b } else { a <= b },
            Relation::Greater { strict } => if strict { a > b } else { a >= b },
        }
    }

    /// Decide whether the relation holds between two values `a` and `b` of ranks, given
    /// whether `a < b` and whether `b < a`.
    pub fn decide(&self, lt: bool, gt: bool) -> (r: bool)
        requires
            !(lt && gt),
        ensures
            forall|a: int, b: int| (lt == (a < b) && gt == (a > b)) ==> r == self.holds(a, b),
    {
        match self {
            Relation::Eq => !lt && !gt,
            Relation::NotEq => lt || gt,
            Relation::Less { strict } => if *strict {
                lt
            } else {
                !gt
            },
            Relation::Greater { strict } => if *strict {
                gt
            } else {
                !lt
            },
        }
    }

    /// The equality check `==`.
    pub fn equal() -> (r: Self)
        ensures
            r == Relation::Eq,
    {
        Relation::Eq
    }

    /// The non-equality check `!=`.
    pub fn not_equal() -> (r: Self)
        ensures
            r == Relation::NotEq,
    {
        Relation::NotEq
    }

    /// The check `<`.
    pub fn less_than() -> (r: Self)
        ensures
            r == (Relation::Less { strict: true }),
    {
        Relation::Less { strict: true }
    }

    /// The check `<=`.
    pub fn less_than_eq() -> (r: Self)
        ensures
            r == (Relation::Less { strict: false }),
    {
        Relation::Less { strict: false }
    }

    /// The check `>`.
    pub fn greater_than() -> (r: Self)
        ensures
            r == (Relation::Greater { strict: true }),
    {
        Relation::Greater { strict: true }
    }

    /// The check `>=`.
    pub fn greater_than_eq() -> (r: Self)
        ensures
            r == (Relation::Greater { strict: false }),
    {
        Relation::Greater { strict: false }
    }
}

} // verus!
