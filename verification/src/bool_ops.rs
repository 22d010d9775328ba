//! The operators `&` and `|` on boolean expressions.
use vstd::prelude::*;
use vstd::std_specs::ops::{BitAndSpecImpl, BitOrSpecImpl};

use crate::expr::BoolExpr;

verus! {

/// The arguments of the conjunction `lhs & rhs`: the arguments of a conjunction are
/// taken in place of it, and an operand that is no conjunction is appended to the
/// arguments of the other side.
pub open spec fn conj_args(lhs: BoolExpr, rhs: BoolExpr) -> Seq<BoolExpr> {
    match (lhs, rhs) {
        (BoolExpr::And(l), BoolExpr::And(r)) => l.args@ + r.args@,
        (BoolExpr::And(l), o) => l.args@.push(o),
        (o, BoolExpr::And(r)) => r.args@.push(o),
        (l, r) => seq![l, r],
    }
}

/// The arguments of the disjunction `lhs | rhs`, flattened as for [`conj_args`].
pub open spec fn disj_args(lhs: BoolExpr, rhs: BoolExpr) -> Seq<BoolExpr> {
    match (lhs, rhs) {
        (BoolExpr::Or(l), BoolExpr::Or(r)) => l.args@ + r.args@,
        (BoolExpr::Or(l), o) => l.args@.push(o),
        (o, BoolExpr::Or(r)) => r.args@.push(o),
        (l, r) => seq![l, r],
    }
}

/// `r` is the conjunction `lhs & rhs`.
pub open spec fn is_conj_of(r: BoolExpr, lhs: BoolExpr, rhs: BoolExpr) -> bool {
    r matches BoolExpr::And(a) && a.args@ == conj_args(lhs, rhs)
}

/// `r` is the disjunction `lhs | rhs`.
pub open spec fn is_disj_of(r: BoolExpr, lhs: BoolExpr, rhs: BoolExpr) -> bool {
    r matches BoolExpr::Or(a) && a.args@ == disj_args(lhs, rhs)
}

impl std::ops::BitAnd for BoolExpr {
    type Output = BoolExpr;

    fn bitand(self, rhs: BoolExpr) -> (r: BoolExpr)
        ensures
            is_conj_of(r, self, rhs),
    {
        match (self, rhs) {
            (BoolExpr::And(crate::expr::And { args: mut left }), BoolExpr::And(crate::expr::And { args: mut right })) => {
                left.append(&mut right);
                BoolExpr::And(crate::expr::And { args: left })
            },
            (BoolExpr::And(crate::expr::And { mut args }), other) => {
                args.push(other);
                BoolExpr::And(crate::expr::And { args })
            },
            (other, BoolExpr::And(crate::expr::And { mut args })) => {
                args.push(other);
                BoolExpr::And(crate::expr::And { args })
            },
            (left, right) => BoolExpr::And(crate::expr::And { args: vec![left, right] }),
        }
    }
}

impl BitAndSpecImpl for BoolExpr {
    /// The `ensures` of [`BoolExpr::bitand`] gives the result by the view of its list
    /// of arguments, which does not single out one vector, so no one value is claimed.
    open spec fn obeys_bitand_spec() -> bool {
        false
    }

    open spec fn bitand_req(self, rhs: BoolExpr) -> bool {
        true
    }

    /// A conjunction of the flattened arguments.
    open spec fn bitand_spec(self, rhs: BoolExpr) -> BoolExpr {
        choose|r: BoolExpr| #[trigger] is_conj_of(r, self, rhs)
    }
}

impl std::ops::BitOr for BoolExpr {
    type Output = BoolExpr;

    fn bitor(self, rhs: BoolExpr) -> (r: BoolExpr)
        ensures
            is_disj_of(r, self, rhs),
    {
        match (self, rhs) {
            (BoolExpr::Or(crate::expr::Or { args: mut left }), BoolExpr::Or(crate::expr::Or { args: mut right })) => {
                left.append(&mut right);
                BoolExpr::Or(crate::expr::Or { args: left })
            },
            (BoolExpr::Or(crate::expr::Or { mut args }), other) => {
                args.push(other);
                BoolExpr::Or(crate::expr::Or { args })
            },
            (other, BoolExpr::Or(crate::expr::Or { mut args })) => {
                args.push(other);
                BoolExpr::Or(crate::expr::Or { args })
            },
            (left, right) => BoolExpr::Or(crate::expr::Or { args: vec![left, right] }),
        }
    }
}

impl BitOrSpecImpl for BoolExpr {
    /// The `ensures` of [`BoolExpr::bitor`] gives the result by the view of its list
    /// of arguments, which does not single out one vector, so no one value is claimed.
    open spec fn obeys_bitor_spec() -> bool {
        false
    }

    open spec fn bitor_req(self, rhs: BoolExpr) -> bool {
        true
    }

    /// A disjunction of the flattened arguments.
    open spec fn bitor_spec(self, rhs: BoolExpr) -> BoolExpr {
        choose|r: BoolExpr| #[trigger] is_disj_of(r, self, rhs)
    }
}

} // verus!
