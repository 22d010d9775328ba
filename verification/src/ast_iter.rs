//! Breadth-first traversal of an expression tree.
use std::collections::VecDeque;

use vstd::prelude::*;

use crate::expr::{AnyExpr, BoolExpr, ExprRef, NumExpr};

verus! {

/// The direct sub-expressions of the expression that `e` refers to.
pub open spec fn ref_args<'a>(e: ExprRef<'a>) -> Seq<ExprRef<'a>> {
    match e {
        ExprRef::Bool(b) => b.spec_args(),
        ExprRef::Num(n) => n.spec_args(),
    }
}

/// The direct sub-expressions of the expression that `e` refers to.
fn args_of<'a>(e: ExprRef<'a>) -> (r: Vec<ExprRef<'a>>)
    ensures
        r@ == ref_args(e),
{
    match e {
        ExprRef::Bool(b) => b.args(),
        ExprRef::Num(n) => n.args(),
    }
}

/// A walk that starts from some root expression and travels down to its leaves,
/// breadth first: each expression is visited before its arguments, and the
/// arguments of an expression in their order.
pub struct AstIter<'a> {
    queue: VecDeque<ExprRef<'a>>,
}

impl<'a> AstIter<'a> {
    /// The expressions still to be visited, in the order of their visit; those reached
    /// through them come after them.
    pub closed spec fn pending(&self) -> Seq<ExprRef<'a>> {
        self.queue@
    }

    /// A walk from `root` down to its leaves.
    pub fn new(root: ExprRef<'a>) -> (r: Self)
        ensures
            r.pending() == seq![root],
    {
        let mut queue: VecDeque<ExprRef<'a>> = VecDeque::new();
        queue.push_back(root);
        AstIter { queue }
    }

    /// Visit the next expression: it is handed out, and its arguments are queued
    /// behind the expressions already pending. `None` once nothing is pending.
    pub fn next(&mut self) -> (r: Option<ExprRef<'a>>)
        ensures
            old(self).pending().len() == 0 ==> r == None::<ExprRef<'a>>,
            old(self).pending().len() == 0 ==> final(self).pending() == old(self).pending(),
            old(self).pending().len() > 0 ==> r == Some(old(self).pending()[0]),
            old(self).pending().len() > 0 ==> final(self).pending() == old(self).pending().drop_first()
                + ref_args(old(self).pending()[0]),
    {
        match self.queue.pop_front() {
            None => None,
            Some(e) => {
                let args = args_of(e);
                let mut i: usize = 0;
                let ghost start = self.queue@;
                while i < args.len()
                    invariant
                        i <= args@.len(),
                        self.queue@ == start + args@.take(i as int),
                    decreases args@.len() - i,
                {
                    self.queue.push_back(args[i]);
                    proof {
                        assert(args@.take(i + 1) == args@.take(i as int).push(args@[i as int]));
                    }
                    i = i + 1;
                }
                proof {
                    assert(args@.take(args@.len() as int) == args@);
                }
                Some(e)
            },
        }
    }
}

impl NumExpr {
    /// A breadth-first walk of the expression tree rooted here.
    pub fn iter(&self) -> (r: AstIter<'_>)
        ensures
            r.pending() == seq![ExprRef::Num(self)],
    {
        AstIter::new(ExprRef::Num(self))
    }
}

impl BoolExpr {
    /// A breadth-first walk of the expression tree rooted here.
    pub fn iter(&self) -> (r: AstIter<'_>)
        ensures
            r.pending() == seq![ExprRef::Bool(self)],
    {
        AstIter::new(ExprRef::Bool(self))
    }
}

} // verus!
