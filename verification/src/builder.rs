//! A factory of expressions that keeps the declared type of each variable.
use vstd::prelude::*;

use crate::bound::Bound;
use crate::error::{ArgusResult, Error};
use crate::expr::{
    Add, Always, And, BoolExpr, BoolLit, BoolVar, Cmp, Div, Eventually, FloatLit, FloatVar, IntLit,
    IntVar, Mul, Neg, Next, Not, NumExpr, Or, Oracle, Sub, Type, UIntLit, UIntVar, Until, same_bool,
};
use crate::interval::Interval;
use crate::relation::Relation;

verus! {

/// The declared variables: a hash map from each name to its type.
#[verifier::external_body]
pub struct Declarations {
    map: hashbrown::HashMap<String, Type>,
}

/// The type declared for each name in a table of declarations.
pub uninterp spec fn declared_types(d: Declarations) -> Map<Seq<char>, Type>;

impl Declarations {
    /// An empty table, made by `hashbrown::HashMap::new`, which holds no entry.
    #[verifier::external_body]
    fn new() -> (r: Declarations)
        ensures
            declared_types(r).dom() == Set::<Seq<char>>::empty(),
    {
        Declarations { map: hashbrown::HashMap::new() }
    }

    /// The type of `name` by `hashbrown::HashMap::get`, which finds the entry of an
    /// equal key; `None` where there is none.
    #[verifier::external_body]
    fn get(&self, name: &String) -> (r: Option<Type>)
        ensures
            r == (if declared_types(*self).contains_key(name@) {
                Some(declared_types(*self)[name@])
            } else {
                None::<Type>
            }),
    {
        self.map.get(name).copied()
    }

    /// Declare `name` with type `ty` by `hashbrown::HashMap::insert`, which replaces
    /// the entry of an equal key and returns the value it held, or `None` where there
    /// was none.
    #[verifier::external_body]
    fn insert(&mut self, name: String, ty: Type) -> (r: Option<Type>)
        ensures
            declared_types(*final(self)) == declared_types(*old(self)).insert(name@, ty),
            r == (if declared_types(*old(self)).contains_key(name@) {
                Some(declared_types(*old(self))[name@])
            } else {
                None::<Type>
            }),
    {
        self.map.insert(name, ty)
    }
}

/// The interval of a temporal operator without an interval: from zero on.
pub open spec fn unbounded_interval() -> Interval {
    Interval { start: Bound::Included(0), end: Bound::Unbounded }
}

/// The arguments of a sum, with the arguments of each argument that is itself a sum
/// put in its place.
pub open spec fn flat_add(s: Seq<NumExpr>) -> Seq<NumExpr>
    decreases s.len(),
{
    if s.len() == 0 {
        Seq::empty()
    } else {
        (match s[0] {
            NumExpr::Add(a) => a.args@,
            x => seq![x],
        }) + flat_add(s.drop_first())
    }
}

/// The arguments of a product, with the arguments of each argument that is itself a
/// product put in its place.
pub open spec fn flat_mul(s: Seq<NumExpr>) -> Seq<NumExpr>
    decreases s.len(),
{
    if s.len() == 0 {
        Seq::empty()
    } else {
        (match s[0] {
            NumExpr::Mul(a) => a.args@,
            x => seq![x],
        }) + flat_mul(s.drop_first())
    }
}

/// The arguments of a conjunction, with the arguments of each argument that is itself
/// a conjunction put in its place.
pub open spec fn flat_and(s: Seq<BoolExpr>) -> Seq<BoolExpr>
    decreases s.len(),
{
    if s.len() == 0 {
        Seq::empty()
    } else {
        (match s[0] {
            BoolExpr::And(a) => a.args@,
            x => seq![x],
        }) + flat_and(s.drop_first())
    }
}

/// The arguments of a disjunction, with the arguments of each argument that is itself
/// a disjunction put in its place.
pub open spec fn flat_or(s: Seq<BoolExpr>) -> Seq<BoolExpr>
    decreases s.len(),
{
    if s.len() == 0 {
        Seq::empty()
    } else {
        (match s[0] {
            BoolExpr::Or(a) => a.args@,
            x => seq![x],
        }) + flat_or(s.drop_first())
    }
}

/// `r` is the sum of `args` once flattened, or [`Error::IncompleteArgs`] when fewer
/// than two arguments are left.
pub open spec fn is_add_of(r: ArgusResult<NumExpr>, args: Seq<NumExpr>) -> bool {
    if flat_add(args).len() < 2 {
        r == Err::<NumExpr, Error>(Error::IncompleteArgs)
    } else {
        r matches Ok(NumExpr::Add(a)) && a.args@ == flat_add(args)
    }
}

/// `r` is the product of `args` once flattened, or [`Error::IncompleteArgs`] when
/// fewer than two arguments are left.
pub open spec fn is_mul_of(r: ArgusResult<NumExpr>, args: Seq<NumExpr>) -> bool {
    if flat_mul(args).len() < 2 {
        r == Err::<NumExpr, Error>(Error::IncompleteArgs)
    } else {
        r matches Ok(NumExpr::Mul(a)) && a.args@ == flat_mul(args)
    }
}

/// `r` is the conjunction of `args` once flattened, or [`Error::IncompleteArgs`] when
/// fewer than two arguments are left.
pub open spec fn is_and_of(r: ArgusResult<BoolExpr>, args: Seq<BoolExpr>) -> bool {
    if flat_and(args).len() < 2 {
        r == Err::<BoolExpr, Error>(Error::IncompleteArgs)
    } else {
        r matches Ok(BoolExpr::And(a)) && a.args@ == flat_and(args)
    }
}

/// `r` is the disjunction of `args` once flattened, or [`Error::IncompleteArgs`] when
/// fewer than two arguments are left.
pub open spec fn is_or_of(r: ArgusResult<BoolExpr>, args: Seq<BoolExpr>) -> bool {
    if flat_or(args).len() < 2 {
        r == Err::<BoolExpr, Error>(Error::IncompleteArgs)
    } else {
        r matches Ok(BoolExpr::Or(a)) && a.args@ == flat_or(args)
    }
}

/// `e` is `(lhs & rhs) | (!lhs' & !rhs')`, where the conjunction of `lhs` and `rhs`
/// is flattened, and `lhs'` and `rhs'` are copies of `lhs` and `rhs`.
pub open spec fn is_equiv_shape(e: BoolExpr, lhs: BoolExpr, rhs: BoolExpr) -> bool {
    &&& e matches BoolExpr::Or(o)
    &&& o.args@.len() == 2
    &&& o.args@[0] matches BoolExpr::And(p) && p.args@ == flat_and(seq![lhs, rhs])
    &&& o.args@[1] matches BoolExpr::And(q) && {
        &&& q.args@.len() == 2
        &&& q.args@[0] matches BoolExpr::Not(n) && same_bool(*n.arg, lhs)
        &&& q.args@[1] matches BoolExpr::Not(n) && same_bool(*n.arg, rhs)
    }
}

/// Expression builder: creates expressions and keeps each variable to one type.
pub struct ExprBuilder {
    declarations: Declarations,
}

impl Default for ExprBuilder {
    fn default() -> (r: Self)
        ensures
            r.declarations() == Map::<Seq<char>, Type>::empty(),
    {
        ExprBuilder::new()
    }
}

impl ExprBuilder {
    /// The type declared for each variable name.
    pub closed spec fn declarations(&self) -> Map<Seq<char>, Type> {
        declared_types(self.declarations)
    }

    /// Create a new builder, with no variable declared.
    pub fn new() -> (r: Self)
        ensures
            r.declarations() == Map::<Seq<char>, Type>::empty(),
    {
        let declarations = Declarations::new();
        proof {
            assert(declared_types(declarations) =~= Map::<Seq<char>, Type>::empty());
        }
        ExprBuilder { declarations }
    }

    /// Declare a constant boolean expression.
    pub fn bool_const(&self, value: bool) -> (r: BoolExpr)
        ensures
            r == BoolExpr::BoolLit(BoolLit(value)),
    {
        BoolExpr::BoolLit(BoolLit(value))
    }

    /// Declare a constant signed integer expression.
    pub fn int_const(&self, value: i64) -> (r: NumExpr)
        ensures
            r == NumExpr::IntLit(IntLit(value)),
    {
        NumExpr::IntLit(IntLit(value))
    }

    /// Declare a constant unsigned integer expression.
    pub fn uint_const(&self, value: u64) -> (r: NumExpr)
        ensures
            r == NumExpr::UIntLit(UIntLit(value)),
    {
        NumExpr::UIntLit(UIntLit(value))
    }

    /// Declare a constant floating-point expression, `mantissa * 10^exponent`.
    pub fn float_const(&self, mantissa: u64, exponent: i64) -> (r: NumExpr)
        ensures
            r == NumExpr::FloatLit(FloatLit { mantissa, exponent }),
    {
        NumExpr::FloatLit(FloatLit { mantissa, exponent })
    }

    /// Record `ty` as the type of `name` where it may be declared so: it was not
    /// declared, or was declared with the same type. Otherwise the declarations are
    /// left as they are, and `false` is returned.
    fn declare(&mut self, name: &String, ty: Type) -> (ok: bool)
        ensures
            ok == (!old(self).declarations().contains_key(name@) || old(self).declarations()[name@]
                == ty),
            ok ==> final(self).declarations() == old(self).declarations().insert(name@, ty),
            !ok ==> final(self).declarations() == old(self).declarations(),
    {
        match self.declarations.get(name) {
            Some(prev) => {
                if prev != ty {
                    return false;
                }
            },
            None => {},
        }
        let _ = self.declarations.insert(name.clone(), ty);
        true
    }

    /// Declare a boolean variable.
    ///
    /// A name already declared with another type gives
    /// [`Error::IdentifierRedeclaration`], and the declarations are left as they are.
    pub fn bool_var(&mut self, name: String) -> (r: ArgusResult<BoolExpr>)
        ensures
            (!old(self).declarations().contains_key(name@) || old(self).declarations()[name@]
                == Type::Bool) ==> final(self).declarations() == old(self).declarations().insert(
                name@,
                Type::Bool,
            ),
            (old(self).declarations().contains_key(name@) && old(self).declarations()[name@]
                != Type::Bool) ==> final(self).declarations() == old(self).declarations(),
            (!old(self).declarations().contains_key(name@) || old(self).declarations()[name@]
                == Type::Bool) ==> r == Ok::<BoolExpr, Error>(BoolExpr::BoolVar(BoolVar { name })),
            (old(self).declarations().contains_key(name@) && old(self).declarations()[name@]
                != Type::Bool) ==> r == Err::<BoolExpr, Error>(Error::IdentifierRedeclaration),
    {
        if self.declare(&name, Type::Bool) {
            Ok(BoolExpr::BoolVar(BoolVar { name }))
        } else {
            Err(Error::IdentifierRedeclaration)
        }
    }

    /// Declare a signed integer variable.
    ///
    /// A name already declared with another type gives
    /// [`Error::IdentifierRedeclaration`], and the declarations are left as they are.
    pub fn int_var(&mut self, name: String) -> (r: ArgusResult<NumExpr>)
        ensures
            (!old(self).declarations().contains_key(name@) || old(self).declarations()[name@]
                == Type::Int) ==> final(self).declarations() == old(self).declarations().insert(
                name@,
                Type::Int,
            ),
            (old(self).declarations().contains_key(name@) && old(self).declarations()[name@]
                != Type::Int) ==> final(self).declarations() == old(self).declarations(),
            (!old(self).declarations().contains_key(name@) || old(self).declarations()[name@]
                == Type::Int) ==> r == Ok::<NumExpr, Error>(NumExpr::IntVar(IntVar { name })),
            (old(self).declarations().contains_key(name@) && old(self).declarations()[name@]
                != Type::Int) ==> r == Err::<NumExpr, Error>(Error::IdentifierRedeclaration),
    {
        if self.declare(&name, Type::Int) {
            Ok(NumExpr::IntVar(IntVar { name }))
        } else {
            Err(Error::IdentifierRedeclaration)
        }
    }

    /// Declare an unsigned integer variable.
    ///
    /// A name already declared with another type gives
    /// [`Error::IdentifierRedeclaration`], and the declarations are left as they are.
    pub fn uint_var(&mut self, name: String) -> (r: ArgusResult<NumExpr>)
        ensures
            (!old(self).declarations().contains_key(name@) || old(self).declarations()[name@]
                == Type::UInt) ==> final(self).declarations() == old(self).declarations().insert(
                name@,
                Type::UInt,
            ),
            (old(self).declarations().contains_key(name@) && old(self).declarations()[name@]
                != Type::UInt) ==> final(self).declarations() == old(self).declarations(),
            (!old(self).declarations().contains_key(name@) || old(self).declarations()[name@]
                == Type::UInt) ==> r == Ok::<NumExpr, Error>(NumExpr::UIntVar(UIntVar { name })),
            (old(self).declarations().contains_key(name@) && old(self).declarations()[name@]
                != Type::UInt) ==> r == Err::<NumExpr, Error>(Error::IdentifierRedeclaration),
    {
        if self.declare(&name, Type::UInt) {
            Ok(NumExpr::UIntVar(UIntVar { name }))
        } else {
            Err(Error::IdentifierRedeclaration)
        }
    }

    /// Declare a floating-point variable.
    ///
    /// A name already declared with another type gives
    /// [`Error::IdentifierRedeclaration`], and the declarations are left as they are.
    pub fn float_var(&mut self, name: String) -> (r: ArgusResult<NumExpr>)
        ensures
            (!old(self).declarations().contains_key(name@) || old(self).declarations()[name@]
                == Type::Float) ==> final(self).declarations() == old(self).declarations().insert(
                name@,
                Type::Float,
            ),
            (old(self).declarations().contains_key(name@) && old(self).declarations()[name@]
                != Type::Float) ==> final(self).declarations() == old(self).declarations(),
            (!old(self).declarations().contains_key(name@) || old(self).declarations()[name@]
                == Type::Float) ==> r == Ok::<NumExpr, Error>(NumExpr::FloatVar(FloatVar { name })),
            (old(self).declarations().contains_key(name@) && old(self).declarations()[name@]
                != Type::Float) ==> r == Err::<NumExpr, Error>(Error::IdentifierRedeclaration),
    {
        if self.declare(&name, Type::Float) {
            Ok(NumExpr::FloatVar(FloatVar { name }))
        } else {
            Err(Error::IdentifierRedeclaration)
        }
    }

    /// Create a negation ([`NumExpr::Neg`]).
    pub fn make_neg(&self, arg: Box<NumExpr>) -> (r: NumExpr)
        ensures
            r == NumExpr::Neg(Neg { arg }),
    {
        NumExpr::Neg(Neg { arg })
    }

    /// Create a sum ([`NumExpr::Add`]); arguments that are sums are flattened into it.
    ///
    /// Fewer than two arguments after flattening give [`Error::IncompleteArgs`].
    pub fn make_add(&self, args: Vec<NumExpr>) -> (r: ArgusResult<NumExpr>)
        ensures
            is_add_of(r, args@),
    {
        let ghost orig = args@;
        let mut rest = args;
        let mut new_args: Vec<NumExpr> = Vec::new();
        while rest.len() > 0
            invariant
                flat_add(orig) == new_args@ + flat_add(rest@),
            decreases rest@.len(),
        {
            let ghost before = rest@;
            let arg = rest.remove(0);
            proof {
                assert(rest@ == before.drop_first());
            }
            match arg {
                NumExpr::Add(Add { mut args }) => {
                    new_args.append(&mut args);
                },
                other => {
                    new_args.push(other);
                },
            }
            proof {
                assert(flat_add(orig) =~= new_args@ + flat_add(rest@));
            }
        }
        proof {
            assert(new_args@ =~= flat_add(orig));
        }
        if new_args.len() < 2 {
            Err(Error::IncompleteArgs)
        } else {
            Ok(NumExpr::Add(Add { args: new_args }))
        }
    }

    /// Create a product ([`NumExpr::Mul`]); arguments that are products are flattened
    /// into it.
    ///
    /// Fewer than two arguments after flattening give [`Error::IncompleteArgs`].
    pub fn make_mul(&self, args: Vec<NumExpr>) -> (r: ArgusResult<NumExpr>)
        ensures
            is_mul_of(r, args@),
    {
        let ghost orig = args@;
        let mut rest = args;
        let mut new_args: Vec<NumExpr> = Vec::new();
        while rest.len() > 0
            invariant
                flat_mul(orig) == new_args@ + flat_mul(rest@),
            decreases rest@.len(),
        {
            let ghost before = rest@;
            let arg = rest.remove(0);
            proof {
                assert(rest@ == before.drop_first());
            }
            match arg {
                NumExpr::Mul(Mul { mut args }) => {
                    new_args.append(&mut args);
                },
                other => {
                    new_args.push(other);
                },
            }
            proof {
                assert(flat_mul(orig) =~= new_args@ + flat_mul(rest@));
            }
        }
        proof {
            assert(new_args@ =~= flat_mul(orig));
        }
        if new_args.len() < 2 {
            Err(Error::IncompleteArgs)
        } else {
            Ok(NumExpr::Mul(Mul { args: new_args }))
        }
    }

    /// Create a difference ([`NumExpr::Sub`]).
    pub fn make_sub(&self, lhs: Box<NumExpr>, rhs: Box<NumExpr>) -> (r: NumExpr)
        ensures
            r == NumExpr::Sub(Sub { lhs, rhs }),
    {
        NumExpr::Sub(Sub { lhs, rhs })
    }

    /// Create a quotient ([`NumExpr::Div`]).
    pub fn make_div(&self, dividend: Box<NumExpr>, divisor: Box<NumExpr>) -> (r: NumExpr)
        ensures
            r == NumExpr::Div(Div { dividend, divisor }),
    {
        NumExpr::Div(Div { dividend, divisor })
    }

    /// Create a comparison ([`BoolExpr::Cmp`]).
    pub fn make_cmp(&self, op: Relation, lhs: Box<NumExpr>, rhs: Box<NumExpr>) -> (r: BoolExpr)
        ensures
            r == BoolExpr::Cmp(Cmp { op, lhs, rhs }),
    {
        BoolExpr::Cmp(Cmp { op, lhs, rhs })
    }

    /// Create a "less than" comparison.
    pub fn make_lt(&self, lhs: Box<NumExpr>, rhs: Box<NumExpr>) -> (r: BoolExpr)
        ensures
            r == BoolExpr::Cmp(Cmp { op: Relation::Less { strict: true }, lhs, rhs }),
    {
        self.make_cmp(Relation::Less { strict: true }, lhs, rhs)
    }

    /// Create a "less than or equal" comparison.
    pub fn make_le(&self, lhs: Box<NumExpr>, rhs: Box<NumExpr>) -> (r: BoolExpr)
        ensures
            r == BoolExpr::Cmp(Cmp { op: Relation::Less { strict: false }, lhs, rhs }),
    {
        self.make_cmp(Relation::Less { strict: false }, lhs, rhs)
    }

    /// Create a "greater than" comparison.
    pub fn make_gt(&self, lhs: Box<NumExpr>, rhs: Box<NumExpr>) -> (r: BoolExpr)
        ensures
            r == BoolExpr::Cmp(Cmp { op: Relation::Greater { strict: true }, lhs, rhs }),
    {
        self.make_cmp(Relation::Greater { strict: true }, lhs, rhs)
    }

    /// Create a "greater than or equal" comparison.
    pub fn make_ge(&self, lhs: Box<NumExpr>, rhs: Box<NumExpr>) -> (r: BoolExpr)
        ensures
            r == BoolExpr::Cmp(Cmp { op: Relation::Greater { strict: false }, lhs, rhs }),
    {
        self.make_cmp(Relation::Greater { strict: false }, lhs, rhs)
    }

    /// Create an "equals" comparison.
    pub fn make_eq(&self, lhs: Box<NumExpr>, rhs: Box<NumExpr>) -> (r: BoolExpr)
        ensures
            r == BoolExpr::Cmp(Cmp { op: Relation::Eq, lhs, rhs }),
    {
        self.make_cmp(Relation::Eq, lhs, rhs)
    }

    /// Create a "not equals" comparison.
    pub fn make_neq(&self, lhs: Box<NumExpr>, rhs: Box<NumExpr>) -> (r: BoolExpr)
        ensures
            r == BoolExpr::Cmp(Cmp { op: Relation::NotEq, lhs, rhs }),
    {
        self.make_cmp(Relation::NotEq, lhs, rhs)
    }

    /// Create a negation ([`BoolExpr::Not`]).
    pub fn make_not(&self, arg: Box<BoolExpr>) -> (r: BoolExpr)
        ensures
            r == BoolExpr::Not(Not { arg }),
    {
        BoolExpr::Not(Not { arg })
    }

    /// Create a disjunction ([`BoolExpr::Or`]); arguments that are disjunctions are
    /// flattened into it.
    ///
    /// Fewer than two arguments after flattening give [`Error::IncompleteArgs`].
    pub fn make_or(&self, args: Vec<BoolExpr>) -> (r: ArgusResult<BoolExpr>)
        ensures
            is_or_of(r, args@),
    {
        let ghost orig = args@;
        let mut rest = args;
        let mut new_args: Vec<BoolExpr> = Vec::new();
        while rest.len() > 0
            invariant
                flat_or(orig) == new_args@ + flat_or(rest@),
            decreases rest@.len(),
        {
            let ghost before = rest@;
            let arg = rest.remove(0);
            proof {
                assert(rest@ == before.drop_first());
            }
            match arg {
                BoolExpr::Or(Or { mut args }) => {
                    new_args.append(&mut args);
                },
                other => {
                    new_args.push(other);
                },
            }
            proof {
                assert(flat_or(orig) =~= new_args@ + flat_or(rest@));
            }
        }
        proof {
            assert(new_args@ =~= flat_or(orig));
        }
        if new_args.len() < 2 {
            Err(Error::IncompleteArgs)
        } else {
            Ok(BoolExpr::Or(Or { args: new_args }))
        }
    }

    /// Create a conjunction ([`BoolExpr::And`]); arguments that are conjunctions are
    /// flattened into it.
    ///
    /// Fewer than two arguments after flattening give [`Error::IncompleteArgs`].
    pub fn make_and(&self, args: Vec<BoolExpr>) -> (r: ArgusResult<BoolExpr>)
        ensures
            is_and_of(r, args@),
    {
        let ghost orig = args@;
        let mut rest = args;
        let mut new_args: Vec<BoolExpr> = Vec::new();
        while rest.len() > 0
            invariant
                flat_and(orig) == new_args@ + flat_and(rest@),
            decreases rest@.len(),
        {
            let ghost before = rest@;
            let arg = rest.remove(0);
            proof {
                assert(rest@ == before.drop_first());
            }
            match arg {
                BoolExpr::And(And { mut args }) => {
                    new_args.append(&mut args);
                },
                other => {
                    new_args.push(other);
                },
            }
            proof {
                assert(flat_and(orig) =~= new_args@ + flat_and(rest@));
            }
        }
        proof {
            assert(new_args@ =~= flat_and(orig));
        }
        if new_args.len() < 2 {
            Err(Error::IncompleteArgs)
        } else {
            Ok(BoolExpr::And(And { args: new_args }))
        }
    }

    /// Create an expression equivalent to `lhs -> rhs`, as `!lhs | rhs`.
    pub fn make_implies(&self, lhs: Box<BoolExpr>, rhs: Box<BoolExpr>) -> (r: ArgusResult<BoolExpr>)
        ensures
            is_or_of(r, seq![BoolExpr::Not(Not { arg: lhs }), *rhs]),
    {
        let np = self.make_not(lhs);
        self.make_or(vec![np, *rhs])
    }

    /// Create an expression equivalent to `lhs <-> rhs`, as
    /// `(lhs & rhs) | (!lhs & !rhs)`.
    ///
    /// Fails with [`Error::IncompleteArgs`] where the conjunction of `lhs` and `rhs`
    /// has fewer than two arguments once flattened.
    pub fn make_equiv(&self, lhs: Box<BoolExpr>, rhs: Box<BoolExpr>) -> (r: ArgusResult<BoolExpr>)
        ensures
            flat_and(seq![*lhs, *rhs]).len() < 2 ==> r == Err::<BoolExpr, Error>(
                Error::IncompleteArgs,
            ),
            flat_and(seq![*lhs, *rhs]).len() >= 2 ==> (r matches Ok(e) && is_equiv_shape(e, *lhs, *rhs)),
    {
        let np = self.make_not(Box::new(lhs.deep_copy()));
        let nq = self.make_not(Box::new(rhs.deep_copy()));
        proof {
            assert(flat_and(seq![np, nq]) =~= seq![np, nq]) by {
                reveal_with_fuel(flat_and, 3);
                assert(seq![np, nq].drop_first() =~= seq![nq]);
                assert(seq![nq].drop_first() =~= Seq::<BoolExpr>::empty());
            }
        }
        let npnq = match self.make_and(vec![np, nq]) {
            Ok(e) => e,
            Err(e) => {
                return Err(e);
            },
        };
        let pq = match self.make_and(vec![*lhs, *rhs]) {
            Ok(e) => e,
            Err(e) => {
                return Err(e);
            },
        };
        proof {
            assert(flat_or(seq![pq, npnq]) =~= seq![pq, npnq]) by {
                reveal_with_fuel(flat_or, 3);
                assert(seq![pq, npnq].drop_first() =~= seq![npnq]);
                assert(seq![npnq].drop_first() =~= Seq::<BoolExpr>::empty());
            }
        }
        self.make_or(vec![pq, npnq])
    }

    /// Create an expression equivalent to `lhs ^ rhs`, as `!(lhs <-> rhs)` (see
    /// [`ExprBuilder::make_equiv`]).
    pub fn make_xor(&self, lhs: Box<BoolExpr>, rhs: Box<BoolExpr>) -> (r: ArgusResult<BoolExpr>)
        ensures
            flat_and(seq![*lhs, *rhs]).len() < 2 ==> r == Err::<BoolExpr, Error>(
                Error::IncompleteArgs,
            ),
            flat_and(seq![*lhs, *rhs]).len() >= 2 ==> (r matches Ok(BoolExpr::Not(n))
                && is_equiv_shape(*n.arg, *lhs, *rhs)),
    {
        let e = self.make_equiv(lhs, rhs)?;
        Ok(self.make_not(Box::new(e)))
    }

    /// Create a "next" expression ([`BoolExpr::Next`]).
    pub fn make_next(&self, arg: Box<BoolExpr>) -> (r: BoolExpr)
        ensures
            r == BoolExpr::Next(Next { arg }),
    {
        BoolExpr::Next(Next { arg })
    }

    /// Create an "oracle" expression ([`BoolExpr::Oracle`]); one step is a "next".
    pub fn make_oracle(&self, steps: usize, arg: Box<BoolExpr>) -> (r: BoolExpr)
        ensures
            steps == 1 ==> r == BoolExpr::Next(Next { arg }),
            steps != 1 ==> r == BoolExpr::Oracle(Oracle { steps, arg }),
    {
        if steps == 1 {
            self.make_next(arg)
        } else {
            BoolExpr::Oracle(Oracle { steps, arg })
        }
    }

    /// Create an "always" expression ([`BoolExpr::Always`]) over all time.
    pub fn make_always(&self, arg: Box<BoolExpr>) -> (r: BoolExpr)
        ensures
            r == BoolExpr::Always(Always { arg, interval: unbounded_interval() }),
    {
        BoolExpr::Always(Always { arg, interval: Interval::new(Bound::Unbounded, Bound::Unbounded) })
    }

    /// Create an "always" expression ([`BoolExpr::Always`]) over an interval.
    pub fn make_timed_always(&self, interval: Interval, arg: Box<BoolExpr>) -> (r: BoolExpr)
        ensures
            r == BoolExpr::Always(Always { arg, interval }),
    {
        BoolExpr::Always(Always { arg, interval })
    }

    /// Create an "eventually" expression ([`BoolExpr::Eventually`]) over all time.
    pub fn make_eventually(&self, arg: Box<BoolExpr>) -> (r: BoolExpr)
        ensures
            r == BoolExpr::Eventually(Eventually { arg, interval: unbounded_interval() }),
    {
        BoolExpr::Eventually(
            Eventually { arg, interval: Interval::new(Bound::Unbounded, Bound::Unbounded) },
        )
    }

    /// Create an "eventually" expression ([`BoolExpr::Eventually`]) over an interval.
    pub fn make_timed_eventually(&self, interval: Interval, arg: Box<BoolExpr>) -> (r: BoolExpr)
        ensures
            r == BoolExpr::Eventually(Eventually { arg, interval }),
    {
        BoolExpr::Eventually(Eventually { arg, interval })
    }

    /// Create an "until" expression ([`BoolExpr::Until`]) over all time.
    pub fn make_until(&self, lhs: Box<BoolExpr>, rhs: Box<BoolExpr>) -> (r: BoolExpr)
        ensures
            r == BoolExpr::Until(Until { lhs, rhs, interval: unbounded_interval() }),
    {
        BoolExpr::Until(
            Until { lhs, rhs, interval: Interval::new(Bound::Unbounded, Bound::Unbounded) },
        )
    }

    /// Create an "until" expression ([`BoolExpr::Until`]) over an interval.
    pub fn make_timed_until(&self, interval: Interval, lhs: Box<BoolExpr>, rhs: Box<BoolExpr>) -> (r:
        BoolExpr)
        ensures
            r == BoolExpr::Until(Until { lhs, rhs, interval }),
    {
        BoolExpr::Until(Until { lhs, rhs, interval })
    }
}

} // verus!
