//! Expression trees of signal temporal logic specifications.
use vstd::prelude::*;

use crate::interval::Interval;
use crate::relation::Relation;

verus! {

/// The type of a value or of an expression.
#[derive(Clone, Copy, Debug, PartialEq, Eq, Structural)]
pub enum Type {
    /// A type that is not known yet.
    Unknown,
    /// Boolean values.
    Bool,
    /// Unsigned integers.
    UInt,
    /// Signed integers.
    Int,
    /// Floating-point numbers.
    Float,
}

impl Default for Type {
    fn default() -> (r: Self)
        ensures
            r == Type::Unknown,
    {
        Type::Unknown
    }
}

/// The lowest common type of two types: an unknown type gives way to the other, a
/// boolean type gives way to the other, two distinct numeric types meet at the
/// floating-point type, and a type meets itself.
pub open spec fn spec_common_cast(a: Type, b: Type) -> Type {
    match (a, b) {
        (Type::Unknown, other) => other,
        (other, Type::Unknown) => other,
        (Type::Bool, other) => other,
        (other, Type::Bool) => other,
        (x, y) => if x == y { x } else { Type::Float },
    }
}

impl Type {
    /// Get the lowest common supertype of the two types.
    pub fn get_common_cast(self, other: Self) -> (r: Self)
        ensures
            r == spec_common_cast(self, other),
    {
        match (self, other) {
            (Type::Unknown, other) => other,
            (other, Type::Unknown) => other,
            (Type::Bool, ty) => ty,
            (ty, Type::Bool) => ty,
            (Type::UInt, Type::Int) => Type::Float,
            (Type::UInt, Type::Float) => Type::Float,
            (Type::Int, Type::UInt) => Type::Float,
            (Type::Int, Type::Float) => Type::Float,
            (Type::Float, Type::UInt) => Type::Float,
            (Type::Float, Type::Int) => Type::Float,
            (lhs, _) => lhs,
        }
    }
}

/// A boolean literal.
#[derive(Clone, Debug, PartialEq)]
pub struct BoolLit(pub bool);

/// A boolean variable.
#[derive(Clone, Debug, PartialEq)]
pub struct BoolVar {
    /// The name of the variable.
    pub name: String,
}

/// A comparison of two numeric expressions.
#[derive(Debug, PartialEq)]
pub struct Cmp {
    /// The comparison.
    pub op: Relation,
    /// The left-hand side.
    pub lhs: Box<NumExpr>,
    /// The right-hand side.
    pub rhs: Box<NumExpr>,
}

/// Logical negation.
#[derive(Debug, PartialEq)]
pub struct Not {
    /// The negated expression.
    pub arg: Box<BoolExpr>,
}

/// Logical conjunction of a list of expressions.
#[derive(Debug, PartialEq)]
pub struct And {
    /// The conjuncts.
    pub args: Vec<BoolExpr>,
}

/// Logical disjunction of a list of expressions.
#[derive(Debug, PartialEq)]
pub struct Or {
    /// The disjuncts.
    pub args: Vec<BoolExpr>,
}

/// The value of an expression at the next time point.
#[derive(Debug, PartialEq)]
pub struct Next {
    /// The expression.
    pub arg: Box<BoolExpr>,
}

/// The value of an expression `steps` time points later.
#[derive(Debug, PartialEq)]
pub struct Oracle {
    /// The number of time points.
    pub steps: usize,
    /// The expression.
    pub arg: Box<BoolExpr>,
}

/// The expression holds at all time points within the interval.
#[derive(Debug, PartialEq)]
pub struct Always {
    /// The expression.
    pub arg: Box<BoolExpr>,
    /// The interval.
    pub interval: Interval,
}

/// The expression holds at some time point within the interval.
#[derive(Debug, PartialEq)]
pub struct Eventually {
    /// The expression.
    pub arg: Box<BoolExpr>,
    /// The interval.
    pub interval: Interval,
}

/// `lhs` holds until `rhs` holds, within the interval.
#[derive(Debug, PartialEq)]
pub struct Until {
    /// The expression that holds until then.
    pub lhs: Box<BoolExpr>,
    /// The expression that holds eventually.
    pub rhs: Box<BoolExpr>,
    /// The interval.
    pub interval: Interval,
}

/// A signed integer literal.
#[derive(Clone, Debug, PartialEq)]
pub struct IntLit(pub i64);

/// An unsigned integer literal.
#[derive(Clone, Debug, PartialEq)]
pub struct UIntLit(pub u64);

/// A floating-point literal, held exactly as the decimal `mantissa * 10^exponent`.
#[derive(Clone, Copy, Debug, PartialEq, Eq)]
pub struct FloatLit {
    /// The digits of the literal, as an integer.
    pub mantissa: u64,
    /// The power of ten by which the mantissa is scaled.
    pub exponent: i64,
}

/// A signed integer variable.
#[derive(Clone, Debug, PartialEq)]
pub struct IntVar {
    /// The name of the variable.
    pub name: String,
}

/// An unsigned integer variable.
#[derive(Clone, Debug, PartialEq)]
pub struct UIntVar {
    /// The name of the variable.
    pub name: String,
}

/// A floating-point variable.
#[derive(Clone, Debug, PartialEq)]
pub struct FloatVar {
    /// The name of the variable.
    pub name: String,
}

/// Numeric negation.
#[derive(Debug, PartialEq)]
pub struct Neg {
    /// The negated expression.
    pub arg: Box<NumExpr>,
}

/// Sum of a list of numeric expressions.
#[derive(Debug, PartialEq)]
pub struct Add {
    /// The summands.
    pub args: Vec<NumExpr>,
}

/// Difference of two numeric expressions.
#[derive(Debug, PartialEq)]
pub struct Sub {
    /// The minuend.
    pub lhs: Box<NumExpr>,
    /// The subtrahend.
    pub rhs: Box<NumExpr>,
}

/// Product of a list of numeric expressions.
#[derive(Debug, PartialEq)]
pub struct Mul {
    /// The factors.
    pub args: Vec<NumExpr>,
}

/// Quotient of two numeric expressions.
#[derive(Debug, PartialEq)]
pub struct Div {
    /// The dividend.
    pub dividend: Box<NumExpr>,
    /// The divisor.
    pub divisor: Box<NumExpr>,
}

/// Absolute value of a numeric expression.
#[derive(Debug, PartialEq)]
pub struct Abs {
    /// The expression.
    pub arg: Box<NumExpr>,
}

/// All expressions that are numeric.
#[derive(Debug, PartialEq)]
pub enum NumExpr {
    /// A signed integer literal.
    IntLit(IntLit),
    /// An unsigned integer literal.
    UIntLit(UIntLit),
    /// A floating-point literal.
    FloatLit(FloatLit),
    /// A signed integer variable.
    IntVar(IntVar),
    /// An unsigned integer variable.
    UIntVar(UIntVar),
    /// A floating-point variable.
    FloatVar(FloatVar),
    /// Numeric negation of a numeric expression.
    Neg(Neg),
    /// Sum of a list of numeric expressions.
    Add(Add),
    /// Difference of two numeric expressions.
    Sub(Sub),
    /// Product of a list of numeric expressions.
    Mul(Mul),
    /// Quotient of two numeric expressions.
    Div(Div),
    /// Absolute value of a numeric expression.
    Abs(Abs),
}

/// All expressions that evaluate to booleans.
#[derive(Debug, PartialEq)]
pub enum BoolExpr {
    /// A boolean literal.
    BoolLit(BoolLit),
    /// A boolean variable.
    BoolVar(BoolVar),
    /// A comparison of numeric expressions.
    Cmp(Cmp),
    /// Logical negation.
    Not(Not),
    /// Logical conjunction.
    And(And),
    /// Logical disjunction.
    Or(Or),
    /// The value at the next time point.
    Next(Next),
    /// The value a number of time points later.
    Oracle(Oracle),
    /// The expression holds throughout an interval.
    Always(Always),
    /// The expression holds somewhere in an interval.
    Eventually(Eventually),
    /// One expression holds until another does, within an interval.
    Until(Until),
}

/// An expression, either boolean or numeric.
#[derive(Debug, PartialEq)]
pub enum Expr {
    /// A boolean expression.
    Bool(BoolExpr),
    /// A numeric expression.
    Num(NumExpr),
}

/// A reference to an expression, either boolean or numeric.
#[derive(Clone, Copy, Debug)]
pub enum ExprRef<'a> {
    /// A reference to a boolean expression.
    Bool(&'a BoolExpr),
    /// A reference to a numeric expression.
    Num(&'a NumExpr),
}

/// Marker trait for numeric expressions.
pub trait IsNumExpr {
}

/// Marker trait for boolean expressions.
pub trait IsBoolExpr {
}

impl IsNumExpr for NumExpr {
}

impl IsBoolExpr for BoolExpr {
}

/// Operations common to all expressions.
pub trait AnyExpr {
    /// The expression is numeric.
    spec fn spec_is_numeric(&self) -> bool;

    /// The expression is boolean.
    spec fn spec_is_boolean(&self) -> bool;

    /// The direct sub-expressions of the expression, in order.
    spec fn spec_args(&self) -> Seq<ExprRef<'_>>;

    /// Check if the expression is numeric.
    fn is_numeric(&self) -> (r: bool)
        ensures
            r == self.spec_is_numeric(),
    ;

    /// Check if the expression is boolean.
    fn is_boolean(&self) -> (r: bool)
        ensures
            r == self.spec_is_boolean(),
    ;

    /// Get the arguments of the expression; a leaf expression has none.
    fn args(&self) -> (r: Vec<ExprRef<'_>>)
        ensures
            r@ == self.spec_args(),
    ;
}

/// References to each of the boolean expressions of a list.
pub open spec fn bool_refs<'a>(args: &'a Vec<BoolExpr>) -> Seq<ExprRef<'a>> {
    Seq::new(args@.len(), |i: int| ExprRef::Bool(&args@[i]))
}

/// References to each of the numeric expressions of a list.
pub open spec fn num_refs<'a>(args: &'a Vec<NumExpr>) -> Seq<ExprRef<'a>> {
    Seq::new(args@.len(), |i: int| ExprRef::Num(&args@[i]))
}

fn refs_of_bool<'a>(args: &'a Vec<BoolExpr>) -> (r: Vec<ExprRef<'a>>)
    ensures
        r@ == bool_refs(args),
{
    let mut out: Vec<ExprRef<'a>> = Vec::with_capacity(args.len());
    let mut i: usize = 0;
    while i < args.len()
        invariant
            i <= args@.len(),
            out@ == bool_refs(args).take(i as int),
        decreases args@.len() - i,
    {
        out.push(ExprRef::Bool(&args[i]));
        proof {
            assert(out@ =~= bool_refs(args).take(i + 1));
        }
        i = i + 1;
    }
    proof {
        assert(out@ =~= bool_refs(args));
    }
    out
}

fn refs_of_num<'a>(args: &'a Vec<NumExpr>) -> (r: Vec<ExprRef<'a>>)
    ensures
        r@ == num_refs(args),
{
    let mut out: Vec<ExprRef<'a>> = Vec::with_capacity(args.len());
    let mut i: usize = 0;
    while i < args.len()
        invariant
            i <= args@.len(),
            out@ == num_refs(args).take(i as int),
        decreases args@.len() - i,
    {
        out.push(ExprRef::Num(&args[i]));
        proof {
            assert(out@ =~= num_refs(args).take(i + 1));
        }
        i = i + 1;
    }
    proof {
        assert(out@ =~= num_refs(args));
    }
    out
}

impl AnyExpr for BoolExpr {
    open spec fn spec_is_numeric(&self) -> bool {
        false
    }

    open spec fn spec_is_boolean(&self) -> bool {
        true
    }

    open spec fn spec_args(&self) -> Seq<ExprRef<'_>> {
        match self {
            BoolExpr::BoolLit(_) => Seq::empty(),
            BoolExpr::BoolVar(_) => Seq::empty(),
            BoolExpr::Cmp(e) => seq![ExprRef::Num(&*e.lhs), ExprRef::Num(&*e.rhs)],
            BoolExpr::Not(e) => seq![ExprRef::Bool(&*e.arg)],
            BoolExpr::And(e) => bool_refs(&e.args),
            BoolExpr::Or(e) => bool_refs(&e.args),
            BoolExpr::Next(e) => seq![ExprRef::Bool(&*e.arg)],
            BoolExpr::Oracle(e) => seq![ExprRef::Bool(&*e.arg)],
            BoolExpr::Always(e) => seq![ExprRef::Bool(&*e.arg)],
            BoolExpr::Eventually(e) => seq![ExprRef::Bool(&*e.arg)],
            BoolExpr::Until(e) => seq![ExprRef::Bool(&*e.lhs), ExprRef::Bool(&*e.rhs)],
        }
    }

    fn is_numeric(&self) -> (r: bool) {
        false
    }

    fn is_boolean(&self) -> (r: bool) {
        true
    }

    fn args(&self) -> (r: Vec<ExprRef<'_>>) {
        match self {
            BoolExpr::BoolLit(_) => Vec::new(),
            BoolExpr::BoolVar(_) => Vec::new(),
            BoolExpr::Cmp(e) => vec![ExprRef::Num(&*e.lhs), ExprRef::Num(&*e.rhs)],
            BoolExpr::Not(e) => vec![ExprRef::Bool(&*e.arg)],
            BoolExpr::And(e) => refs_of_bool(&e.args),
            BoolExpr::Or(e) => refs_of_bool(&e.args),
            BoolExpr::Next(e) => vec![ExprRef::Bool(&*e.arg)],
            BoolExpr::Oracle(e) => vec![ExprRef::Bool(&*e.arg)],
            BoolExpr::Always(e) => vec![ExprRef::Bool(&*e.arg)],
            BoolExpr::Eventually(e) => vec![ExprRef::Bool(&*e.arg)],
            BoolExpr::Until(e) => vec![ExprRef::Bool(&*e.lhs), ExprRef::Bool(&*e.rhs)],
        }
    }
}

impl AnyExpr for NumExpr {
    open spec fn spec_is_numeric(&self) -> bool {
        true
    }

    open spec fn spec_is_boolean(&self) -> bool {
        false
    }

    open spec fn spec_args(&self) -> Seq<ExprRef<'_>> {
        match self {
            NumExpr::Neg(e) => seq![ExprRef::Num(&*e.arg)],
            NumExpr::Add(e) => num_refs(&e.args),
            NumExpr::Sub(e) => seq![ExprRef::Num(&*e.lhs), ExprRef::Num(&*e.rhs)],
            NumExpr::Mul(e) => num_refs(&e.args),
            NumExpr::Div(e) => seq![ExprRef::Num(&*e.dividend), ExprRef::Num(&*e.divisor)],
            NumExpr::Abs(e) => seq![ExprRef::Num(&*e.arg)],
            _ => Seq::empty(),
        }
    }

    fn is_numeric(&self) -> (r: bool) {
        true
    }

    fn is_boolean(&self) -> (r: bool) {
        false
    }

    fn args(&self) -> (r: Vec<ExprRef<'_>>) {
        match self {
            NumExpr::Neg(e) => vec![ExprRef::Num(&*e.arg)],
            NumExpr::Add(e) => refs_of_num(&e.args),
            NumExpr::Sub(e) => vec![ExprRef::Num(&*e.lhs), ExprRef::Num(&*e.rhs)],
            NumExpr::Mul(e) => refs_of_num(&e.args),
            NumExpr::Div(e) => vec![ExprRef::Num(&*e.dividend), ExprRef::Num(&*e.divisor)],
            NumExpr::Abs(e) => vec![ExprRef::Num(&*e.arg)],
            _ => Vec::new(),
        }
    }
}

impl AnyExpr for Expr {
    open spec fn spec_is_numeric(&self) -> bool {
        self is Num
    }

    open spec fn spec_is_boolean(&self) -> bool {
        self is Bool
    }

    open spec fn spec_args(&self) -> Seq<ExprRef<'_>> {
        match self {
            Expr::Bool(e) => e.spec_args(),
            Expr::Num(e) => e.spec_args(),
        }
    }

    fn is_numeric(&self) -> (r: bool) {
        matches!(self, Expr::Num(_))
    }

    fn is_boolean(&self) -> (r: bool) {
        matches!(self, Expr::Bool(_))
    }

    fn args(&self) -> (r: Vec<ExprRef<'_>>) {
        match self {
            Expr::Bool(e) => e.args(),
            Expr::Num(e) => e.args(),
        }
    }
}

/// Two numeric expressions have the same shape and contents: lists are compared
/// element by element.
pub open spec fn same_num(a: NumExpr, b: NumExpr) -> bool
    decreases a,
{
    match (a, b) {
        (NumExpr::Neg(x), NumExpr::Neg(y)) => same_num(*x.arg, *y.arg),
        (NumExpr::Add(x), NumExpr::Add(y)) => x.args@.len() == y.args@.len() && forall|i: int|
            0 <= i < x.args@.len() ==> same_num(#[trigger] x.args@[i], y.args@[i]),
        (NumExpr::Sub(x), NumExpr::Sub(y)) => same_num(*x.lhs, *y.lhs) && same_num(*x.rhs, *y.rhs),
        (NumExpr::Mul(x), NumExpr::Mul(y)) => x.args@.len() == y.args@.len() && forall|i: int|
            0 <= i < x.args@.len() ==> same_num(#[trigger] x.args@[i], y.args@[i]),
        (NumExpr::Div(x), NumExpr::Div(y)) => same_num(*x.dividend, *y.dividend) && same_num(
            *x.divisor,
            *y.divisor,
        ),
        (NumExpr::Abs(x), NumExpr::Abs(y)) => same_num(*x.arg, *y.arg),
        (NumExpr::Neg(_), _) => false,
        (NumExpr::Add(_), _) => false,
        (NumExpr::Sub(_), _) => false,
        (NumExpr::Mul(_), _) => false,
        (NumExpr::Div(_), _) => false,
        (NumExpr::Abs(_), _) => false,
        (x, y) => x == y,
    }
}

impl NumExpr {
    /// A copy of the expression.
    pub fn deep_copy(&self) -> (r: Self)
        ensures
            same_num(r, *self),
        decreases self,
    {
        match self {
            NumExpr::IntLit(e) => NumExpr::IntLit(IntLit(e.0)),
            NumExpr::UIntLit(e) => NumExpr::UIntLit(UIntLit(e.0)),
            NumExpr::FloatLit(e) => NumExpr::FloatLit(*e),
            NumExpr::IntVar(e) => NumExpr::IntVar(IntVar { name: e.name.clone() }),
            NumExpr::UIntVar(e) => NumExpr::UIntVar(UIntVar { name: e.name.clone() }),
            NumExpr::FloatVar(e) => NumExpr::FloatVar(FloatVar { name: e.name.clone() }),
            NumExpr::Neg(e) => NumExpr::Neg(Neg { arg: Box::new(e.arg.deep_copy()) }),
            NumExpr::Add(e) => NumExpr::Add(Add { args: copy_num_list(&e.args) }),
            NumExpr::Sub(e) => NumExpr::Sub(
                Sub { lhs: Box::new(e.lhs.deep_copy()), rhs: Box::new(e.rhs.deep_copy()) },
            ),
            NumExpr::Mul(e) => NumExpr::Mul(Mul { args: copy_num_list(&e.args) }),
            NumExpr::Div(e) => NumExpr::Div(
                Div {
                    dividend: Box::new(e.dividend.deep_copy()),
                    divisor: Box::new(e.divisor.deep_copy()),
                },
            ),
            NumExpr::Abs(e) => NumExpr::Abs(Abs { arg: Box::new(e.arg.deep_copy()) }),
        }
    }
}

/// A copy of a list of numeric expressions.
fn copy_num_list(args: &Vec<NumExpr>) -> (r: Vec<NumExpr>)
    ensures
        r@.len() == args@.len(),
        forall|i: int| 0 <= i < args@.len() ==> same_num(#[trigger] r@[i], args@[i]),
    decreases args,
{
    let mut out: Vec<NumExpr> = Vec::with_capacity(args.len());
    let mut i: usize = 0;
    while i < args.len()
        invariant
            i <= args@.len(),
            out@.len() == i,
            forall|j: int| 0 <= j < i ==> same_num(#[trigger] out@[j], args@[j]),
        decreases args@.len() - i,
    {
        proof {
            assert(decreases_to!(args => args@[i as int]));
        }
        out.push(args[i].deep_copy());
        i = i + 1;
    }
    out
}

/// Two boolean expressions have the same shape and contents: lists are compared
/// element by element, numeric sub-expressions by [`same_num`].
pub open spec fn same_bool(a: BoolExpr, b: BoolExpr) -> bool
    decreases a,
{
    match (a, b) {
        (BoolExpr::Cmp(x), BoolExpr::Cmp(y)) => x.op == y.op && same_num(*x.lhs, *y.lhs) && same_num(
            *x.rhs,
            *y.rhs,
        ),
        (BoolExpr::Not(x), BoolExpr::Not(y)) => same_bool(*x.arg, *y.arg),
        (BoolExpr::And(x), BoolExpr::And(y)) => x.args@.len() == y.args@.len() && forall|i: int|
            0 <= i < x.args@.len() ==> same_bool(#[trigger] x.args@[i], y.args@[i]),
        (BoolExpr::Or(x), BoolExpr::Or(y)) => x.args@.len() == y.args@.len() && forall|i: int|
            0 <= i < x.args@.len() ==> same_bool(#[trigger] x.args@[i], y.args@[i]),
        (BoolExpr::Next(x), BoolExpr::Next(y)) => same_bool(*x.arg, *y.arg),
        (BoolExpr::Oracle(x), BoolExpr::Oracle(y)) => x.steps == y.steps && same_bool(*x.arg, *y.arg),
        (BoolExpr::Always(x), BoolExpr::Always(y)) => x.interval == y.interval && same_bool(
            *x.arg,
            *y.arg,
        ),
        (BoolExpr::Eventually(x), BoolExpr::Eventually(y)) => x.interval == y.interval && same_bool(
            *x.arg,
            *y.arg,
        ),
        (BoolExpr::Until(x), BoolExpr::Until(y)) => x.interval == y.interval && same_bool(
            *x.lhs,
            *y.lhs,
        ) && same_bool(*x.rhs, *y.rhs),
        (BoolExpr::Cmp(_), _) => false,
        (BoolExpr::Not(_), _) => false,
        (BoolExpr::And(_), _) => false,
        (BoolExpr::Or(_), _) => false,
        (BoolExpr::Next(_), _) => false,
        (BoolExpr::Oracle(_), _) => false,
        (BoolExpr::Always(_), _) => false,
        (BoolExpr::Eventually(_), _) => false,
        (BoolExpr::Until(_), _) => false,
        (x, y) => x == y,
    }
}

impl BoolExpr {
    /// A copy of the expression.
    pub fn deep_copy(&self) -> (r: Self)
        ensures
            same_bool(r, *self),
        decreases self,
    {
        match self {
            BoolExpr::BoolLit(e) => BoolExpr::BoolLit(BoolLit(e.0)),
            BoolExpr::BoolVar(e) => BoolExpr::BoolVar(BoolVar { name: e.name.clone() }),
            BoolExpr::Cmp(e) => BoolExpr::Cmp(
                Cmp { op: e.op, lhs: Box::new(e.lhs.deep_copy()), rhs: Box::new(e.rhs.deep_copy()) },
            ),
            BoolExpr::Not(e) => BoolExpr::Not(Not { arg: Box::new(e.arg.deep_copy()) }),
            BoolExpr::And(e) => BoolExpr::And(And { args: copy_bool_list(&e.args) }),
            BoolExpr::Or(e) => BoolExpr::Or(Or { args: copy_bool_list(&e.args) }),
            BoolExpr::Next(e) => BoolExpr::Next(Next { arg: Box::new(e.arg.deep_copy()) }),
            BoolExpr::Oracle(e) => BoolExpr::Oracle(
                Oracle { steps: e.steps, arg: Box::new(e.arg.deep_copy()) },
            ),
            BoolExpr::Always(e) => BoolExpr::Always(
                Always { arg: Box::new(e.arg.deep_copy()), interval: e.interval },
            ),
            BoolExpr::Eventually(e) => BoolExpr::Eventually(
                Eventually { arg: Box::new(e.arg.deep_copy()), interval: e.interval },
            ),
            BoolExpr::Until(e) => BoolExpr::Until(
                Until {
                    lhs: Box::new(e.lhs.deep_copy()),
                    rhs: Box::new(e.rhs.deep_copy()),
                    interval: e.interval,
                },
            ),
        }
    }
}

/// A copy of a list of boolean expressions.
fn copy_bool_list(args: &Vec<BoolExpr>) -> (r: Vec<BoolExpr>)
    ensures
        r@.len() == args@.len(),
        forall|i: int| 0 <= i < args@.len() ==> same_bool(#[trigger] r@[i], args@[i]),
    decreases args,
{
    let mut out: Vec<BoolExpr> = Vec::with_capacity(args.len());
    let mut i: usize = 0;
    while i < args.len()
        invariant
            i <= args@.len(),
            out@.len() == i,
            forall|j: int| 0 <= j < i ==> same_bool(#[trigger] out@[j], args@[j]),
        decreases args@.len() - i,
    {
        proof {
            assert(decreases_to!(args => args@[i as int]));
        }
        out.push(args[i].deep_copy());
        i = i + 1;
    }
    out
}

} // verus!
