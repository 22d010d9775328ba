//! Reading a specification: from its text, through tokens and a syntax tree, to an
//! expression.
use vstd::prelude::*;

use crate::bound::Bound;
use crate::error::Error;
use crate::builder::{
    flat_add, flat_and, flat_mul, flat_or, is_equiv_shape, unbounded_interval, ExprBuilder,
};
use crate::expr::{
    BoolExpr, BoolLit, BoolVar, FloatLit, FloatVar, IntLit, IntVar, NumExpr, Type, UIntLit, UIntVar,
};
use crate::interval::Interval;
use crate::relation::Relation;
use crate::syntax::{
    error_value, parse_error, parser, spec_parse, unexpected_at, BinaryOps, Expr, Level, ParseError,
    ParseErrorKind, Spanned, UnaryOps,
};
use crate::lexer::{error_spans, is_lexed, lex_spans, lexer, token_spans, Span, Token};
use vstd::string::StringSliceAdditionalSpecFns;

verus! {

/// Ten to the power `k`.
pub open spec fn pow10(k: nat) -> nat
    decreases k,
{
    if k == 0 {
        1
    } else {
        10 * pow10((k - 1) as nat)
    }
}

/// The time, in nanoseconds, that a number literal of seconds stands for: a fraction of
/// a nanosecond is dropped. None for another expression, or a time beyond `u64::MAX`
/// nanoseconds.
pub open spec fn literal_ns(e: Expr) -> Option<u64> {
    match e {
        Expr::UInt(v) => if v * 1_000_000_000 <= u64::MAX {
            Some((v * 1_000_000_000) as u64)
        } else {
            None
        },
        Expr::Float(f) => {
            let k = f.exponent + 9;
            let v: int = if k >= 0 {
                f.mantissa * pow10(k as nat)
            } else {
                (f.mantissa as nat / pow10((-k) as nat)) as int
            };
            if v <= u64::MAX {
                Some(v as u64)
            } else {
                None
            }
        },
        _ => None,
    }
}

/// The bound that an end of an interval in the syntax stands for: none given is
/// unbounded; none where the time is out of range.
pub open spec fn spec_bound_of(x: Option<Box<Spanned<Expr>>>) -> Option<Bound> {
    match x {
        None => Some(Bound::Unbounded),
        Some(l) => match literal_ns(l.0) {
            Some(ns) => Some(Bound::Included(ns)),
            None => None,
        },
    }
}

/// The interval that an interval of the syntax stands for, made by [`Interval::new`].
pub open spec fn spec_interval_convert(iv: crate::syntax::Interval) -> Option<Interval> {
    match (spec_bound_of(iv.a), spec_bound_of(iv.b)) {
        (Some(a), Some(b)) => Some(
            Interval {
                start: match a {
                    Bound::Included(x) => Bound::Included(x),
                    _ => Bound::Included(0),
                },
                end: b,
            },
        ),
        _ => None,
    }
}

/// The number of steps of a "next" over an interval: the whole seconds from its start
/// to its end; none unless both ends are given, the end is not before the start, and
/// the count fits a `usize`.
pub open spec fn oracle_steps(iv: Interval) -> Option<usize> {
    match (iv.start, iv.end) {
        (Bound::Included(a), Bound::Included(b)) => if a <= b && (b - a) / 1_000_000_000
            <= usize::MAX {
            Some(((b - a) / 1_000_000_000) as usize)
        } else {
            None
        },
        _ => None,
    }
}

/// The interval of a temporal operator: over all time when the syntax gives none.
pub open spec fn temporal_interval(interval: Option<Spanned<crate::syntax::Interval>>) -> Option<Interval> {
    match interval {
        None => Some(unbounded_interval()),
        Some(iv) => spec_interval_convert(iv.0),
    }
}

/// The syntax tree stands for a numeric expression.
pub open spec fn is_num(a: Expr) -> bool {
    match a {
        Expr::Int(_) | Expr::UInt(_) | Expr::Float(_) => true,
        Expr::Var { name: _, kind } => kind is UInt || kind is Int || kind is Float,
        Expr::Unary { op, interval: _, arg: _ } => op is Neg,
        Expr::Binary { op, interval: _, args: _ } => op.is_arithmetic(),
        _ => false,
    }
}

/// The syntax tree stands for a boolean expression.
pub open spec fn is_bool(a: Expr) -> bool {
    match a {
        Expr::Bool(_) => true,
        Expr::Var { name: _, kind } => kind is Bool,
        Expr::Unary { op, interval: _, arg: _ } => !(op is Neg),
        Expr::Binary { op, interval: _, args: _ } => !op.is_arithmetic(),
        _ => false,
    }
}

/// Every operation of the syntax tree has operands of the kind it takes, and every
/// interval stands for one: arithmetic and comparisons take numbers, the others take
/// booleans; only "next", "always", "eventually" and "until" have intervals, and the
/// interval of a "next" has both ends, in order.
pub open spec fn well_formed(a: Expr) -> bool
    decreases a,
{
    match a {
        Expr::Unary { op, interval, arg } => {
            &&& well_formed(arg.0)
            &&& if op is Neg {
                is_num(arg.0) && interval is None
            } else {
                is_bool(arg.0)
            }
            &&& op is Not ==> interval is None
            &&& temporal_interval(interval) is Some
            &&& (op is Next && interval is Some) ==> oracle_steps(temporal_interval(interval).unwrap()) is Some
        },
        Expr::Binary { op, interval, args } => {
            &&& well_formed(args.0.0)
            &&& well_formed(args.1.0)
            &&& if op.is_arithmetic() || op.is_relational() {
                is_num(args.0.0) && is_num(args.1.0)
            } else {
                is_bool(args.0.0) && is_bool(args.1.0)
            }
            &&& !(op is Until) ==> interval is None
            &&& temporal_interval(interval) is Some
        },
        _ => true,
    }
}

/// The variables of the syntax tree with the types they are used at, in the order in
/// which they are declared.
pub open spec fn var_uses(a: Expr) -> Seq<(Seq<char>, Type)>
    decreases a,
{
    match a {
        Expr::Var { name, kind } => seq![(name@, kind)],
        Expr::Unary { op: _, interval: _, arg } => var_uses(arg.0),
        Expr::Binary { op: _, interval: _, args } => var_uses(args.0.0) + var_uses(args.1.0),
        _ => Seq::empty(),
    }
}

/// The declarations after declaring each of `uses` in turn, starting from `d`; none
/// where a use has no type or another type than its name was declared with.
pub open spec fn declare_all(uses: Seq<(Seq<char>, Type)>, d: Map<Seq<char>, Type>) -> Option<
    Map<Seq<char>, Type>,
>
    decreases uses.len(),
{
    if uses.len() == 0 {
        Some(d)
    } else {
        let (n, k) = uses[0];
        if k is Unknown || (d.contains_key(n) && d[n] != k) {
            None
        } else {
            declare_all(uses.drop_first(), d.insert(n, k))
        }
    }
}

/// The comparison that a relational operator stands for.
pub open spec fn relation_of(op: BinaryOps) -> Relation {
    match op {
        BinaryOps::Lt => Relation::Less { strict: true },
        BinaryOps::Le => Relation::Less { strict: false },
        BinaryOps::Gt => Relation::Greater { strict: true },
        BinaryOps::Ge => Relation::Greater { strict: false },
        BinaryOps::Eq => Relation::Eq,
        _ => Relation::NotEq,
    }
}

/// `e` is the expression that the syntax tree `a` stands for: literals and variables
/// become literals and variables of their type; each operation is built by the
/// expression builder from the expressions of its operands.
pub open spec fn corresponds(a: Expr, e: crate::expr::Expr) -> bool
    decreases a,
{
    match a {
        Expr::Bool(v) => e == crate::expr::Expr::Bool(BoolExpr::BoolLit(BoolLit(v))),
        Expr::Int(v) => e == crate::expr::Expr::Num(NumExpr::IntLit(IntLit(v))),
        Expr::UInt(v) => e == crate::expr::Expr::Num(NumExpr::UIntLit(UIntLit(v))),
        Expr::Float(f) => e == crate::expr::Expr::Num(NumExpr::FloatLit(f)),
        Expr::Var { name, kind } => match kind {
            Type::Bool => e == crate::expr::Expr::Bool(BoolExpr::BoolVar(BoolVar { name })),
            Type::UInt => e == crate::expr::Expr::Num(NumExpr::UIntVar(UIntVar { name })),
            Type::Int => e == crate::expr::Expr::Num(NumExpr::IntVar(IntVar { name })),
            Type::Float => e == crate::expr::Expr::Num(NumExpr::FloatVar(FloatVar { name })),
            Type::Unknown => false,
        },
        Expr::Unary { op, interval, arg } => exists|x: crate::expr::Expr|
            #![trigger is_unary_result(op, interval, x, e)]
            corresponds(arg.0, x) && is_unary_result(op, interval, x, e),
        Expr::Binary { op, interval, args } => exists|x: crate::expr::Expr, y: crate::expr::Expr|
            #![trigger is_binary_result(op, interval, x, y, e)]
            corresponds(args.0.0, x) && corresponds(args.1.0, y) && is_binary_result(op, interval, x, y, e),
    }
}

/// `e` is the unary operation `op`, over `interval`, on the expression `x`, as the
/// expression builder makes it.
pub open spec fn is_unary_result(
    op: UnaryOps,
    interval: Option<Spanned<crate::syntax::Interval>>,
    x: crate::expr::Expr,
    e: crate::expr::Expr,
) -> bool {
    match (op, x) {
        (UnaryOps::Neg, crate::expr::Expr::Num(a)) => e == crate::expr::Expr::Num(
            NumExpr::Neg(crate::expr::Neg { arg: Box::new(a) }),
        ),
        (UnaryOps::Not, crate::expr::Expr::Bool(a)) => e == crate::expr::Expr::Bool(
            BoolExpr::Not(crate::expr::Not { arg: Box::new(a) }),
        ),
        (UnaryOps::Next, crate::expr::Expr::Bool(a)) => {
            let steps: usize = if interval is Some {
                oracle_steps(temporal_interval(interval).unwrap()).unwrap()
            } else {
                1
            };
            if steps == 1 {
                e == crate::expr::Expr::Bool(BoolExpr::Next(crate::expr::Next { arg: Box::new(a) }))
            } else {
                e == crate::expr::Expr::Bool(
                    BoolExpr::Oracle(crate::expr::Oracle { steps, arg: Box::new(a) }),
                )
            }
        },
        (UnaryOps::Always, crate::expr::Expr::Bool(a)) => e == crate::expr::Expr::Bool(
            BoolExpr::Always(
                crate::expr::Always { arg: Box::new(a), interval: temporal_interval(interval).unwrap() },
            ),
        ),
        (UnaryOps::Eventually, crate::expr::Expr::Bool(a)) => e == crate::expr::Expr::Bool(
            BoolExpr::Eventually(
                crate::expr::Eventually {
                    arg: Box::new(a),
                    interval: temporal_interval(interval).unwrap(),
                },
            ),
        ),
        _ => false,
    }
}

/// `e` is the binary operation `op`, over `interval`, on the expressions `x` and `y`,
/// as the expression builder makes it.
pub open spec fn is_binary_result(
    op: BinaryOps,
    interval: Option<Spanned<crate::syntax::Interval>>,
    x: crate::expr::Expr,
    y: crate::expr::Expr,
    e: crate::expr::Expr,
) -> bool {
    if op.is_arithmetic() || op.is_relational() {
        match (x, y) {
            (crate::expr::Expr::Num(a), crate::expr::Expr::Num(b)) => match op {
                BinaryOps::Add => e matches crate::expr::Expr::Num(NumExpr::Add(s)) && s.args@
                    == flat_add(seq![a, b]),
                BinaryOps::Mul => e matches crate::expr::Expr::Num(NumExpr::Mul(s)) && s.args@
                    == flat_mul(seq![a, b]),
                BinaryOps::Sub => e == crate::expr::Expr::Num(
                    NumExpr::Sub(crate::expr::Sub { lhs: Box::new(a), rhs: Box::new(b) }),
                ),
                BinaryOps::Div => e == crate::expr::Expr::Num(
                    NumExpr::Div(crate::expr::Div { dividend: Box::new(a), divisor: Box::new(b) }),
                ),
                _ => e == crate::expr::Expr::Bool(
                    BoolExpr::Cmp(
                        crate::expr::Cmp { op: relation_of(op), lhs: Box::new(a), rhs: Box::new(b) },
                    ),
                ),
            },
            _ => false,
        }
    } else {
        match (x, y) {
            (crate::expr::Expr::Bool(a), crate::expr::Expr::Bool(b)) => match op {
                BinaryOps::And => e matches crate::expr::Expr::Bool(BoolExpr::And(s)) && s.args@
                    == flat_and(seq![a, b]),
                BinaryOps::Or => e matches crate::expr::Expr::Bool(BoolExpr::Or(s)) && s.args@
                    == flat_or(seq![a, b]),
                BinaryOps::Implies => e matches crate::expr::Expr::Bool(BoolExpr::Or(s)) && s.args@
                    == flat_or(seq![BoolExpr::Not(crate::expr::Not { arg: Box::new(a) }), b]),
                BinaryOps::Equiv => e matches crate::expr::Expr::Bool(c) && is_equiv_shape(c, a, b),
                BinaryOps::Xor => e matches crate::expr::Expr::Bool(BoolExpr::Not(n))
                    && is_equiv_shape(*n.arg, a, b),
                _ => e == crate::expr::Expr::Bool(
                    BoolExpr::Until(
                        crate::expr::Until {
                            lhs: Box::new(a),
                            rhs: Box::new(b),
                            interval: temporal_interval(interval).unwrap(),
                        },
                    ),
                ),
            },
            _ => false,
        }
    }
}

/// The expression has enough arguments where it is a sum, product, conjunction or
/// disjunction: at least two.
pub open spec fn has_enough_args(e: crate::expr::Expr) -> bool {
    match e {
        crate::expr::Expr::Num(NumExpr::Add(s)) => s.args@.len() >= 2,
        crate::expr::Expr::Num(NumExpr::Mul(s)) => s.args@.len() >= 2,
        crate::expr::Expr::Bool(BoolExpr::And(s)) => s.args@.len() >= 2,
        crate::expr::Expr::Bool(BoolExpr::Or(s)) => s.args@.len() >= 2,
        _ => true,
    }
}

/// Powers of ten grow with the exponent.
proof fn lemma_pow10_mono(i: nat, j: nat)
    requires
        i <= j,
    ensures
        1 <= pow10(i) <= pow10(j),
    decreases j,
{
    lemma_pow10_pos(j);
    if j > i {
        lemma_pow10_mono(i, (j - 1) as nat);
    }
}

/// Powers of ten are at least one.
proof fn lemma_pow10_pos(k: nat)
    ensures
        pow10(k) >= 1,
    decreases k,
{
    if k > 0 {
        lemma_pow10_pos((k - 1) as nat);
    }
}

/// The powers of ten at 19 and 20.
proof fn lemma_pow10_values()
    ensures
        pow10(19) == 10000000000000000000,
        pow10(20) == 100000000000000000000,
{
    reveal_with_fuel(pow10, 21);
}

/// Ten to the power `k`, for `k` of at most 19.
fn pow10_of(k: u32) -> (r: u64)
    requires
        k <= 19,
    ensures
        r == pow10(k as nat),
{
    proof {
        lemma_pow10_values();
    }
    let mut r: u64 = 1;
    let mut i: u32 = 0;
    while i < k
        invariant
            i <= k <= 19,
            r == pow10(i as nat),
            pow10(19) == 10000000000000000000,
        decreases k - i,
    {
        proof {
            lemma_pow10_mono((i + 1) as nat, 19);
        }
        r = r * 10;
        i = i + 1;
    }
    r
}

/// The time, in nanoseconds, that a number literal stands for (see [`literal_ns`]).
fn literal_ns_of(e: &Expr) -> (r: Option<u64>)
    ensures
        r == literal_ns(*e),
{
    match e {
        Expr::UInt(v) => v.checked_mul(1_000_000_000),
        Expr::Float(f) => {
            let k: i128 = f.exponent as i128 + 9;
            let m = f.mantissa;
            if k >= 0 {
                if m == 0 {
                    return Some(0);
                }
                if k > 19 {
                    proof {
                        lemma_pow10_mono(20, k as nat);
                        lemma_pow10_values();
                        assert(m * pow10(k as nat) >= pow10(k as nat)) by (nonlinear_arith)
                            requires
                                m >= 1,
                        ;
                    }
                    return None;
                }
                let p = pow10_of(k as u32);
                proof {
                    lemma_pow10_values();
                    lemma_pow10_mono(k as nat, 19);
                    assert(m * p <= 18446744073709551615u128 * 10000000000000000000u128) by (nonlinear_arith)
                        requires
                            m <= 18446744073709551615u128,
                            p <= 10000000000000000000u128,
                    ;
                }
                let v: u128 = m as u128 * p as u128;
                if v > 18446744073709551615u128 {
                    None
                } else {
                    Some(v as u64)
                }
            } else {
                let j = -k;
                if j > 19 {
                    proof {
                        lemma_pow10_mono(20, j as nat);
                        lemma_pow10_values();
                        assert(m as nat / pow10(j as nat) == 0) by (nonlinear_arith)
                            requires
                                m < pow10(j as nat),
                        ;
                    }
                    return Some(0);
                }
                let p = pow10_of(j as u32);
                proof {
                    lemma_pow10_pos(j as nat);
                    assert(m as nat / pow10(j as nat) <= m) by (nonlinear_arith)
                        requires
                            pow10(j as nat) >= 1,
                    ;
                }
                Some(m / p)
            }
        },
        _ => None,
    }
}

/// The bound that an end of an interval in the syntax stands for (see
/// [`spec_bound_of`]).
fn bound_of(x: &Option<Box<Spanned<Expr>>>) -> (r: Option<Bound>)
    ensures
        r == spec_bound_of(*x),
{
    match x {
        None => Some(Bound::Unbounded),
        Some(l) => match literal_ns_of(&l.0) {
            Some(ns) => Some(Bound::Included(ns)),
            None => None,
        },
    }
}

/// Convert an interval of the syntax into an interval (see [`spec_interval_convert`]).
pub fn interval_convert(interval: &crate::syntax::Interval) -> (r: Option<Interval>)
    ensures
        r == spec_interval_convert(*interval),
{
    match (bound_of(&interval.a), bound_of(&interval.b)) {
        (Some(a), Some(b)) => Some(Interval::new(a, b)),
        _ => None,
    }
}

/// The interval of a temporal operator (see [`temporal_interval`]).
fn temporal_interval_of(interval: &Option<Spanned<crate::syntax::Interval>>) -> (r: Option<Interval>)
    ensures
        r == temporal_interval(*interval),
{
    match interval {
        None => Some(Interval::new(Bound::Unbounded, Bound::Unbounded)),
        Some(iv) => interval_convert(&iv.0),
    }
}

/// The number of steps of a "next" over an interval (see [`oracle_steps`]).
fn oracle_steps_of(iv: &Interval) -> (r: Option<usize>)
    ensures
        r == oracle_steps(*iv),
{
    match (iv.start, iv.end) {
        (Bound::Included(a), Bound::Included(b)) => {
            if a <= b && (b - a) / 1_000_000_000 <= usize::MAX as u64 {
                Some(((b - a) / 1_000_000_000) as usize)
            } else {
                None
            }
        },
        _ => None,
    }
}

/// The operand of a unary operation has the kind it takes, and its interval stands for
/// one that it can have.
pub open spec fn unary_ok(op: UnaryOps, interval: Option<Spanned<crate::syntax::Interval>>, x: crate::expr::Expr) -> bool {
    &&& if op is Neg {
        x is Num && interval is None
    } else {
        x is Bool
    }
    &&& op is Not ==> interval is None
    &&& temporal_interval(interval) is Some
    &&& (op is Next && interval is Some) ==> oracle_steps(temporal_interval(interval).unwrap()) is Some
}

/// The operands of a binary operation have the kind it takes, and its interval stands
/// for one that it can have.
pub open spec fn binary_ok(
    op: BinaryOps,
    interval: Option<Spanned<crate::syntax::Interval>>,
    x: crate::expr::Expr,
    y: crate::expr::Expr,
) -> bool {
    &&& if op.is_arithmetic() || op.is_relational() {
        x is Num && y is Num
    } else {
        x is Bool && y is Bool
    }
    &&& !(op is Until) ==> interval is None
    &&& temporal_interval(interval) is Some
}

/// Flattening two operands that each have enough arguments leaves at least two.
proof fn lemma_flat_two(a: NumExpr, b: NumExpr, c: BoolExpr, d: BoolExpr)
    ensures
        has_enough_args(crate::expr::Expr::Num(a)) && has_enough_args(crate::expr::Expr::Num(b))
            ==> flat_add(seq![a, b]).len() >= 2 && flat_mul(seq![a, b]).len() >= 2,
        has_enough_args(crate::expr::Expr::Bool(c)) && has_enough_args(crate::expr::Expr::Bool(d))
            ==> flat_and(seq![c, d]).len() >= 2 && flat_or(seq![c, d]).len() >= 2,
        has_enough_args(crate::expr::Expr::Bool(d)) ==> flat_or(
            seq![BoolExpr::Not(crate::expr::Not { arg: Box::new(c) }), d],
        ).len() >= 2,
{
    reveal_with_fuel(flat_add, 3);
    reveal_with_fuel(flat_mul, 3);
    reveal_with_fuel(flat_and, 3);
    reveal_with_fuel(flat_or, 3);
    assert(seq![a, b].drop_first() =~= seq![b]);
    assert(seq![b].drop_first() =~= Seq::<NumExpr>::empty());
    assert(seq![c, d].drop_first() =~= seq![d]);
    assert(seq![d].drop_first() =~= Seq::<BoolExpr>::empty());
    let n = BoolExpr::Not(crate::expr::Not { arg: Box::new(c) });
    assert(seq![n, d].drop_first() =~= seq![d]);
}

/// An error at `span`.
fn error_at(span: Span, kind: ParseErrorKind) -> (r: ParseError)
    ensures
        r == (ParseError { span, kind }),
{
    ParseError { span, kind }
}

/// What is wrong with the unary operation `op` over an interval on an operand that is
/// numeric (`num`) or boolean (`boolean`), where [`unary_ok`] fails: the first of an
/// interval out of range, a misplaced interval, an operand of the wrong kind, or an
/// oracle without an end.
pub open spec fn unary_error(
    op: UnaryOps,
    interval: Option<Spanned<crate::syntax::Interval>>,
    num: bool,
    boolean: bool,
) -> ParseErrorKind {
    if temporal_interval(interval) is None {
        ParseErrorKind::TimeOutOfRange
    } else {
        match op {
            UnaryOps::Neg => ParseErrorKind::OperandType,
            UnaryOps::Not => if interval is Some {
                ParseErrorKind::NotWithInterval
            } else {
                ParseErrorKind::OperandType
            },
            UnaryOps::Next => if !boolean {
                ParseErrorKind::OperandType
            } else {
                ParseErrorKind::UnboundedOracle
            },
            _ => ParseErrorKind::OperandType,
        }
    }
}

/// What is wrong with the binary operation `op` over an interval, where
/// [`binary_ok`] fails: an interval out of range, else the operands or the interval.
pub open spec fn binary_error(op: BinaryOps, interval: Option<Spanned<crate::syntax::Interval>>) -> ParseErrorKind {
    if temporal_interval(interval) is None {
        ParseErrorKind::TimeOutOfRange
    } else {
        ParseErrorKind::OperandType
    }
}

/// The syntax tree converts into an expression from the declarations `d`.
pub open spec fn converts_from(a: Expr, d: Map<Seq<char>, Type>) -> bool {
    declare_all(var_uses(a), d) is Some && well_formed(a)
}

/// The declarations after converting the syntax tree `a` from the declarations `d`:
/// each variable is declared with its type, from the left, up to the first operand
/// that does not convert; a variable without a type, or with another type than its
/// name was declared with, declares nothing.
pub open spec fn conversion_declarations(a: Expr, d: Map<Seq<char>, Type>) -> Map<Seq<char>, Type>
    decreases a,
{
    match a {
        Expr::Var { name, kind } => if kind is Unknown || (d.contains_key(name@) && d[name@] != kind) {
            d
        } else {
            d.insert(name@, kind)
        },
        Expr::Unary { op: _, interval: _, arg } => conversion_declarations(arg.0, d),
        Expr::Binary { op: _, interval: _, args } => {
            let d1 = conversion_declarations(args.0.0, d);
            if converts_from(args.0.0, d) {
                conversion_declarations(args.1.0, d1)
            } else {
                d1
            }
        },
        _ => d,
    }
}

/// The error that converting the syntax tree `a` from the declarations `d` reports
/// where it does not convert: the first operand, from the left, that does not
/// convert, or else the operation itself, at its span.
pub open spec fn conversion_error(a: Spanned<Expr>, d: Map<Seq<char>, Type>) -> ParseError
    decreases a.0,
{
    match a.0 {
        Expr::Var { name, kind } => ParseError {
            span: a.1,
            kind: if kind is Unknown {
                ParseErrorKind::UntypedVariable
            } else {
                ParseErrorKind::Build(Error::IdentifierRedeclaration)
            },
        },
        Expr::Unary { op, interval, arg } => if !converts_from(arg.0, d) {
            conversion_error(*arg, d)
        } else {
            ParseError { span: a.1, kind: unary_error(op, interval, is_num(arg.0), is_bool(arg.0)) }
        },
        Expr::Binary { op, interval, args } => if !converts_from(args.0.0, d) {
            conversion_error(*args.0, d)
        } else {
            let d1 = declare_all(var_uses(args.0.0), d).unwrap();
            if !converts_from(args.1.0, d1) {
                conversion_error(*args.1, d1)
            } else {
                ParseError { span: a.1, kind: binary_error(op, interval) }
            }
        },
        _ => ParseError { span: a.1, kind: ParseErrorKind::OperandType },
    }
}

/// Build the unary operation `op` on the expression `x` (see [`is_unary_result`]).
fn build_unary(
    op: UnaryOps,
    interval: &Option<Spanned<crate::syntax::Interval>>,
    x: crate::expr::Expr,
    span: Span,
    ctx: &ExprBuilder,
) -> (r: Result<crate::expr::Expr, ParseError>)
    ensures
        r is Ok <==> unary_ok(op, *interval, x),
        r matches Ok(e) ==> is_unary_result(op, *interval, x, e) && has_enough_args(e),
        r matches Err(err) ==> err == (ParseError {
            span,
            kind: unary_error(op, *interval, x is Num, x is Bool),
        }),
{
    let iv = match temporal_interval_of(interval) {
        Some(iv) => iv,
        None => {
            return Err(error_at(span, ParseErrorKind::TimeOutOfRange));
        },
    };
    match op {
        UnaryOps::Neg => {
            if interval.is_some() {
                return Err(error_at(span, ParseErrorKind::OperandType));
            }
            match x {
                crate::expr::Expr::Num(a) => Ok(crate::expr::Expr::Num(ctx.make_neg(Box::new(a)))),
                _ => Err(error_at(span, ParseErrorKind::OperandType)),
            }
        },
        UnaryOps::Not => {
            if interval.is_some() {
                return Err(error_at(span, ParseErrorKind::NotWithInterval));
            }
            match x {
                crate::expr::Expr::Bool(a) => Ok(crate::expr::Expr::Bool(ctx.make_not(Box::new(a)))),
                _ => Err(error_at(span, ParseErrorKind::OperandType)),
            }
        },
        UnaryOps::Next => {
            let a = match x {
                crate::expr::Expr::Bool(a) => a,
                _ => {
                    return Err(error_at(span, ParseErrorKind::OperandType));
                },
            };
            if interval.is_some() {
                match oracle_steps_of(&iv) {
                    Some(steps) => Ok(crate::expr::Expr::Bool(ctx.make_oracle(steps, Box::new(a)))),
                    None => Err(error_at(span, ParseErrorKind::UnboundedOracle)),
                }
            } else {
                Ok(crate::expr::Expr::Bool(ctx.make_next(Box::new(a))))
            }
        },
        UnaryOps::Always => match x {
            crate::expr::Expr::Bool(a) => Ok(
                crate::expr::Expr::Bool(ctx.make_timed_always(iv, Box::new(a))),
            ),
            _ => Err(error_at(span, ParseErrorKind::OperandType)),
        },
        UnaryOps::Eventually => match x {
            crate::expr::Expr::Bool(a) => Ok(
                crate::expr::Expr::Bool(ctx.make_timed_eventually(iv, Box::new(a))),
            ),
            _ => Err(error_at(span, ParseErrorKind::OperandType)),
        },
    }
}

/// Build the binary operation `op` on the expressions `x` and `y` (see
/// [`is_binary_result`]).
fn build_binary(
    op: BinaryOps,
    interval: &Option<Spanned<crate::syntax::Interval>>,
    x: crate::expr::Expr,
    y: crate::expr::Expr,
    span: Span,
    ctx: &ExprBuilder,
) -> (r: Result<crate::expr::Expr, ParseError>)
    requires
        has_enough_args(x),
        has_enough_args(y),
    ensures
        r is Ok <==> binary_ok(op, *interval, x, y),
        r matches Ok(e) ==> is_binary_result(op, *interval, x, y, e) && has_enough_args(e),
        r matches Err(err) ==> err == (ParseError { span, kind: binary_error(op, *interval) }),
{
    let iv = match temporal_interval_of(interval) {
        Some(iv) => iv,
        None => {
            return Err(error_at(span, ParseErrorKind::TimeOutOfRange));
        },
    };
    if interval.is_some() && op != BinaryOps::Until {
        return Err(error_at(span, ParseErrorKind::OperandType));
    }
    match op {
        BinaryOps::Add | BinaryOps::Sub | BinaryOps::Mul | BinaryOps::Div | BinaryOps::Lt
        | BinaryOps::Le | BinaryOps::Gt | BinaryOps::Ge | BinaryOps::Eq | BinaryOps::Neq => {
            let (a, b) = match (x, y) {
                (crate::expr::Expr::Num(a), crate::expr::Expr::Num(b)) => (a, b),
                _ => {
                    return Err(error_at(span, ParseErrorKind::OperandType));
                },
            };
            proof {
                lemma_flat_two(a, b, BoolExpr::BoolLit(BoolLit(true)), BoolExpr::BoolLit(BoolLit(true)));
            }
            let e = match op {
                BinaryOps::Add => ctx.make_add(vec![a, b]),
                BinaryOps::Mul => ctx.make_mul(vec![a, b]),
                BinaryOps::Sub => Ok(ctx.make_sub(Box::new(a), Box::new(b))),
                BinaryOps::Div => Ok(ctx.make_div(Box::new(a), Box::new(b))),
                _ => {
                    let rel = match op {
                        BinaryOps::Lt => Relation::Less { strict: true },
                        BinaryOps::Le => Relation::Less { strict: false },
                        BinaryOps::Gt => Relation::Greater { strict: true },
                        BinaryOps::Ge => Relation::Greater { strict: false },
                        BinaryOps::Eq => Relation::Eq,
                        _ => Relation::NotEq,
                    };
                    return Ok(crate::expr::Expr::Bool(ctx.make_cmp(rel, Box::new(a), Box::new(b))));
                },
            };
            match e {
                Ok(n) => Ok(crate::expr::Expr::Num(n)),
                Err(err) => Err(error_at(span, ParseErrorKind::Build(err))),
            }
        },
        _ => {
            let (a, b) = match (x, y) {
                (crate::expr::Expr::Bool(a), crate::expr::Expr::Bool(b)) => (a, b),
                _ => {
                    return Err(error_at(span, ParseErrorKind::OperandType));
                },
            };
            proof {
                lemma_flat_two(NumExpr::IntLit(IntLit(0)), NumExpr::IntLit(IntLit(0)), a, b);
            }
            let e = match op {
                BinaryOps::And => ctx.make_and(vec![a, b]),
                BinaryOps::Or => ctx.make_or(vec![a, b]),
                BinaryOps::Implies => ctx.make_implies(Box::new(a), Box::new(b)),
                BinaryOps::Equiv => ctx.make_equiv(Box::new(a), Box::new(b)),
                BinaryOps::Xor => ctx.make_xor(Box::new(a), Box::new(b)),
                _ => Ok(ctx.make_timed_until(iv, Box::new(a), Box::new(b))),
            };
            match e {
                Ok(n) => Ok(crate::expr::Expr::Bool(n)),
                Err(err) => Err(error_at(span, ParseErrorKind::Build(err))),
            }
        },
    }
}

/// The expression of a syntax tree has the kind that the tree stands for.
proof fn lemma_corresponds_kind(a: Expr, e: crate::expr::Expr)
    requires
        corresponds(a, e),
    ensures
        is_num(a) <==> e is Num,
        is_bool(a) <==> e is Bool,
{
    match a {
        Expr::Unary { op, interval, arg } => {
            let x = choose|x: crate::expr::Expr| #![trigger is_unary_result(op, interval, x, e)]
                corresponds(arg.0, x) && is_unary_result(op, interval, x, e);
        },
        Expr::Binary { op, interval, args } => {
            let (x, y) = choose|x: crate::expr::Expr, y: crate::expr::Expr|
                #![trigger is_binary_result(op, interval, x, y, e)]
                corresponds(args.0.0, x) && corresponds(args.1.0, y) && is_binary_result(
                    op,
                    interval,
                    x,
                    y,
                    e,
                );
        },
        _ => {},
    }
}

/// An operation stands for an expression built from expressions of its operands.
proof fn lemma_corresponds_intro(a: Expr, x: crate::expr::Expr, y: crate::expr::Expr, e: crate::expr::Expr)
    requires
        a matches Expr::Unary { op, interval, arg } ==> corresponds(arg.0, x) && is_unary_result(
            op,
            interval,
            x,
            e,
        ),
        a matches Expr::Binary { op, interval, args } ==> corresponds(args.0.0, x) && corresponds(
            args.1.0,
            y,
        ) && is_binary_result(op, interval, x, y, e),
        a is Unary || a is Binary,
    ensures
        corresponds(a, e),
{
}

/// Declaring two lists of uses in turn is declaring the first, then the second.
proof fn lemma_declare_all_concat(u1: Seq<(Seq<char>, Type)>, u2: Seq<(Seq<char>, Type)>, d: Map<Seq<char>, Type>)
    ensures
        declare_all(u1 + u2, d) == (match declare_all(u1, d) {
            Some(d1) => declare_all(u2, d1),
            None => None,
        }),
    decreases u1.len(),
{
    if u1.len() == 0 {
        assert(u1 + u2 =~= u2);
    } else {
        assert((u1 + u2)[0] == u1[0]);
        assert((u1 + u2).drop_first() =~= u1.drop_first() + u2);
        let (n, k) = u1[0];
        lemma_declare_all_concat(u1.drop_first(), u2, d.insert(n, k));
    }
}

/// Convert a syntax tree into an expression, declaring its variables in `ctx` (see
/// [`corresponds`]).
///
/// This succeeds exactly when the tree is well formed (see [`well_formed`]) and every
/// variable has a type that agrees with its declarations, earlier in the tree or in
/// `ctx`.
pub fn ast_to_expr(ast: &Spanned<Expr>, ctx: &mut ExprBuilder) -> (r: Result<crate::expr::Expr, ParseError>)
    ensures
        r is Ok <==> (declare_all(var_uses(ast.0), old(ctx).declarations()) is Some && well_formed(
            ast.0,
        )),
        r is Ok ==> final(ctx).declarations() == declare_all(
            var_uses(ast.0),
            old(ctx).declarations(),
        ).unwrap(),
        r matches Ok(e) ==> corresponds(ast.0, e) && has_enough_args(e),
        r matches Err(err) ==> err == conversion_error(*ast, old(ctx).declarations()),
        final(ctx).declarations() == conversion_declarations(ast.0, old(ctx).declarations()),
    decreases ast.0,
{
    let span = ast.1;
    let ghost d0 = ctx.declarations();
    match &ast.0 {
        Expr::Bool(v) => Ok(crate::expr::Expr::Bool(ctx.bool_const(*v))),
        Expr::Int(v) => Ok(crate::expr::Expr::Num(ctx.int_const(*v))),
        Expr::UInt(v) => Ok(crate::expr::Expr::Num(ctx.uint_const(*v))),
        Expr::Float(f) => Ok(crate::expr::Expr::Num(ctx.float_const(f.mantissa, f.exponent))),
        Expr::Var { name, kind } => {
            proof {
                assert(seq![(name@, *kind)].drop_first() =~= Seq::<(Seq<char>, Type)>::empty());
                reveal_with_fuel(declare_all, 2);
            }
            match kind {
                Type::Unknown => Err(error_at(span, ParseErrorKind::UntypedVariable)),
                Type::Bool => match ctx.bool_var(name.clone()) {
                    Ok(v) => Ok(crate::expr::Expr::Bool(v)),
                    Err(err) => Err(error_at(span, ParseErrorKind::Build(err))),
                },
                Type::UInt => match ctx.uint_var(name.clone()) {
                    Ok(v) => Ok(crate::expr::Expr::Num(v)),
                    Err(err) => Err(error_at(span, ParseErrorKind::Build(err))),
                },
                Type::Int => match ctx.int_var(name.clone()) {
                    Ok(v) => Ok(crate::expr::Expr::Num(v)),
                    Err(err) => Err(error_at(span, ParseErrorKind::Build(err))),
                },
                Type::Float => match ctx.float_var(name.clone()) {
                    Ok(v) => Ok(crate::expr::Expr::Num(v)),
                    Err(err) => Err(error_at(span, ParseErrorKind::Build(err))),
                },
            }
        },
        Expr::Unary { op, interval, arg } => {
            let x = match ast_to_expr(arg, ctx) {
                Ok(x) => x,
                Err(err) => {
                    return Err(err);
                },
            };
            proof {
                lemma_corresponds_kind(arg.0, x);
            }
            let r = build_unary(*op, interval, x, span, ctx);
            proof {
                if r is Ok {
                    let e = r->Ok_0;
                    assert(corresponds(arg.0, x) && is_unary_result(*op, *interval, x, e));
                    lemma_corresponds_intro(ast.0, x, x, e);
                }
            }
            r
        },
        Expr::Binary { op, interval, args } => {
            let ghost uses_l = var_uses(args.0.0);
            let ghost uses_r = var_uses(args.1.0);
            proof {
                lemma_declare_all_concat(uses_l, uses_r, d0);
            }
            let x = match ast_to_expr(&args.0, ctx) {
                Ok(x) => x,
                Err(err) => {
                    return Err(err);
                },
            };
            let y = match ast_to_expr(&args.1, ctx) {
                Ok(y) => y,
                Err(err) => {
                    return Err(err);
                },
            };
            proof {
                lemma_corresponds_kind(args.0.0, x);
                lemma_corresponds_kind(args.1.0, y);
            }
            let r = build_binary(*op, interval, x, y, span, ctx);
            proof {
                if r is Ok {
                    let e = r->Ok_0;
                    assert(corresponds(args.0.0, x) && corresponds(args.1.0, y) && is_binary_result(
                        *op,
                        *interval,
                        x,
                        y,
                        e,
                    ));
                    lemma_corresponds_intro(ast.0, x, y, e);
                }
            }
            r
        },
    }
}

/// The lexer gives the tokens `ts` and the error spans `es` for the bytes `b`.
pub open spec fn lexes_to(b: Seq<u8>, ts: Seq<(Token, Span)>, es: Seq<Span>) -> bool {
    &&& is_lexed(b, ts, es, b.len() as int)
    &&& token_spans(ts) == lex_spans(b, 0).0
    &&& error_spans(es) == lex_spans(b, 0).1
}

/// The syntax tree stands for an expression from a fresh expression builder.
pub open spec fn converts(a: Expr) -> bool {
    converts_from(a, Map::empty())
}

/// The errors after lexing: the one error of the parser where the tokens do not parse
/// whole (see [`parse_error`]), or the error of converting the syntax tree (see
/// [`conversion_error`]); none where the tree converts.
pub open spec fn later_errors(ts: Seq<(Token, Span)>) -> Seq<ParseError> {
    match spec_parse(Level::Expr, ts, 0) {
        None => seq![error_value(ts, parse_error(Level::Expr, ts, 0))],
        Some((a, end)) => if end != ts.len() {
            seq![error_value(ts, unexpected_at(ts, end))]
        } else if converts(a.0) {
            Seq::empty()
        } else {
            seq![conversion_error(a, Map::empty())]
        },
    }
}

/// The lexer errors as errors of invalid tokens.
pub open spec fn lex_errors_of(es: Seq<Span>) -> Seq<ParseError> {
    es.map_values(|s: Span| ParseError { span: s, kind: ParseErrorKind::InvalidToken })
}

/// `r` is what reading a specification gives from its tokens `ts` and lexer errors
/// `es`: the tokens are parsed and converted whether or not the lexer found errors;
/// every lexer error, as an invalid token, followed by the error of parsing or of
/// converting, if any, are the errors; with none, the expression that the syntax tree
/// stands for.
pub open spec fn is_read_from(
    ts: Seq<(Token, Span)>,
    es: Seq<Span>,
    r: Result<crate::expr::Expr, Vec<ParseError>>,
) -> bool {
    let errs = lex_errors_of(es) + later_errors(ts);
    if errs.len() == 0 {
        spec_parse(Level::Expr, ts, 0) matches Some((a, _)) && r matches Ok(e) && corresponds(a.0, e)
    } else {
        r matches Err(v) && v@ == errs
    }
}

/// Parse a specification into an expression.
///
/// The text is split into tokens (see [`lexer`]), the tokens are parsed into a syntax
/// tree (see [`parser`]), and the tree is converted into an expression with a fresh
/// expression builder (see [`ast_to_expr`]). The errors of every step are reported
/// together: every error of the lexer, then the one error of the parser or of the
/// conversion.
pub fn parse_str(src: &str) -> (r: Result<crate::expr::Expr, Vec<ParseError>>)
    ensures
        exists|ts: Seq<(Token, Span)>, es: Seq<Span>|
            #![trigger lexes_to(src.spec_bytes(), ts, es)]
            lexes_to(src.spec_bytes(), ts, es) && is_read_from(ts, es, r),
{
    let (tokens, lex_errors) = lexer(src);
    let ghost ts = tokens@;
    let ghost es = lex_errors@;
    proof {
        assert(lexes_to(src.spec_bytes(), ts, es));
    }
    let mut errors: Vec<ParseError> = Vec::new();
    let mut i: usize = 0;
    while i < lex_errors.len()
        invariant
            i <= lex_errors@.len(),
            errors@ == lex_errors_of(lex_errors@.take(i as int)),
        decreases lex_errors@.len() - i,
    {
        errors.push(ParseError { span: lex_errors[i], kind: ParseErrorKind::InvalidToken });
        proof {
            assert(lex_errors@.take(i + 1) =~= lex_errors@.take(i as int).push(lex_errors@[i as int]));
            assert(errors@ =~= lex_errors_of(lex_errors@.take(i + 1)));
        }
        i = i + 1;
    }
    proof {
        assert(lex_errors@.take(lex_errors@.len() as int) =~= lex_errors@);
    }
    let ast = match parser(&tokens) {
        Ok(a) => a,
        Err(err) => {
            let ghost before = errors@;
            errors.push(err);
            proof {
                assert(errors@ =~= before + seq![err]);
                assert(is_read_from(ts, es, Err(errors)));
            }
            return Err(errors);
        },
    };
    let mut ctx = ExprBuilder::new();
    match ast_to_expr(&ast, &mut ctx) {
        Ok(e) => {
            if errors.len() == 0 {
                proof {
                    assert(lex_errors_of(es) + later_errors(ts) =~= Seq::<ParseError>::empty());
                }
                Ok(e)
            } else {
                proof {
                    assert(lex_errors_of(es) + later_errors(ts) =~= errors@);
                }
                Err(errors)
            }
        },
        Err(err) => {
            let ghost before = errors@;
            errors.push(err);
            proof {
                assert(errors@ =~= before + seq![err]);
                assert(is_read_from(ts, es, Err(errors)));
            }
            Err(errors)
        },
    }
}

} // verus!
