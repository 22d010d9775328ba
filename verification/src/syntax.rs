//! The syntax tree of the specification language and its parser.
//!
//! The grammar, from the loosest operators to the tightest:
//!
//! ```text
//! expr       := xor (("->" | "<->") xor)*
//! xor        := or ("^" or)*
//! or         := and ("|" and)*
//! and        := until ("&" until)*
//! until      := unary ("U" interval? until)?
//! unary      := ("!" | "X" interval? | "F" interval? | "G" interval?) unary | atom
//! atom       := sum relop sum | ident | bool | "(" expr ")"
//! sum        := product (("+" | "-") product)*
//! product    := neg (("*" | "/") neg)*
//! neg        := "-" neg | num_atom
//! num_atom   := ident | number | "(" sum ")"
//! interval   := "[" number? ("," | "..") number? "]"
//! ```
//!
//! Alternatives are tried in order, and a repetition stops at the first operator that
//! is not followed by its operand. `!` takes no interval.
use vstd::prelude::*;

use crate::error::Error;
use crate::expr::{spec_common_cast, FloatLit, Type};
use crate::lexer::{Span, Token};

verus! {

/// Unary operators.
#[derive(Clone, Copy, Debug, PartialEq, Eq, Structural)]
pub enum UnaryOps {
    /// Numeric negation.
    Neg,
    /// Logical negation.
    Not,
    /// Next.
    Next,
    /// Always.
    Always,
    /// Eventually.
    Eventually,
}

impl UnaryOps {
    /// The type that the argument of the operator is given by default.
    pub open spec fn spec_default_args_type(self) -> Type {
        match self {
            UnaryOps::Neg => Type::Float,
            _ => Type::Bool,
        }
    }

    /// Get the default type for the argument of this kind of expression.
    pub fn default_args_type(&self) -> (r: Type)
        ensures
            r == self.spec_default_args_type(),
    {
        match self {
            UnaryOps::Neg => Type::Float,
            _ => Type::Bool,
        }
    }

    /// Get the default type of the expression with this operator.
    pub fn get_default_type(&self) -> (r: Type)
        ensures
            r == self.spec_default_args_type(),
    {
        self.default_args_type()
    }
}

/// Binary operators.
#[derive(Clone, Copy, Debug, PartialEq, Eq, Structural)]
pub enum BinaryOps {
    /// Addition.
    Add,
    /// Subtraction.
    Sub,
    /// Multiplication.
    Mul,
    /// Division.
    Div,
    /// Less than.
    Lt,
    /// Less than or equal.
    Le,
    /// Greater than.
    Gt,
    /// Greater than or equal.
    Ge,
    /// Equal.
    Eq,
    /// Not equal.
    Neq,
    /// Conjunction.
    And,
    /// Disjunction.
    Or,
    /// Implication.
    Implies,
    /// Exclusive or.
    Xor,
    /// Equivalence.
    Equiv,
    /// Until.
    Until,
}

impl BinaryOps {
    /// The operator is arithmetic.
    pub open spec fn is_arithmetic(self) -> bool {
        self is Add || self is Sub || self is Mul || self is Div
    }

    /// The operator compares numbers.
    pub open spec fn is_relational(self) -> bool {
        self is Lt || self is Le || self is Gt || self is Ge || self is Eq || self is Neq
    }

    /// The type that the arguments of the operator are given by default.
    pub open spec fn spec_default_args_type(self) -> Type {
        if self.is_arithmetic() || self.is_relational() {
            Type::Float
        } else {
            Type::Bool
        }
    }

    /// The type of an expression with the operator.
    pub open spec fn spec_default_type(self) -> Type {
        if self.is_arithmetic() {
            Type::Float
        } else {
            Type::Bool
        }
    }

    /// Get the default type for the arguments of this kind of expression.
    pub fn default_args_type(&self) -> (r: Type)
        ensures
            r == self.spec_default_args_type(),
    {
        match self {
            BinaryOps::Add | BinaryOps::Sub | BinaryOps::Mul | BinaryOps::Div | BinaryOps::Lt
            | BinaryOps::Le | BinaryOps::Gt | BinaryOps::Ge | BinaryOps::Eq | BinaryOps::Neq => {
                Type::Float
            },
            _ => Type::Bool,
        }
    }

    /// Get the default type of the expression with this operator.
    pub fn get_default_type(&self) -> (r: Type)
        ensures
            r == self.spec_default_type(),
    {
        match self {
            BinaryOps::Add | BinaryOps::Sub | BinaryOps::Mul | BinaryOps::Div => Type::Float,
            _ => Type::Bool,
        }
    }
}

/// A syntax node with the span of the text it was parsed from.
pub type Spanned<T> = (T, Span);

/// The interval of a temporal operator, as written: its two ends, each a number
/// literal, or absent.
#[derive(Debug, PartialEq)]
pub struct Interval {
    /// The start.
    pub a: Option<Box<Spanned<Expr>>>,
    /// The end.
    pub b: Option<Box<Spanned<Expr>>>,
}

/// The syntax tree of a specification.
#[derive(Debug, PartialEq)]
pub enum Expr {
    /// A boolean literal.
    Bool(bool),
    /// A signed integer literal.
    Int(i64),
    /// An unsigned integer literal.
    UInt(u64),
    /// A floating-point literal.
    Float(FloatLit),
    /// A variable, with the type it is used at.
    Var {
        /// The name.
        name: String,
        /// The type.
        kind: Type,
    },
    /// A unary operation.
    Unary {
        /// The operator.
        op: UnaryOps,
        /// The interval of a temporal operator.
        interval: Option<Spanned<Interval>>,
        /// The argument.
        arg: Box<Spanned<Expr>>,
    },
    /// A binary operation.
    Binary {
        /// The operator.
        op: BinaryOps,
        /// The interval of a temporal operator.
        interval: Option<Spanned<Interval>>,
        /// The arguments.
        args: (Box<Spanned<Expr>>, Box<Spanned<Expr>>),
    },
}

impl Expr {
    /// The type of the expression.
    pub open spec fn spec_get_type(self) -> Type {
        match self {
            Expr::Bool(_) => Type::Bool,
            Expr::Int(_) => Type::Int,
            Expr::UInt(_) => Type::UInt,
            Expr::Float(_) => Type::Float,
            Expr::Var { name: _, kind } => kind,
            Expr::Unary { op, interval: _, arg: _ } => op.spec_default_args_type(),
            Expr::Binary { op, interval: _, args: _ } => op.spec_default_type(),
        }
    }

    /// The expression, with the type `ty` where it is a variable.
    pub open spec fn spec_make_typed(self, ty: Type) -> Expr {
        match self {
            Expr::Var { name, kind: _ } => Expr::Var { name, kind: ty },
            other => other,
        }
    }

    /// The type of the expression.
    pub fn get_type(&self) -> (r: Type)
        ensures
            r == self.spec_get_type(),
    {
        match self {
            Expr::Bool(_) => Type::Bool,
            Expr::Int(_) => Type::Int,
            Expr::UInt(_) => Type::UInt,
            Expr::Float(_) => Type::Float,
            Expr::Var { name: _, kind } => *kind,
            Expr::Unary { op, interval: _, arg: _ } => op.get_default_type(),
            Expr::Binary { op, interval: _, args: _ } => op.get_default_type(),
        }
    }

    /// Give a variable the type `ty`; other expressions are left as they are.
    pub fn make_typed(self, ty: Type) -> (r: Self)
        ensures
            r == self.spec_make_typed(ty),
    {
        match self {
            Expr::Var { name, kind: _ } => Expr::Var { name, kind: ty },
            other => other,
        }
    }
}

/// The unary operation `op` on `arg`, which is given the operator's argument type.
pub open spec fn spec_unary_op(
    op: UnaryOps,
    arg: Spanned<Expr>,
    interval: Option<Spanned<Interval>>,
) -> Expr {
    Expr::Unary {
        op,
        interval,
        arg: Box::new((arg.0.spec_make_typed(op.spec_default_args_type()), arg.1)),
    }
}

/// The type that both arguments of a binary operation are given: their common type,
/// or the operator's default where that is unknown.
pub open spec fn spec_binary_type(op: BinaryOps, lhs: Expr, rhs: Expr) -> Type {
    let common = spec_common_cast(lhs.spec_get_type(), rhs.spec_get_type());
    if common == Type::Unknown {
        op.spec_default_args_type()
    } else {
        common
    }
}

/// The binary operation `op` on `lhs` and `rhs`, which are given their common type.
pub open spec fn spec_binary_op(
    op: BinaryOps,
    lhs: Spanned<Expr>,
    rhs: Spanned<Expr>,
    interval: Option<Spanned<Interval>>,
) -> Expr {
    let ty = spec_binary_type(op, lhs.0, rhs.0);
    Expr::Binary {
        op,
        interval,
        args: (Box::new((lhs.0.spec_make_typed(ty), lhs.1)), Box::new((rhs.0.spec_make_typed(ty), rhs.1))),
    }
}

/// Build a unary operation (see [`spec_unary_op`]).
fn unary_op(op: UnaryOps, arg: Spanned<Expr>, interval: Option<Spanned<Interval>>) -> (r: Expr)
    ensures
        r == spec_unary_op(op, arg, interval),
{
    let (e, span) = arg;
    let ty = op.default_args_type();
    Expr::Unary { op, interval, arg: Box::new((e.make_typed(ty), span)) }
}

/// Build a binary operation (see [`spec_binary_op`]).
fn binary_op(op: BinaryOps, lhs: Spanned<Expr>, rhs: Spanned<Expr>, interval: Option<Spanned<Interval>>) -> (r:
    Expr)
    ensures
        r == spec_binary_op(op, lhs, rhs, interval),
{
    let (l, lspan) = lhs;
    let (r, rspan) = rhs;
    let common = l.get_type().get_common_cast(r.get_type());
    let ty = if common == Type::Unknown {
        op.default_args_type()
    } else {
        common
    };
    Expr::Binary {
        op,
        interval,
        args: (Box::new((l.make_typed(ty), lspan)), Box::new((r.make_typed(ty), rspan))),
    }
}

/// What went wrong while reading a specification.
#[derive(Clone, Copy, Debug, PartialEq, Eq)]
pub enum ParseErrorKind {
    /// No token starts here, or a number is too large.
    InvalidToken,
    /// A token that the grammar does not allow here.
    UnexpectedToken,
    /// The specification ended too early.
    UnexpectedEnd,
    /// `!` was given an interval.
    NotWithInterval,
    /// A variable was left without a type.
    UntypedVariable,
    /// `X` was given an interval without an end.
    UnboundedOracle,
    /// A time in an interval is negative or out of range.
    TimeOutOfRange,
    /// An operand has the wrong kind of value.
    OperandType,
    /// The expression builder refused the expression.
    Build(Error),
}

/// An error found while reading a specification, with the span it was found at.
#[derive(Clone, Copy, Debug, PartialEq, Eq)]
pub struct ParseError {
    /// Where the error was found.
    pub span: Span,
    /// What the error is.
    pub kind: ParseErrorKind,
}

/// The levels of the grammar (see the module documentation).
#[derive(Clone, Copy, Debug, PartialEq, Eq, Structural)]
pub enum Level {
    /// Implication and equivalence: a whole expression.
    Expr,
    /// Exclusive or.
    Xor,
    /// Disjunction.
    Or,
    /// Conjunction.
    And,
    /// Until.
    Until,
    /// Prefix operators.
    Unary,
    /// Comparisons, variables, literals and parenthesized expressions.
    Atom,
    /// A comparison of two numeric expressions.
    Relational,
    /// Sums and differences.
    Sum,
    /// Products and quotients.
    Product,
    /// Numeric negation.
    Neg,
    /// Numeric variables, literals and parenthesized numeric expressions.
    NumAtom,
}

/// The height of a level in the grammar; a level is parsed from the ones below it.
pub open spec fn rank(l: Level) -> nat {
    match l {
        Level::Expr => 11,
        Level::Xor => 10,
        Level::Or => 9,
        Level::And => 8,
        Level::Until => 7,
        Level::Unary => 6,
        Level::Atom => 5,
        Level::Relational => 4,
        Level::Sum => 3,
        Level::Product => 2,
        Level::Neg => 1,
        Level::NumAtom => 0,
    }
}

/// The level is a chain of its operands with left-associative operators.
pub open spec fn is_fold_level(l: Level) -> bool {
    l is Expr || l is Xor || l is Or || l is And || l is Sum || l is Product
}

/// The level of the operands of a chain.
pub open spec fn below(l: Level) -> Level {
    match l {
        Level::Expr => Level::Xor,
        Level::Xor => Level::Or,
        Level::Or => Level::And,
        Level::And => Level::Until,
        Level::Sum => Level::Product,
        _ => Level::Neg,
    }
}

/// The operator that the token stands for in a chain of the level.
pub open spec fn fold_op(l: Level, t: Token) -> Option<BinaryOps> {
    match (l, t) {
        (Level::Expr, Token::Implies) => Some(BinaryOps::Implies),
        (Level::Expr, Token::Equiv) => Some(BinaryOps::Equiv),
        (Level::Xor, Token::Xor) => Some(BinaryOps::Xor),
        (Level::Or, Token::Or) => Some(BinaryOps::Or),
        (Level::And, Token::And) => Some(BinaryOps::And),
        (Level::Sum, Token::Plus) => Some(BinaryOps::Add),
        (Level::Sum, Token::Minus) => Some(BinaryOps::Sub),
        (Level::Product, Token::Times) => Some(BinaryOps::Mul),
        (Level::Product, Token::Divide) => Some(BinaryOps::Div),
        _ => None,
    }
}

/// The comparison that the token stands for.
pub open spec fn rel_op(t: Token) -> Option<BinaryOps> {
    match t {
        Token::Lt => Some(BinaryOps::Lt),
        Token::Le => Some(BinaryOps::Le),
        Token::Gt => Some(BinaryOps::Gt),
        Token::Ge => Some(BinaryOps::Ge),
        Token::Eq => Some(BinaryOps::Eq),
        Token::Neq => Some(BinaryOps::Neq),
        _ => None,
    }
}

/// The prefix operator that the token stands for.
pub open spec fn prefix_op(t: Token) -> Option<UnaryOps> {
    match t {
        Token::Not => Some(UnaryOps::Not),
        Token::Next => Some(UnaryOps::Next),
        Token::Eventually => Some(UnaryOps::Eventually),
        Token::Always => Some(UnaryOps::Always),
        _ => None,
    }
}

/// The span from the start of `a` to the end of `b`.
pub open spec fn join(a: Span, b: Span) -> Span {
    Span { start: a.start, end: b.end }
}

/// The number literal at `pos`, as an end of an interval.
pub open spec fn spec_interval_lit(ts: Seq<(Token, Span)>, pos: int) -> Option<Spanned<Expr>> {
    if 0 <= pos < ts.len() {
        match ts[pos].0 {
            Token::UInt(v) => Some((Expr::UInt(v), ts[pos].1)),
            Token::Float(f) => Some((Expr::Float(f), ts[pos].1)),
            _ => None,
        }
    } else {
        None
    }
}

/// A separator of the ends of an interval is at `pos`.
pub open spec fn is_separator(ts: Seq<(Token, Span)>, pos: int) -> bool {
    0 <= pos < ts.len() && (ts[pos].0 is Comma || ts[pos].0 is DotDot)
}

/// The interval that starts at `pos`, and the position after it.
pub open spec fn spec_interval(ts: Seq<(Token, Span)>, pos: int) -> Option<(Spanned<Interval>, int)> {
    if 0 <= pos < ts.len() && ts[pos].0 is LBracket {
        let a = spec_interval_lit(ts, pos + 1);
        let p1 = if a is Some { pos + 2 } else { pos + 1 };
        if is_separator(ts, p1) {
            let b = spec_interval_lit(ts, p1 + 1);
            let p2 = if b is Some { p1 + 2 } else { p1 + 1 };
            if 0 <= p2 < ts.len() && ts[p2].0 is RBracket {
                let iv = Interval {
                    a: match a {
                        Some(x) => Some(Box::new(x)),
                        None => None,
                    },
                    b: match b {
                        Some(x) => Some(Box::new(x)),
                        None => None,
                    },
                };
                Some(((iv, join(ts[pos].1, ts[p2].1)), p2 + 1))
            } else {
                None
            }
        } else {
            None
        }
    } else {
        None
    }
}

/// The optional interval at `pos`, and the position after it (`pos` without one).
pub open spec fn spec_opt_interval(ts: Seq<(Token, Span)>, pos: int) -> (Option<Spanned<Interval>>, int) {
    match spec_interval(ts, pos) {
        Some((iv, after)) => (Some(iv), after),
        None => (None, pos),
    }
}

/// The expression of level `l` that the tokens hold from `pos`, and the position after
/// it; `None` where the grammar finds none.
pub open spec fn spec_parse(l: Level, ts: Seq<(Token, Span)>, pos: int) -> Option<(Spanned<Expr>, int)>
    decreases ts.len() - pos, rank(l),
{
    if pos < 0 || pos > ts.len() {
        None
    } else if is_fold_level(l) {
        match spec_parse(below(l), ts, pos) {
            Some((first, end)) => if pos < end <= ts.len() {
                match spec_fold(l, ts, end, first) {
                    Some((e, e2)) => if l is Expr {
                        Some(((e.0.spec_make_typed(Type::Bool), e.1), e2))
                    } else {
                        Some((e, e2))
                    },
                    None => None,
                }
            } else {
                None
            },
            None => None,
        }
    } else {
        match l {
            Level::Until => match spec_parse(Level::Unary, ts, pos) {
                Some((lhs, end)) => if pos < end <= ts.len() {
                    if end < ts.len() && ts[end].0 is Until {
                        let (iv, after) = spec_opt_interval(ts, end + 1);
                        if end < after <= ts.len() {
                            match spec_parse(Level::Until, ts, after) {
                                Some((rhs, e2)) => Some(
                                    (
                                        (spec_binary_op(BinaryOps::Until, lhs, rhs, iv), join(lhs.1, rhs.1)),
                                        e2,
                                    ),
                                ),
                                None => None,
                            }
                        } else {
                            None
                        }
                    } else {
                        Some((lhs, end))
                    }
                } else {
                    None
                },
                None => None,
            },
            Level::Unary => if pos < ts.len() && prefix_op(ts[pos].0) is Some {
                let op = prefix_op(ts[pos].0).unwrap();
                let (iv, after) = spec_opt_interval(ts, pos + 1);
                if op is Not && iv is Some {
                    None
                } else if pos < after <= ts.len() {
                    match spec_parse(Level::Unary, ts, after) {
                        Some((arg, e2)) => Some(
                            ((spec_unary_op(op, arg, iv), join(ts[pos].1, arg.1)), e2),
                        ),
                        None => None,
                    }
                } else {
                    None
                }
            } else {
                spec_parse(Level::Atom, ts, pos)
            },
            Level::Atom => match spec_parse(Level::Relational, ts, pos) {
                Some(x) => Some(x),
                None => if pos < ts.len() {
                    match ts[pos].0 {
                        Token::Ident(name) => Some(((Expr::Var { name, kind: Type::Unknown }, ts[pos].1), pos + 1)),
                        Token::Bool(v) => Some(((Expr::Bool(v), ts[pos].1), pos + 1)),
                        Token::LParen => match spec_parse(Level::Expr, ts, pos + 1) {
                            Some((e, end)) => if pos + 1 < end < ts.len() && ts[end].0 is RParen {
                                Some((e, end + 1))
                            } else {
                                None
                            },
                            None => None,
                        },
                        _ => None,
                    }
                } else {
                    None
                },
            },
            Level::Relational => match spec_parse(Level::Sum, ts, pos) {
                Some((lhs, end)) => if pos < end < ts.len() && rel_op(ts[end].0) is Some {
                    match spec_parse(Level::Sum, ts, end + 1) {
                        Some((rhs, e2)) => Some(
                            (
                                (spec_binary_op(rel_op(ts[end].0).unwrap(), lhs, rhs, None), join(lhs.1, rhs.1)),
                                e2,
                            ),
                        ),
                        None => None,
                    }
                } else {
                    None
                },
                None => None,
            },
            Level::Neg => if pos < ts.len() && ts[pos].0 is Minus {
                match spec_parse(Level::Neg, ts, pos + 1) {
                    Some((arg, e2)) => Some(
                        ((spec_unary_op(UnaryOps::Neg, arg, None), join(ts[pos].1, arg.1)), e2),
                    ),
                    None => None,
                }
            } else {
                spec_parse(Level::NumAtom, ts, pos)
            },
            _ => if pos < ts.len() {
                match ts[pos].0 {
                    Token::Ident(name) => Some(((Expr::Var { name, kind: Type::Unknown }, ts[pos].1), pos + 1)),
                    Token::UInt(v) => Some(((Expr::UInt(v), ts[pos].1), pos + 1)),
                    Token::Float(f) => Some(((Expr::Float(f), ts[pos].1), pos + 1)),
                    Token::LParen => match spec_parse(Level::Sum, ts, pos + 1) {
                        Some((e, end)) => if pos + 1 < end < ts.len() && ts[end].0 is RParen {
                            Some((e, end + 1))
                        } else {
                            None
                        },
                        None => None,
                    },
                    _ => None,
                }
            } else {
                None
            },
        }
    }
}

/// The chain of level `l` that continues from `pos` after the operands so far, `acc`:
/// each operator followed by an operand extends it to the left-associative operation;
/// the chain ends before an operator that is not followed by an operand.
pub open spec fn spec_fold(l: Level, ts: Seq<(Token, Span)>, pos: int, acc: Spanned<Expr>) -> Option<
    (Spanned<Expr>, int),
>
    decreases ts.len() - pos, rank(l),
{
    if 0 <= pos < ts.len() && fold_op(l, ts[pos].0) is Some {
        let op = fold_op(l, ts[pos].0).unwrap();
        match spec_parse(below(l), ts, pos + 1) {
            Some((rhs, end)) => if pos + 1 < end <= ts.len() {
                spec_fold(l, ts, end, (spec_binary_op(op, acc, rhs, None), join(acc.1, rhs.1)))
            } else {
                Some((acc, pos))
            },
            None => Some((acc, pos)),
        }
    } else {
        Some((acc, pos))
    }
}

/// The error for a token that does not fit at `p`: an unexpected token, or an
/// unexpected end where the tokens have run out.
pub open spec fn unexpected_at(ts: Seq<(Token, Span)>, p: int) -> (int, ParseErrorKind) {
    if p < ts.len() {
        (p, ParseErrorKind::UnexpectedToken)
    } else {
        (p, ParseErrorKind::UnexpectedEnd)
    }
}

/// The error of kind `e.1` at the token at `e.0`: its span is that of the token, or the
/// empty span at the end of the last token where there is none.
pub open spec fn error_value(ts: Seq<(Token, Span)>, e: (int, ParseErrorKind)) -> ParseError {
    ParseError {
        span: if 0 <= e.0 < ts.len() {
            ts[e.0].1
        } else if ts.len() > 0 {
            Span { start: ts[ts.len() - 1].1.end, end: ts[ts.len() - 1].1.end }
        } else {
            Span { start: 0, end: 0 }
        },
        kind: e.1,
    }
}

/// Where the expression of level `l` from `pos` fails to parse, and how, when
/// [`spec_parse`] finds none: the first operand or token that does not fit.
pub open spec fn parse_error(l: Level, ts: Seq<(Token, Span)>, pos: int) -> (int, ParseErrorKind)
    decreases ts.len() - pos, rank(l),
{
    if pos < 0 || pos > ts.len() {
        unexpected_at(ts, pos)
    } else if is_fold_level(l) {
        match spec_parse(below(l), ts, pos) {
            Some((_, end)) => unexpected_at(ts, pos),
            None => parse_error(below(l), ts, pos),
        }
    } else {
        match l {
            Level::Until => match spec_parse(Level::Unary, ts, pos) {
                Some((_, end)) => if pos < end <= ts.len() {
                    let after = spec_opt_interval(ts, end + 1).1;
                    if end < after <= ts.len() {
                        parse_error(Level::Until, ts, after)
                    } else {
                        unexpected_at(ts, end)
                    }
                } else {
                    unexpected_at(ts, pos)
                },
                None => parse_error(Level::Unary, ts, pos),
            },
            Level::Unary => if pos < ts.len() && prefix_op(ts[pos].0) is Some {
                let op = prefix_op(ts[pos].0).unwrap();
                let (iv, after) = spec_opt_interval(ts, pos + 1);
                if op is Not && iv is Some {
                    (pos, ParseErrorKind::NotWithInterval)
                } else if pos < after <= ts.len() {
                    parse_error(Level::Unary, ts, after)
                } else {
                    unexpected_at(ts, pos)
                }
            } else {
                parse_error(Level::Atom, ts, pos)
            },
            Level::Atom => if pos < ts.len() {
                match ts[pos].0 {
                    Token::LParen => match spec_parse(Level::Expr, ts, pos + 1) {
                        Some((_, end)) => unexpected_at(ts, end),
                        None => parse_error(Level::Expr, ts, pos + 1),
                    },
                    _ => unexpected_at(ts, pos),
                }
            } else {
                unexpected_at(ts, pos)
            },
            Level::Relational => match spec_parse(Level::Sum, ts, pos) {
                Some((_, end)) => if pos < end < ts.len() && rel_op(ts[end].0) is Some {
                    parse_error(Level::Sum, ts, end + 1)
                } else {
                    unexpected_at(ts, end)
                },
                None => parse_error(Level::Sum, ts, pos),
            },
            Level::Neg => if pos < ts.len() && ts[pos].0 is Minus {
                parse_error(Level::Neg, ts, pos + 1)
            } else {
                parse_error(Level::NumAtom, ts, pos)
            },
            _ => if pos < ts.len() {
                match ts[pos].0 {
                    Token::LParen => match spec_parse(Level::Sum, ts, pos + 1) {
                        Some((_, end)) => unexpected_at(ts, end),
                        None => parse_error(Level::Sum, ts, pos + 1),
                    },
                    _ => unexpected_at(ts, pos),
                }
            } else {
                unexpected_at(ts, pos)
            },
        }
    }
}

/// An error at the token at `pos`, or at the end where there is none.
fn error_at(ts: &Vec<(Token, Span)>, pos: usize, kind: ParseErrorKind) -> (r: ParseError)
    ensures
        r == error_value(ts@, (pos as int, kind)),
{
    let n = ts.len();
    if pos < n {
        ParseError { span: ts[pos].1, kind }
    } else if n > 0 {
        ParseError { span: Span { start: ts[n - 1].1.end, end: ts[n - 1].1.end }, kind }
    } else {
        ParseError { span: Span { start: 0, end: 0 }, kind }
    }
}

/// The kind of error for a token that does not fit at `pos`.
fn unexpected(ts: &Vec<(Token, Span)>, pos: usize) -> (r: ParseError)
    ensures
        r == error_value(ts@, unexpected_at(ts@, pos as int)),
{
    if pos < ts.len() {
        error_at(ts, pos, ParseErrorKind::UnexpectedToken)
    } else {
        error_at(ts, pos, ParseErrorKind::UnexpectedEnd)
    }
}

/// The operator that the token stands for in a chain of the level (see [`fold_op`]).
fn fold_op_of(l: Level, t: &Token) -> (r: Option<BinaryOps>)
    ensures
        r == fold_op(l, *t),
{
    match (l, t) {
        (Level::Expr, Token::Implies) => Some(BinaryOps::Implies),
        (Level::Expr, Token::Equiv) => Some(BinaryOps::Equiv),
        (Level::Xor, Token::Xor) => Some(BinaryOps::Xor),
        (Level::Or, Token::Or) => Some(BinaryOps::Or),
        (Level::And, Token::And) => Some(BinaryOps::And),
        (Level::Sum, Token::Plus) => Some(BinaryOps::Add),
        (Level::Sum, Token::Minus) => Some(BinaryOps::Sub),
        (Level::Product, Token::Times) => Some(BinaryOps::Mul),
        (Level::Product, Token::Divide) => Some(BinaryOps::Div),
        _ => None,
    }
}

/// The comparison that the token stands for (see [`rel_op`]).
fn rel_op_of(t: &Token) -> (r: Option<BinaryOps>)
    ensures
        r == rel_op(*t),
{
    match t {
        Token::Lt => Some(BinaryOps::Lt),
        Token::Le => Some(BinaryOps::Le),
        Token::Gt => Some(BinaryOps::Gt),
        Token::Ge => Some(BinaryOps::Ge),
        Token::Eq => Some(BinaryOps::Eq),
        Token::Neq => Some(BinaryOps::Neq),
        _ => None,
    }
}

/// The prefix operator that the token stands for (see [`prefix_op`]).
fn prefix_op_of(t: &Token) -> (r: Option<UnaryOps>)
    ensures
        r == prefix_op(*t),
{
    match t {
        Token::Not => Some(UnaryOps::Not),
        Token::Next => Some(UnaryOps::Next),
        Token::Eventually => Some(UnaryOps::Eventually),
        Token::Always => Some(UnaryOps::Always),
        _ => None,
    }
}

/// The number literal at `pos`, as an end of an interval (see [`spec_interval_lit`]).
fn interval_lit(ts: &Vec<(Token, Span)>, pos: usize) -> (r: Option<Spanned<Expr>>)
    ensures
        r == spec_interval_lit(ts@, pos as int),
{
    if pos < ts.len() {
        match &ts[pos].0 {
            Token::UInt(v) => Some((Expr::UInt(*v), ts[pos].1)),
            Token::Float(f) => Some((Expr::Float(*f), ts[pos].1)),
            _ => None,
        }
    } else {
        None
    }
}

/// The interval that starts at `pos`, and the position after it (see
/// [`spec_interval`]).
fn parse_interval(ts: &Vec<(Token, Span)>, pos: usize) -> (r: Option<(Spanned<Interval>, usize)>)
    requires
        pos <= ts@.len(),
    ensures
        r matches Some((iv, after)) ==> spec_interval(ts@, pos as int) == Some((iv, after as int)),
        r is None ==> spec_interval(ts@, pos as int) is None,
{
    let n = ts.len();
    if !(pos < n && matches!(ts[pos].0, Token::LBracket)) {
        return None;
    }
    let a = interval_lit(ts, pos + 1);
    let p1 = if a.is_some() {
        pos + 2
    } else {
        pos + 1
    };
    if !(p1 < n && (matches!(ts[p1].0, Token::Comma) || matches!(ts[p1].0, Token::DotDot))) {
        return None;
    }
    let b = interval_lit(ts, p1 + 1);
    let p2 = if b.is_some() {
        p1 + 2
    } else {
        p1 + 1
    };
    if !(p2 < n && matches!(ts[p2].0, Token::RBracket)) {
        return None;
    }
    let span = Span { start: ts[pos].1.start, end: ts[p2].1.end };
    let iv = Interval {
        a: match a {
            Some(x) => Some(Box::new(x)),
            None => None,
        },
        b: match b {
            Some(x) => Some(Box::new(x)),
            None => None,
        },
    };
    Some(((iv, span), p2 + 1))
}

/// The optional interval at `pos` (see [`spec_opt_interval`]).
fn opt_interval(ts: &Vec<(Token, Span)>, pos: usize) -> (r: (Option<Spanned<Interval>>, usize))
    requires
        pos <= ts@.len(),
    ensures
        (r.0, r.1 as int) == spec_opt_interval(ts@, pos as int),
{
    match parse_interval(ts, pos) {
        Some((iv, after)) => (Some(iv), after),
        None => (None, pos),
    }
}

/// Parse the expression of level `l` from `pos` (see [`spec_parse`]).
fn parse_at(ts: &Vec<(Token, Span)>, l: Level, pos: usize) -> (r: Result<(Spanned<Expr>, usize), ParseError>)
    requires
        pos <= ts@.len(),
    ensures
        r matches Ok((e, end)) ==> spec_parse(l, ts@, pos as int) == Some((e, end as int)),
        r is Err ==> spec_parse(l, ts@, pos as int) is None,
        r matches Err(err) ==> err == error_value(ts@, parse_error(l, ts@, pos as int)),
    decreases ts@.len() - pos, rank(l),
{
    let n = ts.len();
    match l {
        Level::Expr | Level::Xor | Level::Or | Level::And | Level::Sum | Level::Product => {
            let sub = match l {
                Level::Expr => Level::Xor,
                Level::Xor => Level::Or,
                Level::Or => Level::And,
                Level::And => Level::Until,
                Level::Sum => Level::Product,
                _ => Level::Neg,
            };
            let (first, end) = match parse_at(ts, sub, pos) {
                Ok(x) => x,
                Err(err) => {
                    return Err(err);
                },
            };
            if !(pos < end && end <= n) {
                return Err(unexpected(ts, pos));
            }
            let (e, e2) = fold_at(ts, l, end, first);
            if l == Level::Expr {
                let (x, span) = e;
                Ok(((x.make_typed(Type::Bool), span), e2))
            } else {
                Ok((e, e2))
            }
        },
        Level::Until => {
            let (lhs, end) = match parse_at(ts, Level::Unary, pos) {
                Ok(x) => x,
                Err(err) => {
                    return Err(err);
                },
            };
            if !(pos < end && end <= n) {
                return Err(unexpected(ts, pos));
            }
            if end < n && matches!(ts[end].0, Token::Until) {
                let (iv, after) = opt_interval(ts, end + 1);
                if !(end < after && after <= n) {
                    return Err(unexpected(ts, end));
                }
                let (rhs, e2) = match parse_at(ts, Level::Until, after) {
                Ok(x) => x,
                Err(err) => {
                    return Err(err);
                },
            };
                let span = Span { start: lhs.1.start, end: rhs.1.end };
                Ok(((binary_op(BinaryOps::Until, lhs, rhs, iv), span), e2))
            } else {
                Ok((lhs, end))
            }
        },
        Level::Unary => {
            if pos < n {
                match prefix_op_of(&ts[pos].0) {
                    Some(op) => {
                        let (iv, after) = opt_interval(ts, pos + 1);
                        if op == UnaryOps::Not && iv.is_some() {
                            return Err(error_at(ts, pos, ParseErrorKind::NotWithInterval));
                        }
                        if !(pos < after && after <= n) {
                            return Err(unexpected(ts, pos));
                        }
                        let (arg, e2) = match parse_at(ts, Level::Unary, after) {
                Ok(x) => x,
                Err(err) => {
                    return Err(err);
                },
            };
                        let span = Span { start: ts[pos].1.start, end: arg.1.end };
                        return Ok(((unary_op(op, arg, iv), span), e2));
                    },
                    None => {},
                }
            }
            parse_at(ts, Level::Atom, pos)
        },
        Level::Atom => {
            match parse_at(ts, Level::Relational, pos) {
                Ok(x) => {
                    return Ok(x);
                },
                Err(_) => {},
            }
            if pos >= n {
                return Err(unexpected(ts, pos));
            }
            match &ts[pos].0 {
                Token::Ident(name) => Ok(((Expr::Var { name: name.clone(), kind: Type::Unknown }, ts[pos].1), pos + 1)),
                Token::Bool(v) => Ok(((Expr::Bool(*v), ts[pos].1), pos + 1)),
                Token::LParen => {
                    let (e, end) = match parse_at(ts, Level::Expr, pos + 1) {
                Ok(x) => x,
                Err(err) => {
                    return Err(err);
                },
            };
                    if pos + 1 < end && end < n && matches!(ts[end].0, Token::RParen) {
                        Ok((e, end + 1))
                    } else {
                        Err(unexpected(ts, end))
                    }
                },
                _ => Err(unexpected(ts, pos)),
            }
        },
        Level::Relational => {
            let (lhs, end) = match parse_at(ts, Level::Sum, pos) {
                Ok(x) => x,
                Err(err) => {
                    return Err(err);
                },
            };
            if !(pos < end && end < n) {
                return Err(unexpected(ts, end));
            }
            match rel_op_of(&ts[end].0) {
                Some(op) => {
                    let (rhs, e2) = match parse_at(ts, Level::Sum, end + 1) {
                Ok(x) => x,
                Err(err) => {
                    return Err(err);
                },
            };
                    let span = Span { start: lhs.1.start, end: rhs.1.end };
                    Ok(((binary_op(op, lhs, rhs, None), span), e2))
                },
                None => Err(unexpected(ts, end)),
            }
        },
        Level::Neg => {
            if pos < n && matches!(ts[pos].0, Token::Minus) {
                let (arg, e2) = match parse_at(ts, Level::Neg, pos + 1) {
                Ok(x) => x,
                Err(err) => {
                    return Err(err);
                },
            };
                let span = Span { start: ts[pos].1.start, end: arg.1.end };
                Ok(((unary_op(UnaryOps::Neg, arg, None), span), e2))
            } else {
                parse_at(ts, Level::NumAtom, pos)
            }
        },
        Level::NumAtom => {
            if pos >= n {
                return Err(unexpected(ts, pos));
            }
            match &ts[pos].0 {
                Token::Ident(name) => Ok(((Expr::Var { name: name.clone(), kind: Type::Unknown }, ts[pos].1), pos + 1)),
                Token::UInt(v) => Ok(((Expr::UInt(*v), ts[pos].1), pos + 1)),
                Token::Float(f) => Ok(((Expr::Float(*f), ts[pos].1), pos + 1)),
                Token::LParen => {
                    let (e, end) = match parse_at(ts, Level::Sum, pos + 1) {
                Ok(x) => x,
                Err(err) => {
                    return Err(err);
                },
            };
                    if pos + 1 < end && end < n && matches!(ts[end].0, Token::RParen) {
                        Ok((e, end + 1))
                    } else {
                        Err(unexpected(ts, end))
                    }
                },
                _ => Err(unexpected(ts, pos)),
            }
        },
    }
}

/// Continue the chain of level `l` from `pos` after the operands so far (see
/// [`spec_fold`]).
fn fold_at(ts: &Vec<(Token, Span)>, l: Level, pos: usize, acc: Spanned<Expr>) -> (r: (Spanned<Expr>, usize))
    requires
        pos <= ts@.len(),
        is_fold_level(l),
    ensures
        spec_fold(l, ts@, pos as int, acc) == Some((r.0, r.1 as int)),
    decreases ts@.len() - pos, rank(l),
{
    let n = ts.len();
    if pos >= n {
        return (acc, pos);
    }
    let op = match fold_op_of(l, &ts[pos].0) {
        Some(op) => op,
        None => {
            return (acc, pos);
        },
    };
    let sub = match l {
        Level::Expr => Level::Xor,
        Level::Xor => Level::Or,
        Level::Or => Level::And,
        Level::And => Level::Until,
        Level::Sum => Level::Product,
        _ => Level::Neg,
    };
    match parse_at(ts, sub, pos + 1) {
        Ok((rhs, end)) => {
            if pos + 1 < end && end <= n {
                let span = Span { start: acc.1.start, end: rhs.1.end };
                fold_at(ts, l, end, (binary_op(op, acc, rhs, None), span))
            } else {
                (acc, pos)
            }
        },
        Err(_) => (acc, pos),
    }
}

/// Parse a whole specification from its tokens: an expression that takes all of them.
pub fn parser(tokens: &Vec<(Token, Span)>) -> (r: Result<Spanned<Expr>, ParseError>)
    ensures
        r matches Ok(e) ==> spec_parse(Level::Expr, tokens@, 0) == Some((e, tokens@.len() as int)),
        r is Err ==> !(spec_parse(Level::Expr, tokens@, 0) matches Some((_, end)) && end
            == tokens@.len()),
        r matches Err(err) ==> err == match spec_parse(Level::Expr, tokens@, 0) {
            Some((_, end)) => error_value(tokens@, unexpected_at(tokens@, end)),
            None => error_value(tokens@, parse_error(Level::Expr, tokens@, 0)),
        },
{
    let (e, end) = match parse_at(tokens, Level::Expr, 0) {
        Ok(x) => x,
        Err(err) => {
            return Err(err);
        },
    };
    if end != tokens.len() {
        return Err(unexpected(tokens, end));
    }
    Ok(e)
}

/// Parse a whole numeric expression from its tokens.
pub fn num_expr_parser(tokens: &Vec<(Token, Span)>) -> (r: Result<Spanned<Expr>, ParseError>)
    ensures
        r matches Ok(e) ==> spec_parse(Level::Sum, tokens@, 0) == Some((e, tokens@.len() as int)),
        r is Err ==> !(spec_parse(Level::Sum, tokens@, 0) matches Some((_, end)) && end
            == tokens@.len()),
        r matches Err(err) ==> err == match spec_parse(Level::Sum, tokens@, 0) {
            Some((_, end)) => error_value(tokens@, unexpected_at(tokens@, end)),
            None => error_value(tokens@, parse_error(Level::Sum, tokens@, 0)),
        },
{
    let (e, end) = match parse_at(tokens, Level::Sum, 0) {
        Ok(x) => x,
        Err(err) => {
            return Err(err);
        },
    };
    if end != tokens.len() {
        return Err(unexpected(tokens, end));
    }
    Ok(e)
}

} // verus!
