//! The lexer of the specification language: from the bytes of a specification to
//! tokens.
//!
//! Blanks and line comments (`//` to the end of the line) separate tokens. A byte
//! at which no token starts is reported as an error and skipped.
use vstd::prelude::*;

use crate::expr::FloatLit;
use vstd::string::StringSliceAdditionalSpecFns;
use vstd::utf8::{
    encode_utf8, encode_utf8_valid_utf8, is_char_boundary, is_char_boundary_iff_not_is_continuation_byte,
    is_char_boundary_start_end_of_seq, valid_utf8, valid_utf8_split,
};

verus! {

/// A range of byte positions: from `start` (included) to `end` (excluded).
#[derive(Clone, Copy, Debug, PartialEq, Eq)]
pub struct Span {
    /// The first position.
    pub start: usize,
    /// The position after the last.
    pub end: usize,
}

impl Span {
    /// Create a span.
    pub fn new(start: usize, end: usize) -> (r: Self)
        ensures
            r == (Span { start, end }),
    {
        Span { start, end }
    }
}

/// The tokens of the specification language.
#[derive(Clone, Debug, PartialEq)]
pub enum Token {
    /// `;`
    Semicolon,
    /// `[`
    LBracket,
    /// `]`
    RBracket,
    /// `(`
    LParen,
    /// `)`
    RParen,
    /// `,`
    Comma,
    /// `..`
    DotDot,
    /// `true` or `false`
    Bool(bool),
    /// An unsigned integer literal.
    UInt(u64),
    /// A literal with a fraction or an exponent.
    Float(FloatLit),
    /// An identifier, or a quoted name (with its quotes).
    Ident(String),
    /// `-`
    Minus,
    /// `+`
    Plus,
    /// `*`
    Times,
    /// `/`
    Divide,
    /// `<`
    Lt,
    /// `<=`
    Le,
    /// `>`
    Gt,
    /// `>=`
    Ge,
    /// `==`
    Eq,
    /// `!=`
    Neq,
    /// `=`
    Assign,
    /// `!`, `~` or `¬`
    Not,
    /// `&&`, `&` or `∧`
    And,
    /// `||`, `|` or `∨`
    Or,
    /// `->` or `=>`
    Implies,
    /// `<->` or `<=>`
    Equiv,
    /// `^`
    Xor,
    /// `X`
    Next,
    /// `G` or `alw`
    Always,
    /// `F` or `ev`
    Eventually,
    /// `U`
    Until,
}

/// A decimal digit.
pub open spec fn is_digit(c: u8) -> bool {
    48 <= c <= 57
}

/// A byte that can start an identifier: an ASCII letter or `_`.
pub open spec fn is_ident_start(c: u8) -> bool {
    (65 <= c <= 90) || (97 <= c <= 122) || c == 95
}

/// A byte that can continue an identifier.
pub open spec fn is_ident_char(c: u8) -> bool {
    is_ident_start(c) || is_digit(c)
}

/// An ASCII blank: space, tab, line feed, vertical tab, form feed or carriage return.
pub open spec fn is_blank(c: u8) -> bool {
    c == 32 || (9 <= c <= 13)
}

/// The byte at `i` is `x`.
pub open spec fn at1(b: Seq<u8>, i: int, x: u8) -> bool {
    0 <= i < b.len() && b[i] == x
}

/// The bytes from `i` are `x`, `y`.
pub open spec fn at2(b: Seq<u8>, i: int, x: u8, y: u8) -> bool {
    at1(b, i, x) && at1(b, i + 1, y)
}

/// The bytes from `i` are `x`, `y`, `z`.
pub open spec fn at3(b: Seq<u8>, i: int, x: u8, y: u8, z: u8) -> bool {
    at2(b, i, x, y) && at1(b, i + 2, z)
}

/// The operator or delimiter at `i`, and the position after it: the first of the
/// symbols, in the order below, that the bytes from `i` spell.
pub open spec fn symbol_at(b: Seq<u8>, i: int) -> Option<(Token, int)> {
    if at3(b, i, 60, 45, 62) {
        Some((Token::Equiv, i + 3))  // <->
    } else if at3(b, i, 60, 61, 62) {
        Some((Token::Equiv, i + 3))  // <=>
    } else if at2(b, i, 60, 61) {
        Some((Token::Le, i + 2))  // <=
    } else if at1(b, i, 60) {
        Some((Token::Lt, i + 1))  // <
    } else if at2(b, i, 62, 61) {
        Some((Token::Ge, i + 2))  // >=
    } else if at1(b, i, 62) {
        Some((Token::Gt, i + 1))  // >
    } else if at2(b, i, 33, 61) {
        Some((Token::Neq, i + 2))  // !=
    } else if at2(b, i, 61, 61) {
        Some((Token::Eq, i + 2))  // ==
    } else if at2(b, i, 45, 62) {
        Some((Token::Implies, i + 2))  // ->
    } else if at2(b, i, 61, 62) {
        Some((Token::Implies, i + 2))  // =>
    } else if at1(b, i, 33) {
        Some((Token::Not, i + 1))  // !
    } else if at1(b, i, 126) {
        Some((Token::Not, i + 1))  // ~
    } else if at2(b, i, 0xc2, 0xac) {
        Some((Token::Not, i + 2))  // the logical not sign
    } else if at2(b, i, 38, 38) {
        Some((Token::And, i + 2))  // &&
    } else if at1(b, i, 38) {
        Some((Token::And, i + 1))  // &
    } else if at3(b, i, 0xe2, 0x88, 0xa7) {
        Some((Token::And, i + 3))  // the logical and sign
    } else if at2(b, i, 124, 124) {
        Some((Token::Or, i + 2))  // ||
    } else if at1(b, i, 124) {
        Some((Token::Or, i + 1))  // |
    } else if at3(b, i, 0xe2, 0x88, 0xa8) {
        Some((Token::Or, i + 3))  // the logical or sign
    } else if at1(b, i, 94) {
        Some((Token::Xor, i + 1))  // ^
    } else if at1(b, i, 45) {
        Some((Token::Minus, i + 1))  // -
    } else if at1(b, i, 43) {
        Some((Token::Plus, i + 1))  // +
    } else if at1(b, i, 42) {
        Some((Token::Times, i + 1))  // *
    } else if at1(b, i, 47) {
        Some((Token::Divide, i + 1))  // /
    } else if at1(b, i, 61) {
        Some((Token::Assign, i + 1))  // =
    } else if at1(b, i, 59) {
        Some((Token::Semicolon, i + 1))  // ;
    } else if at1(b, i, 91) {
        Some((Token::LBracket, i + 1))  // [
    } else if at1(b, i, 93) {
        Some((Token::RBracket, i + 1))  // ]
    } else if at1(b, i, 40) {
        Some((Token::LParen, i + 1))  // (
    } else if at1(b, i, 41) {
        Some((Token::RParen, i + 1))  // )
    } else if at1(b, i, 44) {
        Some((Token::Comma, i + 1))  // ,
    } else if at2(b, i, 46, 46) {
        Some((Token::DotDot, i + 2))  // ..
    } else {
        None
    }
}

/// The operator or delimiter at `i` (see [`symbol_at`]).
fn scan_symbol(b: &[u8], i: usize) -> (r: Option<(Token, usize)>)
    ensures
        r matches Some((t, e)) ==> symbol_at(b@, i as int) == Some((t, e as int)),
        r is None ==> symbol_at(b@, i as int) is None,
{
    let n = b.len();
    let c0: u16 = if i < n { b[i] as u16 } else { 256 };
    let c1: u16 = if i < n && i + 1 < n { b[i + 1] as u16 } else { 256 };
    let c2: u16 = if i < n && i + 1 < n && i + 2 < n { b[i + 2] as u16 } else { 256 };
    if c0 == 60 && c1 == 45 && c2 == 62 {
        Some((Token::Equiv, i + 3))
    } else if c0 == 60 && c1 == 61 && c2 == 62 {
        Some((Token::Equiv, i + 3))
    } else if c0 == 60 && c1 == 61 {
        Some((Token::Le, i + 2))
    } else if c0 == 60 {
        Some((Token::Lt, i + 1))
    } else if c0 == 62 && c1 == 61 {
        Some((Token::Ge, i + 2))
    } else if c0 == 62 {
        Some((Token::Gt, i + 1))
    } else if c0 == 33 && c1 == 61 {
        Some((Token::Neq, i + 2))
    } else if c0 == 61 && c1 == 61 {
        Some((Token::Eq, i + 2))
    } else if c0 == 45 && c1 == 62 {
        Some((Token::Implies, i + 2))
    } else if c0 == 61 && c1 == 62 {
        Some((Token::Implies, i + 2))
    } else if c0 == 33 {
        Some((Token::Not, i + 1))
    } else if c0 == 126 {
        Some((Token::Not, i + 1))
    } else if c0 == 0xc2 && c1 == 0xac {
        Some((Token::Not, i + 2))
    } else if c0 == 38 && c1 == 38 {
        Some((Token::And, i + 2))
    } else if c0 == 38 {
        Some((Token::And, i + 1))
    } else if c0 == 0xe2 && c1 == 0x88 && c2 == 0xa7 {
        Some((Token::And, i + 3))
    } else if c0 == 124 && c1 == 124 {
        Some((Token::Or, i + 2))
    } else if c0 == 124 {
        Some((Token::Or, i + 1))
    } else if c0 == 0xe2 && c1 == 0x88 && c2 == 0xa8 {
        Some((Token::Or, i + 3))
    } else if c0 == 94 {
        Some((Token::Xor, i + 1))
    } else if c0 == 45 {
        Some((Token::Minus, i + 1))
    } else if c0 == 43 {
        Some((Token::Plus, i + 1))
    } else if c0 == 42 {
        Some((Token::Times, i + 1))
    } else if c0 == 47 {
        Some((Token::Divide, i + 1))
    } else if c0 == 61 {
        Some((Token::Assign, i + 1))
    } else if c0 == 59 {
        Some((Token::Semicolon, i + 1))
    } else if c0 == 91 {
        Some((Token::LBracket, i + 1))
    } else if c0 == 93 {
        Some((Token::RBracket, i + 1))
    } else if c0 == 40 {
        Some((Token::LParen, i + 1))
    } else if c0 == 41 {
        Some((Token::RParen, i + 1))
    } else if c0 == 44 {
        Some((Token::Comma, i + 1))
    } else if c0 == 46 && c1 == 46 {
        Some((Token::DotDot, i + 2))
    } else {
        None
    }
}

/// The text of `src` from byte `s` to byte `e`, which are character boundaries.
fn slice_text(src: &str, s: usize, e: usize) -> (r: String)
    requires
        s <= e <= src.spec_bytes().len(),
        is_char_boundary(src.spec_bytes(), s as int),
        is_char_boundary(src.spec_bytes(), e as int),
    ensures
        encode_utf8(r@) == src.spec_bytes().subrange(s as int, e as int),
{
    let ghost b = src.spec_bytes();
    proof {
        encode_utf8_valid_utf8(src@);
    }
    let (_, rest) = src.split_at(s);
    proof {
        let rb = rest.spec_bytes();
        valid_utf8_split(b, s as int);
        assert(rb == b.subrange(s as int, b.len() as int));
        if e < b.len() {
            is_char_boundary_iff_not_is_continuation_byte(b, e as int);
            is_char_boundary_iff_not_is_continuation_byte(rb, e - s);
        } else {
            is_char_boundary_start_end_of_seq(rb);
        }
    }
    let (mid, _) = rest.split_at(e - s);
    let r = mid.to_owned();
    proof {
        assert(mid.spec_bytes() =~= b.subrange(s as int, e as int));
    }
    r
}

/// The end of the run of identifier bytes from `i` on.
pub open spec fn ident_end(b: Seq<u8>, i: int) -> int
    decreases b.len() - i,
{
    if 0 <= i < b.len() && is_ident_char(b[i]) {
        ident_end(b, i + 1)
    } else {
        i
    }
}

/// The end of the run of digits from `i` on.
pub open spec fn digits_end(b: Seq<u8>, i: int) -> int
    decreases b.len() - i,
{
    if 0 <= i < b.len() && is_digit(b[i]) {
        digits_end(b, i + 1)
    } else {
        i
    }
}

/// The position of the first double quote from `i` on (the length when there is none).
pub open spec fn quote_end(b: Seq<u8>, i: int) -> int
    decreases b.len() - i,
{
    if 0 <= i < b.len() && b[i] != 34 {
        quote_end(b, i + 1)
    } else {
        i
    }
}

/// The keyword that the word `w` spells, if it is one.
pub open spec fn keyword(w: Seq<u8>) -> Option<Token> {
    if w == seq![116u8, 114, 117, 101] {
        Some(Token::Bool(true))  // true
    } else if w == seq![102u8, 97, 108, 115, 101] {
        Some(Token::Bool(false))  // false
    } else if w == seq![71u8] || w == seq![97u8, 108, 119] {
        Some(Token::Always)  // G, alw
    } else if w == seq![70u8] || w == seq![101u8, 118] {
        Some(Token::Eventually)  // F, ev
    } else if w == seq![88u8] {
        Some(Token::Next)  // X
    } else if w == seq![85u8] {
        Some(Token::Until)  // U
    } else {
        None
    }
}

/// The decimal value of the digits `w`.
pub open spec fn digits_value(w: Seq<u8>) -> nat
    decreases w.len(),
{
    if w.len() == 0 {
        0
    } else {
        digits_value(w.drop_last()) * 10 + (w.last() - 48) as nat
    }
}

/// The end of the integer part of a number that starts at `s`: a single `0`, or a run
/// of digits.
pub open spec fn int_end(b: Seq<u8>, s: int) -> int {
    if at1(b, s, 48) {
        s + 1
    } else {
        digits_end(b, s)
    }
}

/// A fraction (a `.` and at least one digit) starts at `k`.
pub open spec fn has_frac(b: Seq<u8>, k: int) -> bool {
    at1(b, k, 46) && k + 1 < b.len() && is_digit(b[k + 1])
}

/// The end of the optional fraction of a number, which starts at `k`.
pub open spec fn frac_end(b: Seq<u8>, k: int) -> int {
    if has_frac(b, k) {
        digits_end(b, k + 1)
    } else {
        k
    }
}

/// The position of the sign of an exponent that starts at `k`, if there is a sign.
pub open spec fn exp_has_sign(b: Seq<u8>, k: int) -> bool {
    at1(b, k + 1, 43) || at1(b, k + 1, 45)
}

/// The position of the digits of an exponent (`e` or `E`, an optional sign, and at
/// least one digit) that starts at `k`, if there is one.
pub open spec fn exp_digits(b: Seq<u8>, k: int) -> Option<int> {
    let m = if exp_has_sign(b, k) { k + 2 } else { k + 1 };
    if (at1(b, k, 101) || at1(b, k, 69)) && 0 <= m < b.len() && is_digit(b[m]) {
        Some(m)
    } else {
        None
    }
}

/// The end of the number that starts at `s`: an integer part, an optional fraction and
/// an optional exponent.
pub open spec fn number_end(b: Seq<u8>, s: int) -> int {
    let fe = frac_end(b, int_end(b, s));
    match exp_digits(b, fe) {
        Some(m) => digits_end(b, m),
        None => fe,
    }
}

/// The number from `s` to `e` has a fraction or an exponent.
pub open spec fn is_fractional(b: Seq<u8>, s: int, e: int) -> bool {
    e != int_end(b, s)
}

/// The digits of the mantissa of the number that starts at `s`: those of its integer
/// part and of its fraction.
pub open spec fn mantissa_digits(b: Seq<u8>, s: int) -> Seq<u8> {
    let ie = int_end(b, s);
    b.subrange(s, ie) + b.subrange(if has_frac(b, ie) { ie + 1 } else { ie }, frac_end(b, ie))
}

/// The power of ten of the number that starts at `s`: the exponent, less the number of
/// digits of the fraction.
pub open spec fn number_exponent(b: Seq<u8>, s: int) -> int {
    let ie = int_end(b, s);
    let fe = frac_end(b, ie);
    let frac_len = if has_frac(b, ie) { fe - ie - 1 } else { 0 };
    match exp_digits(b, fe) {
        Some(m) => {
            let v = digits_value(b.subrange(m, digits_end(b, m))) as int;
            (if exp_has_sign(b, fe) && b[fe + 1] == 45 { -v } else { v }) - frac_len
        },
        None => -frac_len,
    }
}

/// The end of the lexeme that starts at `s`: a symbol, a quoted name, an identifier
/// or keyword, or a number; `s` itself where none starts.
pub open spec fn lexeme_end(b: Seq<u8>, s: int) -> int {
    match symbol_at(b, s) {
        Some((_, e)) => e,
        None => if at1(b, s, 34) {
            let q = quote_end(b, s + 1);
            if q < b.len() {
                q + 1
            } else {
                s
            }
        } else if 0 <= s < b.len() && is_ident_start(b[s]) {
            ident_end(b, s + 1)
        } else if 0 <= s < b.len() && is_digit(b[s]) {
            number_end(b, s)
        } else {
            s
        },
    }
}

/// The digits of the exponent of the number that starts at `s` (none when it has no
/// exponent).
pub open spec fn exponent_digits(b: Seq<u8>, s: int) -> Seq<u8> {
    let fe = frac_end(b, int_end(b, s));
    match exp_digits(b, fe) {
        Some(m) => b.subrange(m, digits_end(b, m)),
        None => Seq::empty(),
    }
}

/// The lexeme from `s` to `e` is a number whose value fits: an integer of at most
/// `u64::MAX`, or a mantissa of at most `u64::MAX` with exponent digits of at most
/// `u64::MAX` and a power of ten that fits an `i64`.
pub open spec fn number_fits(b: Seq<u8>, s: int, e: int) -> bool {
    if is_fractional(b, s, e) {
        &&& digits_value(mantissa_digits(b, s)) <= u64::MAX
        &&& digits_value(exponent_digits(b, s)) <= u64::MAX
        &&& i64::MIN <= number_exponent(b, s) <= i64::MAX
    } else {
        digits_value(b.subrange(s, e)) <= u64::MAX
    }
}

/// `t` is the token that the bytes `b` hold from `s` to `e`.
pub open spec fn is_token_at(b: Seq<u8>, s: int, e: int, t: Token) -> bool {
    &&& 0 <= s < e <= b.len()
    &&& e == lexeme_end(b, s)
    &&& match symbol_at(b, s) {
        Some((sym, _)) => t == sym,
        None => if b[s] == 34 || is_ident_start(b[s]) {
            &&& is_char_boundary(b, s)
            &&& is_char_boundary(b, e)
            &&& match (if b[s] == 34 { None } else { keyword(b.subrange(s, e)) }) {
                Some(k) => t == k,
                None => t matches Token::Ident(name) && encode_utf8(name@) == b.subrange(s, e),
            }
        } else {
            &&& number_fits(b, s, e)
            &&& if is_fractional(b, s, e) {
                t == Token::Float(
                    FloatLit {
                        mantissa: digits_value(mantissa_digits(b, s)) as u64,
                        exponent: number_exponent(b, s) as i64,
                    },
                )
            } else {
                t == Token::UInt(digits_value(b.subrange(s, e)) as u64)
            }
        },
    }
}

/// The end of the run of identifier bytes from `i` on (see [`ident_end`]).
fn scan_ident_end(b: &[u8], i: usize) -> (r: usize)
    requires
        i <= b@.len(),
    ensures
        r == ident_end(b@, i as int),
{
    let mut k = i;
    while k < b.len() && (b[k] == 95 || (65 <= b[k] && b[k] <= 90) || (97 <= b[k] && b[k] <= 122) || (
    48 <= b[k] && b[k] <= 57))
        invariant
            i <= k <= b@.len(),
            ident_end(b@, i as int) == ident_end(b@, k as int),
        decreases b@.len() - k,
    {
        k = k + 1;
    }
    k
}

/// The end of the run of digits from `i` on (see [`digits_end`]).
fn scan_digits_end(b: &[u8], i: usize) -> (r: usize)
    requires
        i <= b@.len(),
    ensures
        r == digits_end(b@, i as int),
{
    let mut k = i;
    while k < b.len() && 48 <= b[k] && b[k] <= 57
        invariant
            i <= k <= b@.len(),
            digits_end(b@, i as int) == digits_end(b@, k as int),
        decreases b@.len() - k,
    {
        k = k + 1;
    }
    k
}

/// The position of the first double quote from `i` on (see [`quote_end`]).
fn scan_quote_end(b: &[u8], i: usize) -> (r: usize)
    requires
        i <= b@.len(),
    ensures
        r == quote_end(b@, i as int),
{
    let mut k = i;
    while k < b.len() && b[k] != 34
        invariant
            i <= k <= b@.len(),
            quote_end(b@, i as int) == quote_end(b@, k as int),
        decreases b@.len() - k,
    {
        k = k + 1;
    }
    k
}

/// The bytes of `b` from `s` on are `w`, up to `e`.
fn word_is(b: &[u8], s: usize, e: usize, w: &[u8; 5], n: usize) -> (r: bool)
    requires
        s <= e <= b@.len(),
        n <= 5,
    ensures
        r == (b@.subrange(s as int, e as int) == w@.take(n as int)),
{
    if e - s != n {
        proof {
            assert(w@.len() == 5);
            assert(b@.subrange(s as int, e as int).len() != w@.take(n as int).len());
        }
        return false;
    }
    let mut k: usize = 0;
    while k < n
        invariant
            s <= e <= b@.len(),
            e - s == n,
            n <= 5,
            k <= n,
            forall|j: int| 0 <= j < k ==> b@[s + j] == w@[j],
        decreases n - k,
    {
        if b[s + k] != w[k] {
            proof {
                assert(b@.subrange(s as int, e as int)[k as int] != w@.take(n as int)[k as int]);
            }
            return false;
        }
        k = k + 1;
    }
    proof {
        assert(b@.subrange(s as int, e as int) =~= w@.take(n as int));
    }
    true
}

/// The keyword that the bytes of `b` from `s` to `e` spell (see [`keyword`]).
fn keyword_at(b: &[u8], s: usize, e: usize) -> (r: Option<Token>)
    requires
        s <= e <= b@.len(),
    ensures
        r == keyword(b@.subrange(s as int, e as int)),
{
    let kw_true: [u8; 5] = [116, 114, 117, 101, 0];
    let kw_false: [u8; 5] = [102, 97, 108, 115, 101];
    let kw_g: [u8; 5] = [71, 0, 0, 0, 0];
    let kw_alw: [u8; 5] = [97, 108, 119, 0, 0];
    let kw_f: [u8; 5] = [70, 0, 0, 0, 0];
    let kw_ev: [u8; 5] = [101, 118, 0, 0, 0];
    let kw_x: [u8; 5] = [88, 0, 0, 0, 0];
    let kw_u: [u8; 5] = [85, 0, 0, 0, 0];
    proof {
        assert(kw_true@.take(4) =~= seq![116u8, 114, 117, 101]);
        assert(kw_false@.take(5) =~= seq![102u8, 97, 108, 115, 101]);
        assert(kw_g@.take(1) =~= seq![71u8]);
        assert(kw_alw@.take(3) =~= seq![97u8, 108, 119]);
        assert(kw_f@.take(1) =~= seq![70u8]);
        assert(kw_ev@.take(2) =~= seq![101u8, 118]);
        assert(kw_x@.take(1) =~= seq![88u8]);
        assert(kw_u@.take(1) =~= seq![85u8]);
    }
    if word_is(b, s, e, &kw_true, 4) {
        Some(Token::Bool(true))
    } else if word_is(b, s, e, &kw_false, 5) {
        Some(Token::Bool(false))
    } else if word_is(b, s, e, &kw_g, 1) || word_is(b, s, e, &kw_alw, 3) {
        Some(Token::Always)
    } else if word_is(b, s, e, &kw_f, 1) || word_is(b, s, e, &kw_ev, 2) {
        Some(Token::Eventually)
    } else if word_is(b, s, e, &kw_x, 1) {
        Some(Token::Next)
    } else if word_is(b, s, e, &kw_u, 1) {
        Some(Token::Until)
    } else {
        None
    }
}

/// Appending a digit to a number multiplies it by ten and adds the digit.
proof fn lemma_digits_push(w: Seq<u8>, d: u8)
    ensures
        digits_value(w.push(d)) == digits_value(w) * 10 + (d - 48) as nat,
{
    assert(w.push(d).drop_last() =~= w);
}

/// Appending digits does not make a number smaller.
proof fn lemma_digits_grow(x: Seq<u8>, y: Seq<u8>)
    ensures
        digits_value(x + y) >= digits_value(x),
    decreases y.len(),
{
    if y.len() == 0 {
        assert(x + y =~= x);
    } else {
        lemma_digits_grow(x, y.drop_last());
        assert((x + y).drop_last() =~= x + y.drop_last());
    }
}

/// The value of the digits `w0` followed by the digits of `b` from `s` to `e`, given
/// the value `v` of `w0`; `None` where it exceeds `u64::MAX`.
fn accumulate(b: &[u8], s: usize, e: usize, v: u64, Ghost(w0): Ghost<Seq<u8>>) -> (r: Option<u64>)
    requires
        s <= e <= b@.len(),
        v == digits_value(w0),
        forall|k: int| s <= k < e ==> is_digit(#[trigger] b@[k]),
    ensures
        r matches Some(x) ==> x == digits_value(w0 + b@.subrange(s as int, e as int)),
        r is None ==> digits_value(w0 + b@.subrange(s as int, e as int)) > u64::MAX,
{
    let mut acc = v;
    let mut k = s;
    while k < e
        invariant
            s <= k <= e <= b@.len(),
            forall|j: int| s <= j < e ==> is_digit(#[trigger] b@[j]),
            acc == digits_value(w0 + b@.subrange(s as int, k as int)),
        decreases e - k,
    {
        let d = b[k];
        proof {
            assert(w0 + b@.subrange(s as int, k + 1) =~= (w0 + b@.subrange(s as int, k as int)).push(d));
            lemma_digits_push(w0 + b@.subrange(s as int, k as int), d);
            assert(is_digit(b@[k as int]));
            lemma_digits_grow(w0 + b@.subrange(s as int, k + 1), b@.subrange(k + 1, e as int));
            assert(w0 + b@.subrange(s as int, k + 1) + b@.subrange(k + 1, e as int) =~= w0 + b@.subrange(
                s as int,
                e as int,
            ));
        }
        let m = match acc.checked_mul(10) {
            Some(m) => m,
            None => {
                return None;
            },
        };
        acc = match m.checked_add((d - 48) as u64) {
            Some(x) => x,
            None => {
                return None;
            },
        };
        k = k + 1;
    }
    Some(acc)
}

/// The positions within the number that starts at `s`: the end of its integer part,
/// whether it has a fraction, the end of the fraction, whether its exponent has a
/// sign, where the exponent digits start, whether it has an exponent, and its end.
fn number_layout(b: &[u8], s: usize) -> (r: (usize, bool, usize, bool, usize, bool, usize))
    requires
        s < b@.len(),
        is_digit(b@[s as int]),
    ensures
        r.0 == int_end(b@, s as int),
        r.1 == has_frac(b@, r.0 as int),
        r.2 == frac_end(b@, r.0 as int),
        r.3 == exp_has_sign(b@, r.2 as int),
        r.5 == (exp_digits(b@, r.2 as int) is Some),
        r.5 ==> exp_digits(b@, r.2 as int) == Some(r.4 as int),
        r.6 == number_end(b@, s as int),
        s < r.0 <= r.2 <= r.6 <= b@.len(),
        r.1 ==> r.0 + 1 <= r.2,
        r.5 ==> r.2 < r.4 <= r.6,
        forall|k: int| s <= k < r.0 ==> is_digit(#[trigger] b@[k]),
        forall|k: int| r.0 + 1 <= k < r.2 ==> is_digit(#[trigger] b@[k]),
        forall|k: int| r.4 <= k < r.6 ==> is_digit(#[trigger] b@[k]),
{
    let n = b.len();
    proof {
        lemma_digits_run(b@, s as int);
    }
    let ie = if b[s] == 48 {
        s + 1
    } else {
        scan_digits_end(b, s)
    };
    let with_frac = ie < n && b[ie] == 46 && ie + 1 < n && 48 <= b[ie + 1] && b[ie + 1] <= 57;
    proof {
        lemma_digits_run(b@, ie + 1);
    }
    let fe = if with_frac {
        scan_digits_end(b, ie + 1)
    } else {
        ie
    };
    let has_sign = fe < n && fe + 1 < n && (b[fe + 1] == 43 || b[fe + 1] == 45);
    let m = if fe < n {
        if has_sign {
            fe + 2
        } else {
            fe + 1
        }
    } else {
        n
    };
    let has_exp = fe < n && (b[fe] == 101 || b[fe] == 69) && m < n && 48 <= b[m] && b[m] <= 57;
    proof {
        lemma_digits_run(b@, m as int);
    }
    let end = if has_exp {
        scan_digits_end(b, m)
    } else {
        fe
    };
    (ie, with_frac, fe, has_sign, m, has_exp, end)
}

/// The number that starts at `s` and the position after it; no token where its value
/// does not fit (see [`number_fits`]).
fn scan_number(b: &[u8], s: usize) -> (r: (Option<Token>, usize))
    requires
        s < b@.len(),
        is_digit(b@[s as int]),
    ensures
        r.1 == number_end(b@, s as int),
        s < r.1 <= b@.len(),
        r.0 is Some <==> number_fits(b@, s as int, r.1 as int),
        r.0 matches Some(t) ==> if is_fractional(b@, s as int, r.1 as int) {
            t == Token::Float(
                FloatLit {
                    mantissa: digits_value(mantissa_digits(b@, s as int)) as u64,
                    exponent: number_exponent(b@, s as int) as i64,
                },
            )
        } else {
            t == Token::UInt(digits_value(b@.subrange(s as int, r.1 as int)) as u64)
        },
{
    let (ie, with_frac, fe, has_sign, m, has_exp, end) = number_layout(b, s);
    proof {
        assert(Seq::<u8>::empty() + b@.subrange(s as int, ie as int) =~= b@.subrange(s as int, ie as int));
        assert(digits_value(Seq::<u8>::empty()) == 0);
    }
    let head = accumulate(b, s, ie, 0, Ghost(Seq::empty()));
    if end == ie {
        return match head {
            Some(v) => (Some(Token::UInt(v)), end),
            None => (None, end),
        };
    }
    let ghost md = mantissa_digits(b@, s as int);
    let mantissa = match head {
        None => {
            proof {
                lemma_digits_grow(b@.subrange(s as int, ie as int), md.subrange(ie - s, md.len() as int));
                assert(b@.subrange(s as int, ie as int) + md.subrange(ie - s, md.len() as int) =~= md);
            }
            return (None, end);
        },
        Some(v) => {
            if with_frac {
                let r = accumulate(b, ie + 1, fe, v, Ghost(b@.subrange(s as int, ie as int)));
                match r {
                    Some(x) => x,
                    None => {
                        return (None, end);
                    },
                }
            } else {
                proof {
                    assert(md =~= b@.subrange(s as int, ie as int));
                }
                v
            }
        },
    };
    proof {
        assert(Seq::<u8>::empty() + b@.subrange(m as int, end as int) =~= b@.subrange(m as int, end as int));
        assert(!has_exp ==> exponent_digits(b@, s as int) =~= Seq::<u8>::empty());
    }
    let ev: u64 = if has_exp {
        match accumulate(b, m, end, 0, Ghost(Seq::empty())) {
            Some(x) => x,
            None => {
                return (None, end);
            },
        }
    } else {
        0
    };
    let frac_len: u64 = if with_frac {
        (fe - ie - 1) as u64
    } else {
        0
    };
    let neg = has_exp && has_sign && b[fe + 1] == 45;
    let signed: i128 = if neg {
        -(ev as i128)
    } else {
        ev as i128
    };
    let e128: i128 = signed - frac_len as i128;
    if e128 < -9223372036854775808i128 || e128 > 9223372036854775807i128 {
        return (None, end);
    }
    (Some(Token::Float(FloatLit { mantissa, exponent: e128 as i64 })), end)
}

/// Every byte of the run of digits from `i` on is a digit.
proof fn lemma_digits_run(b: Seq<u8>, i: int)
    requires
        0 <= i,
    ensures
        i <= digits_end(b, i),
        i <= b.len() ==> digits_end(b, i) <= b.len(),
        forall|k: int| i <= k < digits_end(b, i) ==> is_digit(#[trigger] b[k]),
    decreases b.len() - i,
{
    if 0 <= i < b.len() && is_digit(b[i]) {
        lemma_digits_run(b, i + 1);
    }
}

/// No token starts at `s`.
pub open spec fn no_token_at(b: Seq<u8>, s: int) -> bool {
    forall|e: int, t: Token| !is_token_at(b, s, e, t)
}

/// What the scanner finds at a position.
enum Scanned {
    /// A token, and the position after it.
    Found(Token, usize),
    /// A number whose value does not fit, and the position after it.
    TooLarge(usize),
    /// No token.
    Nothing,
}

/// Scan the token that starts at `s` (see [`is_token_at`]).
fn scan(src: &str, b: &[u8], s: usize) -> (r: Scanned)
    requires
        b@ == src.spec_bytes(),
        s < b@.len(),
    ensures
        r matches Scanned::Found(t, e) ==> is_token_at(b@, s as int, e as int, t),
        r matches Scanned::TooLarge(e) ==> s < e <= b@.len() && no_token_at(b@, s as int) && is_digit(
            b@[s as int],
        ) && e == number_end(b@, s as int),
        r is Nothing ==> no_token_at(b@, s as int) && !is_digit(b@[s as int]),
{
    let n = b.len();
    match scan_symbol(b, s) {
        Some((t, e)) => {
            return Scanned::Found(t, e);
        },
        None => {},
    }
    let c = b[s];
    if c == 34 {
        let q = scan_quote_end(b, s + 1);
        proof {
            lemma_quote_run(b@, s + 1);
        }
        if q >= n {
            return Scanned::Nothing;
        }
        let e = q + 1;
        if !src.is_char_boundary(s) || !src.is_char_boundary(e) {
            return Scanned::Nothing;
        }
        let name = slice_text(src, s, e);
        return Scanned::Found(Token::Ident(name), e);
    }
    if c == 95 || (65 <= c && c <= 90) || (97 <= c && c <= 122) {
        proof {
            lemma_ident_run(b@, s + 1);
        }
        let e = scan_ident_end(b, s + 1);
        if !src.is_char_boundary(s) || !src.is_char_boundary(e) {
            return Scanned::Nothing;
        }
        return match keyword_at(b, s, e) {
            Some(k) => Scanned::Found(k, e),
            None => Scanned::Found(Token::Ident(slice_text(src, s, e)), e),
        };
    }
    if 48 <= c && c <= 57 {
        let (t, e) = scan_number(b, s);
        return match t {
            Some(t) => Scanned::Found(t, e),
            None => Scanned::TooLarge(e),
        };
    }
    Scanned::Nothing
}

/// The run of identifier bytes from `i` on stays within the bytes.
proof fn lemma_ident_run(b: Seq<u8>, i: int)
    requires
        0 <= i <= b.len(),
    ensures
        i <= ident_end(b, i) <= b.len(),
    decreases b.len() - i,
{
    if 0 <= i < b.len() && is_ident_char(b[i]) {
        lemma_ident_run(b, i + 1);
    }
}

/// The search for a double quote from `i` on stays within the bytes.
proof fn lemma_quote_run(b: Seq<u8>, i: int)
    requires
        0 <= i <= b.len(),
    ensures
        i <= quote_end(b, i) <= b.len(),
    decreases b.len() - i,
{
    if 0 <= i < b.len() && b[i] != 34 {
        lemma_quote_run(b, i + 1);
    }
}

/// The byte at `p` lies in a line comment: a `//` starts at or before it, with no line
/// feed in between.
pub open spec fn in_comment(b: Seq<u8>, p: int) -> bool {
    exists|q: int| 0 <= q <= p && #[trigger] at2(b, q, 47, 47) && forall|k: int| q <= k <= p ==> b[k] != 10
}

/// The position `p` lies in the span of one of the tokens.
pub open spec fn in_token(ts: Seq<(Token, Span)>, p: int) -> bool {
    exists|k: int| 0 <= k < ts.len() && (#[trigger] ts[k]).1.start <= p < ts[k].1.end
}

/// The position `p` lies in one of the spans.
pub open spec fn in_span(es: Seq<Span>, p: int) -> bool {
    exists|k: int| 0 <= k < es.len() && (#[trigger] es[k]).start <= p < es[k].end
}

/// The tokens and error spans that the lexer gives for the bytes `b`, up to `upto`:
/// each token is the token at its span, in order and without overlap; each error span
/// starts where no token starts; and every byte before `upto` lies in a token, in an
/// error span, in a comment, or is a blank.
pub open spec fn is_lexed(b: Seq<u8>, ts: Seq<(Token, Span)>, es: Seq<Span>, upto: int) -> bool {
    &&& forall|k: int|
        0 <= k < ts.len() ==> is_token_at(b, ts[k].1.start as int, ts[k].1.end as int, #[trigger] ts[k].0)
    &&& forall|k: int, l: int| 0 <= k < l < ts.len() ==> #[trigger] ts[k].1.end <= #[trigger] ts[l].1.start
    &&& forall|k: int| 0 <= k < ts.len() ==> #[trigger] ts[k].1.end <= upto
    &&& forall|k: int|
        0 <= k < es.len() ==> (#[trigger] es[k]).start < es[k].end <= upto && no_token_at(
            b,
            es[k].start as int,
        )
    &&& forall|p: int|
        0 <= p < upto ==> in_token(ts, p) || in_span(es, p) || is_blank(b[p]) || in_comment(b, p)
}

/// The number of bytes of the character whose encoding starts with the byte `c`.
pub open spec fn char_len(c: u8) -> int {
    if c < 0x80 {
        1
    } else if c < 0xe0 {
        2
    } else if c < 0xf0 {
        3
    } else {
        4
    }
}

/// The number of bytes of the character whose encoding starts with the byte `c`.
fn char_width(c: u8) -> (r: usize)
    ensures
        r == char_len(c),
{
    if c < 0x80 {
        1
    } else if c < 0xe0 {
        2
    } else if c < 0xf0 {
        3
    } else {
        4
    }
}

/// The position of the first line feed at or after `i`, or the end of the bytes.
pub open spec fn line_end(b: Seq<u8>, i: int) -> int
    decreases b.len() - i,
{
    if 0 <= i < b.len() && b[i] != 10 {
        line_end(b, i + 1)
    } else {
        i
    }
}

/// The end of the error span that starts at `s`, where no token starts: a number
/// that is too large is reported whole, anything else by its character.
pub open spec fn error_end(b: Seq<u8>, s: int) -> int {
    if is_digit(b[s]) {
        number_end(b, s)
    } else if s + char_len(b[s]) <= b.len() {
        s + char_len(b[s])
    } else {
        b.len() as int
    }
}

/// The spans of the tokens and the spans of the errors that lexing finds from `pos`
/// on: blanks and line comments are skipped, a token is taken where one starts, and
/// an error span (see [`error_end`]) where none does.
pub open spec fn lex_spans(b: Seq<u8>, pos: int) -> (Seq<(int, int)>, Seq<(int, int)>)
    decreases b.len() - pos,
{
    if pos < 0 || pos >= b.len() {
        (Seq::empty(), Seq::empty())
    } else if is_blank(b[pos]) {
        lex_spans(b, pos + 1)
    } else if at2(b, pos, 47, 47) {
        let q = line_end(b, pos);
        if pos < q <= b.len() {
            lex_spans(b, q)
        } else {
            (Seq::empty(), Seq::empty())
        }
    } else if !no_token_at(b, pos) {
        let e = lexeme_end(b, pos);
        if pos < e <= b.len() {
            let rest = lex_spans(b, e);
            (seq![(pos, e)] + rest.0, rest.1)
        } else {
            (Seq::empty(), Seq::empty())
        }
    } else {
        let e = error_end(b, pos);
        if pos < e <= b.len() {
            let rest = lex_spans(b, e);
            (rest.0, seq![(pos, e)] + rest.1)
        } else {
            (Seq::empty(), Seq::empty())
        }
    }
}

/// The spans of a list of tokens.
pub open spec fn token_spans(ts: Seq<(Token, Span)>) -> Seq<(int, int)> {
    ts.map_values(|x: (Token, Span)| (x.1.start as int, x.1.end as int))
}

/// The spans of a list of error spans.
pub open spec fn error_spans(es: Seq<Span>) -> Seq<(int, int)> {
    es.map_values(|x: Span| (x.start as int, x.end as int))
}

/// Split a specification into tokens, with the span of each, and the spans of the
/// bytes at which no token starts (see [`is_lexed`]).
///
/// Blanks and line comments are skipped. A byte at which no token starts is reported
/// with its character, and a number too large for its token with the whole number;
/// lexing goes on after them.
pub fn lexer(src: &str) -> (r: (Vec<(Token, Span)>, Vec<Span>))
    ensures
        is_lexed(src.spec_bytes(), r.0@, r.1@, src.spec_bytes().len() as int),
        token_spans(r.0@) == lex_spans(src.spec_bytes(), 0).0,
        error_spans(r.1@) == lex_spans(src.spec_bytes(), 0).1,
{
    let b = src.as_bytes();
    let n = b.len();
    let mut tokens: Vec<(Token, Span)> = Vec::new();
    let mut errors: Vec<Span> = Vec::new();
    let mut pos: usize = 0;
    while pos < n
        invariant
            b@ == src.spec_bytes(),
            n == b@.len(),
            pos <= n,
            is_lexed(b@, tokens@, errors@, pos as int),
            lex_spans(b@, 0) == (token_spans(tokens@) + lex_spans(b@, pos as int).0, error_spans(
                errors@,
            ) + lex_spans(b@, pos as int).1),
        decreases n - pos,
    {
        let ghost old_tokens = tokens@;
        let ghost old_errors = errors@;
        let ghost start = pos as int;
        let c = b[pos];
        if c == 32 || (9 <= c && c <= 13) {
            pos = pos + 1;
        } else if c == 47 && pos + 1 < n && b[pos + 1] == 47 {
            let mut q = pos;
            while q < n && b[q] != 10
                invariant
                    start <= q <= n,
                    n == b@.len(),
                    at2(b@, start, 47, 47),
                    forall|k: int| start <= k < q ==> b@[k] != 10,
                    line_end(b@, start) == line_end(b@, q as int),
                decreases n - q,
            {
                q = q + 1;
            }
            proof {
                assert forall|p: int| start <= p < q implies in_comment(b@, p) by {
                    assert(0 <= start <= p && at2(b@, start, 47, 47) && forall|k: int|
                        start <= k <= p ==> b@[k] != 10);
                }
            }
            pos = q;
        } else {
            match scan(src, b, pos) {
                Scanned::Found(t, e) => {
                    tokens.push((t, Span { start: pos, end: e }));
                    proof {
                        assert forall|p: int| start <= p < e implies in_token(tokens@, p) by {
                            assert(tokens@[tokens@.len() - 1].1.start <= p < tokens@[tokens@.len() - 1].1.end);
                        }
                    }
                    pos = e;
                },
                Scanned::TooLarge(e) => {
                    errors.push(Span { start: pos, end: e });
                    proof {
                        assert forall|p: int| start <= p < e implies in_span(errors@, p) by {
                            assert(errors@[errors@.len() - 1].start <= p < errors@[errors@.len() - 1].end);
                        }
                    }
                    pos = e;
                },
                Scanned::Nothing => {
                    let w = char_width(c);
                    let e = if w <= n - pos {
                        pos + w
                    } else {
                        n
                    };
                    errors.push(Span { start: pos, end: e });
                    proof {
                        assert forall|p: int| start <= p < e implies in_span(errors@, p) by {
                            assert(errors@[errors@.len() - 1].start <= p < errors@[errors@.len() - 1].end);
                        }
                    }
                    pos = e;
                },
            }
        }
        proof {
            let tail = lex_spans(b@, pos as int);
            let here = lex_spans(b@, start);
            if is_blank(b@[start]) {
                assert(here == tail);
            } else if at2(b@, start, 47, 47) {
                assert(here == tail);
            } else if tokens@.len() > old_tokens.len() {
                let e = pos as int;
                assert(tokens@ == old_tokens.push(tokens@.last()));
                assert(!no_token_at(b@, start)) by {
                    assert(is_token_at(b@, start, e, tokens@.last().0));
                }
                assert(here == (seq![(start, e)] + tail.0, tail.1));
                assert(token_spans(tokens@) =~= token_spans(old_tokens).push((start, e)));
                assert(token_spans(old_tokens) + here.0 =~= token_spans(tokens@) + tail.0);
            } else {
                let e = pos as int;
                assert(errors@ == old_errors.push(errors@.last()));
                assert(here == (tail.0, seq![(start, e)] + tail.1));
                assert(error_spans(errors@) =~= error_spans(old_errors).push((start, e)));
                assert(error_spans(old_errors) + here.1 =~= error_spans(errors@) + tail.1);
            }
        }
        proof {
            assert forall|p: int| 0 <= p < start implies in_token(tokens@, p) || in_span(errors@, p)
                || is_blank(b@[p]) || in_comment(b@, p) by {
                if in_token(old_tokens, p) {
                    let k = choose|k: int|
                        0 <= k < old_tokens.len() && (#[trigger] old_tokens[k]).1.start <= p < old_tokens[k].1.end;
                    assert(tokens@[k] == old_tokens[k]);
                }
                if in_span(old_errors, p) {
                    let k = choose|k: int|
                        0 <= k < old_errors.len() && (#[trigger] old_errors[k]).start <= p < old_errors[k].end;
                    assert(errors@[k] == old_errors[k]);
                }
            }
        }
    }
    (tokens, errors)
}

} // verus!
