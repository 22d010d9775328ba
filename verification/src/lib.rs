//! Signals, signal temporal logic expressions and their monitoring.
use vstd::prelude::*;

pub mod abs;
pub mod arith;
pub mod ast_iter;
pub mod bool_ops;
pub mod bound;
pub mod builder;
pub mod cmp_ops;
pub mod error;
pub mod expr;
pub mod interpolation;
pub mod interval;
pub mod laws;
pub mod lexer;
pub mod ops;
pub mod order;
pub mod parse;
pub mod relation;
pub mod shift_ops;
pub mod signal;
pub mod sync;
pub mod syntax;
pub mod temporal;
pub mod until;
pub mod wedge;
pub mod window;
