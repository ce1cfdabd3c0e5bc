//! An interpreter for the untyped lambda calculus with string literals and
//! named macros: a memoising recursive-descent parser, a compiler that
//! resolves names to binder positions and macro definitions, and a
//! normal-order evaluator with a bound on its work.

pub mod span;
pub mod utils;
pub mod error;
pub mod parser;
pub mod interpreter;
pub mod compiler;
