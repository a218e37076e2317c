//! A tree-walking evaluator for a small expression language over rational
//! complex numbers, with lexical variable definitions and first-class (but
//! unapplied) closures.
//!
//! Every expression denotes a possibly-empty ordered sequence of values;
//! binary arithmetic combines its operands' sequences as a cartesian product.
//! Bindings live in a stack of scope frames; definitions are stored
//! unevaluated and re-evaluated on every lookup.

pub mod arith;
pub mod eval;
pub mod nodes;
pub mod values;
