//! Abstract syntax of the source language, as the external parser produces it.

use vstd::prelude::*;

verus! {

/// One node of the abstract syntax tree.
///
/// A `Number(numerator, denominator)` is a real rational literal; a
/// denominator of zero is a legal tree shape, though arithmetic on the
/// resulting value then fails rather than divide by zero.
#[derive(Debug, PartialEq)]
pub enum Expression {
    /// Binds the left expression (when it is a `Variable`) to the right
    /// expression in the innermost scope frame.
    Define(Box<Expression>, Box<Expression>),
    /// A lambda literal: parameter pattern and body, kept verbatim.
    Closure(Box<Expression>, Box<Expression>),
    /// Binary multiplication over the operands' value sequences.
    Multiply(Box<Expression>, Box<Expression>),
    /// Binary addition over the operands' value sequences.
    Add(Box<Expression>, Box<Expression>),
    /// A real rational literal: numerator and denominator.
    Number(i64, i64),
    /// The literal unit imaginary value.
    ImaginaryConstant,
    /// A named reference, resolved innermost-first in the scope stack.
    Variable(String),
    /// A literal truth value.
    Boolean(bool),
}

impl Clone for Expression {
    /// A clone is equal to the original, so stored definitions can be
    /// handed out and re-evaluated without loss.
    fn clone(&self) -> (res: Self)
        ensures
            res == *self,
        decreases *self,
    {
        match self {
            Expression::Define(l, r) => Expression::Define(
                Box::new((**l).clone()),
                Box::new((**r).clone()),
            ),
            Expression::Closure(p, b) => Expression::Closure(
                Box::new((**p).clone()),
                Box::new((**b).clone()),
            ),
            Expression::Multiply(x, y) => Expression::Multiply(
                Box::new((**x).clone()),
                Box::new((**y).clone()),
            ),
            Expression::Add(x, y) => Expression::Add(
                Box::new((**x).clone()),
                Box::new((**y).clone()),
            ),
            Expression::Number(n, d) => Expression::Number(*n, *d),
            Expression::ImaginaryConstant => Expression::ImaginaryConstant,
            Expression::Variable(name) => Expression::Variable(name.clone()),
            Expression::Boolean(b) => Expression::Boolean(*b),
        }
    }
}

} // verus!
