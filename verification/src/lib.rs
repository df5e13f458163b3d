//! A calculator for flat arithmetic expressions: signed decimal numbers
//! joined by `+`, `-`, `*` and `/`, without parentheses.
//!
//! [`parse`] recognises a text as an expression and splits it into tokens.
//! [`evaluate`] reduces the tokens by precedence to a sum of terms, each a
//! chain of multiplications and divisions. The library holds no floating
//! point: [`Reduction::total`] multiplies the terms out and adds them up
//! over any kind of number, with the operations that its caller brings. The
//! module [`semantics`] says what that gives, and that it is the value of
//! the expression.

pub mod builder;
pub mod calculator;
pub mod errors;
pub mod evaluation;
pub mod grammar;
pub mod parsing;
pub mod precedence;
pub mod semantics;
pub mod text;

pub use builder::ExpressionBuilder;
pub use calculator::{calculate, ArithmeticRequest, ArithmeticResponse, Status};
pub use errors::ArithmeticError;
pub use evaluation::{evaluate, Operator, Reduction, Term};
pub use parsing::{parse, Expression, Token, TokenKind};
