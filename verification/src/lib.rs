//! A verified evaluator for single-line arithmetic expressions.
//!
//! The evaluator parses and evaluates in one recursive descent over the
//! whitespace-stripped input: integers and decimals, `+ - * /`, unary minus,
//! and parentheses, with the usual precedence and left associativity.
//! Values are exact rationals; the hosting side may render them as doubles.

pub mod error;
pub mod eval;
pub mod grammar;
pub mod value;

pub use crate::error::EvalError;
pub use crate::eval::calculate;
pub use crate::value::Value;

use vstd::prelude::*;

verus! {

} // verus!
