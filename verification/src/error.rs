use vstd::prelude::*;

verus! {

/// The reasons an evaluation can fail. Every error is terminal: the evaluator
/// reports the first one it meets and does no recovery.
#[derive(Clone, Copy, Debug, PartialEq, Eq, Structural)]
pub enum EvalError {
    /// The input was empty once whitespace was removed.
    EmptyExpression,
    /// The input ended where a factor (a number, `(`, or `-`) was required.
    UnexpectedEnd,
    /// A factor position held a character that starts no factor.
    UnexpectedToken,
    /// A `(` was never matched by a `)`.
    UnterminatedParenthesis,
    /// The right-hand factor of a `/` evaluated to exactly zero.
    DivisionByZero,
    /// A numeric token held no digits (a lone `.`).
    InvalidNumber,
    /// Characters remained after a complete top-level parse.
    TrailingInput,
    /// An exact intermediate value left the range this library computes in.
    Overflow,
}

impl EvalError {
    /// The human-readable description of this error.
    pub fn message(&self) -> (r: String)
        ensures
            *self == EvalError::EmptyExpression ==> r@ == "Empty expression"@,
            *self == EvalError::UnexpectedEnd ==> r@ == "Unexpected end of expression"@,
            *self == EvalError::UnexpectedToken ==> r@ == "Unexpected token or end of expression"@,
            *self == EvalError::UnterminatedParenthesis ==> r@ == "Missing closing parenthesis"@,
            *self == EvalError::DivisionByZero ==> r@ == "Division by zero"@,
            *self == EvalError::InvalidNumber ==> r@ == "Invalid number"@,
            *self == EvalError::TrailingInput ==> r@ == "Invalid expression"@,
            *self == EvalError::Overflow ==> r@ == "Arithmetic overflow"@,
    {
        match *self {
            EvalError::EmptyExpression => String::from_str("Empty expression"),
            EvalError::UnexpectedEnd => String::from_str("Unexpected end of expression"),
            EvalError::UnexpectedToken => String::from_str("Unexpected token or end of expression"),
            EvalError::UnterminatedParenthesis => String::from_str("Missing closing parenthesis"),
            EvalError::DivisionByZero => String::from_str("Division by zero"),
            EvalError::InvalidNumber => String::from_str("Invalid number"),
            EvalError::TrailingInput => String::from_str("Invalid expression"),
            EvalError::Overflow => String::from_str("Arithmetic overflow"),
        }
    }
}

} // verus!
