use calculator::{calculate, EvalError};

/// Evaluates and renders the exact rational result as a double.
fn eval_f64(expression: &str) -> f64 {
    let v = calculate(expression).unwrap();
    v.num as f64 / v.den as f64
}

/// Evaluates and returns the error's message.
fn eval_msg(expression: &str) -> String {
    calculate(expression).unwrap_err().message()
}

/// Evaluates and returns the error itself.
fn eval_err(expression: &str) -> EvalError {
    calculate(expression).unwrap_err()
}

#[test]
fn test_basic_arithmetic() {
    assert_eq!(eval_f64("2 + 2"), 4.0);
    assert_eq!(eval_f64("3 - 1"), 2.0);
    assert_eq!(eval_f64("4 * 5"), 20.0);
    assert_eq!(eval_f64("10 / 2"), 5.0);
}

#[test]
fn test_operator_precedence() {
    assert_eq!(eval_f64("2 + 3 * 4"), 14.0);
    assert_eq!(eval_f64("10 - 2 * 3"), 4.0);
    assert_eq!(eval_f64("(2 + 3) * 4"), 20.0);
    assert_eq!(eval_f64("10 / (2 + 3)"), 2.0);
}

#[test]
fn test_negative_numbers() {
    assert_eq!(eval_f64("-5 + 3"), -2.0);
    assert_eq!(eval_f64("2 * -4"), -8.0);
    assert_eq!(eval_f64("(-3 + 4) * 2"), 2.0);
}

#[test]
fn test_decimal_numbers() {
    assert_eq!(eval_f64("1.5 + 2.5"), 4.0);
    assert_eq!(eval_f64("3.0 * 1.5"), 4.5);
    assert_eq!(eval_f64("5.0 / 2.0"), 2.5);
}

#[test]
fn test_invalid_expressions() {
    let result = calculate("2 +");
    assert!(result.is_err());
    assert_eq!(result.unwrap_err().message(), "Unexpected end of expression");

    let result = calculate("+ 2");
    assert!(result.is_err());
    assert_eq!(result.unwrap_err().message(), "Unexpected token or end of expression");

    let result = calculate("2 + (3");
    assert!(result.is_err());
    assert_eq!(result.unwrap_err().message(), "Missing closing parenthesis");

    let result = calculate("2 + 3)");
    assert!(result.is_err());
    assert_eq!(result.unwrap_err().message(), "Invalid expression");

    let result = calculate("2 + a");
    assert!(result.is_err());
    assert_eq!(result.unwrap_err().message(), "Unexpected token or end of expression");
}

#[test]
fn test_error_kinds() {
    assert_eq!(eval_err("2 +"), EvalError::UnexpectedEnd);
    assert_eq!(eval_err("+ 2"), EvalError::UnexpectedToken);
    assert_eq!(eval_err("2 + (3"), EvalError::UnterminatedParenthesis);
    assert_eq!(eval_err("2 + 3)"), EvalError::TrailingInput);
    assert_eq!(eval_err("2 + a"), EvalError::UnexpectedToken);
    assert_eq!(eval_err("10 / (5 - 5)"), EvalError::DivisionByZero);
    assert_eq!(eval_err(""), EvalError::EmptyExpression);
    assert_eq!(eval_err("   "), EvalError::EmptyExpression);
}

#[test]
fn test_empty_expression_message() {
    assert_eq!(eval_msg(""), "Empty expression");
    assert_eq!(eval_msg("   "), "Empty expression");
}

#[test]
fn test_division_by_zero() {
    assert_eq!(eval_err("10 / (5 - 5)"), EvalError::DivisionByZero);
    assert_eq!(eval_msg("1 / 0"), "Division by zero");
    // A nonzero divisor that merely contains a zero digit divides fine.
    assert_eq!(eval_f64("10 / 10"), 1.0);
}

#[test]
fn test_second_decimal_point() {
    // The number token ends at the second dot, which then trails the parse.
    assert_eq!(eval_err("1.2.3"), EvalError::TrailingInput);
    assert_eq!(eval_msg("1.2.3"), "Invalid expression");
}

#[test]
fn test_number_edge_forms() {
    // A trailing or leading dot still makes a number; a lone dot does not.
    assert_eq!(eval_f64("1."), 1.0);
    assert_eq!(eval_f64(".5"), 0.5);
    assert_eq!(eval_err("."), EvalError::InvalidNumber);
    assert_eq!(eval_err("2 + ."), EvalError::InvalidNumber);
}

#[test]
fn test_chained_unary_minus() {
    assert_eq!(eval_f64("--5"), 5.0);
    assert_eq!(eval_f64("-(2 + 3)"), -5.0);
    assert_eq!(eval_f64("2 * --4"), 8.0);
}

#[test]
fn test_nested_parentheses() {
    assert_eq!(eval_f64("((2))"), 2.0);
    assert_eq!(eval_f64("(1 + (2 * (3 + 4)))"), 15.0);
    assert_eq!(eval_err("((2)"), EvalError::UnterminatedParenthesis);
}

#[test]
fn test_left_associativity() {
    assert_eq!(eval_f64("10 - 3 - 2"), 5.0);
    assert_eq!(eval_f64("100 / 10 / 2"), 5.0);
}

#[test]
fn test_whitespace_insensitivity() {
    assert_eq!(calculate("2+2"), calculate(" 2 + 2 "));
    assert_eq!(calculate("10/(2+3)"), calculate("10 / ( 2 + 3 )"));
    assert_eq!(calculate("1.5+2.5"), calculate("\t1.5 +\n2.5\r"));
}

#[test]
fn test_idempotence() {
    let first = calculate("2 + 3 * 4");
    let second = calculate("2 + 3 * 4");
    assert_eq!(first, second);
    let first = calculate("1.2.3");
    let second = calculate("1.2.3");
    assert_eq!(first, second);
}

#[test]
fn test_exact_rational_result() {
    // One third has no finite decimal form; the result is exact.
    let v = calculate("1 / 3").unwrap();
    assert_eq!(v.num, 1);
    assert_eq!(v.den, 3);
    let v = calculate("1.5 + 2.5").unwrap();
    assert_eq!(v.num as f64 / v.den as f64, 4.0);
}

#[test]
fn test_overflow_reported() {
    // Twenty nines exceed the evaluator's exact integer range.
    assert_eq!(eval_err("99999999999999999999"), EvalError::Overflow);
    assert_eq!(eval_msg("99999999999999999999"), "Arithmetic overflow");
    assert_eq!(eval_err("-9223372036854775808"), EvalError::Overflow);
    assert_eq!(eval_f64("9223372036854775807"), 9223372036854775807.0);
}
