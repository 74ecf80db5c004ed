use vstd::prelude::*;

use crate::error::EvalError;
use crate::value::{lemma_sign_mul, rat_add, rat_div, rat_mul, rat_neg, rat_sub, Value};

verus! {

// ---------------------------------------------------------------------------
// Characters
// ---------------------------------------------------------------------------

/// Whether `c` is a whitespace character the evaluator ignores.
pub open spec fn is_ws_char(c: char) -> bool {
    c == ' ' || c == '\t' || c == '\n' || c == '\r'
}

/// Whether `c` is a decimal digit.
pub open spec fn is_digit_char(c: char) -> bool {
    '0' <= c && c <= '9'
}

/// The numeric value of a decimal digit character.
pub open spec fn digit_val(c: char) -> int {
    c as u32 - 48
}

/// `s` with every whitespace character removed.
pub open spec fn strip_ws(s: Seq<char>) -> Seq<char>
    decreases s.len(),
{
    if s.len() == 0 {
        Seq::empty()
    } else if is_ws_char(s.last()) {
        strip_ws(s.drop_last())
    } else {
        strip_ws(s.drop_last()).push(s.last())
    }
}

// ---------------------------------------------------------------------------
// The meaning of the grammar
//
//   Expression := Term (('+' | '-') Term)*
//   Term       := Factor (('*' | '/') Factor)*
//   Factor     := '(' Expression ')' | '-' Factor | Number
//   Number     := a greedy run of digits with at most one '.'
//
// Each rule, applied to the stripped input at a position, either produces an
// exact rational together with the position of the first unconsumed
// character, or fails with the first error met. Arithmetic whose raw
// numerator or denominator leaves the `i64` range fails with `Overflow`.
// ---------------------------------------------------------------------------

/// What one grammar rule yields at a position: a rational and the next
/// unconsumed position, or the first error met.
pub enum Step {
    Val { num: int, den: int, next: int },
    Fail { err: EvalError },
}

/// What a whole evaluation yields: a rational, or the first error met.
pub enum Outcome {
    Val { num: int, den: int },
    Fail { err: EvalError },
}

/// The meaning of the Number rule, mid-scan: `num / den` is the value read so
/// far, `saw_digit` records whether any digit was read, and `has_dot` whether
/// the decimal point was. A second `.` is not consumed: it ends the token and
/// is left for the enclosing rule. A token without a digit (a lone `.`) is
/// invalid.
pub open spec fn spec_number(s: Seq<char>, i: int, saw_digit: bool, has_dot: bool, num: int, den: int) -> Step
    decreases s.len() - i, 0int,
{
    if i < s.len() && is_digit_char(s[i]) {
        let d = digit_val(s[i]);
        if num * 10 + d > i64::MAX as int || (has_dot && den * 10 > i64::MAX as int) {
            Step::Fail { err: EvalError::Overflow }
        } else {
            spec_number(s, i + 1, true, has_dot, num * 10 + d, if has_dot { den * 10 } else { den })
        }
    } else if i < s.len() && s[i] == '.' && !has_dot {
        spec_number(s, i + 1, saw_digit, true, num, den)
    } else if saw_digit {
        Step::Val { num, den, next: i }
    } else {
        Step::Fail { err: EvalError::InvalidNumber }
    }
}

/// The meaning of the Factor rule at a position: a parenthesized expression,
/// a negated factor, or a number; anything else, or the end of the input, is
/// an unexpected token.
pub open spec fn spec_factor(s: Seq<char>, i: int) -> Step
    decreases s.len() - i, 1int,
{
    if i >= s.len() {
        Step::Fail { err: EvalError::UnexpectedEnd }
    } else if s[i] == '(' {
        match spec_expression(s, i + 1) {
            Step::Fail { err } => Step::Fail { err },
            Step::Val { num, den, next } => if next < s.len() && s[next] == ')' {
                Step::Val { num, den, next: next + 1 }
            } else {
                Step::Fail { err: EvalError::UnterminatedParenthesis }
            },
        }
    } else if is_digit_char(s[i]) || s[i] == '.' {
        spec_number(s, i, false, false, 0, 1)
    } else if s[i] == '-' {
        match spec_factor(s, i + 1) {
            Step::Fail { err } => Step::Fail { err },
            Step::Val { num, den, next } => match rat_neg(num, den) {
                Some(nd) => Step::Val { num: nd.0, den: nd.1, next },
                None => Step::Fail { err: EvalError::Overflow },
            },
        }
    } else {
        Step::Fail { err: EvalError::UnexpectedToken }
    }
}

/// The meaning of the Term rule at a position: a factor followed by the
/// left-associative chain the rest of the rule recognizes. The progress
/// guard (`i < next <= s.len()`) always holds of a factor's result; it makes
/// termination of the definition plain.
pub open spec fn spec_term(s: Seq<char>, i: int) -> Step
    decreases s.len() - i, 2int,
{
    match spec_factor(s, i) {
        Step::Fail { err } => Step::Fail { err },
        Step::Val { num, den, next } => if i < next <= s.len() {
            spec_term_rest(s, next, num, den)
        } else {
            Step::Val { num, den, next }
        },
    }
}

/// The rest of a Term after a left operand `num / den`: as long as a `*` or
/// `/` follows, the next factor is combined into the left operand. A divisor
/// of exactly zero fails with `DivisionByZero` before any division.
pub open spec fn spec_term_rest(s: Seq<char>, i: int, num: int, den: int) -> Step
    decreases s.len() - i, 3int,
{
    if i < s.len() && s[i] == '*' {
        match spec_factor(s, i + 1) {
            Step::Fail { err } => Step::Fail { err },
            Step::Val { num: rn, den: rd, next } => match rat_mul(num, den, rn, rd) {
                None => Step::Fail { err: EvalError::Overflow },
                Some(nd) => if i < next <= s.len() {
                    spec_term_rest(s, next, nd.0, nd.1)
                } else {
                    Step::Val { num: nd.0, den: nd.1, next }
                },
            },
        }
    } else if i < s.len() && s[i] == '/' {
        match spec_factor(s, i + 1) {
            Step::Fail { err } => Step::Fail { err },
            Step::Val { num: rn, den: rd, next } => if rn == 0 {
                Step::Fail { err: EvalError::DivisionByZero }
            } else {
                match rat_div(num, den, rn, rd) {
                    None => Step::Fail { err: EvalError::Overflow },
                    Some(nd) => if i < next <= s.len() {
                        spec_term_rest(s, next, nd.0, nd.1)
                    } else {
                        Step::Val { num: nd.0, den: nd.1, next }
                    },
                }
            },
        }
    } else {
        Step::Val { num, den, next: i }
    }
}

/// The meaning of the Expression rule at a position: a term followed by the
/// left-associative chain the rest of the rule recognizes.
pub open spec fn spec_expression(s: Seq<char>, i: int) -> Step
    decreases s.len() - i, 4int,
{
    match spec_term(s, i) {
        Step::Fail { err } => Step::Fail { err },
        Step::Val { num, den, next } => if i < next <= s.len() {
            spec_expression_rest(s, next, num, den)
        } else {
            Step::Val { num, den, next }
        },
    }
}

/// The rest of an Expression after a left operand `num / den`: as long as a
/// `+` or `-` follows, the next term is combined into the left operand.
pub open spec fn spec_expression_rest(s: Seq<char>, i: int, num: int, den: int) -> Step
    decreases s.len() - i, 5int,
{
    if i < s.len() && s[i] == '+' {
        match spec_term(s, i + 1) {
            Step::Fail { err } => Step::Fail { err },
            Step::Val { num: rn, den: rd, next } => match rat_add(num, den, rn, rd) {
                None => Step::Fail { err: EvalError::Overflow },
                Some(nd) => if i < next <= s.len() {
                    spec_expression_rest(s, next, nd.0, nd.1)
                } else {
                    Step::Val { num: nd.0, den: nd.1, next }
                },
            },
        }
    } else if i < s.len() && s[i] == '-' {
        match spec_term(s, i + 1) {
            Step::Fail { err } => Step::Fail { err },
            Step::Val { num: rn, den: rd, next } => match rat_sub(num, den, rn, rd) {
                None => Step::Fail { err: EvalError::Overflow },
                Some(nd) => if i < next <= s.len() {
                    spec_expression_rest(s, next, nd.0, nd.1)
                } else {
                    Step::Val { num: nd.0, den: nd.1, next }
                },
            },
        }
    } else {
        Step::Val { num, den, next: i }
    }
}

/// The meaning of a whole evaluation: strip whitespace, reject an empty
/// input, apply the Expression rule at the start, and reject any unconsumed
/// remainder.
pub open spec fn spec_calculate(s: Seq<char>) -> Outcome {
    let t = strip_ws(s);
    if t.len() == 0 {
        Outcome::Fail { err: EvalError::EmptyExpression }
    } else {
        match spec_expression(t, 0) {
            Step::Fail { err } => Outcome::Fail { err },
            Step::Val { num, den, next } => if next < t.len() {
                Outcome::Fail { err: EvalError::TrailingInput }
            } else {
                Outcome::Val { num, den }
            },
        }
    }
}

/// The `Step` a parsing function's return value denotes.
pub open spec fn step_of(r: Result<(Value, usize), EvalError>) -> Step {
    match r {
        Ok(vp) => Step::Val { num: vp.0.num as int, den: vp.0.den as int, next: vp.1 as int },
        Err(e) => Step::Fail { err: e },
    }
}

/// The `Outcome` an evaluation's return value denotes.
pub open spec fn outcome_of(r: Result<Value, EvalError>) -> Outcome {
    match r {
        Ok(v) => Outcome::Val { num: v.num as int, den: v.den as int },
        Err(e) => Outcome::Fail { err: e },
    }
}

// ---------------------------------------------------------------------------
// The evaluator
// ---------------------------------------------------------------------------

/// The characters of `expr` with every whitespace character removed.
fn remove_whitespace(expr: &str) -> (t: Vec<char>)
    ensures
        t@ == strip_ws(expr@),
{
    let n = expr.unicode_len();
    let mut out: Vec<char> = Vec::new();
    let mut i: usize = 0;
    while i < n
        invariant
            i <= n,
            n == expr@.len(),
            out@ == strip_ws(expr@.subrange(0, i as int)),
        decreases n - i,
    {
        let c = expr.get_char(i);
        if !(c == ' ' || c == '\t' || c == '\n' || c == '\r') {
            out.push(c);
        }
        i = i + 1;
        proof {
            let pre = expr@.subrange(0, i as int);
            assert(pre.drop_last() =~= expr@.subrange(0, i - 1));
            assert(pre.last() == expr@[i - 1]);
        }
    }
    proof {
        assert(expr@.subrange(0, n as int) =~= expr@);
    }
    out
}

/// Reads one Number token: a greedy run of digits with at most one `.`.
fn parse_number(s: &Vec<char>, pos: usize) -> (r: Result<(Value, usize), EvalError>)
    requires
        pos <= s@.len(),
    ensures
        step_of(r) == spec_number(s@, pos as int, false, false, 0, 1),
        r matches Ok(vp) ==> vp.0.wf() && pos < vp.1 <= s@.len(),
{
    let mut i: usize = pos;
    let mut saw_digit = false;
    let mut has_dot = false;
    let mut num: i64 = 0;
    let mut den: i64 = 1;
    let mut done = false;
    while !done && i < s.len()
        invariant
            pos <= i <= s@.len(),
            0 <= num,
            1 <= den,
            saw_digit ==> pos < i,
            spec_number(s@, pos as int, false, false, 0, 1) == spec_number(s@, i as int,
                saw_digit, has_dot, num as int, den as int),
            done ==> i < s@.len() && !is_digit_char(s@[i as int]) && !(s@[i as int] == '.'
                && !has_dot),
        decreases s@.len() - i, (if done { 0int } else { 1int }),
    {
        let c = s[i];
        if '0' <= c && c <= '9' {
            let d: u32 = c as u32 - 48;
            let nn: i128 = num as i128 * 10 + d as i128;
            let dd: i128 = if has_dot {
                den as i128 * 10
            } else {
                den as i128
            };
            if nn > i64::MAX as i128 || dd > i64::MAX as i128 {
                return Err(EvalError::Overflow);
            }
            num = nn as i64;
            den = dd as i64;
            saw_digit = true;
            i = i + 1;
        } else if c == '.' && !has_dot {
            has_dot = true;
            i = i + 1;
        } else {
            done = true;
        }
    }
    if saw_digit {
        Ok((Value { num, den }, i))
    } else {
        Err(EvalError::InvalidNumber)
    }
}

/// Reads one Factor: a parenthesized expression, a negated factor, or a
/// number.
fn parse_factor(s: &Vec<char>, pos: usize) -> (r: Result<(Value, usize), EvalError>)
    requires
        pos <= s@.len(),
    ensures
        step_of(r) == spec_factor(s@, pos as int),
        r matches Ok(vp) ==> vp.0.wf() && pos < vp.1 <= s@.len(),
    decreases s@.len() - pos, 1int,
{
    if pos >= s.len() {
        return Err(EvalError::UnexpectedEnd);
    }
    let c = s[pos];
    if c == '(' {
        match parse_expression(s, pos + 1) {
            Err(e) => Err(e),
            Ok((v, p)) => {
                if p < s.len() && s[p] == ')' {
                    Ok((v, p + 1))
                } else {
                    Err(EvalError::UnterminatedParenthesis)
                }
            },
        }
    } else if ('0' <= c && c <= '9') || c == '.' {
        parse_number(s, pos)
    } else if c == '-' {
        match parse_factor(s, pos + 1) {
            Err(e) => Err(e),
            Ok((v, p)) => match v.neg() {
                Some(w) => Ok((w, p)),
                None => Err(EvalError::Overflow),
            },
        }
    } else {
        Err(EvalError::UnexpectedToken)
    }
}

/// Reads one Term: a factor and then the chain `parse_term_rest` recognizes.
fn parse_term(s: &Vec<char>, pos: usize) -> (r: Result<(Value, usize), EvalError>)
    requires
        pos <= s@.len(),
    ensures
        step_of(r) == spec_term(s@, pos as int),
        r matches Ok(vp) ==> vp.0.wf() && pos < vp.1 <= s@.len(),
    decreases s@.len() - pos, 2int,
{
    match parse_factor(s, pos) {
        Err(e) => Err(e),
        Ok((v, p)) => parse_term_rest(s, p, v),
    }
}

/// Extends the left operand `acc` with every following `* Factor` or
/// `/ Factor`, left to right. A divisor of exactly zero is rejected before
/// any division.
fn parse_term_rest(s: &Vec<char>, pos: usize, acc: Value) -> (r: Result<(Value, usize), EvalError>)
    requires
        acc.wf(),
        pos <= s@.len(),
    ensures
        step_of(r) == spec_term_rest(s@, pos as int, acc.num as int, acc.den as int),
        r matches Ok(vp) ==> vp.0.wf() && pos <= vp.1 <= s@.len(),
    decreases s@.len() - pos, 3int,
{
    if pos >= s.len() {
        return Ok((acc, pos));
    }
    let c = s[pos];
    if c == '*' {
        match parse_factor(s, pos + 1) {
            Err(e) => Err(e),
            Ok((v, p)) => match acc.mul(v) {
                None => Err(EvalError::Overflow),
                Some(w) => parse_term_rest(s, p, w),
            },
        }
    } else if c == '/' {
        match parse_factor(s, pos + 1) {
            Err(e) => Err(e),
            Ok((v, p)) => {
                if v.num == 0 {
                    Err(EvalError::DivisionByZero)
                } else {
                    match acc.div(v) {
                        None => Err(EvalError::Overflow),
                        Some(w) => parse_term_rest(s, p, w),
                    }
                }
            },
        }
    } else {
        Ok((acc, pos))
    }
}

/// Reads one Expression: a term and then the chain `parse_expression_rest`
/// recognizes.
fn parse_expression(s: &Vec<char>, pos: usize) -> (r: Result<(Value, usize), EvalError>)
    requires
        pos <= s@.len(),
    ensures
        step_of(r) == spec_expression(s@, pos as int),
        r matches Ok(vp) ==> vp.0.wf() && pos < vp.1 <= s@.len(),
    decreases s@.len() - pos, 4int,
{
    match parse_term(s, pos) {
        Err(e) => Err(e),
        Ok((v, p)) => parse_expression_rest(s, p, v),
    }
}

/// Extends the left operand `acc` with every following `+ Term` or `- Term`,
/// left to right.
fn parse_expression_rest(s: &Vec<char>, pos: usize, acc: Value) -> (r: Result<
    (Value, usize),
    EvalError,
>)
    requires
        acc.wf(),
        pos <= s@.len(),
    ensures
        step_of(r) == spec_expression_rest(s@, pos as int, acc.num as int, acc.den as int),
        r matches Ok(vp) ==> vp.0.wf() && pos <= vp.1 <= s@.len(),
    decreases s@.len() - pos, 5int,
{
    if pos >= s.len() {
        return Ok((acc, pos));
    }
    let c = s[pos];
    if c == '+' {
        match parse_term(s, pos + 1) {
            Err(e) => Err(e),
            Ok((v, p)) => match acc.add(v) {
                None => Err(EvalError::Overflow),
                Some(w) => parse_expression_rest(s, p, w),
            },
        }
    } else if c == '-' {
        match parse_term(s, pos + 1) {
            Err(e) => Err(e),
            Ok((v, p)) => match acc.sub(v) {
                None => Err(EvalError::Overflow),
                Some(w) => parse_expression_rest(s, p, w),
            },
        }
    } else {
        Ok((acc, pos))
    }
}

/// Strips whitespace, rejects an empty input, applies the Expression rule to
/// the whole of what remains, and rejects any unconsumed remainder.
fn evaluate_expression(expr: &str) -> (r: Result<Value, EvalError>)
    ensures
        outcome_of(r) == spec_calculate(expr@),
        r matches Ok(v) ==> v.wf(),
{
    let t = remove_whitespace(expr);
    if t.len() == 0 {
        return Err(EvalError::EmptyExpression);
    }
    match parse_expression(&t, 0) {
        Err(e) => Err(e),
        Ok((v, p)) => {
            if p < t.len() {
                Err(EvalError::TrailingInput)
            } else {
                Ok(v)
            }
        },
    }
}

/// Evaluates a single-line arithmetic expression: integers and decimals,
/// `+ - * /`, unary minus, and parentheses, with the usual precedence and
/// left associativity, over exact rationals.
///
/// The result is exactly the outcome `spec_calculate` gives the input's
/// characters: the first error met, or a well-formed rational value.
pub fn calculate(expression: &str) -> (r: Result<Value, EvalError>)
    ensures
        outcome_of(r) == spec_calculate(expression@),
        r matches Ok(v) ==> v.wf(),
{
    evaluate_expression(expression)
}

// ---------------------------------------------------------------------------
// Laws
// ---------------------------------------------------------------------------

/// A successful Number rule yields a positive denominator, consumes at least
/// one character when nothing was read yet, and never runs past the end.
proof fn lemma_number_wf(s: Seq<char>, i: int, saw_digit: bool, has_dot: bool, num: int, den: int)
    requires
        0 <= i <= s.len(),
        1 <= den,
    ensures
        spec_number(s, i, saw_digit, has_dot, num, den) matches Step::Val { den: d, next, .. }
            ==> 1 <= d && i <= next <= s.len() && (!saw_digit ==> i < next),
    decreases s.len() - i, 0int,
{
    if i < s.len() && is_digit_char(s[i]) {
        let d = digit_val(s[i]);
        if !(num * 10 + d > i64::MAX as int || (has_dot && den * 10 > i64::MAX as int)) {
            lemma_number_wf(s, i + 1, true, has_dot, num * 10 + d,
                if has_dot { den * 10 } else { den });
        }
    } else if i < s.len() && s[i] == '.' && !has_dot {
        lemma_number_wf(s, i + 1, saw_digit, true, num, den);
    }
}

/// A successful Factor rule yields a positive denominator and consumes at
/// least one character without running past the end.
proof fn lemma_factor_wf(s: Seq<char>, i: int)
    requires
        0 <= i,
    ensures
        spec_factor(s, i) matches Step::Val { den: d, next, .. } ==> 1 <= d && i < next
            <= s.len(),
    decreases s.len() - i, 1int,
{
    if i < s.len() {
        if s[i] == '(' {
            lemma_expression_wf(s, i + 1);
        } else if is_digit_char(s[i]) || s[i] == '.' {
            lemma_number_wf(s, i, false, false, 0, 1);
        } else if s[i] == '-' {
            lemma_factor_wf(s, i + 1);
        }
    }
}

/// A successful Term rule yields a positive denominator and consumes at
/// least one character without running past the end.
proof fn lemma_term_wf(s: Seq<char>, i: int)
    requires
        0 <= i,
    ensures
        spec_term(s, i) matches Step::Val { den: d, next, .. } ==> 1 <= d && i < next <= s.len(),
    decreases s.len() - i, 2int,
{
    lemma_factor_wf(s, i);
    match spec_factor(s, i) {
        Step::Val { num, den, next } => {
            if i < next <= s.len() {
                lemma_term_rest_wf(s, next, num, den);
            }
        },
        Step::Fail { .. } => {},
    }
}

/// The rest of a Term keeps the denominator positive and never moves the
/// cursor backwards or past the end.
proof fn lemma_term_rest_wf(s: Seq<char>, i: int, num: int, den: int)
    requires
        0 <= i <= s.len(),
        1 <= den,
    ensures
        spec_term_rest(s, i, num, den) matches Step::Val { den: d, next, .. } ==> 1 <= d && i
            <= next <= s.len(),
    decreases s.len() - i, 3int,
{
    if i < s.len() && (s[i] == '*' || s[i] == '/') {
        lemma_factor_wf(s, i + 1);
        match spec_factor(s, i + 1) {
            Step::Val { num: rn, den: rd, next } => {
                lemma_sign_mul(den, rd);
                lemma_sign_mul(den, rn);
                match rat_mul(num, den, rn, rd) {
                    Some(nd) => {
                        if i < next <= s.len() {
                            lemma_term_rest_wf(s, next, nd.0, nd.1);
                        }
                    },
                    None => {},
                }
                if rn != 0 {
                    match rat_div(num, den, rn, rd) {
                        Some(nd) => {
                            if i < next <= s.len() {
                                lemma_term_rest_wf(s, next, nd.0, nd.1);
                            }
                        },
                        None => {},
                    }
                }
            },
            Step::Fail { .. } => {},
        }
    }
}

/// A successful Expression rule yields a positive denominator and consumes
/// at least one character without running past the end.
proof fn lemma_expression_wf(s: Seq<char>, i: int)
    requires
        0 <= i,
    ensures
        spec_expression(s, i) matches Step::Val { den: d, next, .. } ==> 1 <= d && i < next
            <= s.len(),
    decreases s.len() - i, 4int,
{
    lemma_term_wf(s, i);
    match spec_term(s, i) {
        Step::Val { num, den, next } => {
            if i < next <= s.len() {
                lemma_expression_rest_wf(s, next, num, den);
            }
        },
        Step::Fail { .. } => {},
    }
}

/// The rest of an Expression keeps the denominator positive and never moves
/// the cursor backwards or past the end.
proof fn lemma_expression_rest_wf(s: Seq<char>, i: int, num: int, den: int)
    requires
        0 <= i <= s.len(),
        1 <= den,
    ensures
        spec_expression_rest(s, i, num, den) matches Step::Val { den: d, next, .. } ==> 1 <= d
            && i <= next <= s.len(),
    decreases s.len() - i, 5int,
{
    if i < s.len() && (s[i] == '+' || s[i] == '-') {
        lemma_term_wf(s, i + 1);
        match spec_term(s, i + 1) {
            Step::Val { num: rn, den: rd, next } => {
                lemma_sign_mul(den, rd);
                match rat_add(num, den, rn, rd) {
                    Some(nd) => {
                        if i < next <= s.len() {
                            lemma_expression_rest_wf(s, next, nd.0, nd.1);
                        }
                    },
                    None => {},
                }
                match rat_sub(num, den, rn, rd) {
                    Some(nd) => {
                        if i < next <= s.len() {
                            lemma_expression_rest_wf(s, next, nd.0, nd.1);
                        }
                    },
                    None => {},
                }
            },
            Step::Fail { .. } => {},
        }
    }
}

/// Every successful evaluation yields a finite value: the denominator of the
/// result is positive. Together with the checked termination of every
/// function here, this says a recognized expression evaluates to a finite
/// number.
pub proof fn lemma_calculate_finite(s: Seq<char>)
    ensures
        spec_calculate(s) matches Outcome::Val { den, .. } ==> 1 <= den,
{
    let t = strip_ws(s);
    if t.len() != 0 {
        lemma_expression_wf(t, 0);
    }
}

/// Evaluation is a pure function of the input text: identical inputs yield
/// identical outcomes, call after call.
pub proof fn lemma_deterministic(s1: Seq<char>, s2: Seq<char>)
    requires
        s1 == s2,
    ensures
        spec_calculate(s1) == spec_calculate(s2),
{
}

/// The outcome depends only on the input with its whitespace removed: two
/// inputs that agree once stripped evaluate alike.
pub proof fn lemma_whitespace_insensitive(s1: Seq<char>, s2: Seq<char>)
    requires
        strip_ws(s1) == strip_ws(s2),
    ensures
        spec_calculate(s1) == spec_calculate(s2),
{
}

/// Nothing a stripped input holds is whitespace.
proof fn lemma_strip_ws_no_ws(s: Seq<char>)
    ensures
        forall|k: int| 0 <= k < strip_ws(s).len() ==> !is_ws_char(#[trigger] strip_ws(s)[k]),
    decreases s.len(),
{
    if s.len() > 0 {
        lemma_strip_ws_no_ws(s.drop_last());
        if !is_ws_char(s.last()) {
            let t = strip_ws(s.drop_last());
            assert forall|k: int| 0 <= k < strip_ws(s).len() implies !is_ws_char(
                #[trigger] strip_ws(s)[k],
            ) by {
                if k < t.len() {
                    assert(strip_ws(s)[k] == t[k]);
                } else {
                    assert(strip_ws(s)[k] == s.last());
                }
            }
        }
    }
}

/// Stripping a whitespace-free input changes nothing.
proof fn lemma_strip_ws_id(s: Seq<char>)
    requires
        forall|k: int| 0 <= k < s.len() ==> !is_ws_char(#[trigger] s[k]),
    ensures
        strip_ws(s) == s,
    decreases s.len(),
{
    if s.len() > 0 {
        lemma_strip_ws_id(s.drop_last());
        assert(strip_ws(s) =~= s);
    } else {
        assert(strip_ws(s) =~= s);
    }
}

/// Whitespace removal is complete: stripping a second time changes nothing,
/// so an already stripped input evaluates exactly like the original.
pub proof fn lemma_strip_ws_idempotent(s: Seq<char>)
    ensures
        strip_ws(strip_ws(s)) == strip_ws(s),
        spec_calculate(strip_ws(s)) == spec_calculate(s),
{
    lemma_strip_ws_no_ws(s);
    lemma_strip_ws_id(strip_ws(s));
}

/// The Number rule consumes a run of digits to its end: on an all-digit
/// input it either reads the whole remainder or overflows.
proof fn lemma_number_digits(s: Seq<char>, i: int, saw_digit: bool, has_dot: bool, num: int, den: int)
    requires
        0 <= i <= s.len(),
        0 <= num,
        1 <= den,
        saw_digit || i < s.len(),
        forall|k: int| 0 <= k < s.len() ==> is_digit_char(#[trigger] s[k]),
    ensures
        match spec_number(s, i, saw_digit, has_dot, num, den) {
            Step::Val { next, .. } => next == s.len(),
            Step::Fail { err } => err == EvalError::Overflow,
        },
    decreases s.len() - i,
{
    if i < s.len() {
        let d = digit_val(s[i]);
        if !(num * 10 + d > i64::MAX as int || (has_dot && den * 10 > i64::MAX as int)) {
            lemma_number_digits(s, i + 1, true, has_dot, num * 10 + d,
                if has_dot { den * 10 } else { den });
        }
    }
}

/// An unsigned integer literal is a complete, valid expression: it never
/// fails with a syntax error. It evaluates to a value unless its exact
/// magnitude leaves the range the evaluator computes in, in which case the
/// failure is `Overflow` and nothing else.
pub proof fn lemma_integer_literal_evaluates(s: Seq<char>)
    requires
        s.len() > 0,
        forall|k: int| 0 <= k < s.len() ==> is_digit_char(#[trigger] s[k]),
    ensures
        spec_calculate(s) matches Outcome::Fail { err } ==> err == EvalError::Overflow,
{
    assert forall|k: int| 0 <= k < s.len() implies !is_ws_char(#[trigger] s[k]) by {
        assert(is_digit_char(s[k]));
    }
    lemma_strip_ws_id(s);
    lemma_number_digits(s, 0, false, false, 0, 1);
}

} // verus!
