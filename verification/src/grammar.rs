use vstd::prelude::*;

use crate::error::EvalError;
use crate::eval::{
    digit_val, is_digit_char, spec_calculate, spec_expression, spec_expression_rest, spec_factor,
    spec_number, spec_term, spec_term_rest, strip_ws, Outcome, Step,
};
use crate::value::{rat_add, rat_div, rat_mul, rat_sub};

verus! {

// ---------------------------------------------------------------------------
// The grammar as data
//
// A derivation of the expression grammar, written with the same shape the
// grammar has: a factor is a number, a negated factor, or a parenthesized
// expression; a term and an expression are a head followed by a chain of
// operator-operand pairs. Rendering a derivation gives exactly the texts the
// grammar generates, which makes "valid expression" a precise statement.
// ---------------------------------------------------------------------------

/// A Factor derivation.
pub enum FactorAst {
    /// `Digit+ ('.' Digit+)?`
    Num { int_part: Seq<char>, frac: Option<Seq<char>> },
    /// `'-' Factor`
    Neg { negated: Box<FactorAst> },
    /// `'(' Expression ')'`
    Paren { body: Box<ExprAst> },
}

/// The `(('*' | '/') Factor)*` chain of a Term derivation.
pub enum TermTail {
    End,
    More { op: char, f: FactorAst, rest: Box<TermTail> },
}

/// A Term derivation: a factor and its chain.
pub struct TermAst {
    pub first: FactorAst,
    pub tail: TermTail,
}

/// The `(('+' | '-') Term)*` chain of an Expression derivation.
pub enum ExprTail {
    End,
    More { op: char, t: TermAst, rest: Box<ExprTail> },
}

/// An Expression derivation: a term and its chain.
pub struct ExprAst {
    pub first: TermAst,
    pub tail: ExprTail,
}

/// Whether every character of `s` is a decimal digit.
pub open spec fn all_digits(s: Seq<char>) -> bool {
    forall|k: int| 0 <= k < s.len() ==> is_digit_char(#[trigger] s[k])
}

/// A well-formed Factor derivation: digit runs are nonempty digit text.
pub open spec fn wf_factor(f: FactorAst) -> bool
    decreases f,
{
    match f {
        FactorAst::Num { int_part, frac } => int_part.len() >= 1 && all_digits(int_part)
            && match frac {
            Some(fr) => fr.len() >= 1 && all_digits(fr),
            None => true,
        },
        FactorAst::Neg { negated } => wf_factor(*negated),
        FactorAst::Paren { body } => wf_expr(*body),
    }
}

/// A well-formed Term chain: only `*` and `/` join factors.
pub open spec fn wf_term_tail(tt: TermTail) -> bool
    decreases tt,
{
    match tt {
        TermTail::End => true,
        TermTail::More { op, f, rest } => (op == '*' || op == '/') && wf_factor(f) && wf_term_tail(
            *rest,
        ),
    }
}

/// A well-formed Term derivation.
pub open spec fn wf_term(t: TermAst) -> bool
    decreases t,
{
    wf_factor(t.first) && wf_term_tail(t.tail)
}

/// A well-formed Expression chain: only `+` and `-` join terms.
pub open spec fn wf_expr_tail(et: ExprTail) -> bool
    decreases et,
{
    match et {
        ExprTail::End => true,
        ExprTail::More { op, t, rest } => (op == '+' || op == '-') && wf_term(t) && wf_expr_tail(
            *rest,
        ),
    }
}

/// A well-formed Expression derivation.
pub open spec fn wf_expr(e: ExprAst) -> bool
    decreases e,
{
    wf_term(e.first) && wf_expr_tail(e.tail)
}

/// The text a Factor derivation stands for.
pub open spec fn render_factor(f: FactorAst) -> Seq<char>
    decreases f,
{
    match f {
        FactorAst::Num { int_part, frac } => match frac {
            Some(fr) => int_part + seq!['.'] + fr,
            None => int_part,
        },
        FactorAst::Neg { negated } => seq!['-'] + render_factor(*negated),
        FactorAst::Paren { body } => seq!['('] + render_expr(*body) + seq![')'],
    }
}

/// The text a Term chain stands for.
pub open spec fn render_term_tail(tt: TermTail) -> Seq<char>
    decreases tt,
{
    match tt {
        TermTail::End => Seq::empty(),
        TermTail::More { op, f, rest } => seq![op] + render_factor(f) + render_term_tail(*rest),
    }
}

/// The text a Term derivation stands for.
pub open spec fn render_term(t: TermAst) -> Seq<char>
    decreases t,
{
    render_factor(t.first) + render_term_tail(t.tail)
}

/// The text an Expression chain stands for.
pub open spec fn render_expr_tail(et: ExprTail) -> Seq<char>
    decreases et,
{
    match et {
        ExprTail::End => Seq::empty(),
        ExprTail::More { op, t, rest } => seq![op] + render_term(t) + render_expr_tail(*rest),
    }
}

/// The text an Expression derivation stands for.
pub open spec fn render_expr(e: ExprAst) -> Seq<char>
    decreases e,
{
    render_term(e.first) + render_expr_tail(e.tail)
}

/// A rendered factor is never empty.
proof fn lemma_render_factor_nonempty(f: FactorAst)
    requires
        wf_factor(f),
    ensures
        render_factor(f).len() >= 1,
    decreases f,
{
    match f {
        FactorAst::Num { .. } => {},
        FactorAst::Neg { .. } => {},
        FactorAst::Paren { .. } => {},
    }
}

// ---------------------------------------------------------------------------
// Pieces of the input
// ---------------------------------------------------------------------------

/// A span of `s` that is a concatenation splits at the seam.
proof fn lemma_subrange_split(s: Seq<char>, i: int, m: int, j: int, a: Seq<char>, b: Seq<char>)
    requires
        0 <= i <= m <= j <= s.len(),
        m - i == a.len(),
        s.subrange(i, j) == a + b,
    ensures
        s.subrange(i, m) == a,
        s.subrange(m, j) == b,
{
    assert(s.subrange(i, j).len() == j - i);
    assert((a + b).len() == a.len() + b.len());
    assert(b.len() == j - m);
    assert forall|k: int| 0 <= k < m - i implies s.subrange(i, m)[k] == a[k] by {
        assert(s.subrange(i, j)[k] == (a + b)[k]);
    }
    assert(s.subrange(i, m) =~= a);
    assert forall|k: int| 0 <= k < j - m implies s.subrange(m, j)[k] == b[k] by {
        assert(s.subrange(m, j)[k] == s[m + k]);
        assert(s.subrange(i, j)[m - i + k] == s[m + k]);
        assert((a + b)[m - i + k] == b[k]);
    }
    assert(s.subrange(m, j) =~= b);
}

// ---------------------------------------------------------------------------
// Completeness of the Number rule
// ---------------------------------------------------------------------------

/// Scanning a run of digits either overflows or reaches the run's end with
/// some nonnegative value over a positive scale.
proof fn lemma_digit_run(s: Seq<char>, i: int, j: int, saw_digit: bool, has_dot: bool, num: int, den: int) -> (r: (int, int))
    requires
        0 <= i <= j <= s.len(),
        forall|k: int| i <= k < j ==> is_digit_char(#[trigger] s[k]),
        0 <= num,
        1 <= den,
    ensures
        spec_number(s, i, saw_digit, has_dot, num, den) == (Step::Fail {
            err: EvalError::Overflow,
        }) || (spec_number(s, i, saw_digit, has_dot, num, den) == spec_number(s, j, saw_digit || i
            < j, has_dot, r.0, r.1) && 0 <= r.0 && 1 <= r.1),
    decreases j - i,
{
    if i < j {
        let d = digit_val(s[i]);
        if num * 10 + d > i64::MAX as int || (has_dot && den * 10 > i64::MAX as int) {
            (0, 1)
        } else {
            lemma_digit_run(s, i + 1, j, true, has_dot, num * 10 + d,
                if has_dot { den * 10 } else { den })
        }
    } else {
        (num, den)
    }
}

/// A rendered number token, followed by nothing that could extend it, is
/// read in full: the Number rule ends exactly at the token's end, or
/// overflows.
proof fn lemma_number_complete(int_part: Seq<char>, frac: Option<Seq<char>>, s: Seq<char>, i: int, j: int)
    requires
        0 <= i <= j <= s.len(),
        int_part.len() >= 1,
        all_digits(int_part),
        match frac {
            Some(fr) => fr.len() >= 1 && all_digits(fr),
            None => true,
        },
        s.subrange(i, j) == render_factor(FactorAst::Num { int_part, frac }),
        j == s.len() || (!is_digit_char(s[j]) && s[j] != '.'),
    ensures
        match spec_number(s, i, false, false, 0, 1) {
            Step::Val { next, .. } => next == j,
            Step::Fail { err } => err == EvalError::Overflow,
        },
{
    match frac {
        None => {
            assert(render_factor(FactorAst::Num { int_part, frac }) == int_part);
            assert(s.subrange(i, j).len() == j - i);
            assert(j - i == int_part.len());
            assert forall|k: int| i <= k < j implies is_digit_char(#[trigger] s[k]) by {
                assert(s[k] == s.subrange(i, j)[k - i]);
            }
            let r = lemma_digit_run(s, i, j, false, false, 0, 1);
        },
        Some(fr) => {
            assert(render_factor(FactorAst::Num { int_part, frac }) == int_part + seq!['.'] + fr);
            assert(s.subrange(i, j).len() == j - i);
            assert((int_part + seq!['.'] + fr).len() == int_part.len() + 1 + fr.len());
            assert(j - i == int_part.len() + 1 + fr.len());
            let m = i + int_part.len();
            lemma_subrange_split(s, i, m + 1, j, int_part + seq!['.'], fr);
            lemma_subrange_split(s, i, m, m + 1, int_part, seq!['.']);
            assert(s[m] == s.subrange(m, m + 1)[0]);
            assert forall|k: int| i <= k < m implies is_digit_char(#[trigger] s[k]) by {
                assert(s[k] == s.subrange(i, m)[k - i]);
            }
            assert forall|k: int| m + 1 <= k < j implies is_digit_char(#[trigger] s[k]) by {
                assert(s[k] == s.subrange(m + 1, j)[k - m - 1]);
            }
            let r1 = lemma_digit_run(s, i, m, false, false, 0, 1);
            if spec_number(s, i, false, false, 0, 1) != (Step::Fail { err: EvalError::Overflow }) {
                let r2 = lemma_digit_run(s, m + 1, j, true, true, r1.0, r1.1);
            }
        },
    }
}

// ---------------------------------------------------------------------------
// Completeness of the whole grammar
// ---------------------------------------------------------------------------

/// Nothing at `j` could extend a number or factor ending there.
pub open spec fn ends_factor(s: Seq<char>, j: int) -> bool {
    j == s.len() || (!is_digit_char(s[j]) && s[j] != '.')
}

/// Nothing at `j` could extend a term ending there.
pub open spec fn ends_term(s: Seq<char>, j: int) -> bool {
    ends_factor(s, j) && (j == s.len() || (s[j] != '*' && s[j] != '/'))
}

/// Nothing at `j` could extend an expression ending there.
pub open spec fn ends_expr(s: Seq<char>, j: int) -> bool {
    ends_term(s, j) && (j == s.len() || (s[j] != '+' && s[j] != '-'))
}

/// A rule completes over `[i, j)` when it either consumes exactly that span
/// or fails for a semantic reason: a division by zero or an exact-range
/// overflow, never a syntax error.
pub open spec fn completes(st: Step, j: int) -> bool {
    match st {
        Step::Val { next, .. } => next == j,
        Step::Fail { err } => err == EvalError::DivisionByZero || err == EvalError::Overflow,
    }
}

/// A rendered term chain is empty or starts with its operator.
proof fn lemma_term_tail_first(tt: TermTail, s: Seq<char>, m: int, j: int)
    requires
        wf_term_tail(tt),
        0 <= m <= j <= s.len(),
        s.subrange(m, j) == render_term_tail(tt),
    ensures
        m == j || (s[m] == '*' || s[m] == '/'),
{
    assert(s.subrange(m, j).len() == j - m);
    match tt {
        TermTail::End => {},
        TermTail::More { op, f, rest } => {
            assert(s[m] == s.subrange(m, j)[0]);
        },
    }
}

/// A rendered expression chain is empty or starts with its operator.
proof fn lemma_expr_tail_first(et: ExprTail, s: Seq<char>, m: int, j: int)
    requires
        wf_expr_tail(et),
        0 <= m <= j <= s.len(),
        s.subrange(m, j) == render_expr_tail(et),
    ensures
        m == j || (s[m] == '+' || s[m] == '-'),
{
    assert(s.subrange(m, j).len() == j - m);
    match et {
        ExprTail::End => {},
        ExprTail::More { op, t, rest } => {
            assert(s[m] == s.subrange(m, j)[0]);
        },
    }
}

/// The Factor rule reads a rendered factor in full, or fails only with a
/// division by zero or an overflow.
proof fn lemma_factor_complete(f: FactorAst, s: Seq<char>, i: int, j: int)
    requires
        wf_factor(f),
        0 <= i <= j <= s.len(),
        s.subrange(i, j) == render_factor(f),
        ends_factor(s, j),
    ensures
        completes(spec_factor(s, i), j),
    decreases f,
{
    assert(s.subrange(i, j).len() == j - i);
    match f {
        FactorAst::Num { int_part, frac } => {
            assert(s[i] == s.subrange(i, j)[0]);
            match frac {
                Some(fr) => {
                    assert(render_factor(f) == int_part + seq!['.'] + fr);
                    assert(render_factor(f)[0] == int_part[0]);
                },
                None => {},
            }
            assert(is_digit_char(s[i]));
            lemma_number_complete(int_part, frac, s, i, j);
        },
        FactorAst::Neg { negated } => {
            assert(render_factor(f) == seq!['-'] + render_factor(*negated));
            lemma_subrange_split(s, i, i + 1, j, seq!['-'], render_factor(*negated));
            assert(s[i] == s.subrange(i, i + 1)[0]);
            lemma_factor_complete(*negated, s, i + 1, j);
        },
        FactorAst::Paren { body } => {
            assert(render_factor(f) == seq!['('] + render_expr(*body) + seq![')']);
            assert((seq!['('] + render_expr(*body) + seq![')']).len() == render_expr(*body).len()
                + 2);
            assert(s.subrange(i, j) =~= seq!['('] + (render_expr(*body) + seq![')']));
            lemma_subrange_split(s, i, i + 1, j, seq!['('], render_expr(*body) + seq![')']);
            lemma_subrange_split(s, i + 1, j - 1, j, render_expr(*body), seq![')']);
            assert(s[i] == s.subrange(i, i + 1)[0]);
            assert(s[j - 1] == s.subrange(j - 1, j)[0]);
            lemma_expr_complete(*body, s, i + 1, j - 1);
        },
    }
}

/// The rest of the Term rule reads a rendered term chain in full, or fails
/// only with a division by zero or an overflow.
proof fn lemma_term_tail_complete(tt: TermTail, s: Seq<char>, i: int, j: int, num: int, den: int)
    requires
        wf_term_tail(tt),
        0 <= i <= j <= s.len(),
        s.subrange(i, j) == render_term_tail(tt),
        ends_term(s, j),
    ensures
        completes(spec_term_rest(s, i, num, den), j),
    decreases tt,
{
    assert(s.subrange(i, j).len() == j - i);
    match tt {
        TermTail::End => {},
        TermTail::More { op, f, rest } => {
            assert(render_term_tail(tt) == seq![op] + render_factor(f) + render_term_tail(*rest));
            let flen = render_factor(f).len();
            let m = i + 1 + flen;
            assert((seq![op] + render_factor(f) + render_term_tail(*rest)).len() == 1 + flen
                + render_term_tail(*rest).len());
            assert(s.subrange(i, j) =~= seq![op] + (render_factor(f) + render_term_tail(*rest)));
            lemma_subrange_split(s, i, i + 1, j, seq![op],
                render_factor(f) + render_term_tail(*rest));
            lemma_subrange_split(s, i + 1, m, j, render_factor(f), render_term_tail(*rest));
            assert(s[i] == s.subrange(i, i + 1)[0]);
            lemma_term_tail_first(*rest, s, m, j);
            lemma_factor_complete(f, s, i + 1, m);
            match spec_factor(s, i + 1) {
                Step::Val { num: rn, den: rd, next } => {
                    if op == '*' {
                        match rat_mul(num, den, rn, rd) {
                            Some(nd) => {
                                lemma_term_tail_complete(*rest, s, m, j, nd.0, nd.1);
                            },
                            None => {},
                        }
                    } else {
                        if rn != 0 {
                            match rat_div(num, den, rn, rd) {
                                Some(nd) => {
                                    lemma_term_tail_complete(*rest, s, m, j, nd.0, nd.1);
                                },
                                None => {},
                            }
                        }
                    }
                },
                Step::Fail { .. } => {},
            }
        },
    }
}

/// The Term rule reads a rendered term in full, or fails only with a
/// division by zero or an overflow.
proof fn lemma_term_complete(t: TermAst, s: Seq<char>, i: int, j: int)
    requires
        wf_term(t),
        0 <= i <= j <= s.len(),
        s.subrange(i, j) == render_term(t),
        ends_term(s, j),
    ensures
        completes(spec_term(s, i), j),
    decreases t,
{
    assert(s.subrange(i, j).len() == j - i);
    assert(render_term(t) == render_factor(t.first) + render_term_tail(t.tail));
    let m = i + render_factor(t.first).len();
    lemma_subrange_split(s, i, m, j, render_factor(t.first), render_term_tail(t.tail));
    lemma_term_tail_first(t.tail, s, m, j);
    lemma_render_factor_nonempty(t.first);
    lemma_factor_complete(t.first, s, i, m);
    match spec_factor(s, i) {
        Step::Val { num, den, next } => {
            lemma_term_tail_complete(t.tail, s, m, j, num, den);
        },
        Step::Fail { .. } => {},
    }
}

/// The rest of the Expression rule reads a rendered expression chain in
/// full, or fails only with a division by zero or an overflow.
proof fn lemma_expr_tail_complete(et: ExprTail, s: Seq<char>, i: int, j: int, num: int, den: int)
    requires
        wf_expr_tail(et),
        0 <= i <= j <= s.len(),
        s.subrange(i, j) == render_expr_tail(et),
        ends_expr(s, j),
    ensures
        completes(spec_expression_rest(s, i, num, den), j),
    decreases et,
{
    assert(s.subrange(i, j).len() == j - i);
    match et {
        ExprTail::End => {},
        ExprTail::More { op, t, rest } => {
            assert(render_expr_tail(et) == seq![op] + render_term(t) + render_expr_tail(*rest));
            let tlen = render_term(t).len();
            let m = i + 1 + tlen;
            assert((seq![op] + render_term(t) + render_expr_tail(*rest)).len() == 1 + tlen
                + render_expr_tail(*rest).len());
            assert(s.subrange(i, j) =~= seq![op] + (render_term(t) + render_expr_tail(*rest)));
            lemma_subrange_split(s, i, i + 1, j, seq![op],
                render_term(t) + render_expr_tail(*rest));
            lemma_subrange_split(s, i + 1, m, j, render_term(t), render_expr_tail(*rest));
            assert(s[i] == s.subrange(i, i + 1)[0]);
            lemma_expr_tail_first(*rest, s, m, j);
            lemma_term_complete(t, s, i + 1, m);
            match spec_term(s, i + 1) {
                Step::Val { num: rn, den: rd, next } => {
                    if op == '+' {
                        match rat_add(num, den, rn, rd) {
                            Some(nd) => {
                                lemma_expr_tail_complete(*rest, s, m, j, nd.0, nd.1);
                            },
                            None => {},
                        }
                    } else {
                        match rat_sub(num, den, rn, rd) {
                            Some(nd) => {
                                lemma_expr_tail_complete(*rest, s, m, j, nd.0, nd.1);
                            },
                            None => {},
                        }
                    }
                },
                Step::Fail { .. } => {},
            }
        },
    }
}

/// The Expression rule reads a rendered expression in full, or fails only
/// with a division by zero or an overflow.
proof fn lemma_expr_complete(e: ExprAst, s: Seq<char>, i: int, j: int)
    requires
        wf_expr(e),
        0 <= i <= j <= s.len(),
        s.subrange(i, j) == render_expr(e),
        ends_expr(s, j),
    ensures
        completes(spec_expression(s, i), j),
    decreases e,
{
    assert(s.subrange(i, j).len() == j - i);
    assert(render_expr(e) == render_term(e.first) + render_expr_tail(e.tail));
    let m = i + render_term(e.first).len();
    lemma_subrange_split(s, i, m, j, render_term(e.first), render_expr_tail(e.tail));
    lemma_expr_tail_first(e.tail, s, m, j);
    lemma_render_factor_nonempty(e.first.first);
    lemma_term_complete(e.first, s, i, m);
    match spec_term(s, i) {
        Step::Val { num, den, next } => {
            lemma_expr_tail_complete(e.tail, s, m, j, num, den);
        },
        Step::Fail { .. } => {},
    }
}

/// Completeness over the grammar, the other face of the evaluator's exact
/// contract: an input whose whitespace-stripped text is a derivation of the
/// expression grammar never fails with a syntax error. It evaluates to a
/// value unless a division by exact zero or an exact-range overflow stops
/// it, and those are the only failures.
pub proof fn lemma_valid_expression_evaluates(e: ExprAst, s: Seq<char>)
    requires
        wf_expr(e),
        strip_ws(s) == render_expr(e),
    ensures
        spec_calculate(s) matches Outcome::Fail { err } ==> err == EvalError::DivisionByZero
            || err == EvalError::Overflow,
{
    let t = strip_ws(s);
    lemma_render_factor_nonempty(e.first.first);
    assert(t.len() >= 1);
    assert(t.subrange(0, t.len() as int) =~= t);
    lemma_expr_complete(e, t, 0, t.len() as int);
}

} // verus!
