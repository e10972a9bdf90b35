//! What becomes of an expression that is rendered as text and read again.

use crate::lex::{
    decimal_value, digit_value, is_digit, lemma_digits_end_is, lex_spec, prepend, tokens_from,
    LexError, Tok,
};
use crate::line::{evaluate_line_spec, parse_line_spec, value_of, Error};
use crate::eval::{eval_spec, EvaluationError};
use crate::parser::{
    binary_node, chain_at, is_binary_op, parse_spec, precedence, primary_at, Expr, ParseError,
};
use crate::render::{decimal_digits, digit_char, render_binary, render_int, render_spec};
use vstd::prelude::*;

verus! {

/// The token of an operator sign.
pub open spec fn sign_token(sign: char) -> Tok {
    if sign == '+' {
        Tok::Plus
    } else if sign == '-' {
        Tok::Minus
    } else if sign == '*' {
        Tok::Multiply
    } else {
        Tok::Divide
    }
}

/// The tokens of an integer as it is rendered: the number itself, or a minus
/// sign and the number without its sign.
pub open spec fn int_tokens(v: i64) -> Seq<Tok> {
    if v < 0 {
        seq![Tok::Minus, Tok::Num((-v) as i64)]
    } else {
        seq![Tok::Num(v)]
    }
}

/// The tokens that the text of an expression is made of.
pub open spec fn tokens_of(e: Expr) -> Seq<Tok>
    decreases e,
{
    match e {
        Expr::Num(v) => int_tokens(v),
        Expr::Plus(l, r) => tokens_of(*l) + seq![Tok::Plus] + tokens_of(*r),
        Expr::Minus(l, r) => tokens_of(*l) + seq![Tok::Minus] + tokens_of(*r),
        Expr::Multiply(l, r) => tokens_of(*l) + seq![Tok::Multiply] + tokens_of(*r),
        Expr::Divide(l, r) => tokens_of(*l) + seq![Tok::Divide] + tokens_of(*r),
        Expr::Negate(x) => seq![Tok::Minus] + tokens_of(*x),
    }
}

/// Whether no number in the expression is `i64::MIN`, the one number whose
/// text without the sign is no `i64`.
pub open spec fn literals_above_min(e: Expr) -> bool
    decreases e,
{
    match e {
        Expr::Num(v) => v > i64::MIN,
        Expr::Plus(l, r) => literals_above_min(*l) && literals_above_min(*r),
        Expr::Minus(l, r) => literals_above_min(*l) && literals_above_min(*r),
        Expr::Multiply(l, r) => literals_above_min(*l) && literals_above_min(*r),
        Expr::Divide(l, r) => literals_above_min(*l) && literals_above_min(*r),
        Expr::Negate(x) => literals_above_min(*x),
    }
}

/// The digits of a number are digits, and there is at least one.
pub proof fn lemma_decimal_digits_are_digits(n: nat)
    ensures
        decimal_digits(n).len() >= 1,
        forall|k: int| 0 <= k < decimal_digits(n).len() ==> is_digit(#[trigger] decimal_digits(n)[k]),
    decreases n,
{
    if n >= 10 {
        lemma_decimal_digits_are_digits(n / 10);
    }
}

/// The digits of a number denote that number.
pub proof fn lemma_decimal_value_of_digits(n: nat)
    ensures
        decimal_value(decimal_digits(n)) == n,
    decreases n,
{
    if n < 10 {
        assert(decimal_digits(n).drop_last() =~= Seq::<char>::empty());
        assert(decimal_value(decimal_digits(n).drop_last()) == 0);
        assert(digit_value(digit_char(n as int)) == n);
    } else {
        lemma_decimal_value_of_digits(n / 10);
        assert(decimal_digits(n).drop_last() =~= decimal_digits(n / 10));
        assert(digit_value(digit_char((n % 10) as int)) == n % 10);
    }
}

/// Putting `a` and then `b` before `rest` is putting `a + b` before it.
pub proof fn lemma_prepend_twice(a: Seq<Tok>, b: Seq<Tok>, rest: Result<Seq<Tok>, LexError>)
    ensures
        prepend(a, prepend(b, rest)) == prepend(a + b, rest),
{
    if let Ok(toks) = rest {
        assert(a + (b + toks) =~= (a + b) + toks);
    }
}

/// Where the digits of `n` stand at index `i` and no digit follows them, the
/// lexer reads them as the number `n`.
pub proof fn lemma_lex_digits(s: Seq<char>, i: int, n: nat)
    requires
        n <= i64::MAX,
        0 <= i,
        i + decimal_digits(n).len() <= s.len(),
        s.subrange(i, i + decimal_digits(n).len()) == decimal_digits(n),
        i + decimal_digits(n).len() < s.len() ==> !is_digit(s[i + decimal_digits(n).len()]),
    ensures
        tokens_from(s, i) == prepend(
            seq![Tok::Num(n as i64)],
            tokens_from(s, i + decimal_digits(n).len()),
        ),
{
    let digits = decimal_digits(n);
    let end = i + digits.len();
    lemma_decimal_digits_are_digits(n);
    lemma_decimal_value_of_digits(n);
    assert forall|k: int| i <= k < end implies is_digit(#[trigger] s[k]) by {
        assert(s[k] == s.subrange(i, end)[k - i]);
    }
    lemma_digits_end_is(s, i, end);
}

/// Where the text of an integer above `i64::MIN` stands at index `i` and no
/// digit follows it, the lexer reads it as the tokens of that integer.
pub proof fn lemma_lex_int(s: Seq<char>, i: int, v: i64)
    requires
        v > i64::MIN,
        0 <= i,
        i + render_int(v as int).len() <= s.len(),
        s.subrange(i, i + render_int(v as int).len()) == render_int(v as int),
        i + render_int(v as int).len() < s.len() ==> !is_digit(s[i + render_int(v as int).len()]),
    ensures
        tokens_from(s, i) == prepend(int_tokens(v), tokens_from(s, i + render_int(v as int).len())),
{
    let text = render_int(v as int);
    let end = i + text.len();
    if v < 0 {
        let digits = decimal_digits((-v) as nat);
        assert(s[i] == s.subrange(i, end)[0]);
        assert(s.subrange(i + 1, end) =~= digits) by {
            assert forall|k: int| 0 <= k < digits.len() implies s.subrange(i + 1, end)[k]
                == digits[k] by {
                assert(s[i + 1 + k] == s.subrange(i, end)[k + 1]);
            }
        }
        lemma_lex_digits(s, i + 1, (-v) as nat);
        lemma_prepend_twice(
            seq![Tok::Minus],
            seq![Tok::Num((-v) as i64)],
            tokens_from(s, end),
        );
        assert(seq![Tok::Minus] + seq![Tok::Num((-v) as i64)] =~= int_tokens(v));
    } else {
        lemma_lex_digits(s, i, v as nat);
    }
}

/// Where an operator sign between two spaces stands at index `i`, the lexer
/// reads the three characters as the token of the sign.
pub proof fn lemma_lex_sign(s: Seq<char>, i: int, sign: char)
    requires
        sign == '+' || sign == '-' || sign == '*' || sign == '/',
        0 <= i,
        i + 3 <= s.len(),
        s[i] == ' ',
        s[i + 1] == sign,
        s[i + 2] == ' ',
    ensures
        tokens_from(s, i) == prepend(seq![sign_token(sign)], tokens_from(s, i + 3)),
{
    assert(tokens_from(s, i) == tokens_from(s, i + 1));
    assert(tokens_from(s, i + 1) == prepend(seq![sign_token(sign)], tokens_from(s, i + 2)));
    assert(tokens_from(s, i + 2) == tokens_from(s, i + 3));
}

/// Where the text of two operands joined by an operator sign stands at index
/// `i`, and the lexer reads either operand as its tokens, it reads the whole
/// as the tokens of the first operand, the sign, and those of the second.
pub proof fn lemma_lex_binary(
    s: Seq<char>,
    i: int,
    lhs: Seq<char>,
    sign: char,
    rhs: Seq<char>,
    lhs_toks: Seq<Tok>,
    rhs_toks: Seq<Tok>,
)
    requires
        sign == '+' || sign == '-' || sign == '*' || sign == '/',
        0 <= i,
        i + render_binary(lhs, sign, rhs).len() <= s.len(),
        s.subrange(i, i + render_binary(lhs, sign, rhs).len()) == render_binary(lhs, sign, rhs),
        tokens_from(s, i) == prepend(lhs_toks, tokens_from(s, i + lhs.len())),
        tokens_from(s, i + lhs.len() + 3) == prepend(
            rhs_toks,
            tokens_from(s, i + render_binary(lhs, sign, rhs).len()),
        ),
    ensures
        tokens_from(s, i) == prepend(
            lhs_toks + seq![sign_token(sign)] + rhs_toks,
            tokens_from(s, i + render_binary(lhs, sign, rhs).len()),
        ),
{
    let text = render_binary(lhs, sign, rhs);
    let end = i + text.len();
    let mid = i + lhs.len();
    assert(s[mid] == s.subrange(i, end)[mid - i]);
    assert(s[mid + 1] == s.subrange(i, end)[mid + 1 - i]);
    assert(s[mid + 2] == s.subrange(i, end)[mid + 2 - i]);
    lemma_lex_sign(s, mid, sign);
    lemma_prepend_twice(seq![sign_token(sign)], rhs_toks, tokens_from(s, end));
    lemma_prepend_twice(lhs_toks, seq![sign_token(sign)] + rhs_toks, tokens_from(s, end));
    assert(lhs_toks + (seq![sign_token(sign)] + rhs_toks) =~= lhs_toks + seq![sign_token(sign)]
        + rhs_toks);
}

/// The parts of a longer sequence at index `i`: where `whole` stands at `i`
/// in `s`, so does each stretch of it.
pub proof fn lemma_part_stands<T>(s: Seq<T>, i: int, whole: Seq<T>, from: int, to: int)
    requires
        0 <= i,
        i + whole.len() <= s.len(),
        s.subrange(i, i + whole.len()) == whole,
        0 <= from <= to <= whole.len(),
    ensures
        s.subrange(i + from, i + to) == whole.subrange(from, to),
{
    assert forall|k: int| 0 <= k < to - from implies s.subrange(i + from, i + to)[k]
        == whole.subrange(from, to)[k] by {
        assert(s[i + from + k] == s.subrange(i, i + whole.len())[from + k]);
    }
    assert(s.subrange(i + from, i + to) =~= whole.subrange(from, to));
}

/// Where the text of two operands joined by an operator sign stands at index
/// `i`, either operand stands at its place in it, and no digit follows the
/// first.
pub proof fn lemma_operands_stand(s: Seq<char>, i: int, lhs: Seq<char>, sign: char, rhs: Seq<char>)
    requires
        0 <= i,
        i + render_binary(lhs, sign, rhs).len() <= s.len(),
        s.subrange(i, i + render_binary(lhs, sign, rhs).len()) == render_binary(lhs, sign, rhs),
    ensures
        render_binary(lhs, sign, rhs).len() == lhs.len() + 3 + rhs.len(),
        s.subrange(i, i + lhs.len()) == lhs,
        !is_digit(s[i + lhs.len()]),
        s.subrange(i + lhs.len() + 3, i + lhs.len() + 3 + rhs.len()) == rhs,
{
    let text = render_binary(lhs, sign, rhs);
    lemma_part_stands(s, i, text, 0, lhs.len() as int);
    assert(text.subrange(0, lhs.len() as int) =~= lhs);
    assert(s[i + lhs.len()] == s.subrange(i, i + text.len())[lhs.len() as int]);
    lemma_part_stands(s, i, text, lhs.len() as int + 3, text.len() as int);
    assert(text.subrange(lhs.len() as int + 3, text.len() as int) =~= rhs);
}

/// Where the text of an expression stands at index `i` and no digit follows
/// it, the lexer reads it as the tokens of the expression.
pub proof fn lemma_lex_rendered(s: Seq<char>, i: int, e: Expr)
    requires
        literals_above_min(e),
        0 <= i,
        i + render_spec(e).len() <= s.len(),
        s.subrange(i, i + render_spec(e).len()) == render_spec(e),
        i + render_spec(e).len() < s.len() ==> !is_digit(s[i + render_spec(e).len()]),
    ensures
        tokens_from(s, i) == prepend(tokens_of(e), tokens_from(s, i + render_spec(e).len())),
    decreases e,
{
    let text = render_spec(e);
    let end = i + text.len();
    match e {
        Expr::Num(v) => {
            lemma_lex_int(s, i, v);
        },
        Expr::Plus(l, r) => {
            let (lhs, rhs) = (render_spec(*l), render_spec(*r));
            lemma_operands_stand(s, i, lhs, '+', rhs);
            lemma_lex_rendered(s, i, *l);
            lemma_lex_rendered(s, i + lhs.len() + 3, *r);
            lemma_lex_binary(s, i, lhs, '+', rhs, tokens_of(*l), tokens_of(*r));
        },
        Expr::Minus(l, r) => {
            let (lhs, rhs) = (render_spec(*l), render_spec(*r));
            lemma_operands_stand(s, i, lhs, '-', rhs);
            lemma_lex_rendered(s, i, *l);
            lemma_lex_rendered(s, i + lhs.len() + 3, *r);
            lemma_lex_binary(s, i, lhs, '-', rhs, tokens_of(*l), tokens_of(*r));
        },
        Expr::Multiply(l, r) => {
            let (lhs, rhs) = (render_spec(*l), render_spec(*r));
            lemma_operands_stand(s, i, lhs, '*', rhs);
            lemma_lex_rendered(s, i, *l);
            lemma_lex_rendered(s, i + lhs.len() + 3, *r);
            lemma_lex_binary(s, i, lhs, '*', rhs, tokens_of(*l), tokens_of(*r));
        },
        Expr::Divide(l, r) => {
            let (lhs, rhs) = (render_spec(*l), render_spec(*r));
            lemma_operands_stand(s, i, lhs, '/', rhs);
            lemma_lex_rendered(s, i, *l);
            lemma_lex_rendered(s, i + lhs.len() + 3, *r);
            lemma_lex_binary(s, i, lhs, '/', rhs, tokens_of(*l), tokens_of(*r));
        },
        Expr::Negate(x) => {
            let inner = render_spec(*x);
            assert(s[i] == s.subrange(i, end)[0]);
            lemma_part_stands(s, i, text, 1, text.len() as int);
            assert(text.subrange(1, text.len() as int) =~= inner);
            lemma_lex_rendered(s, i + 1, *x);
            lemma_prepend_twice(seq![Tok::Minus], tokens_of(*x), tokens_from(s, end));
        },
    }
}

/// Whether the parser reads the text of `e` as one operand: a number, or the
/// negation of a number that is not negative.
pub open spec fn is_operand(e: Expr) -> bool {
    match e {
        Expr::Num(v) => v > i64::MIN,
        Expr::Negate(x) => *x matches Expr::Num(v) && v >= 0,
        _ => false,
    }
}

/// Whether the tree of `e` is the one that its text spells without
/// parentheses, as far as operators that bind at least as tightly as
/// `min_prec` go: every operator does so, its left operand is built of
/// operators that bind at least as tightly as itself, and its right operand of
/// operators that bind tighter.
pub open spec fn shaped(e: Expr, min_prec: int) -> bool
    decreases e,
{
    match e {
        Expr::Plus(l, r) => min_prec <= 10 && shaped(*l, 10) && shaped(*r, 11),
        Expr::Minus(l, r) => min_prec <= 10 && shaped(*l, 10) && shaped(*r, 11),
        Expr::Multiply(l, r) => min_prec <= 20 && shaped(*l, 20) && shaped(*r, 21),
        Expr::Divide(l, r) => min_prec <= 20 && shaped(*l, 20) && shaped(*r, 21),
        _ => is_operand(e),
    }
}

/// Whether the text of `e` spells the tree of `e`: no parentheses were needed
/// to write it down.
pub open spec fn reads_as_written(e: Expr) -> bool {
    shaped(e, 0)
}

/// How tightly the operator at the root of `e` binds; 21, above every
/// operator, where `e` is no binary node.
pub open spec fn root_precedence(e: Expr) -> int {
    match e {
        Expr::Plus(_, _) | Expr::Minus(_, _) => 10,
        Expr::Multiply(_, _) | Expr::Divide(_, _) => 20,
        _ => 21,
    }
}

/// The token of the operator at the root of a binary node.
pub open spec fn root_operator(e: Expr) -> Tok {
    match e {
        Expr::Plus(_, _) => Tok::Plus,
        Expr::Minus(_, _) => Tok::Minus,
        Expr::Multiply(_, _) => Tok::Multiply,
        _ => Tok::Divide,
    }
}

/// The leftmost operand of `e`.
pub open spec fn first_operand(e: Expr) -> Expr
    decreases e,
{
    match e {
        Expr::Plus(l, _) => first_operand(*l),
        Expr::Minus(l, _) => first_operand(*l),
        Expr::Multiply(l, _) => first_operand(*l),
        Expr::Divide(l, _) => first_operand(*l),
        _ => e,
    }
}

/// The expression as the parser gives it back: every negative number has
/// become the negation of a number, which is how its text reads.
pub open spec fn reread(e: Expr) -> Expr
    decreases e,
{
    match e {
        Expr::Num(v) => if v < 0 {
            Expr::Negate(Box::new(Expr::Num((-v) as i64)))
        } else {
            e
        },
        Expr::Plus(l, r) => Expr::Plus(Box::new(reread(*l)), Box::new(reread(*r))),
        Expr::Minus(l, r) => Expr::Minus(Box::new(reread(*l)), Box::new(reread(*r))),
        Expr::Multiply(l, r) => Expr::Multiply(Box::new(reread(*l)), Box::new(reread(*r))),
        Expr::Divide(l, r) => Expr::Divide(Box::new(reread(*l)), Box::new(reread(*r))),
        Expr::Negate(x) => Expr::Negate(Box::new(reread(*x))),
    }
}

/// Rereading changes no value.
pub proof fn lemma_reread_keeps_value(e: Expr)
    requires
        literals_above_min(e),
    ensures
        eval_spec(reread(e)) == eval_spec(e),
    decreases e,
{
    match e {
        Expr::Num(v) => {
            if v < 0 {
                assert(eval_spec(Expr::Num((-v) as i64)) == Ok::<i64, EvaluationError>((-v) as i64));
            }
        },
        Expr::Plus(l, r) | Expr::Minus(l, r) | Expr::Multiply(l, r) | Expr::Divide(l, r) => {
            lemma_reread_keeps_value(*l);
            lemma_reread_keeps_value(*r);
        },
        Expr::Negate(x) => {
            lemma_reread_keeps_value(*x);
        },
    }
}

/// An expression that reads as written holds no `i64::MIN`.
pub proof fn lemma_shaped_literals(e: Expr, min_prec: int)
    requires
        shaped(e, min_prec),
    ensures
        literals_above_min(e),
    decreases e,
{
    match e {
        Expr::Plus(l, r) => {
            lemma_shaped_literals(*l, 10);
            lemma_shaped_literals(*r, 11);
        },
        Expr::Minus(l, r) => {
            lemma_shaped_literals(*l, 10);
            lemma_shaped_literals(*r, 11);
        },
        Expr::Multiply(l, r) => {
            lemma_shaped_literals(*l, 20);
            lemma_shaped_literals(*r, 21);
        },
        Expr::Divide(l, r) => {
            lemma_shaped_literals(*l, 20);
            lemma_shaped_literals(*r, 21);
        },
        Expr::Num(_) => {},
        Expr::Negate(x) => {
            assert(literals_above_min(*x));
        },
    }
}

/// In an expression shaped for `min_prec`, the root binds at least as tightly
/// as `min_prec`, and the expression is shaped for every lower bound as well.
pub proof fn lemma_shaped_root(e: Expr, min_prec: int, lower: int)
    requires
        shaped(e, min_prec),
        lower <= min_prec,
    ensures
        shaped(e, lower),
        root_precedence(e) == 21 || min_prec <= root_precedence(e),
{
}

/// One step of a chain: the operator at index `at` takes the operand after
/// it, with that operand's own chain of tighter operators, and the chain goes
/// on behind them at index `end`.
pub proof fn lemma_chain_step(
    toks: Seq<Tok>,
    at: int,
    min_prec: int,
    left: Expr,
    operand: Expr,
    next: int,
    right: Expr,
    end: int,
)
    requires
        0 <= at < next <= end < toks.len(),
        is_binary_op(toks[at]),
        min_prec <= precedence(toks[at]),
        primary_at(toks, at + 1) == Ok::<(Expr, int), ParseError>((operand, next)),
        chain_at(toks, next, precedence(toks[at]) + 1, operand) == chain_at(
            toks,
            end,
            precedence(toks[at]) + 1,
            right,
        ),
        precedence(toks[end]) <= precedence(toks[at]),
    ensures
        chain_at(toks, at, min_prec, left) == chain_at(
            toks,
            end,
            min_prec,
            binary_node(toks[at], left, right),
        ),
{
    let op = toks[at];
    let tighter = precedence(op) + 1;
    assert(chain_at(toks, end, tighter, right) == Ok::<(Expr, int), ParseError>((right, end)));
    if precedence(toks[next]) <= precedence(op) {
        assert(chain_at(toks, next, tighter, operand) == Ok::<(Expr, int), ParseError>(
            (operand, next),
        ));
    }
}

/// Where the tokens of an expression that reads as written stand at index
/// `pos`, followed by a token that binds no tighter than its root, the parser
/// reads its first operand there, and the chain from behind that operand
/// comes to the whole expression with the chain that goes on behind it.
pub proof fn lemma_chain_reads_tokens(toks: Seq<Tok>, pos: int, e: Expr, min_prec: int)
    requires
        shaped(e, min_prec),
        0 <= pos,
        pos + tokens_of(e).len() < toks.len(),
        toks.subrange(pos, pos + tokens_of(e).len()) == tokens_of(e),
        precedence(toks[pos + tokens_of(e).len()]) <= root_precedence(e),
    ensures
        1 <= tokens_of(first_operand(e)).len() <= tokens_of(e).len(),
        primary_at(toks, pos) == Ok::<(Expr, int), ParseError>(
            (reread(first_operand(e)), pos + tokens_of(first_operand(e)).len()),
        ),
        chain_at(toks, pos + tokens_of(first_operand(e)).len(), min_prec, reread(first_operand(e)))
            == chain_at(toks, pos + tokens_of(e).len(), min_prec, reread(e)),
    decreases e,
{
    let all = tokens_of(e);
    let end = pos + all.len();
    match e {
        Expr::Plus(l, r) | Expr::Minus(l, r) | Expr::Multiply(l, r) | Expr::Divide(l, r) => {
            let op = root_operator(e);
            let at = pos + tokens_of(*l).len();
            assert(all == tokens_of(*l) + seq![op] + tokens_of(*r));
            lemma_part_stands(toks, pos, all, 0, tokens_of(*l).len() as int);
            assert(all.subrange(0, tokens_of(*l).len() as int) =~= tokens_of(*l));
            assert(toks[at] == toks.subrange(pos, end)[at - pos]);
            lemma_part_stands(toks, pos, all, tokens_of(*l).len() as int + 1, all.len() as int);
            assert(all.subrange(tokens_of(*l).len() as int + 1, all.len() as int) =~= tokens_of(
                *r,
            ));
            lemma_shaped_root(*l, precedence(op), min_prec);
            lemma_shaped_root(*r, precedence(op) + 1, precedence(op) + 1);
            lemma_chain_reads_tokens(toks, pos, *l, min_prec);
            lemma_chain_reads_tokens(toks, at + 1, *r, precedence(op) + 1);
            lemma_chain_step(
                toks,
                at,
                min_prec,
                reread(*l),
                reread(first_operand(*r)),
                at + 1 + tokens_of(first_operand(*r)).len(),
                reread(*r),
                end,
            );
        },
        Expr::Num(v) => {
            assert(toks[pos] == toks.subrange(pos, end)[0]);
            if v < 0 {
                assert(toks[pos + 1] == toks.subrange(pos, end)[1]);
            }
        },
        Expr::Negate(x) => {
            assert(tokens_of(*x) == int_tokens(x->Num_0));
            assert(all =~= seq![Tok::Minus, Tok::Num(x->Num_0)]);
            assert(reread(*x) == *x);
            assert(toks[pos] == toks.subrange(pos, end)[0]);
            assert(toks[pos + 1] == toks.subrange(pos, end)[1]);
        },
    }
}

/// The parser reads the tokens of an expression that reads as written, closed
/// by the end-of-input marker, as that expression, reread.
pub proof fn lemma_parse_tokens_of(e: Expr)
    requires
        reads_as_written(e),
    ensures
        parse_spec(tokens_of(e).push(Tok::Eof)) == Ok::<Expr, ParseError>(reread(e)),
{
    let toks = tokens_of(e).push(Tok::Eof);
    assert(toks.subrange(0, tokens_of(e).len() as int) =~= tokens_of(e));
    lemma_chain_reads_tokens(toks, 0, e, 0);
}

/// Whether no number in the expression is negative.
pub open spec fn literals_not_negative(e: Expr) -> bool
    decreases e,
{
    match e {
        Expr::Num(v) => v >= 0,
        Expr::Plus(l, r) => literals_not_negative(*l) && literals_not_negative(*r),
        Expr::Minus(l, r) => literals_not_negative(*l) && literals_not_negative(*r),
        Expr::Multiply(l, r) => literals_not_negative(*l) && literals_not_negative(*r),
        Expr::Divide(l, r) => literals_not_negative(*l) && literals_not_negative(*r),
        Expr::Negate(x) => literals_not_negative(*x),
    }
}

/// Rereading changes nothing where no number is negative.
pub proof fn lemma_reread_without_negative_literals(e: Expr)
    requires
        literals_not_negative(e),
    ensures
        reread(e) == e,
    decreases e,
{
    match e {
        Expr::Num(_) => {},
        Expr::Plus(l, r) | Expr::Minus(l, r) | Expr::Multiply(l, r) | Expr::Divide(l, r) => {
            lemma_reread_without_negative_literals(*l);
            lemma_reread_without_negative_literals(*r);
        },
        Expr::Negate(x) => {
            lemma_reread_without_negative_literals(*x);
        },
    }
}

/// The text of any expression without `i64::MIN` lexes, to the tokens of the
/// expression and the end-of-input marker.
pub proof fn lemma_lex_render(e: Expr)
    requires
        literals_above_min(e),
    ensures
        lex_spec(render_spec(e)) == Ok::<Seq<Tok>, LexError>(tokens_of(e).push(Tok::Eof)),
{
    let text = render_spec(e);
    assert(text.subrange(0, text.len() as int) =~= text);
    lemma_lex_rendered(text, 0, e);
    assert(tokens_of(e) + seq![Tok::Eof] =~= tokens_of(e).push(Tok::Eof));
}

/// Rendering an expression that reads as written and reading the text again
/// gives the expression back, reread, and with it the same value or the same
/// failure to have one.
pub proof fn lemma_render_roundtrip(e: Expr)
    requires
        reads_as_written(e),
    ensures
        parse_line_spec(render_spec(e)) == Ok::<Expr, Error>(reread(e)),
        evaluate_line_spec(render_spec(e)) == value_of(e),
        literals_not_negative(e) ==> parse_line_spec(render_spec(e)) == Ok::<Expr, Error>(e),
{
    lemma_shaped_literals(e, 0);
    lemma_lex_render(e);
    lemma_parse_tokens_of(e);
    lemma_reread_keeps_value(e);
    if literals_not_negative(e) {
        lemma_reread_without_negative_literals(e);
    }
}

} // verus!
