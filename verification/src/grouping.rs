//! How operators group: what the parser makes of three operands and the two
//! operators between them.

use crate::lex::Tok;
use crate::parser::{
    binary_node, chain_at, expr_at, is_binary_op, parse_spec, precedence, primary_at, Expr,
    ParseError,
};
use vstd::prelude::*;

verus! {

/// Where the second operator binds tighter than the first, it groups first:
/// `a + b * c` is `a + (b * c)`.
pub proof fn lemma_tighter_operator_groups_first(a: i64, left_op: Tok, b: i64, right_op: Tok, c: i64)
    requires
        is_binary_op(left_op),
        is_binary_op(right_op),
        precedence(right_op) > precedence(left_op),
    ensures
        parse_spec(seq![Tok::Num(a), left_op, Tok::Num(b), right_op, Tok::Num(c), Tok::Eof]) == Ok::<
            Expr,
            ParseError,
        >(binary_node(left_op, Expr::Num(a), binary_node(right_op, Expr::Num(b), Expr::Num(c)))),
{
    let toks = seq![Tok::Num(a), left_op, Tok::Num(b), right_op, Tok::Num(c), Tok::Eof];
    let right = binary_node(right_op, Expr::Num(b), Expr::Num(c));
    let whole = binary_node(left_op, Expr::Num(a), right);
    let tight = precedence(left_op) + 1;
    assert(primary_at(toks, 0) == Ok::<(Expr, int), ParseError>((Expr::Num(a), 1)));
    assert(primary_at(toks, 2) == Ok::<(Expr, int), ParseError>((Expr::Num(b), 3)));
    assert(primary_at(toks, 4) == Ok::<(Expr, int), ParseError>((Expr::Num(c), 5)));
    assert(chain_at(toks, 5, tight, right) == Ok::<(Expr, int), ParseError>((right, 5)));
    assert(chain_at(toks, 3, tight, Expr::Num(b)) == Ok::<(Expr, int), ParseError>((right, 5)));
    assert(chain_at(toks, 5, 0, whole) == Ok::<(Expr, int), ParseError>((whole, 5)));
    assert(chain_at(toks, 1, 0, Expr::Num(a)) == Ok::<(Expr, int), ParseError>((whole, 5)));
    assert(expr_at(toks, 0) == Ok::<(Expr, int), ParseError>((whole, 5)));
}

/// Where the second operator binds no tighter than the first, the first
/// groups first: `a - b - c` is `(a - b) - c`, and `a * b + c` is
/// `(a * b) + c`.
pub proof fn lemma_earlier_operator_groups_first(a: i64, left_op: Tok, b: i64, right_op: Tok, c: i64)
    requires
        is_binary_op(left_op),
        is_binary_op(right_op),
        precedence(right_op) <= precedence(left_op),
    ensures
        parse_spec(seq![Tok::Num(a), left_op, Tok::Num(b), right_op, Tok::Num(c), Tok::Eof]) == Ok::<
            Expr,
            ParseError,
        >(binary_node(right_op, binary_node(left_op, Expr::Num(a), Expr::Num(b)), Expr::Num(c))),
{
    let toks = seq![Tok::Num(a), left_op, Tok::Num(b), right_op, Tok::Num(c), Tok::Eof];
    let left = binary_node(left_op, Expr::Num(a), Expr::Num(b));
    let whole = binary_node(right_op, left, Expr::Num(c));
    assert(primary_at(toks, 0) == Ok::<(Expr, int), ParseError>((Expr::Num(a), 1)));
    assert(primary_at(toks, 2) == Ok::<(Expr, int), ParseError>((Expr::Num(b), 3)));
    assert(primary_at(toks, 4) == Ok::<(Expr, int), ParseError>((Expr::Num(c), 5)));
    assert(chain_at(toks, 5, 0, whole) == Ok::<(Expr, int), ParseError>((whole, 5)));
    assert(chain_at(toks, 3, 0, left) == Ok::<(Expr, int), ParseError>((whole, 5)));
    assert(chain_at(toks, 1, 0, Expr::Num(a)) == Ok::<(Expr, int), ParseError>((whole, 5)));
    assert(expr_at(toks, 0) == Ok::<(Expr, int), ParseError>((whole, 5)));
}

/// Parentheses group first, whatever the operators: `(a + b) * c` is the
/// product of the sum, and `a - (b - c)` the difference with the difference.
pub proof fn lemma_parentheses_group_first(a: i64, left_op: Tok, b: i64, right_op: Tok, c: i64)
    requires
        is_binary_op(left_op),
        is_binary_op(right_op),
    ensures
        parse_spec(
            seq![
                Tok::LParen,
                Tok::Num(a),
                left_op,
                Tok::Num(b),
                Tok::RParen,
                right_op,
                Tok::Num(c),
                Tok::Eof,
            ],
        ) == Ok::<Expr, ParseError>(
            binary_node(right_op, binary_node(left_op, Expr::Num(a), Expr::Num(b)), Expr::Num(c)),
        ),
        parse_spec(
            seq![
                Tok::Num(a),
                left_op,
                Tok::LParen,
                Tok::Num(b),
                right_op,
                Tok::Num(c),
                Tok::RParen,
                Tok::Eof,
            ],
        ) == Ok::<Expr, ParseError>(
            binary_node(left_op, Expr::Num(a), binary_node(right_op, Expr::Num(b), Expr::Num(c))),
        ),
{
    let first = seq![
        Tok::LParen,
        Tok::Num(a),
        left_op,
        Tok::Num(b),
        Tok::RParen,
        right_op,
        Tok::Num(c),
        Tok::Eof,
    ];
    let left = binary_node(left_op, Expr::Num(a), Expr::Num(b));
    let whole = binary_node(right_op, left, Expr::Num(c));
    assert(primary_at(first, 1) == Ok::<(Expr, int), ParseError>((Expr::Num(a), 2)));
    assert(primary_at(first, 3) == Ok::<(Expr, int), ParseError>((Expr::Num(b), 4)));
    assert(chain_at(first, 4, 0, left) == Ok::<(Expr, int), ParseError>((left, 4)));
    assert(chain_at(first, 2, 0, Expr::Num(a)) == Ok::<(Expr, int), ParseError>((left, 4)));
    assert(expr_at(first, 1) == Ok::<(Expr, int), ParseError>((left, 4)));
    assert(primary_at(first, 0) == Ok::<(Expr, int), ParseError>((left, 5)));
    assert(primary_at(first, 6) == Ok::<(Expr, int), ParseError>((Expr::Num(c), 7)));
    assert(chain_at(first, 7, 0, whole) == Ok::<(Expr, int), ParseError>((whole, 7)));
    assert(chain_at(first, 5, 0, left) == Ok::<(Expr, int), ParseError>((whole, 7)));
    assert(expr_at(first, 0) == Ok::<(Expr, int), ParseError>((whole, 7)));

    let second = seq![
        Tok::Num(a),
        left_op,
        Tok::LParen,
        Tok::Num(b),
        right_op,
        Tok::Num(c),
        Tok::RParen,
        Tok::Eof,
    ];
    let right = binary_node(right_op, Expr::Num(b), Expr::Num(c));
    let other = binary_node(left_op, Expr::Num(a), right);
    assert(primary_at(second, 3) == Ok::<(Expr, int), ParseError>((Expr::Num(b), 4)));
    assert(primary_at(second, 5) == Ok::<(Expr, int), ParseError>((Expr::Num(c), 6)));
    assert(chain_at(second, 6, 0, right) == Ok::<(Expr, int), ParseError>((right, 6)));
    assert(chain_at(second, 4, 0, Expr::Num(b)) == Ok::<(Expr, int), ParseError>((right, 6)));
    assert(expr_at(second, 3) == Ok::<(Expr, int), ParseError>((right, 6)));
    assert(primary_at(second, 2) == Ok::<(Expr, int), ParseError>((right, 7)));
    assert(primary_at(second, 0) == Ok::<(Expr, int), ParseError>((Expr::Num(a), 1)));
    assert(chain_at(second, 7, 0, other) == Ok::<(Expr, int), ParseError>((other, 7)));
    assert(chain_at(second, 1, 0, Expr::Num(a)) == Ok::<(Expr, int), ParseError>((other, 7)));
    assert(expr_at(second, 0) == Ok::<(Expr, int), ParseError>((other, 7)));
}

} // verus!
