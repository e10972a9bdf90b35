//! The grammar that the parser follows, stated without the parser, and the
//! proof that the parser follows it.

use crate::lex::Tok;
use crate::parser::{
    binary_node, chain_at, expr_at, is_binary_op, lemma_chain_advances, lemma_chain_at_unfolds,
    lemma_expr_advances, lemma_primary_advances, parse_from, precedence, primary_at, Expr,
};
use vstd::prelude::*;

verus! {

/// Whether the tokens from index `from` up to, but without, index `to` spell
/// the expression `e`, as an operand of an operator that binds as tightly as
/// `min_prec`.
///
/// - A number spells itself, and a minus sign with a number after it spells
///   the negation of the number.
/// - An opening parenthesis, tokens that spell `e`, and a closing parenthesis
///   spell `e`, for every `min_prec`.
/// - Tokens that spell `l`, an operator, and tokens that spell `r` spell the
///   node of the operator with `l` and `r`, where the operator binds at least
///   as tightly as `min_prec`, where `l` stands as an operand of an operator
///   that binds as tightly as this one, and `r` as an operand of one that
///   binds tighter. So without parentheses `l` holds no looser operator at its
///   root, and `r` neither a looser one nor one of the same tier.
pub open spec fn spells(toks: Seq<Tok>, from: int, to: int, e: Expr, min_prec: int) -> bool
    decreases e, to - from,
{
    &&& 0 <= from <= to <= toks.len()
    &&& {
        ||| {
            &&& from + 2 <= to
            &&& toks[from] == Tok::LParen
            &&& toks[to - 1] == Tok::RParen
            &&& spells(toks, from + 1, to - 1, e, 0)
        }
        ||| match e {
            Expr::Num(v) => to == from + 1 && toks[from] == Tok::Num(v),
            Expr::Negate(x) => {
                &&& to == from + 2
                &&& toks[from] == Tok::Minus
                &&& *x is Num
                &&& toks[from + 1] == Tok::Num(x->Num_0)
            },
            Expr::Plus(l, r) => min_prec <= 10 && exists|mid: int|
                {
                    &&& from < mid < to
                    &&& #[trigger] toks[mid] == Tok::Plus
                    &&& spells(toks, from, mid, *l, 10)
                    &&& spells(toks, mid + 1, to, *r, 11)
                },
            Expr::Minus(l, r) => min_prec <= 10 && exists|mid: int|
                {
                    &&& from < mid < to
                    &&& #[trigger] toks[mid] == Tok::Minus
                    &&& spells(toks, from, mid, *l, 10)
                    &&& spells(toks, mid + 1, to, *r, 11)
                },
            Expr::Multiply(l, r) => min_prec <= 20 && exists|mid: int|
                {
                    &&& from < mid < to
                    &&& #[trigger] toks[mid] == Tok::Multiply
                    &&& spells(toks, from, mid, *l, 20)
                    &&& spells(toks, mid + 1, to, *r, 21)
                },
            Expr::Divide(l, r) => min_prec <= 20 && exists|mid: int|
                {
                    &&& from < mid < to
                    &&& #[trigger] toks[mid] == Tok::Divide
                    &&& spells(toks, from, mid, *l, 20)
                    &&& spells(toks, mid + 1, to, *r, 21)
                },
        }
    }
}

/// What stands as an operand of a tighter operator stands as one of a looser
/// operator too.
pub proof fn lemma_spells_looser(
    toks: Seq<Tok>,
    from: int,
    to: int,
    e: Expr,
    min_prec: int,
    lower: int,
)
    requires
        spells(toks, from, to, e, min_prec),
        lower <= min_prec,
    ensures
        spells(toks, from, to, e, lower),
{
}

/// Two spelled operands with an operator between them spell the node of the
/// operator, as an operand of an operator that binds no tighter.
pub proof fn lemma_spells_node(
    toks: Seq<Tok>,
    from: int,
    mid: int,
    to: int,
    lhs: Expr,
    rhs: Expr,
)
    requires
        0 <= from < mid < to <= toks.len(),
        is_binary_op(toks[mid]),
        spells(toks, from, mid, lhs, precedence(toks[mid])),
        spells(toks, mid + 1, to, rhs, precedence(toks[mid]) + 1),
    ensures
        spells(toks, from, to, binary_node(toks[mid], lhs, rhs), precedence(toks[mid])),
{
}

/// The tokens of an operand that the parser reads spell that operand, as an
/// operand of whatever operator.
pub proof fn lemma_primary_spells(toks: Seq<Tok>, pos: int, min_prec: int)
    ensures
        primary_at(toks, pos) matches Ok((e, next)) ==> spells(toks, pos, next, e, min_prec),
    decreases toks.len() - pos, 0int,
{
    if let Ok((e, next)) = primary_at(toks, pos) {
        if toks[pos] == Tok::LParen {
            lemma_expr_advances(toks, pos + 1);
            lemma_expr_spells(toks, pos + 1);
        }
    }
}

/// The tokens of an expression that the parser reads spell that expression.
pub proof fn lemma_expr_spells(toks: Seq<Tok>, pos: int)
    ensures
        expr_at(toks, pos) matches Ok((e, next)) ==> spells(toks, pos, next, e, 0),
    decreases toks.len() - pos, 1int,
{
    lemma_primary_advances(toks, pos);
    if let Ok((lhs, next)) = primary_at(toks, pos) {
        lemma_primary_spells(toks, pos, 21);
        lemma_chain_spells(toks, pos, next, 0, lhs, 21);
    }
}

/// Where the tokens from `start` to `pos` spell the operand `left`, the tokens
/// from `start` to the end of the chain that the parser reads behind `left`
/// spell what the parser makes of the chain, and the chain ends before a token
/// that is no operator of it.
pub proof fn lemma_chain_spells(
    toks: Seq<Tok>,
    start: int,
    pos: int,
    min_prec: int,
    left: Expr,
    tier: int,
)
    requires
        spells(toks, start, pos, left, tier),
        min_prec <= tier,
        0 <= pos < toks.len() ==> precedence(toks[pos]) <= tier,
    ensures
        chain_at(toks, pos, min_prec, left) matches Ok((e, next)) ==> {
            &&& spells(toks, start, next, e, min_prec)
            &&& pos <= next < toks.len()
            &&& !is_binary_op(toks[next]) || precedence(toks[next]) < min_prec
        },
    decreases toks.len() - pos, 2int,
{
    lemma_chain_at_unfolds(toks, pos, min_prec, left);
    if let Ok((e, end)) = chain_at(toks, pos, min_prec, left) {
        let op = toks[pos];
        if is_binary_op(op) && precedence(op) >= min_prec {
            let tight = precedence(op) + 1;
            lemma_primary_advances(toks, pos + 1);
            lemma_primary_spells(toks, pos + 1, tight);
            let (rhs, next) = primary_at(toks, pos + 1).unwrap();
            lemma_spells_looser(toks, start, pos, left, tier, precedence(op));
            if precedence(toks[next]) > precedence(op) {
                lemma_primary_spells(toks, pos + 1, 21);
                lemma_chain_advances(toks, next, tight, rhs);
                lemma_chain_spells(toks, pos + 1, next, tight, rhs, 21);
                let (tighter, after) = chain_at(toks, next, tight, rhs).unwrap();
                lemma_spells_node(toks, start, pos, after, left, tighter);
                lemma_chain_spells(
                    toks,
                    start,
                    after,
                    min_prec,
                    binary_node(op, left, tighter),
                    precedence(op),
                );
            } else {
                lemma_spells_node(toks, start, pos, next, left, rhs);
                lemma_chain_spells(
                    toks,
                    start,
                    next,
                    min_prec,
                    binary_node(op, left, rhs),
                    precedence(op),
                );
            }
        } else {
            lemma_spells_looser(toks, start, pos, left, tier, min_prec);
        }
    }
}

/// The parser follows the grammar: where parsing succeeds, the tokens from
/// the cursor to the end-of-input marker spell the expression that it gives.
pub proof fn lemma_parse_spells(toks: Seq<Tok>, pos: int)
    ensures
        parse_from(toks, pos) matches Ok(e) ==> spells(toks, pos, toks.len() - 1, e, 0),
{
    lemma_expr_spells(toks, pos);
}

} // verus!
