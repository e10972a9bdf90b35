//! Matching parentheses: what parsing shows of the parentheses among the
//! tokens.

use crate::lex::Tok;
use crate::parser::{
    binary_node, chain_at, expr_at, is_binary_op, lemma_chain_advances, lemma_chain_at_unfolds,
    lemma_expr_advances, lemma_primary_advances, parse_from, precedence, primary_at, Expr,
};
use vstd::prelude::*;

verus! {

/// What a token adds to the number of open parentheses.
pub open spec fn paren_step(t: Tok) -> int {
    match t {
        Tok::LParen => 1,
        Tok::RParen => -1,
        _ => 0,
    }
}

/// The opening parentheses less the closing ones among the tokens from index
/// `from` up to, but without, index `to`.
pub open spec fn paren_depth(toks: Seq<Tok>, from: int, to: int) -> int
    decreases to - from,
{
    if to <= from {
        0
    } else {
        paren_depth(toks, from, to - 1) + paren_step(toks[to - 1])
    }
}

/// Whether the parentheses among the tokens from `from` up to `to` match:
/// none closes before it was opened, and none stays open.
pub open spec fn well_nested(toks: Seq<Tok>, from: int, to: int) -> bool {
    &&& paren_depth(toks, from, to) == 0
    &&& forall|k: int| from <= k <= to ==> paren_depth(toks, from, k) >= 0
}

/// The depth over a stretch is the sum of the depths over its two parts.
pub proof fn lemma_paren_depth_splits(toks: Seq<Tok>, from: int, mid: int, to: int)
    requires
        from <= mid <= to,
    ensures
        paren_depth(toks, from, to) == paren_depth(toks, from, mid) + paren_depth(toks, mid, to),
    decreases to - mid,
{
    if mid < to {
        lemma_paren_depth_splits(toks, from, mid, to - 1);
    }
}

/// Two well nested stretches, one behind the other, are one.
pub proof fn lemma_well_nested_joins(toks: Seq<Tok>, from: int, mid: int, to: int)
    requires
        from <= mid <= to,
        well_nested(toks, from, mid),
        well_nested(toks, mid, to),
    ensures
        well_nested(toks, from, to),
{
    assert forall|k: int| from <= k <= to implies paren_depth(toks, from, k) >= 0 by {
        if k > mid {
            lemma_paren_depth_splits(toks, from, mid, k);
        }
    }
    lemma_paren_depth_splits(toks, from, mid, to);
}

/// A well nested stretch between an opening and a closing parenthesis is well
/// nested with them.
pub proof fn lemma_well_nested_in_parens(toks: Seq<Tok>, from: int, to: int)
    requires
        from < to,
        toks[from] == Tok::LParen,
        well_nested(toks, from + 1, to),
        toks[to] == Tok::RParen,
    ensures
        well_nested(toks, from, to + 1),
{
    assert(paren_depth(toks, from, from + 1) == 1) by {
        assert(paren_depth(toks, from, from) == 0);
    }
    assert forall|k: int| from <= k <= to + 1 implies paren_depth(toks, from, k) >= 0 by {
        if from < k <= to {
            lemma_paren_depth_splits(toks, from, from + 1, k);
        } else if k == to + 1 {
            lemma_paren_depth_splits(toks, from, from + 1, to);
        }
    }
    lemma_paren_depth_splits(toks, from, from + 1, to);
}

/// The parentheses within an operand match.
pub proof fn lemma_primary_well_nested(toks: Seq<Tok>, pos: int)
    ensures
        primary_at(toks, pos) matches Ok((_, next)) ==> well_nested(toks, pos, next),
    decreases toks.len() - pos, 0int,
{
    if let Ok((_, end)) = primary_at(toks, pos) {
        assert(paren_depth(toks, pos, pos) == 0);
        match toks[pos] {
            Tok::LParen => {
                lemma_expr_advances(toks, pos + 1);
                lemma_expr_well_nested(toks, pos + 1);
                lemma_well_nested_in_parens(toks, pos, end - 1);
            },
            Tok::Minus => {
                assert(paren_depth(toks, pos, pos + 1) == 0);
            },
            _ => {},
        }
    }
}

/// The parentheses within an expression match.
pub proof fn lemma_expr_well_nested(toks: Seq<Tok>, pos: int)
    ensures
        expr_at(toks, pos) matches Ok((_, next)) ==> well_nested(toks, pos, next),
    decreases toks.len() - pos, 1int,
{
    lemma_primary_advances(toks, pos);
    lemma_primary_well_nested(toks, pos);
    if let Ok((lhs, next)) = primary_at(toks, pos) {
        lemma_chain_advances(toks, next, 0, lhs);
        lemma_chain_well_nested(toks, next, 0, lhs);
        if let Ok((_, end)) = chain_at(toks, next, 0, lhs) {
            lemma_well_nested_joins(toks, pos, next, end);
        }
    }
}

/// The parentheses within a chain match.
pub proof fn lemma_chain_well_nested(toks: Seq<Tok>, pos: int, min_prec: int, left: Expr)
    ensures
        chain_at(toks, pos, min_prec, left) matches Ok((_, next)) ==> well_nested(toks, pos, next),
    decreases toks.len() - pos, 2int,
{
    lemma_chain_at_unfolds(toks, pos, min_prec, left);
    if let Ok((_, end)) = chain_at(toks, pos, min_prec, left) {
        let op = toks[pos];
        assert(paren_depth(toks, pos, pos) == 0);
        if is_binary_op(op) && precedence(op) >= min_prec {
            assert(well_nested(toks, pos, pos + 1));
            lemma_primary_advances(toks, pos + 1);
            lemma_primary_well_nested(toks, pos + 1);
            let (rhs, next) = primary_at(toks, pos + 1).unwrap();
            lemma_well_nested_joins(toks, pos, pos + 1, next);
            if precedence(toks[next]) > precedence(op) {
                let tight = precedence(op) + 1;
                lemma_chain_advances(toks, next, tight, rhs);
                lemma_chain_well_nested(toks, next, tight, rhs);
                let (tighter, after) = chain_at(toks, next, tight, rhs).unwrap();
                lemma_well_nested_joins(toks, pos, next, after);
                let joined = binary_node(op, left, tighter);
                lemma_chain_advances(toks, after, min_prec, joined);
                lemma_chain_well_nested(toks, after, min_prec, joined);
                lemma_well_nested_joins(toks, pos, after, end);
            } else {
                let joined = binary_node(op, left, rhs);
                lemma_chain_advances(toks, next, min_prec, joined);
                lemma_chain_well_nested(toks, next, min_prec, joined);
                lemma_well_nested_joins(toks, pos, next, end);
            }
        }
    }
}

/// Tokens whose parentheses do not match are no expression: where parsing
/// succeeds, the parentheses from the cursor to the end-of-input marker match,
/// and that marker is the last token.
pub proof fn lemma_parse_well_nested(toks: Seq<Tok>, pos: int)
    ensures
        parse_from(toks, pos) is Ok ==> toks.last() == Tok::Eof && well_nested(
            toks,
            pos,
            toks.len() - 1,
        ),
{
    lemma_expr_well_nested(toks, pos);
}

} // verus!
