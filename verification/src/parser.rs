//! The parser: tokens to an expression tree, by precedence climbing.

use crate::lex::Tok;
use vstd::prelude::*;

verus! {

/// An arithmetic expression. Every node owns its operands.
#[derive(Debug, PartialEq, Eq)]
pub enum Expr {
    Num(i64),
    Plus(Box<Expr>, Box<Expr>),
    Minus(Box<Expr>, Box<Expr>),
    Multiply(Box<Expr>, Box<Expr>),
    Divide(Box<Expr>, Box<Expr>),
    Negate(Box<Expr>),
}

/// Why a sequence of tokens is not an expression.
#[derive(Clone, Copy, Debug, PartialEq, Eq, Structural)]
pub enum ParseError {
    /// There is no token at all.
    NoTokens,
    /// A token that cannot start an operand stands where an operand is due.
    UnexpectedToken,
    /// An opened parenthesis is not closed where its expression ends.
    MismatchedParenthesis,
    /// A minus sign in operand position is not followed by a number.
    UnexpectedNegationOperand,
    /// The tokens end where one more is needed.
    NoMoreTokens,
    /// A complete expression is followed by something other than the single
    /// closing end-of-input marker.
    TrailingTokens,
}

impl ParseError {
    /// The message of the error, in words.
    pub open spec fn message_spec(self) -> Seq<char> {
        match self {
            ParseError::NoTokens => "no tokens"@,
            ParseError::UnexpectedToken => "unexpected token"@,
            ParseError::MismatchedParenthesis => "mismatched parenthesis"@,
            ParseError::UnexpectedNegationOperand => "unexpected negation operand"@,
            ParseError::NoMoreTokens => "no more tokens"@,
            ParseError::TrailingTokens => "unexpected trailing tokens"@,
        }
    }

    /// The message of the error, in words.
    pub fn message(&self) -> (s: &'static str)
        ensures
            s@ == self.message_spec(),
    {
        match self {
            ParseError::NoTokens => "no tokens",
            ParseError::UnexpectedToken => "unexpected token",
            ParseError::MismatchedParenthesis => "mismatched parenthesis",
            ParseError::UnexpectedNegationOperand => "unexpected negation operand",
            ParseError::NoMoreTokens => "no more tokens",
            ParseError::TrailingTokens => "unexpected trailing tokens",
        }
    }
}

/// What parsing part of the tokens gives: the expression and the index of the
/// first token after it.
pub type Parsed = Result<(Expr, int), ParseError>;

/// How tightly a token binds as a binary operator: 10 for `+` and `-`, 20 for
/// `*` and `/`, and -1 for every token that is no binary operator.
pub open spec fn precedence(t: Tok) -> int {
    match t {
        Tok::Plus | Tok::Minus => 10,
        Tok::Multiply | Tok::Divide => 20,
        _ => -1,
    }
}

/// Whether a token is one of the four binary operators.
pub open spec fn is_binary_op(t: Tok) -> bool {
    t == Tok::Plus || t == Tok::Minus || t == Tok::Multiply || t == Tok::Divide
}

/// The node that joins two operands by the operator `op`.
pub open spec fn binary_node(op: Tok, lhs: Expr, rhs: Expr) -> Expr
    recommends
        is_binary_op(op),
{
    match op {
        Tok::Plus => Expr::Plus(Box::new(lhs), Box::new(rhs)),
        Tok::Minus => Expr::Minus(Box::new(lhs), Box::new(rhs)),
        Tok::Multiply => Expr::Multiply(Box::new(lhs), Box::new(rhs)),
        _ => Expr::Divide(Box::new(lhs), Box::new(rhs)),
    }
}

/// The token at index `pos`, or the error for looking past the tokens.
pub open spec fn token_at(toks: Seq<Tok>, pos: int) -> Result<Tok, ParseError> {
    if 0 <= pos < toks.len() {
        Ok(toks[pos])
    } else {
        Err(ParseError::NoMoreTokens)
    }
}

/// The operand that starts at index `pos`: a number, a minus sign with the
/// number right after it, or an expression in parentheses.
pub open spec fn primary_at(toks: Seq<Tok>, pos: int) -> Parsed
    decreases toks.len() - pos, 0int,
{
    match token_at(toks, pos) {
        Err(e) => Err(e),
        Ok(Tok::Num(v)) => Ok((Expr::Num(v), pos + 1)),
        Ok(Tok::Minus) => match token_at(toks, pos + 1) {
            Err(e) => Err(e),
            Ok(Tok::Num(v)) => Ok((Expr::Negate(Box::new(Expr::Num(v))), pos + 2)),
            Ok(_) => Err(ParseError::UnexpectedNegationOperand),
        },
        Ok(Tok::LParen) => match expr_at(toks, pos + 1) {
            Err(e) => Err(e),
            Ok((inner, next)) => match token_at(toks, next) {
                Err(e) => Err(e),
                Ok(Tok::RParen) => Ok((inner, next + 1)),
                Ok(_) => Err(ParseError::MismatchedParenthesis),
            },
        },
        Ok(_) => Err(ParseError::UnexpectedToken),
    }
}

/// The expression that starts at index `pos`: an operand and the chain of
/// operators and operands after it.
///
/// An operand always ends after the index it starts at and within the tokens;
/// the test on `next` only shows that the definition is well founded.
/// `lemma_expr_at_unfolds` gives the definition without it.
pub open spec fn expr_at(toks: Seq<Tok>, pos: int) -> Parsed
    decreases toks.len() - pos, 1int,
{
    match primary_at(toks, pos) {
        Err(e) => Err(e),
        Ok((lhs, next)) => if pos < next <= toks.len() {
            chain_at(toks, next, 0, lhs)
        } else {
            Err(ParseError::NoMoreTokens)
        },
    }
}

/// The expression that the operators and operands from index `pos` on make of
/// the operand `left` before them, taking only operators that bind at least as
/// tightly as `min_prec`.
///
/// The chain ends before the first token that is no such operator. An operator
/// takes the operand after it; where the operator after that operand binds
/// tighter, that operand first takes its own chain of tighter operators. So
/// operators of one tier group to the left, and a tighter tier groups first.
///
/// As in `expr_at`, the tests on `next` and `after` are always met, and
/// `lemma_chain_at_unfolds` gives the definition without them.
pub open spec fn chain_at(toks: Seq<Tok>, pos: int, min_prec: int, left: Expr) -> Parsed
    decreases toks.len() - pos, 2int,
{
    match token_at(toks, pos) {
        Err(e) => Err(e),
        Ok(op) => if !is_binary_op(op) || precedence(op) < min_prec {
            Ok((left, pos))
        } else {
            match primary_at(toks, pos + 1) {
                Err(e) => Err(e),
                Ok((rhs, next)) => match token_at(toks, next) {
                    Err(e) => Err(e),
                    Ok(ahead) => if next <= pos {
                        Err(ParseError::NoMoreTokens)
                    } else if precedence(ahead) > precedence(op) {
                        match chain_at(toks, next, precedence(op) + 1, rhs) {
                            Err(e) => Err(e),
                            Ok((tighter, after)) => if pos < after <= toks.len() {
                                chain_at(toks, after, min_prec, binary_node(op, left, tighter))
                            } else {
                                Err(ParseError::NoMoreTokens)
                            },
                        }
                    } else {
                        chain_at(toks, next, min_prec, binary_node(op, left, rhs))
                    },
                },
            }
        },
    }
}

/// The expression that the tokens from index `pos` on spell, where they are
/// one expression followed by the end-of-input marker as the last token.
pub open spec fn parse_from(toks: Seq<Tok>, pos: int) -> Result<Expr, ParseError> {
    if toks.len() == 0 {
        Err(ParseError::NoTokens)
    } else {
        match expr_at(toks, pos) {
            Err(e) => Err(e),
            Ok((e, next)) => if next + 1 == toks.len() && toks[next] == Tok::Eof {
                Ok(e)
            } else {
                Err(ParseError::TrailingTokens)
            },
        }
    }
}

/// The expression that a whole sequence of tokens spells.
pub open spec fn parse_spec(toks: Seq<Tok>) -> Result<Expr, ParseError> {
    parse_from(toks, 0)
}

/// Whether every negation in the expression is the negation of a number.
pub open spec fn negates_numbers_only(e: Expr) -> bool
    decreases e,
{
    match e {
        Expr::Num(_) => true,
        Expr::Plus(l, r) => negates_numbers_only(*l) && negates_numbers_only(*r),
        Expr::Minus(l, r) => negates_numbers_only(*l) && negates_numbers_only(*r),
        Expr::Multiply(l, r) => negates_numbers_only(*l) && negates_numbers_only(*r),
        Expr::Divide(l, r) => negates_numbers_only(*l) && negates_numbers_only(*r),
        Expr::Negate(x) => *x is Num,
    }
}

/// An operand ends after the index it starts at and within the tokens, and
/// negates nothing but numbers.
pub proof fn lemma_primary_advances(toks: Seq<Tok>, pos: int)
    ensures
        primary_at(toks, pos) matches Ok((e, next)) ==> pos < next <= toks.len()
            && negates_numbers_only(e),
    decreases toks.len() - pos, 0int,
{
    if token_at(toks, pos) == Ok::<Tok, ParseError>(Tok::LParen) {
        lemma_expr_advances(toks, pos + 1);
    }
}

/// An expression ends after the index it starts at and before a token that
/// stands behind it, and negates nothing but numbers.
pub proof fn lemma_expr_advances(toks: Seq<Tok>, pos: int)
    ensures
        expr_at(toks, pos) matches Ok((e, next)) ==> pos < next < toks.len()
            && negates_numbers_only(e),
    decreases toks.len() - pos, 1int,
{
    lemma_primary_advances(toks, pos);
    if let Ok((lhs, next)) = primary_at(toks, pos) {
        lemma_chain_advances(toks, next, 0, lhs);
    }
}

/// A chain ends at or after the index it starts at and before a token that
/// stands behind it, and where the operand before it negates nothing but
/// numbers, so does the whole.
pub proof fn lemma_chain_advances(toks: Seq<Tok>, pos: int, min_prec: int, left: Expr)
    ensures
        chain_at(toks, pos, min_prec, left) matches Ok((e, next)) ==> pos <= next < toks.len() && (
        negates_numbers_only(left) ==> negates_numbers_only(e)),
    decreases toks.len() - pos, 2int,
{
    if let Ok(op) = token_at(toks, pos) {
        if is_binary_op(op) && precedence(op) >= min_prec {
            lemma_primary_advances(toks, pos + 1);
            if let Ok((rhs, next)) = primary_at(toks, pos + 1) {
                if let Ok(ahead) = token_at(toks, next) {
                    if precedence(ahead) > precedence(op) {
                        lemma_chain_advances(toks, next, precedence(op) + 1, rhs);
                        if let Ok((tighter, after)) = chain_at(
                            toks,
                            next,
                            precedence(op) + 1,
                            rhs,
                        ) {
                            lemma_chain_advances(
                                toks,
                                after,
                                min_prec,
                                binary_node(op, left, tighter),
                            );
                        }
                    } else {
                        lemma_chain_advances(toks, next, min_prec, binary_node(op, left, rhs));
                    }
                }
            }
        }
    }
}

/// What `expr_at` says: the operand at `pos`, with the chain behind it.
pub open spec fn expr_unfolded(toks: Seq<Tok>, pos: int) -> Parsed {
    match primary_at(toks, pos) {
        Err(e) => Err(e),
        Ok((lhs, next)) => chain_at(toks, next, 0, lhs),
    }
}

/// What `chain_at` says: `left` where no operator of the chain stands at
/// `pos`; else the chain behind the operator's right operand, with `left`,
/// the operator and that operand as the operand before it. The right operand
/// is the operand after the operator, with its own chain of tighter operators
/// where one follows it.
pub open spec fn chain_unfolded(toks: Seq<Tok>, pos: int, min_prec: int, left: Expr) -> Parsed {
    match token_at(toks, pos) {
        Err(e) => Err(e),
        Ok(op) => if !is_binary_op(op) || precedence(op) < min_prec {
            Ok((left, pos))
        } else {
            match primary_at(toks, pos + 1) {
                Err(e) => Err(e),
                Ok((rhs, next)) => match token_at(toks, next) {
                    Err(e) => Err(e),
                    Ok(ahead) => if precedence(ahead) > precedence(op) {
                        match chain_at(toks, next, precedence(op) + 1, rhs) {
                            Err(e) => Err(e),
                            Ok((tighter, after)) => chain_at(
                                toks,
                                after,
                                min_prec,
                                binary_node(op, left, tighter),
                            ),
                        }
                    } else {
                        chain_at(toks, next, min_prec, binary_node(op, left, rhs))
                    },
                },
            }
        },
    }
}

/// The test in the definition of `expr_at` is always met.
pub proof fn lemma_expr_at_unfolds(toks: Seq<Tok>, pos: int)
    ensures
        expr_at(toks, pos) == expr_unfolded(toks, pos),
{
    lemma_primary_advances(toks, pos);
}

/// The tests in the definition of `chain_at` are always met.
pub proof fn lemma_chain_at_unfolds(toks: Seq<Tok>, pos: int, min_prec: int, left: Expr)
    ensures
        chain_at(toks, pos, min_prec, left) == chain_unfolded(toks, pos, min_prec, left),
{
    lemma_primary_advances(toks, pos + 1);
    if let Ok((rhs, next)) = primary_at(toks, pos + 1) {
        if let Ok(op) = token_at(toks, pos) {
            lemma_chain_advances(toks, next, precedence(op) + 1, rhs);
        }
    }
}

/// Whatever the tokens, the parser negates nothing but numbers: a minus sign
/// in operand position takes the number right after it and nothing else.
pub proof fn lemma_parse_negates_numbers_only(toks: Seq<Tok>, pos: int)
    ensures
        parse_from(toks, pos) matches Ok(e) ==> negates_numbers_only(e),
{
    lemma_expr_advances(toks, pos);
}

/// A parser over a sequence of tokens, with a cursor that only moves forward.
pub struct Parser {
    toks: Vec<Tok>,
    pos: usize,
}

impl Parser {
    /// The cursor never stands beyond the end of the tokens.
    #[verifier::type_invariant]
    spec fn cursor_within_tokens(self) -> bool {
        self.pos <= self.toks@.len()
    }

    /// The tokens that the parser reads.
    pub closed spec fn tokens(&self) -> Seq<Tok> {
        self.toks@
    }

    /// The index of the next token to read.
    pub closed spec fn cursor(&self) -> int {
        self.pos as int
    }

    /// A parser at the start of `toks`.
    pub fn new(toks: Vec<Tok>) -> (p: Self)
        ensures
            p.tokens() == toks@,
            p.cursor() == 0,
    {
        Parser { toks: toks, pos: 0 }
    }

    /// Parses the tokens from the cursor on as one expression that reaches to
    /// the closing end-of-input marker.
    pub fn parse(&mut self) -> (r: Result<Expr, ParseError>)
        ensures
            r == parse_from(old(self).tokens(), old(self).cursor()),
            final(self).tokens() == old(self).tokens(),
            final(self).cursor() >= old(self).cursor(),
            final(self).cursor() <= final(self).tokens().len(),
            r is Ok ==> final(self).cursor() + 1 == final(self).tokens().len(),
    {
        if self.toks.len() == 0 {
            proof {
                use_type_invariant(&*self);
            }
            return Err(ParseError::NoTokens);
        }
        let parsed = self.parse_expr();
        proof {
            use_type_invariant(&*self);
        }
        let e = parsed?;
        match self.get_token(self.pos) {
            Ok(Tok::Eof) => {
                if self.pos + 1 == self.toks.len() {
                    Ok(e)
                } else {
                    Err(ParseError::TrailingTokens)
                }
            },
            _ => Err(ParseError::TrailingTokens),
        }
    }

    fn parse_expr(&mut self) -> (r: Result<Expr, ParseError>)
        ensures
            final(self).toks == old(self).toks,
            final(self).pos >= old(self).pos,
            r matches Ok(e) ==> expr_at(old(self).toks@, old(self).pos as int) == Ok::<
                (Expr, int),
                ParseError,
            >((e, final(self).pos as int)) && final(self).pos < old(self).toks.len(),
            r matches Err(err) ==> expr_at(old(self).toks@, old(self).pos as int) == Err::<
                (Expr, int),
                ParseError,
            >(err),
        decreases old(self).toks.len() - old(self).pos, 1int,
    {
        let lhs = self.parse_primary()?;
        self.parse_binary_ops(0, lhs)
    }

    fn parse_primary(&mut self) -> (r: Result<Expr, ParseError>)
        ensures
            final(self).toks == old(self).toks,
            final(self).pos >= old(self).pos,
            r matches Ok(e) ==> primary_at(old(self).toks@, old(self).pos as int) == Ok::<
                (Expr, int),
                ParseError,
            >((e, final(self).pos as int)) && old(self).pos < final(self).pos <= old(
                self,
            ).toks.len(),
            r matches Err(err) ==> primary_at(old(self).toks@, old(self).pos as int) == Err::<
                (Expr, int),
                ParseError,
            >(err),
        decreases old(self).toks.len() - old(self).pos, 0int,
    {
        let tok = self.get_token(self.pos)?;
        match tok {
            Tok::Minus => self.parse_negate(),
            Tok::Num(_) => self.parse_num(),
            Tok::LParen => self.parse_paren(),
            _ => Err(ParseError::UnexpectedToken),
        }
    }

    fn parse_negate(&mut self) -> (r: Result<Expr, ParseError>)
        requires
            token_at(old(self).toks@, old(self).pos as int) == Ok::<Tok, ParseError>(Tok::Minus),
        ensures
            final(self).toks == old(self).toks,
            final(self).pos >= old(self).pos,
            r matches Ok(e) ==> primary_at(old(self).toks@, old(self).pos as int) == Ok::<
                (Expr, int),
                ParseError,
            >((e, final(self).pos as int)) && old(self).pos < final(self).pos <= old(
                self,
            ).toks.len(),
            r matches Err(err) ==> primary_at(old(self).toks@, old(self).pos as int) == Err::<
                (Expr, int),
                ParseError,
            >(err),
    {
        self.eat_token();
        let tok = self.get_token(self.pos)?;
        match tok {
            Tok::Num(i) => {
                self.eat_token();
                Ok(Expr::Negate(Box::new(Expr::Num(i))))
            },
            _ => Err(ParseError::UnexpectedNegationOperand),
        }
    }

    fn parse_num(&mut self) -> (r: Result<Expr, ParseError>)
        ensures
            final(self).toks == old(self).toks,
            final(self).pos >= old(self).pos,
            r matches Ok(e) ==> {
                &&& token_at(old(self).toks@, old(self).pos as int) matches Ok(Tok::Num(v))
                &&& e == Expr::Num(v)
                &&& final(self).pos == old(self).pos + 1
            },
            r matches Err(err) ==> {
                &&& final(self).pos == old(self).pos
                &&& match token_at(old(self).toks@, old(self).pos as int) {
                    Ok(Tok::Num(_)) => false,
                    Ok(_) => err == ParseError::UnexpectedToken,
                    Err(e) => err == e,
                }
            },
    {
        let tok = self.get_token(self.pos)?;
        match tok {
            Tok::Num(i) => {
                self.eat_token();
                Ok(Expr::Num(i))
            },
            _ => Err(ParseError::UnexpectedToken),
        }
    }

    fn parse_paren(&mut self) -> (r: Result<Expr, ParseError>)
        requires
            token_at(old(self).toks@, old(self).pos as int) == Ok::<Tok, ParseError>(Tok::LParen),
        ensures
            final(self).toks == old(self).toks,
            final(self).pos >= old(self).pos,
            r matches Ok(e) ==> primary_at(old(self).toks@, old(self).pos as int) == Ok::<
                (Expr, int),
                ParseError,
            >((e, final(self).pos as int)) && old(self).pos < final(self).pos <= old(
                self,
            ).toks.len(),
            r matches Err(err) ==> primary_at(old(self).toks@, old(self).pos as int) == Err::<
                (Expr, int),
                ParseError,
            >(err),
        decreases old(self).toks.len() - old(self).pos - 1, 2int,
    {
        self.eat_token();
        let expr = self.parse_expr()?;
        let tok = self.get_token(self.pos)?;
        match tok {
            Tok::RParen => {
                self.eat_token();
                Ok(expr)
            },
            _ => Err(ParseError::MismatchedParenthesis),
        }
    }

    fn parse_binary_ops(&mut self, expr_pred: i8, left_expr: Expr) -> (r: Result<
        Expr,
        ParseError,
    >)
        requires
            expr_pred >= 0,
        ensures
            final(self).toks == old(self).toks,
            final(self).pos >= old(self).pos,
            r matches Ok(e) ==> chain_at(
                old(self).toks@,
                old(self).pos as int,
                expr_pred as int,
                left_expr,
            ) == Ok::<(Expr, int), ParseError>((e, final(self).pos as int)) && final(self).pos
                < old(self).toks.len(),
            r matches Err(err) ==> chain_at(
                old(self).toks@,
                old(self).pos as int,
                expr_pred as int,
                left_expr,
            ) == Err::<(Expr, int), ParseError>(err),
        decreases old(self).toks.len() - old(self).pos, 2int,
    {
        let ghost toks = self.toks@;
        let ghost whole = chain_at(toks, self.pos as int, expr_pred as int, left_expr);
        let mut left = left_expr;
        loop
            invariant
                self.toks == old(self).toks,
                self.toks@ == toks,
                self.pos >= old(self).pos,
                expr_pred >= 0,
                whole == chain_at(toks, old(self).pos as int, expr_pred as int, left_expr),
                whole == chain_at(toks, self.pos as int, expr_pred as int, left),
            decreases self.toks.len() - self.pos,
        {
            let tok = self.get_token(self.pos)?;
            let tok_pred = Self::get_op_pred(&tok);
            if tok_pred < expr_pred {
                return Ok(left);
            }
            self.eat_token();
            let mut right_expr = self.parse_primary()?;
            let next_op = self.get_token(self.pos)?;
            let next_pred = Self::get_op_pred(&next_op);

            if tok_pred < next_pred {
                right_expr = self.parse_binary_ops(tok_pred + 1, right_expr)?;
            }
            left = Self::binary_op_expr(&tok, left, right_expr);
        }
    }

    fn binary_op_expr(op: &Tok, lhs: Expr, rhs: Expr) -> (e: Expr)
        requires
            is_binary_op(*op),
        ensures
            e == binary_node(*op, lhs, rhs),
    {
        match *op {
            Tok::Plus => Expr::Plus(Box::new(lhs), Box::new(rhs)),
            Tok::Minus => Expr::Minus(Box::new(lhs), Box::new(rhs)),
            Tok::Multiply => Expr::Multiply(Box::new(lhs), Box::new(rhs)),
            _ => Expr::Divide(Box::new(lhs), Box::new(rhs)),
        }
    }

    fn get_token(&self, pos: usize) -> (r: Result<Tok, ParseError>)
        ensures
            r == token_at(self.toks@, pos as int),
    {
        if pos < self.toks.len() {
            Ok(self.toks[pos])
        } else {
            Err(ParseError::NoMoreTokens)
        }
    }

    fn eat_token(&mut self)
        requires
            old(self).pos < old(self).toks.len(),
        ensures
            final(self).toks == old(self).toks,
            final(self).pos == old(self).pos + 1,
    {
        self.pos += 1;
    }

    fn get_op_pred(tok: &Tok) -> (p: i8)
        ensures
            p == precedence(*tok),
    {
        match *tok {
            Tok::Num(_) => -1,
            Tok::Plus => 10,
            Tok::Minus => 10,
            Tok::Multiply => 20,
            Tok::Divide => 20,
            Tok::LParen => -1,
            Tok::RParen => -1,
            Tok::Eof => -1,
        }
    }
}

} // verus!
