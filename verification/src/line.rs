//! One line of text, from its characters to its value.

use crate::eval::{eval, eval_spec, EvaluationError};
use crate::lex::{lex, lex_spec, LexError};
use crate::parser::{parse_spec, Expr, ParseError, Parser};
use vstd::prelude::*;

verus! {

/// Why a line has no value: the failure of the stage that stopped it.
#[derive(Clone, Copy, Debug, PartialEq, Eq, Structural)]
pub enum Error {
    Lex(LexError),
    Parse(ParseError),
    Eval(EvaluationError),
}

impl Error {
    /// The message of the error, in words: that of the stage that failed.
    pub open spec fn message_spec(self) -> Seq<char> {
        match self {
            Error::Lex(e) => e.message_spec(),
            Error::Parse(e) => e.message_spec(),
            Error::Eval(e) => e.message_spec(),
        }
    }

    /// The message of the error, in words: that of the stage that failed.
    pub fn message(&self) -> (s: &'static str)
        ensures
            s@ == self.message_spec(),
    {
        match self {
            Error::Lex(e) => e.message(),
            Error::Parse(e) => e.message(),
            Error::Eval(e) => e.message(),
        }
    }
}

/// The expression that a line of text spells.
pub open spec fn parse_line_spec(text: Seq<char>) -> Result<Expr, Error> {
    match lex_spec(text) {
        Err(e) => Err(Error::Lex(e)),
        Ok(toks) => match parse_spec(toks) {
            Err(e) => Err(Error::Parse(e)),
            Ok(expr) => Ok(expr),
        },
    }
}

/// The value of an expression, as the result of a line.
pub open spec fn value_of(expr: Expr) -> Result<i64, Error> {
    match eval_spec(expr) {
        Err(e) => Err(Error::Eval(e)),
        Ok(v) => Ok(v),
    }
}

/// The value of the expression that a line of text spells.
pub open spec fn evaluate_line_spec(text: Seq<char>) -> Result<i64, Error> {
    match parse_line_spec(text) {
        Err(e) => Err(e),
        Ok(expr) => value_of(expr),
    }
}

/// Lexes and parses a line of text.
pub fn parse_line(line: &str) -> (r: Result<Expr, Error>)
    ensures
        r == parse_line_spec(line@),
{
    match lex(line) {
        Err(e) => Err(Error::Lex(e)),
        Ok(toks) => {
            let mut parser = Parser::new(toks);
            match parser.parse() {
                Err(e) => Err(Error::Parse(e)),
                Ok(expr) => Ok(expr),
            }
        },
    }
}

/// Lexes, parses and evaluates a line of text: the first stage that fails
/// gives the error, and the line has a value where none does.
pub fn evaluate_line(line: &str) -> (r: Result<i64, Error>)
    ensures
        r == evaluate_line_spec(line@),
{
    match parse_line(line) {
        Err(e) => Err(e),
        Ok(expr) => match eval(&expr) {
            Err(e) => Err(Error::Eval(e)),
            Ok(v) => Ok(v),
        },
    }
}

} // verus!
