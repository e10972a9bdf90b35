//! The lexer: text to tokens.

use vstd::prelude::*;

verus! {

/// A lexical unit of an arithmetic expression.
#[derive(Clone, Copy, Debug, PartialEq, Eq, Structural)]
pub enum Tok {
    Num(i64),
    LParen,
    RParen,
    Plus,
    Minus,
    Multiply,
    Divide,
    Eof,
}

/// Why a line could not be turned into tokens.
#[derive(Clone, Copy, Debug, PartialEq, Eq, Structural)]
pub enum LexError {
    /// A run of digits denotes a number above `i64::MAX`.
    LiteralOverflow,
}

impl LexError {
    /// The message of the error, in words.
    pub open spec fn message_spec(self) -> Seq<char> {
        match self {
            LexError::LiteralOverflow => "integer literal out of range"@,
        }
    }

    /// The message of the error, in words.
    pub fn message(&self) -> (s: &'static str)
        ensures
            s@ == self.message_spec(),
    {
        match self {
            LexError::LiteralOverflow => "integer literal out of range",
        }
    }
}

/// Whether `c` is one of the decimal digits `0` to `9`.
pub open spec fn is_digit(c: char) -> bool {
    '0' <= c && c <= '9'
}

/// The value of a decimal digit.
pub open spec fn digit_value(c: char) -> nat
    recommends
        is_digit(c),
{
    (c as int - '0' as int) as nat
}

/// The token that a single character other than a digit stands for, if it
/// stands for one. Every other character is skipped by the lexer.
pub open spec fn symbol_token(c: char) -> Option<Tok> {
    if c == '(' {
        Some(Tok::LParen)
    } else if c == ')' {
        Some(Tok::RParen)
    } else if c == '+' {
        Some(Tok::Plus)
    } else if c == '-' {
        Some(Tok::Minus)
    } else if c == '*' {
        Some(Tok::Multiply)
    } else if c == '/' {
        Some(Tok::Divide)
    } else {
        None
    }
}

/// The first index at or after `i` that does not hold a digit: the end of
/// the run of digits that starts at `i`.
pub open spec fn digits_end(s: Seq<char>, i: int) -> int
    decreases s.len() - i,
{
    if 0 <= i < s.len() && is_digit(s[i]) {
        digits_end(s, i + 1)
    } else {
        i
    }
}

/// The number that a string of digits denotes in base ten.
pub open spec fn decimal_value(digits: Seq<char>) -> nat
    decreases digits.len(),
{
    if digits.len() == 0 {
        0
    } else {
        10 * decimal_value(digits.drop_last()) + digit_value(digits.last())
    }
}

/// `rest` with the tokens `front` put before it; an error stays as it is.
pub open spec fn prepend(front: Seq<Tok>, rest: Result<Seq<Tok>, LexError>) -> Result<
    Seq<Tok>,
    LexError,
> {
    match rest {
        Ok(toks) => Ok(front + toks),
        Err(e) => Err(e),
    }
}

/// The tokens of `s` from index `i` on, closed by the end-of-input marker.
///
/// A maximal run of digits is one number, each of `( ) + - * /` is one token,
/// and every other character yields nothing. A number above `i64::MAX` makes
/// the whole result an error.
pub open spec fn tokens_from(s: Seq<char>, i: int) -> Result<Seq<Tok>, LexError>
    decreases s.len() - i,
{
    if i < 0 || i >= s.len() {
        Ok(seq![Tok::Eof])
    } else if is_digit(s[i]) {
        let end = digits_end(s, i);
        let value = decimal_value(s.subrange(i, end));
        if value > i64::MAX {
            Err(LexError::LiteralOverflow)
        } else {
            proof {
                lemma_digits_end(s, i);
            }
            prepend(seq![Tok::Num(value as i64)], tokens_from(s, end))
        }
    } else {
        match symbol_token(s[i]) {
            Some(t) => prepend(seq![t], tokens_from(s, i + 1)),
            None => tokens_from(s, i + 1),
        }
    }
}

/// The tokens of a whole line.
pub open spec fn lex_spec(s: Seq<char>) -> Result<Seq<Tok>, LexError> {
    tokens_from(s, 0)
}

/// Whether `toks` is closed by the end-of-input marker and holds it nowhere
/// else.
pub open spec fn ends_in_single_eof(toks: Seq<Tok>) -> bool {
    &&& toks.len() > 0
    &&& toks.last() == Tok::Eof
    &&& forall|k: int| 0 <= k < toks.len() - 1 ==> toks[k] != Tok::Eof
}

/// Whether a number starts at index `i`: a digit that no digit precedes.
pub open spec fn starts_number(s: Seq<char>, i: int) -> bool {
    0 <= i < s.len() && is_digit(s[i]) && (i == 0 || !is_digit(s[i - 1]))
}

/// Whether every number written in `s` from index `from` on is at most
/// `i64::MAX`.
pub open spec fn literals_fit_from(s: Seq<char>, from: int) -> bool {
    forall|i: int|
        from <= i && #[trigger] starts_number(s, i) ==> decimal_value(
            s.subrange(i, digits_end(s, i)),
        ) <= i64::MAX
}

/// Whether every number written in `s` is at most `i64::MAX`.
pub open spec fn literals_fit(s: Seq<char>) -> bool {
    literals_fit_from(s, 0)
}

/// The run of digits from `i` ends within the string, holds digits only, and
/// is not followed by a digit.
pub proof fn lemma_digits_end(s: Seq<char>, i: int)
    requires
        0 <= i <= s.len(),
    ensures
        i <= digits_end(s, i) <= s.len(),
        i < s.len() && is_digit(s[i]) ==> i < digits_end(s, i),
        forall|k: int| i <= k < digits_end(s, i) ==> is_digit(#[trigger] s[k]),
        digits_end(s, i) < s.len() ==> !is_digit(s[digits_end(s, i)]),
    decreases s.len() - i,
{
    if i < s.len() && is_digit(s[i]) {
        lemma_digits_end(s, i + 1);
    }
}

/// A stretch of digits that no digit follows is the whole run from its start.
pub proof fn lemma_digits_end_is(s: Seq<char>, i: int, end: int)
    requires
        0 <= i <= end <= s.len(),
        forall|k: int| i <= k < end ==> is_digit(#[trigger] s[k]),
        end < s.len() ==> !is_digit(s[end]),
    ensures
        digits_end(s, i) == end,
    decreases end - i,
{
    if i < end {
        lemma_digits_end_is(s, i + 1, end);
    }
}

/// Reading more digits never makes the number smaller.
pub proof fn lemma_decimal_value_grows(s: Seq<char>, i: int, mid: int, end: int)
    requires
        0 <= i <= mid <= end <= s.len(),
    ensures
        decimal_value(s.subrange(i, mid)) <= decimal_value(s.subrange(i, end)),
    decreases end - mid,
{
    if mid < end {
        lemma_decimal_value_grows(s, i, mid, end - 1);
        assert(s.subrange(i, end).drop_last() =~= s.subrange(i, end - 1));
    }
}

/// One more digit multiplies the number by ten and adds the digit.
pub proof fn lemma_decimal_value_step(s: Seq<char>, i: int, end: int)
    requires
        0 <= i <= end < s.len(),
    ensures
        decimal_value(s.subrange(i, end + 1)) == 10 * decimal_value(s.subrange(i, end))
            + digit_value(s[end]),
{
    assert(s.subrange(i, end + 1).drop_last() =~= s.subrange(i, end));
}

/// Putting `front` and then `t` before `rest` is putting `front` with `t` at
/// its end before `rest`.
pub proof fn lemma_prepend_push(front: Seq<Tok>, t: Tok, rest: Result<Seq<Tok>, LexError>)
    ensures
        prepend(front, prepend(seq![t], rest)) == prepend(front.push(t), rest),
{
    if let Ok(toks) = rest {
        assert(front + (seq![t] + toks) =~= front.push(t) + toks);
    }
}

/// Whatever the text, its tokens are closed by the end-of-input marker, which
/// stands nowhere else among them.
pub proof fn lemma_tokens_end_in_single_eof(s: Seq<char>, i: int)
    ensures
        tokens_from(s, i) matches Ok(toks) ==> ends_in_single_eof(toks),
    decreases s.len() - i,
{
    if i < 0 || i >= s.len() {
    } else if is_digit(s[i]) {
        lemma_digits_end(s, i);
        lemma_tokens_end_in_single_eof(s, digits_end(s, i));
    } else {
        lemma_tokens_end_in_single_eof(s, i + 1);
    }
}

/// Lexing from an index that is not inside a number succeeds exactly when
/// every number from there on fits in an `i64`.
pub proof fn lemma_tokens_ok_iff_literals_fit(s: Seq<char>, i: int)
    requires
        0 <= i <= s.len(),
        i == 0 || i == s.len() || !is_digit(s[i - 1]) || !is_digit(s[i]),
    ensures
        tokens_from(s, i) is Ok <==> literals_fit_from(s, i),
    decreases s.len() - i,
{
    if i >= s.len() {
    } else if is_digit(s[i]) {
        let end = digits_end(s, i);
        lemma_digits_end(s, i);
        lemma_tokens_ok_iff_literals_fit(s, end);
        assert(starts_number(s, i));
        if literals_fit_from(s, i) {
            assert(literals_fit_from(s, end));
        }
        if tokens_from(s, i) is Ok {
            assert forall|k: int| i <= k && #[trigger] starts_number(s, k) implies decimal_value(
                s.subrange(k, digits_end(s, k)),
            ) <= i64::MAX by {
                lemma_digits_end(s, k);
                if i < k < end {
                    assert(is_digit(s[k - 1]));
                }
            }
        }
    } else {
        lemma_tokens_ok_iff_literals_fit(s, i + 1);
        if tokens_from(s, i) is Ok {
            assert forall|k: int| i <= k && #[trigger] starts_number(s, k) implies decimal_value(
                s.subrange(k, digits_end(s, k)),
            ) <= i64::MAX by {
                lemma_digits_end(s, k);
            }
        }
        if literals_fit_from(s, i) {
            assert(literals_fit_from(s, i + 1));
        }
    }
}

/// Lexing is total on the lines whose numbers fit in an `i64`: such a line
/// has tokens, and they end in the end-of-input marker, which stands nowhere
/// else among them.
pub proof fn lemma_lex_total(s: Seq<char>)
    requires
        literals_fit(s),
    ensures
        lex_spec(s) matches Ok(toks) && ends_in_single_eof(toks),
{
    lemma_tokens_ok_iff_literals_fit(s, 0);
    lemma_tokens_end_in_single_eof(s, 0);
}

fn digit_of(c: char) -> (r: Option<u8>)
    ensures
        r is Some <==> is_digit(c),
        r matches Some(d) ==> d == digit_value(c) && d <= 9,
{
    if '0' <= c && c <= '9' {
        Some((c as u32 - '0' as u32) as u8)
    } else {
        None
    }
}

fn symbol_of(c: char) -> (r: Option<Tok>)
    ensures
        r == symbol_token(c),
{
    match c {
        '(' => Some(Tok::LParen),
        ')' => Some(Tok::RParen),
        '+' => Some(Tok::Plus),
        '-' => Some(Tok::Minus),
        '*' => Some(Tok::Multiply),
        '/' => Some(Tok::Divide),
        _ => None,
    }
}

/// Turns a line of text into its tokens.
///
/// Lexing fails only where a number does not fit in an `i64`; characters that
/// stand for nothing are dropped. The tokens of a line always end in the
/// end-of-input marker, which stands nowhere else among them.
pub fn lex(line: &str) -> (r: Result<Vec<Tok>, LexError>)
    ensures
        r matches Ok(toks) ==> lex_spec(line@) == Ok::<Seq<Tok>, LexError>(toks@),
        r matches Err(e) ==> lex_spec(line@) == Err::<Seq<Tok>, LexError>(e),
        r is Ok <==> literals_fit(line@),
        r matches Ok(toks) ==> ends_in_single_eof(toks@),
{
    proof {
        lemma_tokens_end_in_single_eof(line@, 0);
        lemma_tokens_ok_iff_literals_fit(line@, 0);
    }
    let mut toks: Vec<Tok> = Vec::new();
    let mut pending: Option<i64> = None;
    let ghost mut start: int = 0;
    let ghost mut seen: int = 0;
    let ghost s = line@;
    for c in it: line.chars()
        invariant
            s == line@,
            it.seq() == s,
            seen == it.index(),
            0 <= start <= it.index(),
            pending is None ==> start == it.index(),
            pending matches Some(v) ==> {
                &&& start < it.index()
                &&& v >= 0
                &&& v == decimal_value(s.subrange(start, it.index()))
                &&& forall|k: int| start <= k < it.index() ==> is_digit(#[trigger] s[k])
            },
            lex_spec(s) == prepend(toks@, tokens_from(s, start)),
    {
        let ghost i = it.index();
        match digit_of(c) {
            Some(d) => {
                match pending {
                    Some(v) => {
                        proof {
                            lemma_decimal_value_step(s, start, i);
                        }
                        let grown = match v.checked_mul(10) {
                            Some(tens) => tens.checked_add(d as i64),
                            None => None,
                        };
                        match grown {
                            Some(w) => {
                                pending = Some(w);
                            },
                            None => {
                                proof {
                                    lemma_digits_end(s, i);
                                    lemma_digits_end_is(s, start, digits_end(s, i));
                                    lemma_decimal_value_grows(s, start, i + 1, digits_end(s, start));
                                    assert(is_digit(s[start]));
                                    lemma_tokens_ok_iff_literals_fit(s, 0);
                                }
                                return Err(LexError::LiteralOverflow);
                            },
                        }
                    },
                    None => {
                        proof {
                            lemma_decimal_value_step(s, i, i);
                        }
                        pending = Some(d as i64);
                    },
                }
            },
            None => {
                if let Some(v) = pending {
                    proof {
                        lemma_digits_end_is(s, start, i);
                        lemma_prepend_push(toks@, Tok::Num(v), tokens_from(s, i));
                    }
                    toks.push(Tok::Num(v));
                    pending = None;
                }
                if let Some(t) = symbol_of(c) {
                    proof {
                        lemma_prepend_push(toks@, t, tokens_from(s, i + 1));
                    }
                    toks.push(t);
                }
                proof {
                    start = i + 1;
                }
            },
        }
        proof {
            seen = i + 1;
        }
    }
    if let Some(v) = pending {
        proof {
            lemma_digits_end_is(s, start, seen);
            lemma_prepend_push(toks@, Tok::Num(v), tokens_from(s, seen));
        }
        toks.push(Tok::Num(v));
    }
    proof {
        assert(toks@ + seq![Tok::Eof] =~= toks@.push(Tok::Eof));
    }
    toks.push(Tok::Eof);
    Ok(toks)
}

} // verus!
