use calc::lex::{lex, LexError, Tok};

#[test]
fn test_lex() {
    assert_eq!(
        lex("24 / (4 - 4)"),
        Ok(vec![
            Tok::Num(24),
            Tok::Divide,
            Tok::LParen,
            Tok::Num(4),
            Tok::Minus,
            Tok::Num(4),
            Tok::RParen,
            Tok::Eof
        ])
    )
}

#[test]
fn lex_multi_digit_literal_is_one_token() {
    assert_eq!(lex("123"), Ok(vec![Tok::Num(123), Tok::Eof]));
}

#[test]
fn lex_drops_unrecognized_characters() {
    assert_eq!(lex("1a2"), Ok(vec![Tok::Num(1), Tok::Num(2), Tok::Eof]));
    assert_eq!(lex("x = 3 % 2;"), Ok(vec![Tok::Num(3), Tok::Num(2), Tok::Eof]));
    assert_eq!(lex("1\u{663}2"), Ok(vec![Tok::Num(1), Tok::Num(2), Tok::Eof]));
}

#[test]
fn lex_empty_and_blank_lines() {
    assert_eq!(lex(""), Ok(vec![Tok::Eof]));
    assert_eq!(lex("  \t\n"), Ok(vec![Tok::Eof]));
}

#[test]
fn lex_every_symbol() {
    assert_eq!(
        lex("()+-*/"),
        Ok(vec![
            Tok::LParen,
            Tok::RParen,
            Tok::Plus,
            Tok::Minus,
            Tok::Multiply,
            Tok::Divide,
            Tok::Eof
        ])
    );
}

#[test]
fn lex_numbers_split_by_space_or_symbol() {
    assert_eq!(lex("12 34"), Ok(vec![Tok::Num(12), Tok::Num(34), Tok::Eof]));
    assert_eq!(
        lex("12-34"),
        Ok(vec![Tok::Num(12), Tok::Minus, Tok::Num(34), Tok::Eof])
    );
    assert_eq!(lex("7"), Ok(vec![Tok::Num(7), Tok::Eof]));
    assert_eq!(lex("0"), Ok(vec![Tok::Num(0), Tok::Eof]));
}

#[test]
fn lex_leading_zeros_do_not_count() {
    assert_eq!(lex("007"), Ok(vec![Tok::Num(7), Tok::Eof]));
    assert_eq!(
        lex("00000000000000000000000000000000000001"),
        Ok(vec![Tok::Num(1), Tok::Eof])
    );
}

#[test]
fn lex_largest_literal() {
    assert_eq!(
        lex("9223372036854775807"),
        Ok(vec![Tok::Num(9223372036854775807), Tok::Eof])
    );
    assert_eq!(
        lex("-9223372036854775807"),
        Ok(vec![Tok::Minus, Tok::Num(9223372036854775807), Tok::Eof])
    );
}

#[test]
fn lex_rejects_literal_above_i64_max() {
    assert_eq!(lex("9223372036854775808"), Err(LexError::LiteralOverflow));
    assert_eq!(lex("99999999999999999999"), Err(LexError::LiteralOverflow));
    assert_eq!(lex("1 + 92233720368547758070"), Err(LexError::LiteralOverflow));
    assert_eq!(lex("92233720368547758070 + 1"), Err(LexError::LiteralOverflow));
}

#[test]
fn lex_ends_in_exactly_one_eof() {
    for line in ["", "1", "1 + 2", "((", "abc", "12 * (3 - 4) / 5", "- - -"] {
        let toks = lex(line).unwrap();
        assert!(!toks.is_empty());
        assert_eq!(toks[toks.len() - 1], Tok::Eof);
        assert_eq!(toks.iter().filter(|t| **t == Tok::Eof).count(), 1);
    }
}

#[test]
fn lex_error_message() {
    assert_eq!(LexError::LiteralOverflow.message(), "integer literal out of range");
}
