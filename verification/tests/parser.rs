use calc::lex::{lex, Tok};
use calc::parser::{Expr, ParseError, Parser};

fn num(v: i64) -> Box<Expr> {
    Box::new(Expr::Num(v))
}

fn parse_text(line: &str) -> Result<Expr, ParseError> {
    Parser::new(lex(line).unwrap()).parse()
}

#[test]
fn parse_single_number() {
    assert_eq!(parse_text("42"), Ok(Expr::Num(42)));
}

#[test]
fn parse_one_operator_of_each_kind() {
    assert_eq!(parse_text("1 + 2"), Ok(Expr::Plus(num(1), num(2))));
    assert_eq!(parse_text("1 - 2"), Ok(Expr::Minus(num(1), num(2))));
    assert_eq!(parse_text("1 * 2"), Ok(Expr::Multiply(num(1), num(2))));
    assert_eq!(parse_text("1 / 2"), Ok(Expr::Divide(num(1), num(2))));
}

#[test]
fn parse_tighter_operator_groups_first() {
    assert_eq!(
        parse_text("1 + 2 * 3"),
        Ok(Expr::Plus(num(1), Box::new(Expr::Multiply(num(2), num(3)))))
    );
    assert_eq!(
        parse_text("2 * 3 + 4"),
        Ok(Expr::Plus(Box::new(Expr::Multiply(num(2), num(3))), num(4)))
    );
}

#[test]
fn parse_same_tier_groups_to_the_left() {
    assert_eq!(
        parse_text("10 - 2 - 3"),
        Ok(Expr::Minus(Box::new(Expr::Minus(num(10), num(2))), num(3)))
    );
    assert_eq!(
        parse_text("8 / 4 * 2"),
        Ok(Expr::Multiply(Box::new(Expr::Divide(num(8), num(4))), num(2)))
    );
}

#[test]
fn parse_lower_tier_after_a_tighter_chain_goes_back_to_the_left() {
    assert_eq!(
        parse_text("1 - 2 * 3 - 4"),
        Ok(Expr::Minus(
            Box::new(Expr::Minus(
                num(1),
                Box::new(Expr::Multiply(num(2), num(3)))
            )),
            num(4)
        ))
    );
    assert_eq!(
        parse_text("1 + 2 * 3 * 4 + 5"),
        Ok(Expr::Plus(
            Box::new(Expr::Plus(
                num(1),
                Box::new(Expr::Multiply(
                    Box::new(Expr::Multiply(num(2), num(3))),
                    num(4)
                ))
            )),
            num(5)
        ))
    );
}

#[test]
fn parse_parentheses_group_first() {
    assert_eq!(
        parse_text("(1 + 2) * 3"),
        Ok(Expr::Multiply(Box::new(Expr::Plus(num(1), num(2))), num(3)))
    );
    assert_eq!(
        parse_text("10 - (2 - 3)"),
        Ok(Expr::Minus(num(10), Box::new(Expr::Minus(num(2), num(3)))))
    );
    assert_eq!(parse_text("((7))"), Ok(Expr::Num(7)));
}

#[test]
fn parse_negation_of_a_number() {
    assert_eq!(parse_text("-5"), Ok(Expr::Negate(num(5))));
    assert_eq!(
        parse_text("1 - -5"),
        Ok(Expr::Minus(num(1), Box::new(Expr::Negate(num(5)))))
    );
    assert_eq!(
        parse_text("-1 * -2"),
        Ok(Expr::Multiply(
            Box::new(Expr::Negate(num(1))),
            Box::new(Expr::Negate(num(2)))
        ))
    );
}

#[test]
fn parse_negation_of_anything_else_fails() {
    assert_eq!(
        parse_text("-(1+2)"),
        Err(ParseError::UnexpectedNegationOperand)
    );
    assert_eq!(parse_text("--3"), Err(ParseError::UnexpectedNegationOperand));
    assert_eq!(parse_text("-"), Err(ParseError::UnexpectedNegationOperand));
    assert_eq!(
        Parser::new(vec![Tok::Minus]).parse(),
        Err(ParseError::NoMoreTokens)
    );
}

#[test]
fn parse_mismatched_parentheses_fail() {
    assert_eq!(parse_text("(1 + 2"), Err(ParseError::MismatchedParenthesis));
    assert_eq!(parse_text("(1 + 2 3)"), Err(ParseError::MismatchedParenthesis));
    assert_eq!(parse_text("1 + 2)"), Err(ParseError::TrailingTokens));
    assert_eq!(parse_text("(1 + 2))"), Err(ParseError::TrailingTokens));
}

#[test]
fn parse_tokens_after_a_complete_expression_fail() {
    assert_eq!(parse_text("1 2"), Err(ParseError::TrailingTokens));
    assert_eq!(parse_text("1 (2)"), Err(ParseError::TrailingTokens));
    assert_eq!(
        Parser::new(vec![Tok::Num(1), Tok::Eof, Tok::Eof]).parse(),
        Err(ParseError::TrailingTokens)
    );
    assert_eq!(
        Parser::new(vec![Tok::Num(1), Tok::Eof, Tok::Num(2)]).parse(),
        Err(ParseError::TrailingTokens)
    );
}

#[test]
fn parse_no_tokens() {
    assert_eq!(Parser::new(vec![]).parse(), Err(ParseError::NoTokens));
    assert_eq!(Parser::new(Vec::new()).parse(), Err(ParseError::NoTokens));
}

#[test]
fn parse_unexpected_token_where_an_operand_is_due() {
    assert_eq!(parse_text(""), Err(ParseError::UnexpectedToken));
    assert_eq!(parse_text(")"), Err(ParseError::UnexpectedToken));
    assert_eq!(parse_text("* 2"), Err(ParseError::UnexpectedToken));
    assert_eq!(parse_text("1 +"), Err(ParseError::UnexpectedToken));
    assert_eq!(parse_text("1 + * 2"), Err(ParseError::UnexpectedToken));
    assert_eq!(parse_text("()"), Err(ParseError::UnexpectedToken));
}

#[test]
fn parse_tokens_that_end_too_early() {
    assert_eq!(
        Parser::new(vec![Tok::Num(1)]).parse(),
        Err(ParseError::NoMoreTokens)
    );
    assert_eq!(
        Parser::new(vec![Tok::Num(1), Tok::Plus]).parse(),
        Err(ParseError::NoMoreTokens)
    );
    assert_eq!(
        Parser::new(vec![Tok::Num(1), Tok::Plus, Tok::Num(2)]).parse(),
        Err(ParseError::NoMoreTokens)
    );
    assert_eq!(
        Parser::new(vec![Tok::LParen, Tok::Num(1)]).parse(),
        Err(ParseError::NoMoreTokens)
    );
}

#[test]
fn parse_again_starts_where_the_cursor_stands() {
    let mut parser = Parser::new(lex("1 + 2").unwrap());
    assert_eq!(parser.parse(), Ok(Expr::Plus(num(1), num(2))));
    assert_eq!(parser.parse(), Err(ParseError::UnexpectedToken));
}

#[test]
fn parse_error_messages() {
    assert_eq!(ParseError::NoTokens.message(), "no tokens");
    assert_eq!(ParseError::UnexpectedToken.message(), "unexpected token");
    assert_eq!(
        ParseError::MismatchedParenthesis.message(),
        "mismatched parenthesis"
    );
    assert_eq!(
        ParseError::UnexpectedNegationOperand.message(),
        "unexpected negation operand"
    );
    assert_eq!(ParseError::NoMoreTokens.message(), "no more tokens");
    assert_eq!(
        ParseError::TrailingTokens.message(),
        "unexpected trailing tokens"
    );
}
