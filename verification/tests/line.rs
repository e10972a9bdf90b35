use calc::eval::{eval, EvaluationError};
use calc::lex::{lex, LexError};
use calc::line::{evaluate_line, parse_line, Error};
use calc::parser::{Expr, ParseError, Parser};

fn num(v: i64) -> Box<Expr> {
    Box::new(Expr::Num(v))
}

#[test]
fn precedence_of_multiplication_over_addition() {
    let expr = Parser::new(lex("1 + 2 * 3").unwrap()).parse().unwrap();
    assert_eq!(eval(&expr), Ok(7));
    assert_eq!(evaluate_line("1 + 2 * 3"), Ok(7));
}

#[test]
fn subtraction_groups_to_the_left() {
    let expr = Parser::new(lex("10 - 2 - 3").unwrap()).parse().unwrap();
    assert_eq!(eval(&expr), Ok(5));
    assert_eq!(evaluate_line("10 - 2 - 3"), Ok(5));
}

#[test]
fn parentheses_override_precedence() {
    let expr = Parser::new(lex("(1 + 2) * 3").unwrap()).parse().unwrap();
    assert_eq!(eval(&expr), Ok(9));
    assert_eq!(evaluate_line("(1 + 2) * 3"), Ok(9));
}

#[test]
fn division_by_zero_is_an_error() {
    let expr = Parser::new(lex("4 / 0").unwrap()).parse().unwrap();
    assert_eq!(eval(&expr), Err(EvaluationError::DivisionByZero));
    assert_eq!(
        evaluate_line("4 / 0"),
        Err(Error::Eval(EvaluationError::DivisionByZero))
    );
    assert_eq!(
        evaluate_line("24 / (4 - 4)"),
        Err(Error::Eval(EvaluationError::DivisionByZero))
    );
}

#[test]
fn evaluate_line_values() {
    assert_eq!(evaluate_line("42"), Ok(42));
    assert_eq!(evaluate_line("-5"), Ok(-5));
    assert_eq!(evaluate_line("2 * 3 + 4"), Ok(10));
    assert_eq!(evaluate_line("1 - 2 * 3 - 4"), Ok(-9));
    assert_eq!(evaluate_line("1 + 2 * 3 * 4 + 5"), Ok(30));
    assert_eq!(evaluate_line("100 / 7 / 2"), Ok(7));
    assert_eq!(evaluate_line("-7 / 2"), Ok(-3));
    assert_eq!(evaluate_line("2 * (3 + 4) * (5 - 1)"), Ok(56));
    assert_eq!(evaluate_line("1 - -1"), Ok(2));
    assert_eq!(evaluate_line("1a + b2"), Ok(3));
    assert_eq!(evaluate_line("-9223372036854775807 - 1"), Ok(i64::MIN));
}

#[test]
fn evaluate_line_errors_of_each_stage() {
    assert_eq!(
        evaluate_line("9223372036854775808"),
        Err(Error::Lex(LexError::LiteralOverflow))
    );
    assert_eq!(
        evaluate_line("(1 + 2"),
        Err(Error::Parse(ParseError::MismatchedParenthesis))
    );
    assert_eq!(
        evaluate_line("1 + 2)"),
        Err(Error::Parse(ParseError::TrailingTokens))
    );
    assert_eq!(
        evaluate_line("-(1+2)"),
        Err(Error::Parse(ParseError::UnexpectedNegationOperand))
    );
    assert_eq!(
        evaluate_line(""),
        Err(Error::Parse(ParseError::UnexpectedToken))
    );
    assert_eq!(
        evaluate_line("9223372036854775807 + 1"),
        Err(Error::Eval(EvaluationError::Overflow))
    );
    assert_eq!(
        evaluate_line("9223372036854775807 * 2 / 0"),
        Err(Error::Eval(EvaluationError::Overflow))
    );
}

#[test]
fn error_message_is_that_of_the_stage() {
    assert_eq!(
        Error::Lex(LexError::LiteralOverflow).message(),
        "integer literal out of range"
    );
    assert_eq!(
        Error::Parse(ParseError::MismatchedParenthesis).message(),
        "mismatched parenthesis"
    );
    assert_eq!(
        Error::Eval(EvaluationError::DivisionByZero).message(),
        "division by zero"
    );
}

#[test]
fn parse_line_gives_the_tree() {
    assert_eq!(
        parse_line("1 + 2 * 3"),
        Ok(Expr::Plus(num(1), Box::new(Expr::Multiply(num(2), num(3)))))
    );
    assert_eq!(parse_line("1 +"), Err(Error::Parse(ParseError::UnexpectedToken)));
    assert_eq!(
        parse_line("99999999999999999999"),
        Err(Error::Lex(LexError::LiteralOverflow))
    );
}

#[test]
fn rendered_text_reads_back_as_the_same_tree() {
    let single = [
        Expr::Plus(num(10), num(2)),
        Expr::Minus(num(10), num(2)),
        Expr::Multiply(num(10), num(2)),
        Expr::Divide(num(10), num(2)),
        Expr::Divide(num(10), num(0)),
        Expr::Negate(num(4)),
        Expr::Num(0),
    ];
    for e in single {
        let text = e.render();
        assert_eq!(evaluate_line(&text).ok(), eval(&e).ok());
        assert_eq!(parse_line(&text), Ok(e));
    }
    let chain = Expr::Minus(
        Box::new(Expr::Plus(
            Box::new(Expr::Multiply(num(2), Box::new(Expr::Negate(num(3))))),
            Box::new(Expr::Divide(Box::new(Expr::Multiply(num(4), num(5))), num(6))),
        )),
        num(7),
    );
    let text = chain.render();
    assert_eq!(text, "2 * -3 + 4 * 5 / 6 - 7");
    assert_eq!(evaluate_line(&text), Ok(-10));
    assert_eq!(eval(&chain), Ok(-10));
    assert_eq!(parse_line(&text), Ok(chain));
}

#[test]
fn rendered_negative_number_reads_back_as_a_negation() {
    let e = Expr::Plus(num(-5), num(3));
    let text = e.render();
    assert_eq!(text, "-5 + 3");
    assert_eq!(
        parse_line(&text),
        Ok(Expr::Plus(Box::new(Expr::Negate(num(5))), num(3)))
    );
    assert_eq!(evaluate_line(&text), Ok(-2));
    assert_eq!(eval(&e), Ok(-2));
}

#[test]
fn rendered_text_of_other_trees_may_read_differently() {
    let e = Expr::Multiply(Box::new(Expr::Plus(num(1), num(2))), num(3));
    assert_eq!(eval(&e), Ok(9));
    assert_eq!(evaluate_line(&e.render()), Ok(7));
    let e = Expr::Num(i64::MIN);
    assert_eq!(
        evaluate_line(&e.render()),
        Err(Error::Lex(LexError::LiteralOverflow))
    );
    let e = Expr::Negate(num(-3));
    assert_eq!(
        evaluate_line(&e.render()),
        Err(Error::Parse(ParseError::UnexpectedNegationOperand))
    );
}
