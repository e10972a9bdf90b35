use calc::eval::{eval, EvaluationError};
use calc::parser::Expr;

fn num(v: i64) -> Box<Expr> {
    Box::new(Expr::Num(v))
}

#[test]
fn eval_number() {
    assert_eq!(eval(&Expr::Num(42)), Ok(42));
    assert_eq!(eval(&Expr::Num(-42)), Ok(-42));
    assert_eq!(eval(&Expr::Num(i64::MIN)), Ok(i64::MIN));
}

#[test]
fn eval_each_operation() {
    assert_eq!(eval(&Expr::Plus(num(7), num(5))), Ok(12));
    assert_eq!(eval(&Expr::Minus(num(7), num(5))), Ok(2));
    assert_eq!(eval(&Expr::Minus(num(5), num(7))), Ok(-2));
    assert_eq!(eval(&Expr::Multiply(num(7), num(5))), Ok(35));
    assert_eq!(eval(&Expr::Divide(num(7), num(5))), Ok(1));
    assert_eq!(eval(&Expr::Negate(num(7))), Ok(-7));
    assert_eq!(eval(&Expr::Negate(num(-7))), Ok(7));
}

#[test]
fn eval_nested() {
    let e = Expr::Minus(
        Box::new(Expr::Multiply(num(6), Box::new(Expr::Plus(num(1), num(2))))),
        Box::new(Expr::Divide(num(9), Box::new(Expr::Negate(num(3))))),
    );
    assert_eq!(eval(&e), Ok(21));
}

#[test]
fn eval_division_rounds_toward_zero() {
    assert_eq!(eval(&Expr::Divide(num(7), num(2))), Ok(3));
    assert_eq!(eval(&Expr::Divide(num(-7), num(2))), Ok(-3));
    assert_eq!(eval(&Expr::Divide(num(7), num(-2))), Ok(-3));
    assert_eq!(eval(&Expr::Divide(num(-7), num(-2))), Ok(3));
    assert_eq!(eval(&Expr::Divide(num(0), num(-2))), Ok(0));
    assert_eq!(eval(&Expr::Divide(num(1), num(2))), Ok(0));
    assert_eq!(eval(&Expr::Divide(num(-1), num(2))), Ok(0));
}

#[test]
fn eval_division_by_zero_fails() {
    assert_eq!(
        eval(&Expr::Divide(num(4), num(0))),
        Err(EvaluationError::DivisionByZero)
    );
    assert_eq!(
        eval(&Expr::Divide(num(0), num(0))),
        Err(EvaluationError::DivisionByZero)
    );
    assert_eq!(
        eval(&Expr::Divide(num(24), Box::new(Expr::Minus(num(4), num(4))))),
        Err(EvaluationError::DivisionByZero)
    );
    assert_eq!(
        eval(&Expr::Plus(num(1), Box::new(Expr::Divide(num(4), num(0))))),
        Err(EvaluationError::DivisionByZero)
    );
}

#[test]
fn eval_overflow_fails() {
    assert_eq!(
        eval(&Expr::Plus(num(i64::MAX), num(1))),
        Err(EvaluationError::Overflow)
    );
    assert_eq!(
        eval(&Expr::Minus(num(i64::MIN), num(1))),
        Err(EvaluationError::Overflow)
    );
    assert_eq!(
        eval(&Expr::Multiply(num(i64::MAX), num(2))),
        Err(EvaluationError::Overflow)
    );
    assert_eq!(
        eval(&Expr::Divide(num(i64::MIN), num(-1))),
        Err(EvaluationError::Overflow)
    );
    assert_eq!(eval(&Expr::Negate(num(i64::MIN))), Err(EvaluationError::Overflow));
}

#[test]
fn eval_at_the_edges_of_the_range() {
    assert_eq!(eval(&Expr::Plus(num(i64::MAX), num(0))), Ok(i64::MAX));
    assert_eq!(eval(&Expr::Plus(num(i64::MAX - 1), num(1))), Ok(i64::MAX));
    assert_eq!(eval(&Expr::Minus(num(i64::MIN + 1), num(1))), Ok(i64::MIN));
    assert_eq!(eval(&Expr::Negate(num(i64::MAX))), Ok(i64::MIN + 1));
    assert_eq!(eval(&Expr::Negate(num(i64::MIN + 1))), Ok(i64::MAX));
    assert_eq!(eval(&Expr::Multiply(num(i64::MIN), num(1))), Ok(i64::MIN));
    assert_eq!(eval(&Expr::Divide(num(i64::MIN), num(1))), Ok(i64::MIN));
}

#[test]
fn eval_left_failure_comes_first() {
    let overflow = Box::new(Expr::Plus(num(i64::MAX), num(1)));
    let by_zero = Box::new(Expr::Divide(num(1), num(0)));
    assert_eq!(
        eval(&Expr::Plus(overflow, by_zero)),
        Err(EvaluationError::Overflow)
    );
    let overflow = Box::new(Expr::Plus(num(i64::MAX), num(1)));
    let by_zero = Box::new(Expr::Divide(num(1), num(0)));
    assert_eq!(
        eval(&Expr::Plus(by_zero, overflow)),
        Err(EvaluationError::DivisionByZero)
    );
    let overflow = Box::new(Expr::Plus(num(i64::MAX), num(1)));
    assert_eq!(
        eval(&Expr::Divide(overflow, num(0))),
        Err(EvaluationError::Overflow)
    );
}

#[test]
fn eval_error_messages() {
    assert_eq!(EvaluationError::DivisionByZero.message(), "division by zero");
    assert_eq!(EvaluationError::Overflow.message(), "integer overflow");
}
