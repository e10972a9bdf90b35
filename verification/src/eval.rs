//! The evaluator: an expression tree to its value.

use crate::parser::Expr;
use vstd::prelude::*;

verus! {

/// Why an expression has no value.
#[derive(Clone, Copy, Debug, PartialEq, Eq, Structural)]
pub enum EvaluationError {
    /// A divisor is zero.
    DivisionByZero,
    /// The value of a subexpression does not fit in an `i64`.
    Overflow,
}

impl EvaluationError {
    /// The message of the error, in words.
    pub open spec fn message_spec(self) -> Seq<char> {
        match self {
            EvaluationError::DivisionByZero => "division by zero"@,
            EvaluationError::Overflow => "integer overflow"@,
        }
    }

    /// The message of the error, in words.
    pub fn message(&self) -> (s: &'static str)
        ensures
            s@ == self.message_spec(),
    {
        match self {
            EvaluationError::DivisionByZero => "division by zero",
            EvaluationError::Overflow => "integer overflow",
        }
    }
}

/// The quotient of `a` by `b`, rounded toward zero.
pub open spec fn trunc_div(a: int, b: int) -> int
    recommends
        b != 0,
{
    if a >= 0 && b > 0 {
        a / b
    } else if a < 0 && b < 0 {
        (-a) / (-b)
    } else if a < 0 {
        -((-a) / b)
    } else {
        -(a / (-b))
    }
}

/// The integer `v` as a value, where it fits in an `i64`.
pub open spec fn in_range(v: int) -> Result<i64, EvaluationError> {
    if i64::MIN <= v <= i64::MAX {
        Ok(v as i64)
    } else {
        Err(EvaluationError::Overflow)
    }
}

/// The value of an expression.
///
/// The left operand is evaluated before the right one and both before the
/// operation, and the first failure is the result. Division rounds toward
/// zero. Nothing wraps around: a sum, difference, product, quotient or
/// negation outside the range of `i64` is an overflow.
pub open spec fn eval_spec(e: Expr) -> Result<i64, EvaluationError>
    decreases e,
{
    match e {
        Expr::Num(v) => Ok(v),
        Expr::Plus(l, r) => match (eval_spec(*l), eval_spec(*r)) {
            (Err(e), _) => Err(e),
            (_, Err(e)) => Err(e),
            (Ok(a), Ok(b)) => in_range(a + b),
        },
        Expr::Minus(l, r) => match (eval_spec(*l), eval_spec(*r)) {
            (Err(e), _) => Err(e),
            (_, Err(e)) => Err(e),
            (Ok(a), Ok(b)) => in_range(a - b),
        },
        Expr::Multiply(l, r) => match (eval_spec(*l), eval_spec(*r)) {
            (Err(e), _) => Err(e),
            (_, Err(e)) => Err(e),
            (Ok(a), Ok(b)) => in_range(a * b),
        },
        Expr::Divide(l, r) => match (eval_spec(*l), eval_spec(*r)) {
            (Err(e), _) => Err(e),
            (_, Err(e)) => Err(e),
            (Ok(a), Ok(b)) => if b == 0 {
                Err(EvaluationError::DivisionByZero)
            } else {
                in_range(trunc_div(a as int, b as int))
            },
        },
        Expr::Negate(x) => match eval_spec(*x) {
            Err(e) => Err(e),
            Ok(a) => in_range(-a),
        },
    }
}

/// A quotient whose dividend has a value and whose divisor is zero has none:
/// the division fails, whatever the dividend.
pub proof fn lemma_division_by_zero_fails(dividend: Expr, divisor: Expr)
    requires
        eval_spec(dividend) is Ok,
        eval_spec(divisor) == Ok::<i64, EvaluationError>(0),
    ensures
        eval_spec(Expr::Divide(Box::new(dividend), Box::new(divisor))) == Err::<i64, EvaluationError>(
            EvaluationError::DivisionByZero,
        ),
{
}

/// Evaluates an expression.
pub fn eval(expr: &Expr) -> (r: Result<i64, EvaluationError>)
    ensures
        r == eval_spec(*expr),
    decreases expr,
{
    match expr {
        Expr::Num(i) => Ok(*i),
        Expr::Plus(i, j) => {
            let a = eval(i)?;
            let b = eval(j)?;
            match a.checked_add(b) {
                Some(v) => Ok(v),
                None => Err(EvaluationError::Overflow),
            }
        },
        Expr::Minus(i, j) => {
            let a = eval(i)?;
            let b = eval(j)?;
            match a.checked_sub(b) {
                Some(v) => Ok(v),
                None => Err(EvaluationError::Overflow),
            }
        },
        Expr::Multiply(i, j) => {
            let a = eval(i)?;
            let b = eval(j)?;
            match a.checked_mul(b) {
                Some(v) => Ok(v),
                None => Err(EvaluationError::Overflow),
            }
        },
        Expr::Divide(i, j) => {
            let a = eval(i)?;
            let b = eval(j)?;
            if b == 0 {
                return Err(EvaluationError::DivisionByZero);
            }
            match a.checked_div(b) {
                Some(v) => Ok(v),
                None => Err(EvaluationError::Overflow),
            }
        },
        Expr::Negate(i) => {
            let a = eval(i)?;
            match a.checked_mul(-1) {
                Some(v) => Ok(v),
                None => Err(EvaluationError::Overflow),
            }
        },
    }
}

} // verus!
