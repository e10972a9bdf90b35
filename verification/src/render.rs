//! Rendering of an expression tree as text, for display.

use crate::parser::Expr;
use vstd::prelude::*;

verus! {

/// The character that stands for the digit `d`.
pub open spec fn digit_char(d: int) -> char
    recommends
        0 <= d <= 9,
{
    ('0' as int + d) as char
}

/// The digits of `n` in base ten, the most significant first, with no leading
/// zero but for zero itself.
pub open spec fn decimal_digits(n: nat) -> Seq<char>
    decreases n,
{
    if n < 10 {
        seq![digit_char(n as int)]
    } else {
        decimal_digits(n / 10).push(digit_char((n % 10) as int))
    }
}

/// An integer in base ten, with a minus sign before it where it is negative.
pub open spec fn render_int(v: int) -> Seq<char> {
    if v < 0 {
        seq!['-'] + decimal_digits((-v) as nat)
    } else {
        decimal_digits(v as nat)
    }
}

/// The two operands with the operator sign between them, set off by one space
/// on either side.
pub open spec fn render_binary(lhs: Seq<char>, sign: char, rhs: Seq<char>) -> Seq<char> {
    lhs + seq![' ', sign, ' '] + rhs
}

/// The text of an expression: the tree in infix notation, without any
/// parentheses.
pub open spec fn render_spec(e: Expr) -> Seq<char>
    decreases e,
{
    match e {
        Expr::Num(v) => render_int(v as int),
        Expr::Plus(l, r) => render_binary(render_spec(*l), '+', render_spec(*r)),
        Expr::Minus(l, r) => render_binary(render_spec(*l), '-', render_spec(*r)),
        Expr::Multiply(l, r) => render_binary(render_spec(*l), '*', render_spec(*r)),
        Expr::Divide(l, r) => render_binary(render_spec(*l), '/', render_spec(*r)),
        Expr::Negate(x) => seq!['-'] + render_spec(*x),
    }
}

fn digit_str(d: u64) -> (s: &'static str)
    requires
        d <= 9,
    ensures
        s@ == seq![digit_char(d as int)],
{
    proof {
        reveal_strlit("0");
        reveal_strlit("1");
        reveal_strlit("2");
        reveal_strlit("3");
        reveal_strlit("4");
        reveal_strlit("5");
        reveal_strlit("6");
        reveal_strlit("7");
        reveal_strlit("8");
        reveal_strlit("9");
    }
    let s = if d == 0 {
        "0"
    } else if d == 1 {
        "1"
    } else if d == 2 {
        "2"
    } else if d == 3 {
        "3"
    } else if d == 4 {
        "4"
    } else if d == 5 {
        "5"
    } else if d == 6 {
        "6"
    } else if d == 7 {
        "7"
    } else if d == 8 {
        "8"
    } else {
        "9"
    };
    assert(s@ =~= seq![digit_char(d as int)]);
    s
}

fn push_decimal(out: &mut String, n: u64)
    ensures
        final(out)@ == old(out)@ + decimal_digits(n as nat),
    decreases n,
{
    if n >= 10 {
        push_decimal(out, n / 10);
    }
    out.append(digit_str(n % 10));
    proof {
        if n >= 10 {
            assert(old(out)@ + decimal_digits((n / 10) as nat) + seq![
                digit_char((n % 10) as int),
            ] =~= old(out)@ + decimal_digits(n as nat));
        }
    }
}

fn push_int(out: &mut String, v: i64)
    ensures
        final(out)@ == old(out)@ + render_int(v as int),
{
    if v < 0 {
        proof {
            reveal_strlit("-");
        }
        out.append("-");
        let magnitude: u64 = (-(v + 1)) as u64 + 1;
        push_decimal(out, magnitude);
        assert(out@ =~= old(out)@ + render_int(v as int));
    } else {
        push_decimal(out, v as u64);
    }
}

fn push_sign(out: &mut String, sign: char)
    requires
        sign == '+' || sign == '-' || sign == '*' || sign == '/',
    ensures
        final(out)@ == old(out)@ + seq![' ', sign, ' '],
{
    proof {
        reveal_strlit(" + ");
        reveal_strlit(" - ");
        reveal_strlit(" * ");
        reveal_strlit(" / ");
    }
    let s = if sign == '+' {
        " + "
    } else if sign == '-' {
        " - "
    } else if sign == '*' {
        " * "
    } else {
        " / "
    };
    assert(s@ =~= seq![' ', sign, ' ']);
    out.append(s);
}

impl Expr {
    /// The expression as text, for display. Parentheses are not written, so
    /// the text need not spell the same tree.
    pub fn render(&self) -> (s: String)
        ensures
            s@ == render_spec(*self),
    {
        let mut out = String::new();
        self.render_into(&mut out);
        assert(out@ =~= render_spec(*self));
        out
    }

    fn render_into(&self, out: &mut String)
        ensures
            final(out)@ == old(out)@ + render_spec(*self),
        decreases self,
    {
        match self {
            Expr::Num(i) => push_int(out, *i),
            Expr::Plus(i, j) => {
                i.render_into(out);
                push_sign(out, '+');
                j.render_into(out);
            },
            Expr::Minus(i, j) => {
                i.render_into(out);
                push_sign(out, '-');
                j.render_into(out);
            },
            Expr::Multiply(i, j) => {
                i.render_into(out);
                push_sign(out, '*');
                j.render_into(out);
            },
            Expr::Divide(i, j) => {
                i.render_into(out);
                push_sign(out, '/');
                j.render_into(out);
            },
            Expr::Negate(i) => {
                proof {
                    reveal_strlit("-");
                }
                out.append("-");
                i.render_into(out);
            },
        }
        assert(out@ =~= old(out)@ + render_spec(*self));
    }
}

} // verus!
