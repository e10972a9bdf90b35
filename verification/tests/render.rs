use calc::parser::Expr;

fn num(v: i64) -> Box<Expr> {
    Box::new(Expr::Num(v))
}

#[test]
fn render_numbers() {
    assert_eq!(Expr::Num(0).render(), "0");
    assert_eq!(Expr::Num(7).render(), "7");
    assert_eq!(Expr::Num(10).render(), "10");
    assert_eq!(Expr::Num(1234567890).render(), "1234567890");
    assert_eq!(Expr::Num(-5).render(), "-5");
    assert_eq!(Expr::Num(i64::MAX).render(), "9223372036854775807");
    assert_eq!(Expr::Num(i64::MIN).render(), "-9223372036854775808");
}

#[test]
fn render_each_node() {
    assert_eq!(Expr::Plus(num(1), num(2)).render(), "1 + 2");
    assert_eq!(Expr::Minus(num(1), num(2)).render(), "1 - 2");
    assert_eq!(Expr::Multiply(num(1), num(2)).render(), "1 * 2");
    assert_eq!(Expr::Divide(num(1), num(2)).render(), "1 / 2");
    assert_eq!(Expr::Negate(num(3)).render(), "-3");
    assert_eq!(Expr::Negate(num(-3)).render(), "--3");
}

#[test]
fn render_writes_no_parentheses() {
    let e = Expr::Multiply(Box::new(Expr::Plus(num(1), num(2))), num(3));
    assert_eq!(e.render(), "1 + 2 * 3");
    let e = Expr::Minus(num(10), Box::new(Expr::Minus(num(2), num(3))));
    assert_eq!(e.render(), "10 - 2 - 3");
    let e = Expr::Negate(Box::new(Expr::Plus(num(1), num(2))));
    assert_eq!(e.render(), "-1 + 2");
}

#[test]
fn render_matches_std_formatting_of_integers() {
    for v in [
        0i64,
        1,
        9,
        10,
        11,
        99,
        100,
        101,
        -1,
        -9,
        -10,
        -100,
        4096,
        -65535,
        i64::MAX,
        i64::MIN,
        i64::MIN + 1,
    ] {
        assert_eq!(Expr::Num(v).render(), format!("{}", v));
    }
}
