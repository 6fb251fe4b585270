use calc::lexer::Literal;
use calc::lexer::Token;
use calc::parse;
use calc::Expr;
use calc::ParseError;

fn number_value(lit: &Literal) -> f64 {
    let mut value = 0.0_f64;
    for &d in lit.digits.iter() {
        value = value * 10.0 + d as f64;
    }
    if lit.frac > 0 {
        let mut den = 1.0_f64;
        let mut k: usize = 0;
        while k < lit.frac {
            den *= 10.0;
            k += 1;
        }
        value / den
    } else {
        value
    }
}

fn eval_expr(e: &Expr) -> f64 {
    match e {
        Expr::Num(lit) => number_value(lit),
        Expr::Neg(x) => -1.0 * eval_expr(x),
        Expr::Abs(x) => eval_expr(x).abs(),
        Expr::Add(a, b) => eval_expr(a) + eval_expr(b),
        Expr::Sub(a, b) => eval_expr(a) - eval_expr(b),
        Expr::Mul(a, b) => eval_expr(a) * eval_expr(b),
        Expr::Div(a, b) => eval_expr(a) / eval_expr(b),
        Expr::Pow(a, b) => eval_expr(a).powf(eval_expr(b)),
    }
}

fn parse_test(input: &str, expect: f64) {
    assert_eq!(eval_expr(&parse(input).unwrap()), expect);
}

#[test]
#[should_panic(expected = "UnexpectedEnd")]
fn error_none() {
    parse_test("", 0.0)
}

#[test]
#[should_panic(expected = "UnexpectedToken(Num(Literal { digits: [2], frac: 0 }))")]
fn lib_error_unexpected() {
    parse_test("1 2", 0.0)
}

#[test]
fn value_simple() {
    parse_test("1", 1.0)
}

#[test]
fn brackets_simple() {
    parse_test("(2)", 2.0)
}

#[test]
#[should_panic(expected = "UnexpectedEnd")]
fn error_brackets() {
    parse_test("(3", 0.0)
}

#[test]
fn abs_simple() {
    parse_test("|3|", 3.0)
}

#[test]
#[should_panic(expected = "UnexpectedEnd")]
fn error_abs() {
    parse_test("|4", 4.0)
}

#[test]
fn unary_pos() {
    parse_test("+4", 4.0)
}

#[test]
fn unary_neg() {
    parse_test("-5", -5.0)
}

#[test]
#[should_panic(expected = "UnexpectedToken(Op('-'))")]
fn error_double_unary() {
    parse_test("--4", 0.0)
}

#[test]
fn abs() {
    parse_test("|-6|", 6.0)
}

#[test]
fn pow() {
    parse_test("7 ^ 2", 49.0)
}

#[test]
fn mul() {
    parse_test("8 * 9", 72.0)
}

#[test]
fn div() {
    parse_test("1.32 / 1.1", 1.2)
}

#[test]
fn add() {
    parse_test("1.3 + 1.4", 2.7)
}

#[test]
fn sub() {
    parse_test("3.1 - 1.5", 1.6)
}

#[test]
fn order1() {
    parse_test("1.7 * 1.8 + 1.9", 4.96)
}

#[test]
fn order2() {
    parse_test("2.0 + 2.1 * 3.3", 8.93)
}

#[test]
fn brackets() {
    parse_test("2.3 * -(2.4 + 2.5)", -11.27)
}

#[test]
fn averge() {
    parse_test("(1 + 2 + 3) / 3", 2.0)
}

#[test]
fn add_neg() {
    parse_test("4 + -5", -1.0)
}

#[test]
fn pow_right_assoc() {
    let e = parse("2^3^2").unwrap();
    assert_eq!(eval_expr(&e), 512.0);
    match e {
        Expr::Pow(base, rhs) => {
            assert!(matches!(*base, Expr::Num(_)));
            assert!(matches!(*rhs, Expr::Pow(_, _)));
        }
        _ => panic!("expected a power at the top"),
    }
}

#[test]
fn order_of_terms_is_immaterial() {
    parse_test("1.7*1.8+1.9", 4.96);
    parse_test("1.9+1.7*1.8", 4.96);
}

#[test]
fn error_values() {
    assert_eq!(parse(""), Err(ParseError::UnexpectedEnd));
    assert_eq!(parse("!"), Err(ParseError::UnknownSymbol('!')));
    assert_eq!(parse("1.2.3"), Err(ParseError::UnexpectedSymbol('.')));
    assert_eq!(
        parse("1 2"),
        Err(ParseError::UnexpectedToken(Token::Num(Literal {
            digits: vec![2],
            frac: 0
        })))
    );
    assert_eq!(parse("--4"), Err(ParseError::UnexpectedToken(Token::Op('-'))));
    assert_eq!(parse("(3"), Err(ParseError::UnexpectedEnd));
    assert_eq!(parse("|4"), Err(ParseError::UnexpectedEnd));
    assert_eq!(parse("1!"), Err(ParseError::UnknownSymbol('!')));
}

#[test]
fn repeated_failure_is_identical() {
    assert_eq!(parse("1.2.3"), parse("1.2.3"));
    assert_eq!(parse("--4"), parse("--4"));
    assert_eq!(parse("|4"), parse("|4"));
    assert_eq!(parse(""), parse(""));
}

#[test]
fn sign_covers_whole_group() {
    parse_test("-(1 + 2)", -3.0);
    parse_test("-|7|", -7.0);
}
