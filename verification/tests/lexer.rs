use calc::lexer::Lexer;
use calc::lexer::Literal;
use calc::lexer::Token;

fn collect_tokens(input: &str) -> Vec<Token> {
    let mut lexer = Lexer::new(input);
    let mut out: Vec<Token> = Vec::new();
    loop {
        match lexer.next() {
            Some(item) => out.push(item.unwrap()),
            None => break,
        }
    }
    out
}

fn lexer_test(input: &str, expect: Vec<Token>) {
    assert_eq!(collect_tokens(input), expect);
}

fn num(digits: Vec<u8>, frac: usize) -> Token {
    Token::Num(Literal { digits, frac })
}

fn literal_value(lit: &Literal) -> f64 {
    let mut value = 0.0_f64;
    for &d in lit.digits.iter() {
        value = value * 10.0 + d as f64;
    }
    if lit.frac > 0 {
        let mut den = 1.0_f64;
        let mut k: usize = 0;
        while k < lit.frac {
            den *= 10.0;
            k += 1;
        }
        value / den
    } else {
        value
    }
}

fn token_values(input: &str) -> Vec<f64> {
    collect_tokens(input)
        .iter()
        .map(|t| match t {
            Token::Num(lit) => literal_value(lit),
            Token::Op(_) => panic!("expected a number"),
        })
        .collect()
}

#[test]
fn symbols() {
    lexer_test(
        "()| ^ */ +-",
        vec![
            Token::Op('('),
            Token::Op(')'),
            Token::Op('|'),
            Token::Op('^'),
            Token::Op('*'),
            Token::Op('/'),
            Token::Op('+'),
            Token::Op('-'),
        ],
    );
}

#[test]
fn numbers() {
    lexer_test(
        "1 23 4.5 67.89",
        vec![
            num(vec![1], 0),
            num(vec![2, 3], 0),
            num(vec![4, 5], 1),
            num(vec![6, 7, 8, 9], 2),
        ],
    );
    assert_eq!(token_values("1 23 4.5 67.89"), vec![1.0, 23.0, 4.5, 67.89]);
}

#[test]
fn symbols_and_numbers() {
    lexer_test(
        "23 + 67.89",
        vec![num(vec![2, 3], 0), Token::Op('+'), num(vec![6, 7, 8, 9], 2)],
    );
    assert_eq!(literal_value(&Literal { digits: vec![2, 3], frac: 0 }), 23.0);
    assert_eq!(literal_value(&Literal { digits: vec![6, 7, 8, 9], frac: 2 }), 67.89);
}

#[test]
#[should_panic(expected = "UnknownSymbol('!')")]
fn error_unknown() {
    lexer_test("!", vec![])
}

#[test]
#[should_panic(expected = "UnexpectedSymbol('.')")]
fn lexer_error_unexpected() {
    lexer_test("1.2.3", vec![])
}

#[test]
fn peek() {
    let mut lexer = Lexer::new("1");
    lexer.peek();
    assert_eq!(lexer.next(), Some(Ok(num(vec![1], 0))));
}

#[test]
fn peek_twice_then_next() {
    let mut lexer = Lexer::new(" 42 + 1");
    let first = lexer.peek();
    let second = lexer.peek();
    assert_eq!(first, second);
    let taken = lexer.next();
    assert_eq!(first, taken);
    assert_eq!(taken, Some(Ok(num(vec![4, 2], 0))));
    assert_eq!(lexer.next(), Some(Ok(Token::Op('+'))));
    assert_eq!(lexer.next(), Some(Ok(num(vec![1], 0))));
    assert_eq!(lexer.next(), None);
}

#[test]
fn blank_input_has_no_tokens() {
    assert_eq!(collect_tokens(""), vec![]);
    assert_eq!(collect_tokens("   \t\n"), vec![]);
}

#[test]
fn dot_alone_is_zero() {
    let toks = collect_tokens(".");
    assert_eq!(toks, vec![num(vec![], 0)]);
    assert_eq!(token_values("."), vec![0.0]);
    assert_eq!(token_values(".5"), vec![0.5]);
    assert_eq!(token_values("5."), vec![5.0]);
}

#[test]
fn consumed_error_ends_stream() {
    let mut lexer = Lexer::new("! 5");
    assert_eq!(lexer.next(), Some(Err(calc::ParseError::UnknownSymbol('!'))));
    assert_eq!(lexer.next(), None);
}
