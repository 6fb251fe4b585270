//! A small arithmetic expression parser: a lazy tokenizer with one token of
//! lookahead feeds a recursive-descent parser that follows the usual
//! precedence rules.  Numeric literals are kept exact (digits and the count of
//! fractional digits), so the whole pipeline is verified; turning a parsed
//! expression into a machine number is left to the caller.

use vstd::prelude::*;

pub mod lexer;
pub mod peek;

use crate::lexer::lex_next;
use crate::lexer::Lexer;
use crate::lexer::LexStep;
use crate::lexer::Literal;
use crate::lexer::LiteralView;
use crate::lexer::Token;
use crate::lexer::TokenView;

verus! {

/// The one flat error taxonomy shared by the tokenizer and the parser.
#[derive(PartialEq, Debug)]
pub enum ParseError {
    /// The token stream ended where a token was required.
    UnexpectedEnd,
    /// A character that starts no token.
    UnknownSymbol(char),
    /// A character that cannot appear where it did (a second decimal point).
    UnexpectedSymbol(char),
    /// A token that fits no grammar alternative at its position.
    UnexpectedToken(Token),
}

/// The mathematical image of a `ParseError`.
pub enum ErrorView {
    UnexpectedEnd,
    UnknownSymbol(char),
    UnexpectedSymbol(char),
    UnexpectedToken(TokenView),
}

impl View for ParseError {
    type V = ErrorView;

    open spec fn view(&self) -> ErrorView {
        match self {
            ParseError::UnexpectedEnd => ErrorView::UnexpectedEnd,
            ParseError::UnknownSymbol(c) => ErrorView::UnknownSymbol(*c),
            ParseError::UnexpectedSymbol(c) => ErrorView::UnexpectedSymbol(*c),
            ParseError::UnexpectedToken(t) => ErrorView::UnexpectedToken(t@),
        }
    }
}

impl Clone for ParseError {
    fn clone(&self) -> (r: Self)
        ensures
            r@ == self@,
    {
        match self {
            ParseError::UnexpectedEnd => ParseError::UnexpectedEnd,
            ParseError::UnknownSymbol(c) => ParseError::UnknownSymbol(*c),
            ParseError::UnexpectedSymbol(c) => ParseError::UnexpectedSymbol(*c),
            ParseError::UnexpectedToken(t) => ParseError::UnexpectedToken(t.clone()),
        }
    }
}

// ---------------------------------------------------------------------------
// Parsed expressions
// ---------------------------------------------------------------------------

/// A parsed arithmetic expression.  The tree records exactly how the grammar
/// grouped the input; numeric literals stay exact.  Folding the tree into a
/// machine number is the caller's business.
#[derive(PartialEq, Eq, Debug)]
pub enum Expr {
    Num(Literal),
    Neg(Box<Expr>),
    Abs(Box<Expr>),
    Add(Box<Expr>, Box<Expr>),
    Sub(Box<Expr>, Box<Expr>),
    Mul(Box<Expr>, Box<Expr>),
    Div(Box<Expr>, Box<Expr>),
    Pow(Box<Expr>, Box<Expr>),
}

/// The mathematical image of an `Expr`.
pub enum ExprView {
    Num(LiteralView),
    Neg(Box<ExprView>),
    Abs(Box<ExprView>),
    Add(Box<ExprView>, Box<ExprView>),
    Sub(Box<ExprView>, Box<ExprView>),
    Mul(Box<ExprView>, Box<ExprView>),
    Div(Box<ExprView>, Box<ExprView>),
    Pow(Box<ExprView>, Box<ExprView>),
}

pub open spec fn expr_view(e: Expr) -> ExprView
    decreases e,
{
    match e {
        Expr::Num(lit) => ExprView::Num(lit@),
        Expr::Neg(x) => ExprView::Neg(Box::new(expr_view(*x))),
        Expr::Abs(x) => ExprView::Abs(Box::new(expr_view(*x))),
        Expr::Add(a, b) => ExprView::Add(Box::new(expr_view(*a)), Box::new(expr_view(*b))),
        Expr::Sub(a, b) => ExprView::Sub(Box::new(expr_view(*a)), Box::new(expr_view(*b))),
        Expr::Mul(a, b) => ExprView::Mul(Box::new(expr_view(*a)), Box::new(expr_view(*b))),
        Expr::Div(a, b) => ExprView::Div(Box::new(expr_view(*a)), Box::new(expr_view(*b))),
        Expr::Pow(a, b) => ExprView::Pow(Box::new(expr_view(*a)), Box::new(expr_view(*b))),
    }
}

impl View for Expr {
    type V = ExprView;

    open spec fn view(&self) -> ExprView {
        expr_view(*self)
    }
}

// ---------------------------------------------------------------------------
// The grammar, as functions of the text
// ---------------------------------------------------------------------------
//
//   value      := ['+' | '-'] ( NUMBER | '(' expression ')' | '|' expression '|' )
//   power      := value ['^' power]                       right-associative
//   product    := power  (('*' | '/') power)*             left-associative
//   expression := product (('+' | '-') product)*          left-associative
//
// Each function takes the text and the cursor position and yields either the
// parsed tree together with the position after it, or the first error.

/// The outcome of one grammar function: a parsed tree and the position after
/// it, or the first error met.
pub enum ParseStep {
    Good(ExprView, int),
    Bad(ErrorView),
}

/// Guards a position handed back by a grammar function before the grammar
/// recurses from it.  Positions really returned always lie in `(lo, n]`
/// (see the `lemma_..._pos` functions), so the guard changes nothing; it only
/// makes the forward progress of the recursion plain to the termination
/// checker.
pub open spec fn onward(k: int, lo: int, n: int) -> int {
    if lo < k <= n {
        k
    } else {
        n
    }
}

/// Wraps a parsed atom in the optional leading sign.
pub open spec fn apply_sign(neg: bool, e: ExprView) -> ExprView {
    if neg {
        ExprView::Neg(Box::new(e))
    } else {
        e
    }
}

/// An atom: a numeric literal, a parenthesised expression, or an expression
/// between absolute-value bars, wrapped in the already-read sign.
pub open spec fn atom_at(s: Seq<char>, i: int, neg: bool) -> ParseStep
    decreases s.len() - i, 0int,
        when 0 <= i <= s.len()
{
    {
        proof {
            lexer::lemma_lex_next_bounds(s, i);
        }
        match lex_next(s, i) {
            LexStep::End => ParseStep::Bad(ErrorView::UnexpectedEnd),
            LexStep::Fail(e, _) => ParseStep::Bad(e),
            LexStep::Tok(t, j) => match t {
                TokenView::Num(lit) => ParseStep::Good(apply_sign(neg, ExprView::Num(lit)), j),
                TokenView::Op(c) => if c == '(' {
                    match expression_at(s, j) {
                        ParseStep::Bad(e) => ParseStep::Bad(e),
                        ParseStep::Good(inner, k0) => {
                            let k = onward(k0, j, s.len() as int);
                            match lex_next(s, k) {
                                LexStep::End => ParseStep::Bad(ErrorView::UnexpectedEnd),
                                LexStep::Fail(e, _) => ParseStep::Bad(e),
                                LexStep::Tok(t2, k2) => if t2 == TokenView::Op(')') {
                                    ParseStep::Good(apply_sign(neg, inner), k2)
                                } else {
                                    ParseStep::Bad(ErrorView::UnexpectedToken(t2))
                                },
                            }
                        },
                    }
                } else if c == '|' {
                    match expression_at(s, j) {
                        ParseStep::Bad(e) => ParseStep::Bad(e),
                        ParseStep::Good(inner, k0) => {
                            let k = onward(k0, j, s.len() as int);
                            match lex_next(s, k) {
                                LexStep::End => ParseStep::Bad(ErrorView::UnexpectedEnd),
                                LexStep::Fail(e, _) => ParseStep::Bad(e),
                                LexStep::Tok(t2, k2) => if t2 == TokenView::Op('|') {
                                    ParseStep::Good(
                                        apply_sign(neg, ExprView::Abs(Box::new(inner))),
                                        k2,
                                    )
                                } else {
                                    ParseStep::Bad(ErrorView::UnexpectedToken(t2))
                                },
                            }
                        },
                    }
                } else {
                    ParseStep::Bad(ErrorView::UnexpectedToken(t))
                },
            },
        }
    }
}

/// A value: an optional single leading sign, then an atom.  A second sign is
/// not taken here; it falls through to the atom and is rejected there.
pub open spec fn value_at(s: Seq<char>, i: int) -> ParseStep
    decreases s.len() - i, 1int,
        when 0 <= i <= s.len()
{
    {
        proof {
            lexer::lemma_lex_next_bounds(s, i);
        }
        match lex_next(s, i) {
            LexStep::End => ParseStep::Bad(ErrorView::UnexpectedEnd),
            LexStep::Fail(e, _) => ParseStep::Bad(e),
            LexStep::Tok(t, j) => if t == TokenView::Op('+') {
                atom_at(s, j, false)
            } else if t == TokenView::Op('-') {
                atom_at(s, j, true)
            } else {
                atom_at(s, i, false)
            },
        }
    }
}

/// A power: a value, then optionally `^` and a whole power again, so the
/// operator associates to the right.
pub open spec fn pow_at(s: Seq<char>, i: int) -> ParseStep
    decreases s.len() - i, 2int,
        when 0 <= i <= s.len()
{
    match value_at(s, i) {
        ParseStep::Bad(e) => ParseStep::Bad(e),
        ParseStep::Good(v, k0) => {
            let k = onward(k0, i, s.len() as int);
            proof {
                lexer::lemma_lex_next_bounds(s, k);
            }
            match lex_next(s, k) {
                LexStep::End => ParseStep::Good(v, k),
                LexStep::Fail(e, _) => ParseStep::Bad(e),
                LexStep::Tok(t, j) => if t == TokenView::Op('^') {
                    match pow_at(s, j) {
                        ParseStep::Bad(e) => ParseStep::Bad(e),
                        ParseStep::Good(r, l) => ParseStep::Good(
                            ExprView::Pow(Box::new(v), Box::new(r)),
                            onward(l, j, s.len() as int),
                        ),
                    }
                } else {
                    ParseStep::Good(v, k)
                },
            }
        },
    }
}

/// The left-associative tail of a product: while the next token is `*` or
/// `/`, fold another power into the accumulator.
pub open spec fn product_rest_at(s: Seq<char>, i: int, acc: ExprView) -> ParseStep
    decreases s.len() - i, 3int,
        when 0 <= i <= s.len()
{
    {
        proof {
            lexer::lemma_lex_next_bounds(s, i);
        }
        match lex_next(s, i) {
            LexStep::End => ParseStep::Good(acc, i),
            LexStep::Fail(e, _) => ParseStep::Bad(e),
            LexStep::Tok(t, j) => if t == TokenView::Op('*') {
                match pow_at(s, j) {
                    ParseStep::Bad(e) => ParseStep::Bad(e),
                    ParseStep::Good(v, k0) => product_rest_at(
                        s,
                        onward(k0, j, s.len() as int),
                        ExprView::Mul(Box::new(acc), Box::new(v)),
                    ),
                }
            } else if t == TokenView::Op('/') {
                match pow_at(s, j) {
                    ParseStep::Bad(e) => ParseStep::Bad(e),
                    ParseStep::Good(v, k0) => product_rest_at(
                        s,
                        onward(k0, j, s.len() as int),
                        ExprView::Div(Box::new(acc), Box::new(v)),
                    ),
                }
            } else {
                ParseStep::Good(acc, i)
            },
        }
    }
}

/// A product: a power, then its left-associative `*`/`/` tail.
pub open spec fn product_at(s: Seq<char>, i: int) -> ParseStep
    decreases s.len() - i, 4int,
        when 0 <= i <= s.len()
{
    match pow_at(s, i) {
        ParseStep::Bad(e) => ParseStep::Bad(e),
        ParseStep::Good(v, k0) => product_rest_at(s, onward(k0, i, s.len() as int), v),
    }
}

/// The left-associative tail of an expression: while the next token is `+`
/// or `-`, fold another product into the accumulator.
pub open spec fn expression_rest_at(s: Seq<char>, i: int, acc: ExprView) -> ParseStep
    decreases s.len() - i, 5int,
        when 0 <= i <= s.len()
{
    {
        proof {
            lexer::lemma_lex_next_bounds(s, i);
        }
        match lex_next(s, i) {
            LexStep::End => ParseStep::Good(acc, i),
            LexStep::Fail(e, _) => ParseStep::Bad(e),
            LexStep::Tok(t, j) => if t == TokenView::Op('+') {
                match product_at(s, j) {
                    ParseStep::Bad(e) => ParseStep::Bad(e),
                    ParseStep::Good(v, k0) => expression_rest_at(
                        s,
                        onward(k0, j, s.len() as int),
                        ExprView::Add(Box::new(acc), Box::new(v)),
                    ),
                }
            } else if t == TokenView::Op('-') {
                match product_at(s, j) {
                    ParseStep::Bad(e) => ParseStep::Bad(e),
                    ParseStep::Good(v, k0) => expression_rest_at(
                        s,
                        onward(k0, j, s.len() as int),
                        ExprView::Sub(Box::new(acc), Box::new(v)),
                    ),
                }
            } else {
                ParseStep::Good(acc, i)
            },
        }
    }
}

/// An expression: a product, then its left-associative `+`/`-` tail.
pub open spec fn expression_at(s: Seq<char>, i: int) -> ParseStep
    decreases s.len() - i, 6int,
        when 0 <= i <= s.len()
{
    match product_at(s, i) {
        ParseStep::Bad(e) => ParseStep::Bad(e),
        ParseStep::Good(v, k0) => expression_rest_at(s, onward(k0, i, s.len() as int), v),
    }
}

/// What parsing a whole text yields: one expression, with the stream then
/// required to be exhausted.  A leftover token is an error; an empty input
/// is `UnexpectedEnd`, not a default value.
pub open spec fn parse_text(s: Seq<char>) -> Result<ExprView, ErrorView> {
    match expression_at(s, 0) {
        ParseStep::Bad(e) => Result::Err(e),
        ParseStep::Good(v, k0) => {
            let k = onward(k0, 0, s.len() as int);
            match lex_next(s, k) {
                LexStep::End => Result::Ok(v),
                LexStep::Tok(t, _) => Result::Err(ErrorView::UnexpectedToken(t)),
                LexStep::Fail(e, _) => Result::Err(e),
            }
        },
    }
}

// ---------------------------------------------------------------------------
// Forward progress of the grammar
// ---------------------------------------------------------------------------

/// A successfully parsed atom ends strictly beyond where it began.
pub proof fn lemma_atom_pos(s: Seq<char>, i: int, neg: bool)
    requires
        0 <= i <= s.len(),
    ensures
        atom_at(s, i, neg) matches ParseStep::Good(v, k) ==> i < k <= s.len(),
{
    lexer::lemma_lex_next_bounds(s, i);
    match lex_next(s, i) {
        LexStep::Tok(t, j) => {
            lexer::lemma_lex_next_bounds(s, onward(j, j, s.len() as int));
            match expression_at(s, j) {
                ParseStep::Good(inner, k0) => {
                    lexer::lemma_lex_next_bounds(s, onward(k0, j, s.len() as int));
                },
                ParseStep::Bad(_) => {},
            }
        },
        _ => {},
    }
}

/// A successfully parsed value ends strictly beyond where it began.
pub proof fn lemma_value_pos(s: Seq<char>, i: int)
    requires
        0 <= i <= s.len(),
    ensures
        value_at(s, i) matches ParseStep::Good(v, k) ==> i < k <= s.len(),
{
    lexer::lemma_lex_next_bounds(s, i);
    match lex_next(s, i) {
        LexStep::Tok(t, j) => {
            lemma_atom_pos(s, j, false);
            lemma_atom_pos(s, j, true);
            lemma_atom_pos(s, i, false);
        },
        _ => {},
    }
}

/// A successfully parsed power ends strictly beyond where it began.
pub proof fn lemma_pow_pos(s: Seq<char>, i: int)
    requires
        0 <= i <= s.len(),
    ensures
        pow_at(s, i) matches ParseStep::Good(v, k) ==> i < k <= s.len(),
{
    lemma_value_pos(s, i);
    match value_at(s, i) {
        ParseStep::Good(v, k0) => {
            lexer::lemma_lex_next_bounds(s, onward(k0, i, s.len() as int));
        },
        ParseStep::Bad(_) => {},
    }
}

/// The product tail only moves the cursor forward.
pub proof fn lemma_product_rest_pos(s: Seq<char>, i: int, acc: ExprView)
    requires
        0 <= i <= s.len(),
    ensures
        product_rest_at(s, i, acc) matches ParseStep::Good(v, k) ==> i <= k <= s.len(),
    decreases s.len() - i,
{
    lexer::lemma_lex_next_bounds(s, i);
    match lex_next(s, i) {
        LexStep::Tok(t, j) => {
            if t == TokenView::Op('*') || t == TokenView::Op('/') {
                match pow_at(s, j) {
                    ParseStep::Good(v, k0) => {
                        let k = onward(k0, j, s.len() as int);
                        lemma_product_rest_pos(
                            s,
                            k,
                            ExprView::Mul(Box::new(acc), Box::new(v)),
                        );
                        lemma_product_rest_pos(
                            s,
                            k,
                            ExprView::Div(Box::new(acc), Box::new(v)),
                        );
                    },
                    ParseStep::Bad(_) => {},
                }
            }
        },
        _ => {},
    }
}

/// A successfully parsed product ends strictly beyond where it began.
pub proof fn lemma_product_pos(s: Seq<char>, i: int)
    requires
        0 <= i <= s.len(),
    ensures
        product_at(s, i) matches ParseStep::Good(v, k) ==> i < k <= s.len(),
{
    lemma_pow_pos(s, i);
    match pow_at(s, i) {
        ParseStep::Good(v, k0) => {
            lemma_product_rest_pos(s, onward(k0, i, s.len() as int), v);
        },
        ParseStep::Bad(_) => {},
    }
}

/// The expression tail only moves the cursor forward.
pub proof fn lemma_expression_rest_pos(s: Seq<char>, i: int, acc: ExprView)
    requires
        0 <= i <= s.len(),
    ensures
        expression_rest_at(s, i, acc) matches ParseStep::Good(v, k) ==> i <= k <= s.len(),
    decreases s.len() - i,
{
    lexer::lemma_lex_next_bounds(s, i);
    match lex_next(s, i) {
        LexStep::Tok(t, j) => {
            if t == TokenView::Op('+') || t == TokenView::Op('-') {
                match product_at(s, j) {
                    ParseStep::Good(v, k0) => {
                        let k = onward(k0, j, s.len() as int);
                        lemma_expression_rest_pos(
                            s,
                            k,
                            ExprView::Add(Box::new(acc), Box::new(v)),
                        );
                        lemma_expression_rest_pos(
                            s,
                            k,
                            ExprView::Sub(Box::new(acc), Box::new(v)),
                        );
                    },
                    ParseStep::Bad(_) => {},
                }
            }
        },
        _ => {},
    }
}

/// A successfully parsed expression ends strictly beyond where it began.
pub proof fn lemma_expression_pos(s: Seq<char>, i: int)
    requires
        0 <= i <= s.len(),
    ensures
        expression_at(s, i) matches ParseStep::Good(v, k) ==> i < k <= s.len(),
{
    lemma_product_pos(s, i);
    match product_at(s, i) {
        ParseStep::Good(v, k0) => {
            lemma_expression_rest_pos(s, onward(k0, i, s.len() as int), v);
        },
        ParseStep::Bad(_) => {},
    }
}

// ---------------------------------------------------------------------------
// The executable parser
// ---------------------------------------------------------------------------

/// Wraps a parsed atom in the optional leading sign.
fn signed(neg: bool, e: Expr) -> (r: Expr)
    ensures
        r@ == apply_sign(neg, e@),
{
    if neg {
        let r = Expr::Neg(Box::new(e));
        proof {
            assert(r@ == ExprView::Neg(Box::new(e@)));
        }
        r
    } else {
        e
    }
}

#[verifier::rlimit(60)]
fn parse_value(lexer: &mut Lexer) -> (r: Result<Expr, ParseError>)
    requires
        old(lexer).wf(),
    ensures
        final(lexer).wf(),
        final(lexer).text() == old(lexer).text(),
        match value_at(old(lexer).text(), old(lexer).mark()) {
            ParseStep::Good(v, k) => (r matches Result::Ok(e) && e@ == v) && final(lexer).mark()
                == k,
            ParseStep::Bad(e) => r matches Result::Err(err) && err@ == e,
        },
    decreases lexer.text().len() - lexer.mark(), 1int,
{
    let ghost s = lexer.text();
    let ghost i0 = lexer.mark();
    proof {
        lexer.lemma_mark_bounds();
        lexer::lemma_lex_next_bounds(s, i0);
    }
    let first = match lexer.peek_result() {
        Result::Ok(t) => t,
        Result::Err(e) => {
            return Result::Err(e);
        },
    };
    let neg: bool = match &first {
        Token::Op('+') => {
            lexer.next();
            false
        },
        Token::Op('-') => {
            lexer.next();
            true
        },
        _ => false,
    };
    let ghost i1 = lexer.mark();
    proof {
        lexer::lemma_lex_next_bounds(s, i1);
    }
    let second = match lexer.peek_result() {
        Result::Ok(t) => t,
        Result::Err(e) => {
            return Result::Err(e);
        },
    };
    match second {
        Token::Op('(') => {
            lexer.next();
            let ghost jj = lexer.mark();
            let inner = match parse_expression(lexer) {
                Result::Ok(v) => v,
                Result::Err(e) => {
                    return Result::Err(e);
                },
            };
            proof {
                lemma_expression_pos(s, jj);
            }
            match lexer.next_result() {
                Result::Ok(Token::Op(')')) => Result::Ok(signed(neg, inner)),
                Result::Ok(token) => Result::Err(ParseError::UnexpectedToken(token)),
                Result::Err(e) => Result::Err(e),
            }
        },
        Token::Op('|') => {
            lexer.next();
            let ghost jj = lexer.mark();
            let inner = match parse_expression(lexer) {
                Result::Ok(v) => v,
                Result::Err(e) => {
                    return Result::Err(e);
                },
            };
            proof {
                lemma_expression_pos(s, jj);
            }
            match lexer.next_result() {
                Result::Ok(Token::Op('|')) => {
                    let wrapped = Expr::Abs(Box::new(inner));
                    proof {
                        assert(wrapped@ == ExprView::Abs(Box::new(inner@)));
                    }
                    Result::Ok(signed(neg, wrapped))
                },
                Result::Ok(token) => Result::Err(ParseError::UnexpectedToken(token)),
                Result::Err(e) => Result::Err(e),
            }
        },
        Token::Num(lit) => {
            lexer.next();
            let e = Expr::Num(lit);
            proof {
                assert(e@ matches ExprView::Num(lv) && lv == lit@);
            }
            Result::Ok(signed(neg, e))
        },
        token => Result::Err(ParseError::UnexpectedToken(token)),
    }
}

#[verifier::rlimit(60)]
fn parse_pow(lexer: &mut Lexer) -> (r: Result<Expr, ParseError>)
    requires
        old(lexer).wf(),
    ensures
        final(lexer).wf(),
        final(lexer).text() == old(lexer).text(),
        match pow_at(old(lexer).text(), old(lexer).mark()) {
            ParseStep::Good(v, k) => (r matches Result::Ok(e) && e@ == v) && final(lexer).mark()
                == k,
            ParseStep::Bad(e) => r matches Result::Err(err) && err@ == e,
        },
    decreases lexer.text().len() - lexer.mark(), 2int,
{
    let ghost s = lexer.text();
    let ghost i0 = lexer.mark();
    proof {
        lexer.lemma_mark_bounds();
    }
    let value = match parse_value(lexer) {
        Result::Ok(v) => v,
        Result::Err(e) => {
            return Result::Err(e);
        },
    };
    proof {
        lemma_value_pos(s, i0);
        lexer::lemma_lex_next_bounds(s, lexer.mark());
    }
    match lexer.peek() {
        Option::None => Result::Ok(value),
        Option::Some(res) => match res {
            Result::Err(e) => Result::Err(e),
            Result::Ok(t) => match t {
                Token::Op('^') => {
                    lexer.next();
                    let ghost j = lexer.mark();
                    let rhs = match parse_pow(lexer) {
                        Result::Ok(v) => v,
                        Result::Err(e) => {
                            return Result::Err(e);
                        },
                    };
                    proof {
                        lemma_pow_pos(s, j);
                    }
                    Result::Ok(Expr::Pow(Box::new(value), Box::new(rhs)))
                },
                _ => Result::Ok(value),
            },
        },
    }
}

#[verifier::rlimit(60)]
fn parse_product(lexer: &mut Lexer) -> (r: Result<Expr, ParseError>)
    requires
        old(lexer).wf(),
    ensures
        final(lexer).wf(),
        final(lexer).text() == old(lexer).text(),
        match product_at(old(lexer).text(), old(lexer).mark()) {
            ParseStep::Good(v, k) => (r matches Result::Ok(e) && e@ == v) && final(lexer).mark()
                == k,
            ParseStep::Bad(e) => r matches Result::Err(err) && err@ == e,
        },
    decreases lexer.text().len() - lexer.mark(), 3int,
{
    let ghost s = lexer.text();
    let ghost i0 = lexer.mark();
    proof {
        lexer.lemma_mark_bounds();
    }
    let mut value = match parse_pow(lexer) {
        Result::Ok(v) => v,
        Result::Err(e) => {
            return Result::Err(e);
        },
    };
    proof {
        lemma_pow_pos(s, i0);
    }
    loop
        invariant
            lexer.wf(),
            s == old(lexer).text(),
            i0 == old(lexer).mark(),
            lexer.text() == s,
            0 <= i0 <= s.len(),
            0 <= lexer.mark() <= s.len(),
            i0 < lexer.mark(),
            product_at(s, i0) == product_rest_at(s, lexer.mark(), value@),
        ensures
            lexer.wf(),
            lexer.text() == s,
            product_at(s, i0) == ParseStep::Good(value@, lexer.mark()),
        decreases s.len() - lexer.mark(),
    {
        proof {
            lexer.lemma_mark_bounds();
            lexer::lemma_lex_next_bounds(s, lexer.mark());
        }
        match lexer.peek() {
            Option::None => {
                break ;
            },
            Option::Some(res) => match res {
                Result::Err(e) => {
                    return Result::Err(e);
                },
                Result::Ok(t) => match t {
                    Token::Op('*') => {
                        lexer.next();
                        let ghost j = lexer.mark();
                        let rhs = match parse_pow(lexer) {
                            Result::Ok(v) => v,
                            Result::Err(e) => {
                                return Result::Err(e);
                            },
                        };
                        proof {
                            lemma_pow_pos(s, j);
                        }
                        value = Expr::Mul(Box::new(value), Box::new(rhs));
                    },
                    Token::Op('/') => {
                        lexer.next();
                        let ghost j = lexer.mark();
                        let rhs = match parse_pow(lexer) {
                            Result::Ok(v) => v,
                            Result::Err(e) => {
                                return Result::Err(e);
                            },
                        };
                        proof {
                            lemma_pow_pos(s, j);
                        }
                        value = Expr::Div(Box::new(value), Box::new(rhs));
                    },
                    _ => {
                        break ;
                    },
                },
            },
        }
    }
    Result::Ok(value)
}

#[verifier::rlimit(60)]
fn parse_expression(lexer: &mut Lexer) -> (r: Result<Expr, ParseError>)
    requires
        old(lexer).wf(),
    ensures
        final(lexer).wf(),
        final(lexer).text() == old(lexer).text(),
        match expression_at(old(lexer).text(), old(lexer).mark()) {
            ParseStep::Good(v, k) => (r matches Result::Ok(e) && e@ == v) && final(lexer).mark()
                == k,
            ParseStep::Bad(e) => r matches Result::Err(err) && err@ == e,
        },
    decreases lexer.text().len() - lexer.mark(), 4int,
{
    let ghost s = lexer.text();
    let ghost i0 = lexer.mark();
    proof {
        lexer.lemma_mark_bounds();
    }
    let mut value = match parse_product(lexer) {
        Result::Ok(v) => v,
        Result::Err(e) => {
            return Result::Err(e);
        },
    };
    proof {
        lemma_product_pos(s, i0);
    }
    loop
        invariant
            lexer.wf(),
            s == old(lexer).text(),
            i0 == old(lexer).mark(),
            lexer.text() == s,
            0 <= i0 <= s.len(),
            0 <= lexer.mark() <= s.len(),
            i0 < lexer.mark(),
            expression_at(s, i0) == expression_rest_at(s, lexer.mark(), value@),
        ensures
            lexer.wf(),
            lexer.text() == s,
            expression_at(s, i0) == ParseStep::Good(value@, lexer.mark()),
        decreases s.len() - lexer.mark(),
    {
        proof {
            lexer.lemma_mark_bounds();
            lexer::lemma_lex_next_bounds(s, lexer.mark());
        }
        match lexer.peek() {
            Option::None => {
                break ;
            },
            Option::Some(res) => match res {
                Result::Err(e) => {
                    return Result::Err(e);
                },
                Result::Ok(t) => match t {
                    Token::Op('+') => {
                        lexer.next();
                        let ghost j = lexer.mark();
                        let rhs = match parse_product(lexer) {
                            Result::Ok(v) => v,
                            Result::Err(e) => {
                                return Result::Err(e);
                            },
                        };
                        proof {
                            lemma_product_pos(s, j);
                        }
                        value = Expr::Add(Box::new(value), Box::new(rhs));
                    },
                    Token::Op('-') => {
                        lexer.next();
                        let ghost j = lexer.mark();
                        let rhs = match parse_product(lexer) {
                            Result::Ok(v) => v,
                            Result::Err(e) => {
                                return Result::Err(e);
                            },
                        };
                        proof {
                            lemma_product_pos(s, j);
                        }
                        value = Expr::Sub(Box::new(value), Box::new(rhs));
                    },
                    _ => {
                        break ;
                    },
                },
            },
        }
    }
    Result::Ok(value)
}

/// The mathematical image of what `parse` returns.
pub open spec fn result_view(r: Result<Expr, ParseError>) -> Result<ExprView, ErrorView> {
    match r {
        Result::Ok(e) => Result::Ok(e@),
        Result::Err(err) => Result::Err(err@),
    }
}

/// Parses a whole input text into one expression.
///
/// The result is exactly `parse_text(input@)`: the expression the grammar
/// derives when the text is well formed, and otherwise the first error the
/// tokenizer or the grammar meets — `UnexpectedEnd` for an empty or
/// truncated input, `UnknownSymbol`/`UnexpectedSymbol` from the tokenizer,
/// and `UnexpectedToken` for a token outside the grammar or left over after
/// a complete expression.
pub fn parse(input: &str) -> (r: Result<Expr, ParseError>)
    ensures
        result_view(r) == parse_text(input@),
{
    let mut lexer = Lexer::new(input);
    let ghost s = lexer.text();
    let value = match parse_expression(&mut lexer) {
        Result::Ok(v) => v,
        Result::Err(e) => {
            return Result::Err(e);
        },
    };
    proof {
        lemma_expression_pos(s, 0);
    }
    match lexer.next() {
        Option::Some(res) => match res {
            Result::Ok(token) => Result::Err(ParseError::UnexpectedToken(token)),
            Result::Err(error) => Result::Err(error),
        },
        Option::None => Result::Ok(value),
    }
}

/// Parsing has no hidden state: the outcome is a pure function of the input
/// text, so parsing the same text again yields the same expression or the
/// same error, kind and payload alike.
pub proof fn lemma_parse_repeatable(
    s: Seq<char>,
    r1: Result<Expr, ParseError>,
    r2: Result<Expr, ParseError>,
)
    requires
        result_view(r1) == parse_text(s),
        result_view(r2) == parse_text(s),
    ensures
        result_view(r1) == result_view(r2),
{
}

} // verus!

