//! The tokenizer: characters in, tokens out, with one token of lookahead.
//!
//! The meaning of the character stream is fixed by the spec functions
//! `ws_end`, `scan_number` and `lex_next`; the executable `Lexer` is proved
//! to produce exactly the tokens those functions describe.

use vstd::prelude::*;

use crate::ErrorView;
use crate::ParseError;
use vstd::string::StrSliceExecFns;

verus! {

// ---------------------------------------------------------------------------
// Character classes
// ---------------------------------------------------------------------------

/// The fixed operator and punctuation characters.
pub open spec fn is_op_char(c: char) -> bool {
    c == '(' || c == ')' || c == '|' || c == '^' || c == '*' || c == '/' || c == '+' || c == '-'
}

/// Decimal digits.
pub open spec fn is_digit_char(c: char) -> bool {
    48 <= c as u32 && c as u32 <= 57
}

/// The numeric value of a decimal digit.
pub open spec fn digit_val(c: char) -> nat {
    if is_digit_char(c) {
        (c as u32 - 48) as nat
    } else {
        0
    }
}

/// The Unicode `White_Space` characters: the set that `char::is_whitespace`
/// accepts.
pub open spec fn is_space_char(c: char) -> bool {
    ||| c == ' '
    ||| c == '\t'
    ||| c == '\n'
    ||| c == '\u{000b}'
    ||| c == '\u{000c}'
    ||| c == '\r'
    ||| c == '\u{0085}'
    ||| c == '\u{00a0}'
    ||| c == '\u{1680}'
    ||| (0x2000 <= c as u32 && c as u32 <= 0x200a)
    ||| c == '\u{2028}'
    ||| c == '\u{2029}'
    ||| c == '\u{202f}'
    ||| c == '\u{205f}'
    ||| c == '\u{3000}'
}

fn op_char(c: char) -> (b: bool)
    ensures
        b == is_op_char(c),
{
    c == '(' || c == ')' || c == '|' || c == '^' || c == '*' || c == '/' || c == '+' || c == '-'
}

pub(crate) fn digit_char(c: char) -> (b: bool)
    ensures
        b == is_digit_char(c),
{
    48 <= c as u32 && c as u32 <= 57
}

fn digit_value(c: char) -> (d: u8)
    requires
        is_digit_char(c),
    ensures
        d as nat == digit_val(c),
{
    (c as u32 - 48) as u8
}

fn space_char(c: char) -> (b: bool)
    ensures
        b == is_space_char(c),
{
    c == ' ' || c == '\t' || c == '\n' || c == '\u{000b}' || c == '\u{000c}' || c == '\r'
        || c == '\u{0085}' || c == '\u{00a0}' || c == '\u{1680}'
        || (0x2000 <= c as u32 && c as u32 <= 0x200a) || c == '\u{2028}' || c == '\u{2029}'
        || c == '\u{202f}' || c == '\u{205f}' || c == '\u{3000}'
}

// ---------------------------------------------------------------------------
// Tokens
// ---------------------------------------------------------------------------

/// The value carried by a digit sequence, read left to right.
pub open spec fn digits_value(ds: Seq<u8>) -> nat
    decreases ds.len(),
{
    if ds.len() == 0 {
        0
    } else {
        digits_value(ds.drop_last()) * 10 + ds.last() as nat
    }
}

/// A numeric literal, kept exact: the digits in order, and how many of them
/// follow the decimal point.  The value denoted is
/// `digits / 10^frac`, where `digits` is read as one decimal number.
#[derive(PartialEq, Eq, Debug)]
pub struct Literal {
    pub digits: Vec<u8>,
    pub frac: usize,
}

/// The mathematical image of a `Literal`: its mantissa and its scale.
pub struct LiteralView {
    pub mantissa: nat,
    pub frac: nat,
}

impl View for Literal {
    type V = LiteralView;

    open spec fn view(&self) -> LiteralView {
        LiteralView { mantissa: digits_value(self.digits@), frac: self.frac as nat }
    }
}

impl Clone for Literal {
    fn clone(&self) -> (r: Self)
        ensures
            r@ == self@,
    {
        Literal { digits: vstd::slice::slice_to_vec(self.digits.as_slice()), frac: self.frac }
    }
}

/// A classified lexical unit: a numeric literal or one operator character.
#[derive(PartialEq, Eq, Debug)]
pub enum Token {
    Num(Literal),
    Op(char),
}

/// The mathematical image of a `Token`.
pub enum TokenView {
    Num(LiteralView),
    Op(char),
}

impl View for Token {
    type V = TokenView;

    open spec fn view(&self) -> TokenView {
        match self {
            Token::Num(lit) => TokenView::Num(lit@),
            Token::Op(c) => TokenView::Op(*c),
        }
    }
}

impl Clone for Token {
    fn clone(&self) -> (r: Self)
        ensures
            r@ == self@,
    {
        match self {
            Token::Num(lit) => Token::Num(lit.clone()),
            Token::Op(c) => Token::Op(*c),
        }
    }
}

// ---------------------------------------------------------------------------
// What the next token is, as a function of the characters
// ---------------------------------------------------------------------------

/// One step of the tokenizer: either the stream is exhausted, or a token was
/// read and the cursor stands after it, or lexing failed.
pub enum LexStep {
    End,
    Tok(TokenView, int),
    Fail(ErrorView, int),
}

/// The result of scanning one numeric literal.
pub enum NumScan {
    Lit(LiteralView, int),
    DotFail(int),
}

/// The first position at or after `i` that does not hold whitespace.
pub open spec fn ws_end(s: Seq<char>, i: int) -> int
    decreases s.len() - i,
        when 0 <= i <= s.len()
{
    if i < s.len() && is_space_char(s[i]) {
        ws_end(s, i + 1)
    } else {
        i
    }
}

/// Scanning a numeric literal from position `i`, with mantissa `m` read so
/// far and `f` the count of digits read since the decimal point, if one was
/// seen.  A second decimal point is consumed and then rejected.
pub open spec fn scan_number(s: Seq<char>, i: int, m: nat, f: Option<nat>) -> NumScan
    decreases s.len() - i,
        when 0 <= i <= s.len()
{
    if i < s.len() && is_digit_char(s[i]) {
        scan_number(
            s,
            i + 1,
            m * 10 + digit_val(s[i]),
            match f {
                Option::Some(k) => Option::Some(k + 1),
                Option::None => Option::None,
            },
        )
    } else if i < s.len() && s[i] == '.' {
        match f {
            Option::None => scan_number(s, i + 1, m, Option::Some(0nat)),
            Option::Some(_) => NumScan::DotFail(i + 1),
        }
    } else {
        NumScan::Lit(
            LiteralView {
                mantissa: m,
                frac: match f {
                    Option::Some(k) => k,
                    Option::None => 0,
                },
            },
            i,
        )
    }
}

/// The next token of `s` when the cursor stands at `i`: skip whitespace,
/// then classify the first character.  An unknown character is reported
/// without being consumed.
pub open spec fn lex_next(s: Seq<char>, i: int) -> LexStep {
    let j = ws_end(s, i);
    if j >= s.len() {
        LexStep::End
    } else if is_op_char(s[j]) {
        LexStep::Tok(TokenView::Op(s[j]), j + 1)
    } else if is_digit_char(s[j]) || s[j] == '.' {
        match scan_number(s, j, 0, Option::None) {
            NumScan::Lit(lit, k) => LexStep::Tok(TokenView::Num(lit), k),
            NumScan::DotFail(k) => LexStep::Fail(ErrorView::UnexpectedSymbol('.'), k),
        }
    } else {
        LexStep::Fail(ErrorView::UnknownSymbol(s[j]), j)
    }
}

// ---------------------------------------------------------------------------
// Bounds of the spec tokenizer
// ---------------------------------------------------------------------------

proof fn lemma_ws_end_bounds(s: Seq<char>, i: int)
    requires
        0 <= i <= s.len(),
    ensures
        i <= ws_end(s, i) <= s.len(),
    decreases s.len() - i,
{
    if i < s.len() && is_space_char(s[i]) {
        lemma_ws_end_bounds(s, i + 1);
    }
}

/// A stretch of whitespace followed by a non-whitespace boundary pins
/// `ws_end` down exactly.
proof fn lemma_ws_end_exact(s: Seq<char>, i: int, j: int)
    requires
        0 <= i <= j <= s.len(),
        forall|k: int| i <= k < j ==> is_space_char(s[k]),
        j == s.len() || !is_space_char(s[j]),
    ensures
        ws_end(s, i) == j,
    decreases j - i,
{
    if i < j {
        assert(is_space_char(s[i]));
        lemma_ws_end_exact(s, i + 1, j);
    }
}

proof fn lemma_scan_number_bounds(s: Seq<char>, i: int, m: nat, f: Option<nat>)
    requires
        0 <= i <= s.len(),
    ensures
        match scan_number(s, i, m, f) {
            NumScan::Lit(_, k) => i <= k <= s.len(),
            NumScan::DotFail(k) => i < k <= s.len(),
        },
    decreases s.len() - i,
{
    if i < s.len() && is_digit_char(s[i]) {
        lemma_scan_number_bounds(
            s,
            i + 1,
            m * 10 + digit_val(s[i]),
            match f {
                Option::Some(k) => Option::Some(k + 1),
                Option::None => Option::None,
            },
        );
    } else if i < s.len() && s[i] == '.' {
        if f is None {
            lemma_scan_number_bounds(s, i + 1, m, Option::Some(0nat));
        }
    }
}

/// A token takes at least one character: the position after the next token
/// lies strictly beyond the cursor and inside the text.
pub proof fn lemma_lex_next_bounds(s: Seq<char>, i: int)
    requires
        0 <= i <= s.len(),
    ensures
        match lex_next(s, i) {
            LexStep::End => true,
            LexStep::Tok(_, k) => i < k <= s.len(),
            LexStep::Fail(_, _) => true,
        },
{
    lemma_ws_end_bounds(s, i);
    let j = ws_end(s, i);
    if j < s.len() && !is_op_char(s[j]) && (is_digit_char(s[j]) || s[j] == '.') {
        lemma_scan_number_bounds(s, j + 1, digit_val(s[j]), Option::None);
        lemma_scan_number_bounds(s, j + 1, 0, Option::Some(0nat));
    }
}

// ---------------------------------------------------------------------------
// The executable tokenizer
// ---------------------------------------------------------------------------

/// The mathematical image of one tokenizer answer.
pub open spec fn item_view(r: Result<Token, ParseError>) -> Result<TokenView, ErrorView> {
    match r {
        Result::Ok(t) => Result::Ok(t@),
        Result::Err(e) => Result::Err(e@),
    }
}

/// Hands back an equal copy of a tokenizer answer.
fn dup_item(r: &Result<Token, ParseError>) -> (d: Result<Token, ParseError>)
    ensures
        item_view(d) == item_view(*r),
{
    match r {
        Result::Ok(t) => Result::Ok(t.clone()),
        Result::Err(e) => Result::Err(e.clone()),
    }
}

/// The mathematical image of what `peek` and `next` hand back.
pub open spec fn answer_view(r: Option<Result<Token, ParseError>>) -> Option<
    Result<TokenView, ErrorView>,
> {
    match r {
        Option::Some(item) => Option::Some(item_view(item)),
        Option::None => Option::None,
    }
}

/// The one answer the tokenizer owes at a given text and cursor: nothing at
/// the end of the stream, otherwise the next token or the first error.
pub open spec fn lexed_answer(s: Seq<char>, i: int) -> Option<Result<TokenView, ErrorView>> {
    match lex_next(s, i) {
        LexStep::End => Option::None,
        LexStep::Tok(t, _) => Option::Some(Result::Ok(t)),
        LexStep::Fail(e, _) => Option::Some(Result::Err(e)),
    }
}

/// Lookahead has no hidden state: `peek` leaves the text and the cursor as
/// they were and its answer is a pure function of them, so any two answers
/// peeked at the same cursor are the same, and `next` then consumes exactly
/// that answer (see the contracts of `peek` and `next`).
pub proof fn lemma_peek_repeatable(
    s: Seq<char>,
    i: int,
    r1: Option<Result<Token, ParseError>>,
    r2: Option<Result<Token, ParseError>>,
)
    requires
        answer_view(r1) == lexed_answer(s, i),
        answer_view(r2) == lexed_answer(s, i),
    ensures
        answer_view(r1) == answer_view(r2),
{
}

/// Scans one numeric literal starting at `start`, which the caller has
/// classified as a digit or a decimal point.  Returns the token or the
/// error, and the position the cursor moves to when it is consumed.
fn read_number(input: &Vec<char>, start: usize) -> (r: (Result<Token, ParseError>, usize))
    requires
        start <= input@.len(),
    ensures
        r.1 <= input@.len(),
        match scan_number(input@, start as int, 0, Option::None) {
            NumScan::Lit(lit, k) => (r.0 matches Result::Ok(tok) && tok@ == TokenView::Num(lit))
                && r.1 == k,
            NumScan::DotFail(_) => (r.0 matches Result::Err(e) && e@ == ErrorView::UnexpectedSymbol(
                '.',
            )) && r.1 == input@.len(),
        },
{
    let ghost s = input@;
    let mut digits: Vec<u8> = Vec::new();
    let mut frac: usize = 0;
    let mut point = false;
    let mut j: usize = start;
    loop
        invariant
            start <= j <= input@.len(),
            s == input@,
            frac as int <= j - start,
            !point ==> frac == 0,
            scan_number(s, start as int, 0, Option::None) == scan_number(
                s,
                j as int,
                digits_value(digits@),
                if point {
                    Option::Some(frac as nat)
                } else {
                    Option::None
                },
            ),
        ensures
            start <= j <= input@.len(),
            scan_number(s, start as int, 0, Option::None) == NumScan::Lit(
                LiteralView { mantissa: digits_value(digits@), frac: frac as nat },
                j as int,
            ),
        decreases input@.len() - j,
    {
        if j < input.len() {
            let c = input[j];
            if digit_char(c) {
                let d = digit_value(c);
                let ghost ds0 = digits@;
                digits.push(d);
                proof {
                    assert(digits@.drop_last() =~= ds0);
                    assert(digits_value(digits@) == digits_value(ds0) * 10 + d as nat);
                }
                if point {
                    frac = frac + 1;
                }
                j = j + 1;
            } else if c == '.' {
                if point {
                    return (Result::Err(ParseError::UnexpectedSymbol('.')), input.len());
                }
                point = true;
                j = j + 1;
            } else {
                break ;
            }
        } else {
            break ;
        }
    }
    (Result::Ok(Token::Num(Literal { digits, frac })), j)
}

/// Reads the next token from `input` starting at `start`: skips whitespace,
/// classifies the first remaining character, and hands back the answer
/// together with the position the cursor moves to when it is consumed.
fn scan_token(input: &Vec<char>, start: usize) -> (r: (
    Option<Result<Token, ParseError>>,
    usize,
))
    requires
        start <= input@.len(),
    ensures
        r.1 <= input@.len(),
        match lex_next(input@, start as int) {
            LexStep::End => r.0 is None,
            LexStep::Tok(t, k) => (r.0 matches Option::Some(item) && item_view(item)
                == Result::<TokenView, ErrorView>::Ok(t)) && r.1 == k,
            LexStep::Fail(e, _) => (r.0 matches Option::Some(item) && item_view(item)
                == Result::<TokenView, ErrorView>::Err(e)) && r.1 == input@.len(),
        },
{
    let ghost s = input@;
    let mut j: usize = start;
    while j < input.len() && space_char(input[j])
        invariant
            start <= j <= input@.len(),
            s == input@,
            forall|k: int| start <= k < j ==> is_space_char(s[k]),
        decreases input@.len() - j,
    {
        j = j + 1;
    }
    proof {
        lemma_ws_end_exact(s, start as int, j as int);
    }
    if j == input.len() {
        return (Option::None, j);
    }
    let c = input[j];
    if op_char(c) {
        (Option::Some(Result::Ok(Token::Op(c))), j + 1)
    } else if digit_char(c) || c == '.' {
        let (res, end) = read_number(input, j);
        (Option::Some(res), end)
    } else {
        (Option::Some(Result::Err(ParseError::UnknownSymbol(c))), input.len())
    }
}

/// The lazy tokenizer: an input text, a cursor, and at most one buffered
/// answer that `peek` fills and `next` drains.
///
/// The cursor `mark()` always points at the start of the next unconsumed
/// token; buffering is invisible to the contracts.  Once an error is handed
/// out by `next`, the stream is exhausted: errors are not recoverable.
pub struct Lexer {
    input: Vec<char>,
    pos: usize,
    peeked: Option<(Result<Token, ParseError>, usize)>,
}

impl Lexer {
    /// The whole input text.
    pub closed spec fn text(&self) -> Seq<char> {
        self.input@
    }

    /// The position of the next unconsumed token (before any buffering).
    pub closed spec fn mark(&self) -> int {
        self.pos as int
    }

    /// Whether the one-answer buffer is full.
    pub closed spec fn has_peeked(&self) -> bool {
        self.peeked is Some
    }

    pub closed spec fn wf(&self) -> bool {
        &&& self.pos <= self.input.len()
        &&& match self.peeked {
            Option::None => true,
            Option::Some((r, end)) => {
                &&& end <= self.input.len()
                &&& match lex_next(self.input@, self.pos as int) {
                    LexStep::End => false,
                    LexStep::Tok(t, k) => item_view(r) == Result::<TokenView, ErrorView>::Ok(t)
                        && end == k,
                    LexStep::Fail(e, _) => item_view(r) == Result::<TokenView, ErrorView>::Err(e)
                        && end == self.input@.len(),
                }
            },
        }
    }

    /// The cursor never leaves the text.
    pub proof fn lemma_mark_bounds(&self)
        requires
            self.wf(),
        ensures
            0 <= self.mark() <= self.text().len(),
    {
    }

    pub fn new(input: &str) -> (lexer: Lexer)
        ensures
            lexer.wf(),
            lexer.text() == input@,
            lexer.mark() == 0,
    {
        let n = input.unicode_len();
        let mut chars: Vec<char> = Vec::new();
        let mut i: usize = 0;
        while i < n
            invariant
                n == input@.len(),
                i <= n,
                chars@ == input@.subrange(0, i as int),
            decreases n - i,
        {
            let c = input.get_char(i);
            chars.push(c);
            proof {
                assert(chars@ =~= input@.subrange(0, i as int + 1));
            }
            i = i + 1;
        }
        proof {
            assert(chars@ =~= input@);
        }
        Lexer { input: chars, pos: 0, peeked: Option::None }
    }

    /// Returns the next token or error without consuming it, or nothing if
    /// the stream is exhausted.
    ///
    /// `peek` is idempotent: the text and the cursor are left exactly as
    /// they were, and the answer is a pure function of them, so any number
    /// of calls to `peek` return the same answer, and `next` then consumes
    /// that very answer.
    pub fn peek(&mut self) -> (r: Option<Result<Token, ParseError>>)
        requires
            old(self).wf(),
        ensures
            final(self).wf(),
            final(self).text() == old(self).text(),
            final(self).mark() == old(self).mark(),
            final(self).has_peeked() == !(lex_next(old(self).text(), old(self).mark())
                is End),
            answer_view(r) == lexed_answer(old(self).text(), old(self).mark()),
    {
        if self.peeked.is_none() {
            let (res, end) = scan_token(&self.input, self.pos);
            match res {
                Option::None => {
                    return Option::None;
                },
                Option::Some(item) => {
                    self.peeked = Option::Some((item, end));
                },
            }
        }
        match &self.peeked {
            Option::Some((item, _)) => Option::Some(dup_item(item)),
            Option::None => Option::None,
        }
    }

    /// Returns and consumes the next token or error; nothing if the stream
    /// is exhausted.  Consuming an error ends the stream.
    pub fn next(&mut self) -> (r: Option<Result<Token, ParseError>>)
        requires
            old(self).wf(),
        ensures
            final(self).wf(),
            final(self).text() == old(self).text(),
            answer_view(r) == lexed_answer(old(self).text(), old(self).mark()),
            match lex_next(old(self).text(), old(self).mark()) {
                LexStep::End => final(self).mark() == old(self).mark(),
                LexStep::Tok(t, k) => final(self).mark() == k,
                LexStep::Fail(e, _) => final(self).mark() == old(self).text().len(),
            },
    {
        let r = self.peek();
        let end_opt: Option<usize> = match &self.peeked {
            Option::Some((_, end)) => Option::Some(*end),
            Option::None => Option::None,
        };
        match end_opt {
            Option::Some(end) => {
                self.pos = end;
                self.peeked = Option::None;
            },
            Option::None => {},
        }
        r
    }

    /// Like `peek`, with exhaustion turned into the `UnexpectedEnd` error.
    pub fn peek_result(&mut self) -> (r: Result<Token, ParseError>)
        requires
            old(self).wf(),
        ensures
            final(self).wf(),
            final(self).text() == old(self).text(),
            final(self).mark() == old(self).mark(),
            match lex_next(old(self).text(), old(self).mark()) {
                LexStep::End => r matches Result::Err(e) && e@ == ErrorView::UnexpectedEnd,
                LexStep::Tok(t, _) => r matches Result::Ok(tok) && tok@ == t,
                LexStep::Fail(e, _) => r matches Result::Err(err) && err@ == e,
            },
    {
        match self.peek() {
            Option::Some(item) => item,
            Option::None => Result::Err(ParseError::UnexpectedEnd),
        }
    }

    /// Like `next`, with exhaustion turned into the `UnexpectedEnd` error.
    pub fn next_result(&mut self) -> (r: Result<Token, ParseError>)
        requires
            old(self).wf(),
        ensures
            final(self).wf(),
            final(self).text() == old(self).text(),
            match lex_next(old(self).text(), old(self).mark()) {
                LexStep::End => (r matches Result::Err(e) && e@ == ErrorView::UnexpectedEnd)
                    && final(self).mark() == old(self).mark(),
                LexStep::Tok(t, k) => (r matches Result::Ok(tok) && tok@ == t) && final(self).mark()
                    == k,
                LexStep::Fail(e, _) => (r matches Result::Err(err) && err@ == e)
                    && final(self).mark() == old(self).text().len(),
            },
    {
        match self.next() {
            Option::Some(item) => item,
            Option::None => Result::Err(ParseError::UnexpectedEnd),
        }
    }
}

} // verus!
