use vstd::prelude::*;
use std::ops::Range;
use vstd::string::StringSliceAdditionalSpecFns;

verus! {

pub const SPACE: u8 = 32; // space
pub const TAB: u8 = 9; // tab
pub const NEWLINE: u8 = 10; // line feed
pub const RETURN: u8 = 13; // carriage return
pub const DIGIT_0: u8 = 48; // `0`
pub const DIGIT_9: u8 = 57; // `9`
pub const LOWER_A: u8 = 97; // `a`
pub const LOWER_Z: u8 = 122; // `z`
pub const UPPER_A: u8 = 65; // `A`
pub const UPPER_Z: u8 = 90; // `Z`
pub const UNDERSCORE: u8 = 95; // `_`
pub const LPAREN: u8 = 40; // `(`
pub const RPAREN: u8 = 41; // `)`
pub const LBRACE: u8 = 123; // `{`
pub const RBRACE: u8 = 125; // `}`
pub const COMMA: u8 = 44; // `,`
pub const COLON: u8 = 58; // `:`
pub const SEMICOLON: u8 = 59; // `;`
pub const EQUALS: u8 = 61; // `=`
pub const GREATER: u8 = 62; // `>`
pub const LOWER_F: u8 = 102; // `f`
pub const LOWER_N: u8 = 110; // `n`
pub const LOWER_L: u8 = 108; // `l`
pub const LOWER_E: u8 = 101; // `e`
pub const LOWER_T: u8 = 116; // `t`

#[derive(Debug, PartialEq, Clone)]
pub enum Token {
    Fn,
    Let,
    Arrow,
    LParen,
    RParen,
    LBrace,
    RBrace,
    Comma,
    Colon,
    Semicolon,
    Eq,
    Ident(String),
    Int(i64),
    Whitespace,
    Error,
}

/// A token and the byte range of the source it was read from.
#[derive(Debug)]
pub struct SpannedToken {
    pub token: Token,
    pub span: Range<usize>,
}

pub open spec fn is_ws(c: u8) -> bool {
    c == SPACE || c == TAB || c == NEWLINE || c == RETURN
}

pub open spec fn is_digit(c: u8) -> bool {
    DIGIT_0 <= c <= DIGIT_9
}

pub open spec fn is_ident_start(c: u8) -> bool {
    (LOWER_A <= c <= LOWER_Z) || (UPPER_A <= c <= UPPER_Z) || c == UNDERSCORE
}

pub open spec fn is_ident_continue(c: u8) -> bool {
    is_ident_start(c) || is_digit(c)
}

/// A byte that continues a multi-byte UTF-8 character.
pub open spec fn is_utf8_continuation(c: u8) -> bool {
    0x80 <= c <= 0xbf
}

/// Bytes that form a one-byte token on their own.
pub open spec fn is_punct(c: u8) -> bool {
    c == LPAREN || c == RPAREN || c == LBRACE || c == RBRACE || c == COMMA || c == COLON || c == SEMICOLON || c
        == EQUALS
}

/// The kinds of bytes that make up the rest of a multi-byte token.
#[derive(Clone, Copy)]
pub enum ByteClass {
    IdentContinue,
    Digit,
    Utf8Continuation,
}

pub open spec fn in_class(c: u8, class: ByteClass) -> bool {
    match class {
        ByteClass::IdentContinue => is_ident_continue(c),
        ByteClass::Digit => is_digit(c),
        ByteClass::Utf8Continuation => is_utf8_continuation(c),
    }
}

/// End of the longest run of bytes of `class` that starts at `p`.
pub open spec fn run_end(b: Seq<u8>, p: int, class: ByteClass) -> int
    decreases b.len() - p,
{
    if 0 <= p < b.len() && in_class(b[p], class) {
        run_end(b, p + 1, class)
    } else {
        p
    }
}

proof fn lemma_run_end_bounds(b: Seq<u8>, p: int, class: ByteClass)
    requires
        0 <= p <= b.len(),
    ensures
        p <= run_end(b, p, class) <= b.len(),
    decreases b.len() - p,
{
    if p < b.len() && in_class(b[p], class) {
        lemma_run_end_bounds(b, p + 1, class);
    }
}

/// End of the token that starts at `pos`, by longest match: `=>` over `=`,
/// a whole identifier or number, and for a byte that starts no token the
/// whole character it begins.
pub open spec fn token_end(b: Seq<u8>, pos: int) -> int {
    let c = b[pos];
    if c == EQUALS && pos + 1 < b.len() && b[pos + 1] == GREATER {
        pos + 2
    } else if is_punct(c) {
        pos + 1
    } else if is_ident_start(c) {
        run_end(b, pos + 1, ByteClass::IdentContinue)
    } else if is_digit(c) {
        run_end(b, pos + 1, ByteClass::Digit)
    } else if c < 0x80 {
        pos + 1
    } else {
        run_end(b, pos + 1, ByteClass::Utf8Continuation)
    }
}

proof fn lemma_token_end_bounds(b: Seq<u8>, pos: int)
    requires
        0 <= pos < b.len(),
    ensures
        pos < token_end(b, pos) <= b.len(),
{
    lemma_run_end_bounds(b, pos + 1, ByteClass::IdentContinue);
    lemma_run_end_bounds(b, pos + 1, ByteClass::Digit);
    lemma_run_end_bounds(b, pos + 1, ByteClass::Utf8Continuation);
}

/// Byte ranges of the tokens of `b` from `pos` on; whitespace separates
/// tokens and is dropped.
pub open spec fn token_spans(b: Seq<u8>, pos: int) -> Seq<(int, int)>
    decreases b.len() - pos,
    via token_spans_decreases
{
    if pos < 0 || pos >= b.len() {
        Seq::empty()
    } else if is_ws(b[pos]) {
        token_spans(b, pos + 1)
    } else {
        seq![(pos, token_end(b, pos))] + token_spans(b, token_end(b, pos))
    }
}

#[via_fn]
proof fn token_spans_decreases(b: Seq<u8>, pos: int) {
    if 0 <= pos < b.len() {
        lemma_token_end_bounds(b, pos);
    }
}

/// Value of a run of decimal digits.
pub open spec fn digits_value(d: Seq<u8>) -> int
    decreases d.len(),
{
    if d.len() == 0 {
        0
    } else {
        digits_value(d.drop_last()) * 10 + (d.last() - DIGIT_0)
    }
}

proof fn lemma_digits_value_nonneg(d: Seq<u8>)
    requires
        forall|i: int| 0 <= i < d.len() ==> is_digit(#[trigger] d[i]),
    ensures
        digits_value(d) >= 0,
    decreases d.len(),
{
    if d.len() > 0 {
        lemma_digits_value_nonneg(d.drop_last());
    }
}

/// The characters of ASCII bytes.
pub open spec fn ascii_chars(d: Seq<u8>) -> Seq<char> {
    d.map_values(|x: u8| x as char)
}

/// `t` is the token read from `b[start..end]`: a keyword, a punctuation
/// mark, an identifier with its text, a number that fits in an `i64` with
/// its value, or `Error` for a number too large and for a character that
/// starts no token.
pub open spec fn token_from(t: Token, b: Seq<u8>, start: int, end: int) -> bool {
    let c = b[start];
    let text = b.subrange(start, end);
    if c == EQUALS && end == start + 2 {
        t == Token::Arrow
    } else if c == EQUALS {
        t == Token::Eq
    } else if c == LPAREN {
        t == Token::LParen
    } else if c == RPAREN {
        t == Token::RParen
    } else if c == LBRACE {
        t == Token::LBrace
    } else if c == RBRACE {
        t == Token::RBrace
    } else if c == COMMA {
        t == Token::Comma
    } else if c == COLON {
        t == Token::Colon
    } else if c == SEMICOLON {
        t == Token::Semicolon
    } else if is_ident_start(c) {
        if text == seq![LOWER_F, LOWER_N] {
            t == Token::Fn
        } else if text == seq![LOWER_L, LOWER_E, LOWER_T] {
            t == Token::Let
        } else {
            t is Ident && t->Ident_0@ == ascii_chars(text)
        }
    } else if is_digit(c) {
        if digits_value(text) <= i64::MAX {
            t == Token::Int(digits_value(text) as i64)
        } else {
            t == Token::Error
        }
    } else {
        t == Token::Error
    }
}

/// Relies on `String::from_utf8`: ASCII bytes are valid UTF-8, each byte
/// one character of the same code.
#[verifier::external_body]
fn ascii_to_string(bytes: Vec<u8>) -> (r: String)
    requires
        forall|i: int| 0 <= i < bytes@.len() ==> bytes@[i] < 0x80,
    ensures
        r@ == ascii_chars(bytes@),
{
    String::from_utf8(bytes).unwrap()
}

fn scan_run(b: &[u8], p: usize, class: ByteClass) -> (e: usize)
    requires
        p <= b@.len(),
    ensures
        e == run_end(b@, p as int, class),
{
    let mut e = p;
    while e < b.len() && in_class_byte(b[e], class)
        invariant
            p <= e <= b@.len(),
            run_end(b@, p as int, class) == run_end(b@, e as int, class),
        decreases b@.len() - e,
    {
        e = e + 1;
    }
    e
}

fn in_class_byte(c: u8, class: ByteClass) -> (r: bool)
    ensures
        r == in_class(c, class),
{
    match class {
        ByteClass::IdentContinue => is_ident_continue_byte(c),
        ByteClass::Digit => DIGIT_0 <= c && c <= DIGIT_9,
        ByteClass::Utf8Continuation => 0x80 <= c && c <= 0xbf,
    }
}

fn is_ident_start_byte(c: u8) -> (r: bool)
    ensures
        r == is_ident_start(c),
{
    (LOWER_A <= c && c <= LOWER_Z) || (UPPER_A <= c && c <= UPPER_Z) || c == UNDERSCORE
}

fn is_ident_continue_byte(c: u8) -> (r: bool)
    ensures
        r == is_ident_continue(c),
{
    is_ident_start_byte(c) || (DIGIT_0 <= c && c <= DIGIT_9)
}

/// Reads the token that starts at `start` and ends at `end`.
fn read_token(b: &[u8], start: usize, end: usize) -> (t: Token)
    requires
        start < end <= b@.len(),
        end == token_end(b@, start as int),
    ensures
        token_from(t, b@, start as int, end as int),
{
    let c = b[start];
    let ghost text = b@.subrange(start as int, end as int);
    if c == EQUALS && end - start == 2 {
        Token::Arrow
    } else if c == EQUALS {
        Token::Eq
    } else if c == LPAREN {
        Token::LParen
    } else if c == RPAREN {
        Token::RParen
    } else if c == LBRACE {
        Token::LBrace
    } else if c == RBRACE {
        Token::RBrace
    } else if c == COMMA {
        Token::Comma
    } else if c == COLON {
        Token::Colon
    } else if c == SEMICOLON {
        Token::Semicolon
    } else if is_ident_start_byte(c) {
        if end - start == 2 && b[start + 1] == LOWER_N && c == LOWER_F {
            assert(text =~= seq![LOWER_F, LOWER_N]);
            Token::Fn
        } else if end - start == 3 && c == LOWER_L && b[start + 1] == LOWER_E && b[start + 2] == LOWER_T {
            assert(text =~= seq![LOWER_L, LOWER_E, LOWER_T]);
            Token::Let
        } else {
            proof {
                assert(text != seq![LOWER_F, LOWER_N]) by {
                    if text.len() == 2 {
                        assert(text[0] == c && text[1] == b@[start + 1]);
                    }
                }
                assert(text != seq![LOWER_L, LOWER_E, LOWER_T]) by {
                    if text.len() == 3 {
                        assert(text[0] == c && text[1] == b@[start + 1] && text[2] == b@[start + 2]);
                    }
                }
                lemma_ident_run(b@, start as int + 1, end as int);
            }
            let mut bytes: Vec<u8> = Vec::new();
            let mut i = start;
            while i < end
                invariant
                    start <= i <= end,
                    end <= b@.len(),
                    bytes@ == b@.subrange(start as int, i as int),
                    forall|k: int| start < k < end ==> is_ident_continue(#[trigger] b@[k]),
                    is_ident_start(b@[start as int]),
                decreases end - i,
            {
                bytes.push(b[i]);
                i = i + 1;
                assert(bytes@ =~= b@.subrange(start as int, i as int));
            }
            assert forall|k: int| 0 <= k < bytes@.len() implies bytes@[k] < 0x80 by {
                assert(bytes@[k] == b@[start + k]);
            }
            Token::Ident(ascii_to_string(bytes))
        }
    } else if DIGIT_0 <= c && c <= DIGIT_9 {
        proof {
            lemma_digit_run(b@, start as int + 1, end as int);
        }
        let mut value: i64 = 0;
        let mut overflow = false;
        let mut i = start;
        while i < end
            invariant
                start <= i <= end,
                end <= b@.len(),
                forall|k: int| start <= k < end ==> is_digit(#[trigger] b@[k]),
                !overflow ==> value as int == digits_value(b@.subrange(start as int, i as int)),
                overflow ==> digits_value(b@.subrange(start as int, i as int)) > i64::MAX,
            decreases end - i,
        {
            let d = b[i] - DIGIT_0;
            let ghost prev = b@.subrange(start as int, i as int);
            let ghost cur = b@.subrange(start as int, i + 1);
            proof {
                assert(cur.drop_last() =~= prev);
                assert(cur.last() == b@[i as int]);
                assert forall|k: int| 0 <= k < prev.len() implies is_digit(#[trigger] prev[k]) by {
                    assert(prev[k] == b@[start + k]);
                }
                lemma_digits_value_nonneg(prev);
            }
            if !overflow {
                if value < 922337203685477580 || (value == 922337203685477580 && d <= 7) {
                    value = value * 10 + d as i64;
                } else {
                    overflow = true;
                }
            }
            i = i + 1;
        }
        if overflow {
            Token::Error
        } else {
            Token::Int(value)
        }
    } else {
        Token::Error
    }
}

proof fn lemma_ident_run(b: Seq<u8>, p: int, end: int)
    requires
        0 <= p <= b.len(),
        end == run_end(b, p, ByteClass::IdentContinue),
    ensures
        forall|k: int| p <= k < end ==> is_ident_continue(#[trigger] b[k]),
    decreases b.len() - p,
{
    if p < b.len() && is_ident_continue(b[p]) {
        lemma_ident_run(b, p + 1, end);
    }
}

proof fn lemma_digit_run(b: Seq<u8>, p: int, end: int)
    requires
        0 <= p <= b.len(),
        end == run_end(b, p, ByteClass::Digit),
    ensures
        forall|k: int| p <= k < end ==> is_digit(#[trigger] b[k]),
    decreases b.len() - p,
{
    if p < b.len() && is_digit(b[p]) {
        lemma_digit_run(b, p + 1, end);
    }
}

/// Splits `source` into tokens with their byte ranges, left to right.
pub fn lex(source: &str) -> (tokens: Vec<SpannedToken>)
    ensures
        tokens@.len() == token_spans(source.spec_bytes(), 0).len(),
        forall|i: int|
            0 <= i < tokens@.len() ==> {
                let (start, end) = token_spans(source.spec_bytes(), 0)[i];
                &&& (#[trigger] tokens@[i]).span.start == start
                &&& tokens@[i].span.end == end
                &&& token_from(tokens@[i].token, source.spec_bytes(), start, end)
            },
{
    let b = source.as_bytes();
    let ghost bs = b@;
    let mut tokens: Vec<SpannedToken> = Vec::new();
    let mut pos: usize = 0;
    while pos < b.len()
        invariant
            bs == b@,
            pos <= b@.len(),
            token_spans(bs, 0) == tokens@.map_values(
                |t: SpannedToken| (t.span.start as int, t.span.end as int),
            ) + token_spans(bs, pos as int),
            forall|i: int|
                0 <= i < tokens@.len() ==> token_from(
                    (#[trigger] tokens@[i]).token,
                    bs,
                    tokens@[i].span.start as int,
                    tokens@[i].span.end as int,
                ),
        decreases b@.len() - pos,
    {
        let c = b[pos];
        if c == SPACE || c == TAB || c == NEWLINE || c == RETURN {
            pos = pos + 1;
        } else {
            proof {
                lemma_token_end_bounds(bs, pos as int);
            }
            let end: usize = if c == EQUALS && pos + 1 < b.len() && b[pos + 1] == GREATER {
                pos + 2
            } else if c == LPAREN || c == RPAREN || c == LBRACE || c == RBRACE || c == COMMA || c == COLON
                || c == SEMICOLON || c == EQUALS {
                pos + 1
            } else if is_ident_start_byte(c) {
                scan_run(b, pos + 1, ByteClass::IdentContinue)
            } else if DIGIT_0 <= c && c <= DIGIT_9 {
                scan_run(b, pos + 1, ByteClass::Digit)
            } else if c < 0x80 {
                pos + 1
            } else {
                scan_run(b, pos + 1, ByteClass::Utf8Continuation)
            };
            let token = read_token(b, pos, end);
            let ghost before = tokens@;
            tokens.push(SpannedToken { token, span: pos..end });
            proof {
                let f = |t: SpannedToken| (t.span.start as int, t.span.end as int);
                assert(tokens@.map_values(f) =~= before.map_values(f).push((pos as int, end as int)));
                assert(token_spans(bs, pos as int) == seq![(pos as int, end as int)] + token_spans(
                    bs,
                    end as int,
                ));
                assert(before.map_values(f) + token_spans(bs, pos as int) =~= tokens@.map_values(f)
                    + token_spans(bs, end as int));
            }
            pos = end;
        }
    }
    proof {
        let f = |t: SpannedToken| (t.span.start as int, t.span.end as int);
        assert(token_spans(bs, 0) =~= tokens@.map_values(f));
        assert forall|i: int| 0 <= i < tokens@.len() implies ({
            let (start, end) = token_spans(bs, 0)[i];
            &&& (#[trigger] tokens@[i]).span.start == start
            &&& tokens@[i].span.end == end
            &&& token_from(tokens@[i].token, bs, start, end)
        }) by {
            assert(token_spans(bs, 0)[i] == f(tokens@[i]));
        }
    }
    tokens
}

} // verus!
