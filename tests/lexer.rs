use yulvon::lexer::{lex, SpannedToken, Token};

fn kinds(tokens: &[SpannedToken]) -> Vec<Token> {
    tokens.iter().map(|t| t.token.clone()).collect()
}

#[test]
fn lexes_a_function() {
    let toks = lex("fn main() {\n  let x = 42;\n}");
    assert_eq!(
        kinds(&toks),
        vec![
            Token::Fn,
            Token::Ident("main".to_string()),
            Token::LParen,
            Token::RParen,
            Token::LBrace,
            Token::Let,
            Token::Ident("x".to_string()),
            Token::Eq,
            Token::Int(42),
            Token::Semicolon,
            Token::RBrace,
        ]
    );
    assert_eq!(toks[0].span, 0..2);
    assert_eq!(toks[1].span, 3..7);
    assert_eq!(toks[8].span, 22..24);
    assert_eq!(toks[10].span, 26..27);
}

#[test]
fn longest_match_wins() {
    let toks = lex("fnord letter => = ,:");
    assert_eq!(
        kinds(&toks),
        vec![
            Token::Ident("fnord".to_string()),
            Token::Ident("letter".to_string()),
            Token::Arrow,
            Token::Eq,
            Token::Comma,
            Token::Colon,
        ]
    );
    assert_eq!(toks[2].span, 13..15);
}

#[test]
fn identifiers_keep_their_text() {
    let toks = lex("_a1 B_2");
    assert_eq!(kinds(&toks), vec![Token::Ident("_a1".to_string()), Token::Ident("B_2".to_string())]);
}

#[test]
fn numbers_and_overflow() {
    let toks = lex("9223372036854775807 9223372036854775808 007");
    assert_eq!(kinds(&toks), vec![Token::Int(i64::MAX), Token::Error, Token::Int(7)]);
    assert_eq!(toks[1].span, 20..39);
}

#[test]
fn number_then_identifier() {
    let toks = lex("12ab");
    assert_eq!(kinds(&toks), vec![Token::Int(12), Token::Ident("ab".to_string())]);
}

#[test]
fn unknown_characters_are_errors() {
    let toks = lex("a$b é");
    assert_eq!(
        kinds(&toks),
        vec![Token::Ident("a".to_string()), Token::Error, Token::Ident("b".to_string()), Token::Error]
    );
    assert_eq!(toks[1].span, 1..2);
    assert_eq!(toks[3].span, 4..6);
}

#[test]
fn empty_and_blank_sources_have_no_tokens() {
    assert!(lex("").is_empty());
    assert!(lex(" \t\r\n ").is_empty());
}
