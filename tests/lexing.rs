use asalang::{lex, Token, TokenKind};

fn kinds(toks: &[Token]) -> Vec<TokenKind> {
    toks.iter().map(|t| t.kind).collect()
}

#[test]
fn lex_is_deterministic() {
    let src = "fn main(){let x = 1 + 2; return x;}";
    assert_eq!(lex(src), lex(src));
}

#[test]
fn lexemes_rebuild_the_source() {
    let src = "fn foo(a, b){ let s = \"hi there\"; return a - b; } % \t\n";
    let toks = lex(src);
    let mut bytes: Vec<u8> = Vec::new();
    for t in &toks {
        bytes.extend_from_slice(&t.lexeme);
    }
    assert_eq!(bytes, src.as_bytes().to_vec());
}

#[test]
fn lex_empty_source() {
    assert!(lex("").is_empty());
}

#[test]
fn keywords_are_single_tokens() {
    let toks = lex("fn let return true false");
    assert_eq!(
        kinds(&toks),
        vec![
            TokenKind::Fn,
            TokenKind::WhiteSpace,
            TokenKind::Let,
            TokenKind::WhiteSpace,
            TokenKind::Return,
            TokenKind::WhiteSpace,
            TokenKind::True,
            TokenKind::WhiteSpace,
            TokenKind::False,
        ]
    );
    assert_eq!(toks[4].lexeme, b"return".to_vec());
    assert_eq!(toks[4].pos, 7);
}

#[test]
fn keyword_inside_a_longer_word_is_letters() {
    let toks = lex("fnord x1");
    assert_eq!(
        kinds(&toks),
        vec![
            TokenKind::Alpha,
            TokenKind::Alpha,
            TokenKind::Alpha,
            TokenKind::Alpha,
            TokenKind::Alpha,
            TokenKind::WhiteSpace,
            TokenKind::Alpha,
            TokenKind::Digit,
        ]
    );
    assert_eq!(toks[7].lexeme, vec![49]);
    assert_eq!(toks[7].pos, 7);
}

#[test]
fn punctuation_kinds() {
    let toks = lex("\"+-=;,(){}%");
    assert_eq!(
        kinds(&toks),
        vec![
            TokenKind::Quote,
            TokenKind::Plus,
            TokenKind::Dash,
            TokenKind::Equal,
            TokenKind::Semicolon,
            TokenKind::Comma,
            TokenKind::LeftParen,
            TokenKind::RightParen,
            TokenKind::LeftCurly,
            TokenKind::RightCurly,
            TokenKind::Other,
        ]
    );
}

#[test]
fn uppercase_true_is_not_a_keyword() {
    let toks = lex("TRUE");
    assert_eq!(kinds(&toks), vec![TokenKind::Alpha; 4]);
}
