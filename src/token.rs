//! Tokens: classified lexical units with their raw bytes and source offset.
use vstd::prelude::*;

verus! {

/// The classification of a token.
#[derive(Debug, Clone, Copy, PartialEq, Eq, Structural)]
pub enum TokenKind {
    Alpha,
    Digit,
    WhiteSpace,
    Quote,
    Plus,
    Dash,
    Equal,
    Semicolon,
    Comma,
    LeftParen,
    RightParen,
    LeftCurly,
    RightCurly,
    Fn,
    Let,
    Return,
    True,
    False,
    Other,
}

/// A token: its kind, the bytes of the source it covers, and the byte offset
/// at which those bytes start.
#[derive(Debug, Clone, PartialEq, Eq)]
pub struct Token {
    pub kind: TokenKind,
    pub lexeme: Vec<u8>,
    pub pos: usize,
}

/// The model of a [`Token`].
pub struct Tok {
    pub kind: TokenKind,
    pub lexeme: Seq<u8>,
    pub pos: int,
}

impl View for Token {
    type V = Tok;

    open spec fn view(&self) -> Tok {
        Tok { kind: self.kind, lexeme: self.lexeme@, pos: self.pos as int }
    }
}

/// The models of a sequence of tokens.
pub open spec fn toks_view(s: Seq<Token>) -> Seq<Tok> {
    s.map_values(|t: Token| t@)
}

} // verus!
