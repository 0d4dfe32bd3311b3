//! The lexer. Every byte of the source belongs to exactly one token.
//!
//! A maximal run of ASCII letters and digits is one keyword token when it is
//! exactly `fn`, `let`, `return`, `true` or `false`; otherwise each of its
//! bytes is an `Alpha` or `Digit` token of its own. Every other byte is a
//! token of one byte: whitespace, a punctuation kind, or `Other`.
use vstd::prelude::*;
use vstd::string::StringSliceAdditionalSpecFns;
use crate::token::{Tok, Token, TokenKind, toks_view};

verus! {

/// An ASCII letter.
pub open spec fn is_alpha(b: u8) -> bool {
    (97u8 <= b && b <= 122u8) || (65u8 <= b && b <= 90u8)
}

/// An ASCII digit.
pub open spec fn is_digit(b: u8) -> bool {
    48u8 <= b && b <= 57u8
}

pub open spec fn is_alnum(b: u8) -> bool {
    is_alpha(b) || is_digit(b)
}

/// The kind of a token of one byte that does not start a word: space, tab,
/// line feed and carriage return are whitespace; then `" + - = ; , ( ) { }`.
pub open spec fn single_kind(b: u8) -> TokenKind {
    if b == 32u8 || b == 9u8 || b == 10u8 || b == 13u8 {
        TokenKind::WhiteSpace
    } else if b == 34u8 {
        TokenKind::Quote
    } else if b == 43u8 {
        TokenKind::Plus
    } else if b == 45u8 {
        TokenKind::Dash
    } else if b == 61u8 {
        TokenKind::Equal
    } else if b == 59u8 {
        TokenKind::Semicolon
    } else if b == 44u8 {
        TokenKind::Comma
    } else if b == 40u8 {
        TokenKind::LeftParen
    } else if b == 41u8 {
        TokenKind::RightParen
    } else if b == 123u8 {
        TokenKind::LeftCurly
    } else if b == 125u8 {
        TokenKind::RightCurly
    } else {
        TokenKind::Other
    }
}

/// The keyword that a whole word spells, if any: `fn`, `let`, `return`,
/// `true`, `false`.
pub open spec fn keyword_kind(w: Seq<u8>) -> Option<TokenKind> {
    if w.len() == 2 && w[0] == 102u8 && w[1] == 110u8 {
        Some(TokenKind::Fn)
    } else if w.len() == 3 && w[0] == 108u8 && w[1] == 101u8 && w[2] == 116u8 {
        Some(TokenKind::Let)
    } else if w.len() == 6 && w[0] == 114u8 && w[1] == 101u8 && w[2] == 116u8 && w[3] == 117u8
        && w[4] == 114u8 && w[5] == 110u8 {
        Some(TokenKind::Return)
    } else if w.len() == 4 && w[0] == 116u8 && w[1] == 114u8 && w[2] == 117u8 && w[3] == 101u8 {
        Some(TokenKind::True)
    } else if w.len() == 5 && w[0] == 102u8 && w[1] == 97u8 && w[2] == 108u8 && w[3] == 115u8
        && w[4] == 101u8 {
        Some(TokenKind::False)
    } else {
        None
    }
}

/// The end of the run of letters and digits that starts at `i`.
pub open spec fn word_end(src: Seq<u8>, i: int) -> int
    decreases src.len() - i,
{
    if 0 <= i < src.len() && is_alnum(src[i]) {
        word_end(src, i + 1)
    } else {
        i
    }
}

/// One token for each byte of `src` in `[i, j)`, each `Alpha` or `Digit`.
pub open spec fn char_toks(src: Seq<u8>, i: int, j: int) -> Seq<Tok>
    decreases j - i,
{
    if i < j {
        seq![Tok {
            kind: if is_alpha(src[i]) { TokenKind::Alpha } else { TokenKind::Digit },
            lexeme: seq![src[i]],
            pos: i,
        }] + char_toks(src, i + 1, j)
    } else {
        Seq::empty()
    }
}

/// The tokens of `src` from offset `i` on.
pub open spec fn lex_from(src: Seq<u8>, i: int) -> Seq<Tok>
    decreases src.len() - i,
{
    if i < 0 || i >= src.len() {
        Seq::empty()
    } else if is_alnum(src[i]) {
        let j = word_end(src, i);
        proof {
            lemma_word_end(src, i);
        }
        let w = src.subrange(i, j);
        match keyword_kind(w) {
            Some(k) => seq![Tok { kind: k, lexeme: w, pos: i }] + lex_from(src, j),
            None => char_toks(src, i, j) + lex_from(src, j),
        }
    } else {
        seq![Tok { kind: single_kind(src[i]), lexeme: seq![src[i]], pos: i }] + lex_from(
            src,
            i + 1,
        )
    }
}

/// The tokens of a whole source.
pub open spec fn lex_spec(src: Seq<u8>) -> Seq<Tok> {
    lex_from(src, 0)
}

/// The bytes of a sequence of tokens, laid end to end.
pub open spec fn concat_lexemes(t: Seq<Tok>) -> Seq<u8>
    decreases t.len(),
{
    if t.len() == 0 {
        Seq::empty()
    } else {
        t[0].lexeme + concat_lexemes(t.subrange(1, t.len() as int))
    }
}

/// A word is not empty, ends inside the source, and holds only letters and
/// digits.
pub proof fn lemma_word_end(src: Seq<u8>, i: int)
    requires
        0 <= i < src.len(),
        is_alnum(src[i]),
    ensures
        i < word_end(src, i) <= src.len(),
        forall|k: int| i <= k < word_end(src, i) ==> is_alnum(#[trigger] src[k]),
    decreases src.len() - i,
{
    assert(word_end(src, i) == word_end(src, i + 1));
    if i + 1 < src.len() && is_alnum(src[i + 1]) {
        lemma_word_end(src, i + 1);
    } else {
        assert(word_end(src, i + 1) == i + 1);
    }
}

proof fn lemma_concat_append(a: Seq<Tok>, b: Seq<Tok>)
    ensures
        concat_lexemes(a + b) == concat_lexemes(a) + concat_lexemes(b),
    decreases a.len(),
{
    if a.len() == 0 {
        assert(a + b =~= b);
        assert(concat_lexemes(a) + concat_lexemes(b) =~= concat_lexemes(b));
    } else {
        lemma_concat_append(a.subrange(1, a.len() as int), b);
        assert((a + b).subrange(1, (a + b).len() as int) =~= a.subrange(1, a.len() as int) + b);
        assert((a + b)[0] == a[0]);
        assert(concat_lexemes(a + b) =~= concat_lexemes(a) + concat_lexemes(b));
    }
}

/// The byte tokens of a range rebuild that range.
pub proof fn lemma_char_toks_concat(src: Seq<u8>, i: int, j: int)
    requires
        0 <= i <= j <= src.len(),
    ensures
        concat_lexemes(char_toks(src, i, j)) == src.subrange(i, j),
    decreases j - i,
{
    if i < j {
        lemma_char_toks_concat(src, i + 1, j);
        let t = char_toks(src, i, j);
        assert(t.subrange(1, t.len() as int) =~= char_toks(src, i + 1, j));
        assert(concat_lexemes(t) =~= src.subrange(i, j));
    } else {
        assert(concat_lexemes(char_toks(src, i, j)) =~= src.subrange(i, j));
    }
}

proof fn lemma_lex_from_concat(src: Seq<u8>, i: int)
    requires
        0 <= i <= src.len(),
    ensures
        concat_lexemes(lex_from(src, i)) == src.subrange(i, src.len() as int),
    decreases src.len() - i,
{
    if i == src.len() {
        assert(concat_lexemes(lex_from(src, i)) =~= src.subrange(i, src.len() as int));
    } else if is_alnum(src[i]) {
        lemma_word_end(src, i);
        let j = word_end(src, i);
        lemma_lex_from_concat(src, j);
        let w = src.subrange(i, j);
        match keyword_kind(w) {
            Some(k) => {
                let head = seq![Tok { kind: k, lexeme: w, pos: i }];
                lemma_concat_append(head, lex_from(src, j));
                assert(head.subrange(1, 1) =~= Seq::<Tok>::empty());
                assert(concat_lexemes(Seq::<Tok>::empty()) == Seq::<u8>::empty());
                assert(concat_lexemes(head) == w + concat_lexemes(head.subrange(1, 1)));
                assert(concat_lexemes(head) =~= w);
            },
            None => {
                lemma_concat_append(char_toks(src, i, j), lex_from(src, j));
                lemma_char_toks_concat(src, i, j);
            },
        }
        assert(src.subrange(i, j) + src.subrange(j, src.len() as int) =~= src.subrange(
            i,
            src.len() as int,
        ));
    } else {
        lemma_lex_from_concat(src, i + 1);
        let head = seq![Tok { kind: single_kind(src[i]), lexeme: seq![src[i]], pos: i }];
        lemma_concat_append(head, lex_from(src, i + 1));
        assert(head.subrange(1, 1) =~= Seq::<Tok>::empty());
        assert(concat_lexemes(Seq::<Tok>::empty()) == Seq::<u8>::empty());
        assert(concat_lexemes(head) == seq![src[i]] + concat_lexemes(head.subrange(1, 1)));
        assert(concat_lexemes(head) =~= seq![src[i]]);
        assert(seq![src[i]] + src.subrange(i + 1, src.len() as int) =~= src.subrange(
            i,
            src.len() as int,
        ));
    }
}

/// A run of letters and digits that reaches the end of the source ends the
/// word there.
pub proof fn lemma_word_to_end(src: Seq<u8>, i: int)
    requires
        0 <= i <= src.len(),
        forall|k: int| i <= k < src.len() ==> is_alnum(#[trigger] src[k]),
    ensures
        word_end(src, i) == src.len(),
    decreases src.len() - i,
{
    if i < src.len() {
        lemma_word_to_end(src, i + 1);
    }
}

/// The byte tokens of a range: one per byte, `Alpha` for a letter and
/// `Digit` otherwise.
pub proof fn lemma_char_toks_index(src: Seq<u8>, i: int, j: int, k: int)
    requires
        i <= j,
        0 <= k < j - i,
    ensures
        char_toks(src, i, j).len() == j - i,
        char_toks(src, i, j)[k] == (Tok {
            kind: if is_alpha(src[i + k]) { TokenKind::Alpha } else { TokenKind::Digit },
            lexeme: seq![src[i + k]],
            pos: i + k,
        }),
    decreases j - i,
{
    lemma_char_toks_len(src, i + 1, j);
    if k > 0 {
        lemma_char_toks_index(src, i + 1, j, k - 1);
    }
}

pub proof fn lemma_char_toks_len(src: Seq<u8>, i: int, j: int)
    ensures
        i <= j ==> char_toks(src, i, j).len() == j - i,
    decreases j - i,
{
    if i < j {
        lemma_char_toks_len(src, i + 1, j);
    }
}

/// A word that is no keyword lexes to one token per byte.
pub proof fn lemma_lex_plain_word(src: Seq<u8>)
    requires
        src.len() > 0,
        forall|k: int| 0 <= k < src.len() ==> is_alnum(#[trigger] src[k]),
        keyword_kind(src) is None,
    ensures
        lex_spec(src) == char_toks(src, 0, src.len() as int),
{
    lemma_word_to_end(src, 0);
    assert(src.subrange(0, src.len() as int) =~= src);
    assert(lex_from(src, src.len() as int) =~= Seq::<Tok>::empty());
    assert(char_toks(src, 0, src.len() as int) + Seq::<Tok>::empty() =~= char_toks(
        src,
        0,
        src.len() as int,
    ));
}

/// Lexing loses and adds nothing: the lexemes of the tokens, laid end to
/// end, are the source.
pub proof fn lemma_lex_round_trip(src: Seq<u8>)
    ensures
        concat_lexemes(lex_spec(src)) == src,
{
    lemma_lex_from_concat(src, 0);
    assert(src.subrange(0, src.len() as int) =~= src);
}

/// Keywords come first: a word that spells a keyword is one token of that
/// keyword's kind, never a run of letters.
pub proof fn lemma_keyword_first(src: Seq<u8>, i: int)
    requires
        0 <= i < src.len(),
        is_alnum(src[i]),
        keyword_kind(src.subrange(i, word_end(src, i))) is Some,
    ensures
        lex_from(src, i)[0] == (Tok {
            kind: keyword_kind(src.subrange(i, word_end(src, i)))->Some_0,
            lexeme: src.subrange(i, word_end(src, i)),
            pos: i,
        }),
{
}

fn alpha(b: u8) -> (r: bool)
    ensures
        r == is_alpha(b),
{
    (97u8 <= b && b <= 122u8) || (65u8 <= b && b <= 90u8)
}

fn alnum(b: u8) -> (r: bool)
    ensures
        r == is_alnum(b),
{
    alpha(b) || (48u8 <= b && b <= 57u8)
}

fn single_kind_of(b: u8) -> (r: TokenKind)
    ensures
        r == single_kind(b),
{
    if b == 32u8 || b == 9u8 || b == 10u8 || b == 13u8 {
        TokenKind::WhiteSpace
    } else if b == 34u8 {
        TokenKind::Quote
    } else if b == 43u8 {
        TokenKind::Plus
    } else if b == 45u8 {
        TokenKind::Dash
    } else if b == 61u8 {
        TokenKind::Equal
    } else if b == 59u8 {
        TokenKind::Semicolon
    } else if b == 44u8 {
        TokenKind::Comma
    } else if b == 40u8 {
        TokenKind::LeftParen
    } else if b == 41u8 {
        TokenKind::RightParen
    } else if b == 123u8 {
        TokenKind::LeftCurly
    } else if b == 125u8 {
        TokenKind::RightCurly
    } else {
        TokenKind::Other
    }
}

fn keyword_at(src: &[u8], i: usize, j: usize) -> (r: Option<TokenKind>)
    requires
        i <= j <= src@.len(),
    ensures
        r == keyword_kind(src@.subrange(i as int, j as int)),
{
    let n = j - i;
    if n == 2 && src[i] == 102u8 && src[i + 1] == 110u8 {
        Some(TokenKind::Fn)
    } else if n == 3 && src[i] == 108u8 && src[i + 1] == 101u8 && src[i + 2] == 116u8 {
        Some(TokenKind::Let)
    } else if n == 6 && src[i] == 114u8 && src[i + 1] == 101u8 && src[i + 2] == 116u8 && src[i
        + 3] == 117u8 && src[i + 4] == 114u8 && src[i + 5] == 110u8 {
        Some(TokenKind::Return)
    } else if n == 4 && src[i] == 116u8 && src[i + 1] == 114u8 && src[i + 2] == 117u8 && src[i
        + 3] == 101u8 {
        Some(TokenKind::True)
    } else if n == 5 && src[i] == 102u8 && src[i + 1] == 97u8 && src[i + 2] == 108u8 && src[i
        + 3] == 115u8 && src[i + 4] == 101u8 {
        Some(TokenKind::False)
    } else {
        None
    }
}

fn scan_word(src: &[u8], i: usize) -> (j: usize)
    requires
        i < src@.len(),
        is_alnum(src@[i as int]),
    ensures
        j == word_end(src@, i as int),
{
    let mut j: usize = i;
    while j < src.len() && alnum(src[j])
        invariant
            i <= j <= src@.len(),
            word_end(src@, j as int) == word_end(src@, i as int),
        decreases src@.len() - j,
    {
        j = j + 1;
    }
    j
}

/// The bytes of `src` in `[i, j)`.
fn bytes_between(src: &[u8], i: usize, j: usize) -> (r: Vec<u8>)
    requires
        i <= j <= src@.len(),
    ensures
        r@ == src@.subrange(i as int, j as int),
{
    let mut r: Vec<u8> = Vec::new();
    let mut k: usize = i;
    while k < j
        invariant
            i <= k <= j <= src@.len(),
            r@ == src@.subrange(i as int, k as int),
        decreases j - k,
    {
        r.push(src[k]);
        k = k + 1;
        assert(r@ =~= src@.subrange(i as int, k as int));
    }
    r
}

/// Splits a source into tokens. Lexing never fails, and its result depends
/// on the bytes of the source alone.
pub fn lex(source: &str) -> (r: Vec<Token>)
    ensures
        toks_view(r@) == lex_spec(source.spec_bytes()),
{
    lex_bytes(source.as_bytes())
}

/// Splits the bytes of a source into tokens.
pub fn lex_bytes(src: &[u8]) -> (r: Vec<Token>)
    ensures
        toks_view(r@) == lex_spec(src@),
{
    let mut out: Vec<Token> = Vec::new();
    let mut i: usize = 0;
    assert(toks_view(out@) + lex_from(src@, 0) =~= lex_spec(src@));
    while i < src.len()
        invariant
            0 <= i <= src@.len(),
            toks_view(out@) + lex_from(src@, i as int) == lex_spec(src@),
        decreases src@.len() - i,
    {
        let b = src[i];
        let ghost before = toks_view(out@);
        if alnum(b) {
            let j = scan_word(src, i);
            proof {
                lemma_word_end(src@, i as int);
            }
            match keyword_at(src, i, j) {
                Some(k) => {
                    let lexeme = bytes_between(src, i, j);
                    out.push(Token { kind: k, lexeme, pos: i });
                    assert(toks_view(out@) =~= before.push(out@.last()@));
                    assert(toks_view(out@) + lex_from(src@, j as int) =~= before + lex_from(
                        src@,
                        i as int,
                    ));
                },
                None => {
                    let mut k: usize = i;
                    while k < j
                        invariant
                            i <= k <= j <= src@.len(),
                            j == word_end(src@, i as int),
                            toks_view(out@) + char_toks(src@, k as int, j as int) + lex_from(
                                src@,
                                j as int,
                            ) == lex_spec(src@),
                        decreases j - k,
                    {
                        let ghost pre = toks_view(out@);
                        let kind = if alpha(src[k]) {
                            TokenKind::Alpha
                        } else {
                            TokenKind::Digit
                        };
                        let lexeme = bytes_between(src, k, k + 1);
                        out.push(Token { kind, lexeme, pos: k });
                        assert(lexeme@ =~= seq![src@[k as int]]);
                        assert(toks_view(out@) =~= pre.push(out@.last()@));
                        assert(toks_view(out@) + char_toks(src@, k + 1, j as int) =~= pre
                            + char_toks(src@, k as int, j as int));
                        k = k + 1;
                    }
                    assert(char_toks(src@, j as int, j as int) =~= Seq::<Tok>::empty());
                    assert(toks_view(out@) + lex_from(src@, j as int) =~= toks_view(out@)
                        + char_toks(src@, j as int, j as int) + lex_from(src@, j as int));
                    assert(before + lex_from(src@, i as int) =~= before + char_toks(
                        src@,
                        i as int,
                        j as int,
                    ) + lex_from(src@, j as int));
                },
            }
            i = j;
        } else {
            let kind = single_kind_of(b);
            let lexeme = bytes_between(src, i, i + 1);
            out.push(Token { kind, lexeme, pos: i });
            assert(lexeme@ =~= seq![b]);
            assert(toks_view(out@) =~= before.push(out@.last()@));
            assert(toks_view(out@) + lex_from(src@, i + 1) =~= before + lex_from(src@, i as int));
            i = i + 1;
        }
    }
    assert(lex_from(src@, i as int) =~= Seq::<Tok>::empty());
    assert(toks_view(out@) =~= toks_view(out@) + lex_from(src@, i as int));
    out
}

} // verus!
