//! Splits source bytes into tokens.
//!
//! Whitespace (space, tab, carriage return, line feed) separates tokens and is
//! otherwise ignored. A number is a run of ASCII digits. An identifier is an
//! ASCII letter or `_` followed by letters, digits and `_`; identifiers are
//! case-sensitive, and `if`, `then` and `else` are keywords. The remaining
//! tokens are `+ - * / % ( ) , = < <= > >=`. Any other byte, including every
//! byte of a non-ASCII character, is an invalid token.

use crate::rational::is_decimal_digit;
use vstd::prelude::*;

verus! {

#[derive(Clone, Copy, Debug, PartialEq, Eq, Structural)]
pub enum TokenKind {
    Num,
    Ident,
    If,
    Then,
    Else,
    Plus,
    Minus,
    Star,
    Slash,
    Percent,
    LParen,
    RParen,
    Comma,
    Eq,
    Lt,
    Le,
    Gt,
    Ge,
}

/// A token and the byte offsets `start..end` of its text.
#[derive(Clone, Copy, Debug, PartialEq, Eq, Structural)]
pub struct Token {
    pub kind: TokenKind,
    pub start: usize,
    pub end: usize,
}

/// Why a text could not be parsed.
#[derive(Clone, Copy, Debug, PartialEq, Eq, Structural)]
pub enum ParseError {
    /// No token starts at this offset.
    InvalidToken { location: usize },
    /// A token that cannot stand where it was found.
    UnrecognizedToken { start: usize, end: usize },
    /// The text ended where more was needed; `location` is where it ended.
    UnrecognizedEof { location: usize },
    /// A token left over after a complete expression or equation.
    ExtraToken { start: usize, end: usize },
}

/// How many of `len` positions lie at or after `pos`.
pub open spec fn remaining(len: int, pos: int) -> nat {
    if pos < len {
        (len - pos) as nat
    } else {
        0
    }
}

pub open spec fn is_space(c: u8) -> bool {
    c == 32 || c == 9 || c == 10 || c == 13
}

pub open spec fn is_ident_start(c: u8) -> bool {
    (65 <= c <= 90) || (97 <= c <= 122) || c == 95
}

pub open spec fn is_ident_char(c: u8) -> bool {
    is_ident_start(c) || is_decimal_digit(c)
}

/// The byte belongs to a word (an identifier) rather than a number.
pub open spec fn in_class(c: u8, word: bool) -> bool {
    if word {
        is_ident_char(c)
    } else {
        is_decimal_digit(c)
    }
}

/// How many bytes from `i` on belong to the class.
pub open spec fn run_len(b: Seq<u8>, i: int, word: bool) -> nat
    decreases b.len() - i,
{
    if 0 <= i < b.len() && in_class(b[i], word) {
        1 + run_len(b, i + 1, word)
    } else {
        0
    }
}

/// The kind of a word: a keyword or an identifier.
pub open spec fn word_kind(w: Seq<u8>) -> TokenKind {
    if w == seq![105u8, 102u8] {
        TokenKind::If
    } else if w == seq![116u8, 104u8, 101u8, 110u8] {
        TokenKind::Then
    } else if w == seq![101u8, 108u8, 115u8, 101u8] {
        TokenKind::Else
    } else {
        TokenKind::Ident
    }
}

/// The kind of a token that is a single byte.
pub open spec fn symbol_kind(c: u8) -> Option<TokenKind> {
    if c == 43 {
        Some(TokenKind::Plus)
    } else if c == 45 {
        Some(TokenKind::Minus)
    } else if c == 42 {
        Some(TokenKind::Star)
    } else if c == 47 {
        Some(TokenKind::Slash)
    } else if c == 37 {
        Some(TokenKind::Percent)
    } else if c == 40 {
        Some(TokenKind::LParen)
    } else if c == 41 {
        Some(TokenKind::RParen)
    } else if c == 44 {
        Some(TokenKind::Comma)
    } else if c == 61 {
        Some(TokenKind::Eq)
    } else if c == 60 {
        Some(TokenKind::Lt)
    } else if c == 62 {
        Some(TokenKind::Gt)
    } else {
        None
    }
}

pub open spec fn prepend(pre: Seq<Token>, r: Result<Seq<Token>, ParseError>) -> Result<
    Seq<Token>,
    ParseError,
> {
    match r {
        Ok(s) => Ok(pre + s),
        Err(e) => Err(e),
    }
}

/// The tokens of `b` from offset `i` on, or the first invalid token.
pub open spec fn lex_from(b: Seq<u8>, i: int) -> Result<Seq<Token>, ParseError>
    decreases remaining(b.len() as int, i),
{
    if i < 0 || i >= b.len() {
        Ok(seq![])
    } else {
        let c = b[i];
        if is_space(c) {
            lex_from(b, i + 1)
        } else if is_decimal_digit(c) {
            let e = i + 1 + run_len(b, i + 1, false);
            prepend(seq![Token { kind: TokenKind::Num, start: i as usize, end: e as usize }], lex_from(b, e))
        } else if is_ident_start(c) {
            let e = i + 1 + run_len(b, i + 1, true);
            prepend(
                seq![Token { kind: word_kind(b.subrange(i, e)), start: i as usize, end: e as usize }],
                lex_from(b, e),
            )
        } else if (c == 60 || c == 62) && i + 1 < b.len() && b[i + 1] == 61 {
            let kind = if c == 60 {
                TokenKind::Le
            } else {
                TokenKind::Ge
            };
            prepend(seq![Token { kind, start: i as usize, end: (i + 2) as usize }], lex_from(b, i + 2))
        } else if symbol_kind(c) is Some {
            prepend(
                seq![Token { kind: symbol_kind(c)->0, start: i as usize, end: (i + 1) as usize }],
                lex_from(b, i + 1),
            )
        } else {
            Err(ParseError::InvalidToken { location: i as usize })
        }
    }
}

/// The tokens of `b`, or the first invalid token.
pub open spec fn lex(b: Seq<u8>) -> Result<Seq<Token>, ParseError> {
    lex_from(b, 0)
}

/// A token's offsets lie in `b`, and the text of a number or an identifier is
/// made of the bytes of its class.
pub open spec fn token_wf(b: Seq<u8>, t: Token) -> bool {
    &&& t.start < t.end <= b.len()
    &&& t.kind is Num ==> forall|k: int| t.start <= k < t.end ==> is_decimal_digit(#[trigger] b[k])
    &&& t.kind is Ident ==> forall|k: int| t.start <= k < t.end ==> is_ident_char(#[trigger] b[k])
}

pub open spec fn tokens_wf(b: Seq<u8>, t: Seq<Token>) -> bool {
    forall|k: int| 0 <= k < t.len() ==> token_wf(b, #[trigger] t[k])
}

proof fn lemma_prepend(a: Seq<Token>, x: Token, r: Result<Seq<Token>, ParseError>)
    ensures
        prepend(a, prepend(seq![x], r)) == prepend(a.push(x), r),
{
    if let Ok(s) = r {
        assert(a + (seq![x] + s) =~= a.push(x) + s);
    }
}

fn byte_in_class(c: u8, word: bool) -> (r: bool)
    ensures
        r == in_class(c, word),
{
    if word {
        (65 <= c && c <= 90) || (97 <= c && c <= 122) || c == 95 || (48 <= c && c <= 57)
    } else {
        48 <= c && c <= 57
    }
}

/// The end of the run of bytes of the class that starts at `start`.
fn run_end(b: &[u8], start: usize, word: bool) -> (e: usize)
    requires
        start <= b@.len(),
    ensures
        start <= e <= b@.len(),
        e == start + run_len(b@, start as int, word),
        forall|k: int| start <= k < e ==> in_class(#[trigger] b@[k], word),
{
    let mut j: usize = start;
    while j < b.len() && byte_in_class(b[j], word)
        invariant
            start <= j <= b@.len(),
            run_len(b@, start as int, word) == (j - start) + run_len(b@, j as int, word),
            forall|k: int| start <= k < j ==> in_class(#[trigger] b@[k], word),
        decreases b@.len() - j,
    {
        j += 1;
    }
    j
}

fn symbol(c: u8) -> (r: Option<TokenKind>)
    ensures
        r == symbol_kind(c),
{
    if c == 43 {
        Some(TokenKind::Plus)
    } else if c == 45 {
        Some(TokenKind::Minus)
    } else if c == 42 {
        Some(TokenKind::Star)
    } else if c == 47 {
        Some(TokenKind::Slash)
    } else if c == 37 {
        Some(TokenKind::Percent)
    } else if c == 40 {
        Some(TokenKind::LParen)
    } else if c == 41 {
        Some(TokenKind::RParen)
    } else if c == 44 {
        Some(TokenKind::Comma)
    } else if c == 61 {
        Some(TokenKind::Eq)
    } else if c == 60 {
        Some(TokenKind::Lt)
    } else if c == 62 {
        Some(TokenKind::Gt)
    } else {
        None
    }
}

/// The kind of the word `b[start..end]`.
fn word(b: &[u8], start: usize, end: usize) -> (r: TokenKind)
    requires
        start < end <= b@.len(),
    ensures
        r == word_kind(b@.subrange(start as int, end as int)),
{
    let w = Ghost(b@.subrange(start as int, end as int));
    if end - start == 2 && b[start] == 105 && b[start + 1] == 102 {
        assert(w@ =~= seq![105u8, 102u8]);
        TokenKind::If
    } else if end - start == 4 && b[start] == 116 && b[start + 1] == 104 && b[start + 2] == 101
        && b[start + 3] == 110 {
        assert(w@ =~= seq![116u8, 104u8, 101u8, 110u8]);
        TokenKind::Then
    } else if end - start == 4 && b[start] == 101 && b[start + 1] == 108 && b[start + 2] == 115
        && b[start + 3] == 101 {
        assert(w@ =~= seq![101u8, 108u8, 115u8, 101u8]);
        TokenKind::Else
    } else {
        assert(w@ != seq![105u8, 102u8]) by {
            if w@ == seq![105u8, 102u8] {
                assert(w@[0] == 105u8 && w@[1] == 102u8);
            }
        }
        assert(w@ != seq![116u8, 104u8, 101u8, 110u8]) by {
            if w@ == seq![116u8, 104u8, 101u8, 110u8] {
                assert(w@.len() == 4);
                assert(w@[0] == b@[start as int] && w@[1] == b@[start + 1] && w@[2] == b@[start + 2]
                    && w@[3] == b@[start + 3]);
                assert(w@[0] == 116u8 && w@[1] == 104u8 && w@[2] == 101u8 && w@[3] == 110u8);
            }
        }
        assert(w@ != seq![101u8, 108u8, 115u8, 101u8]) by {
            if w@ == seq![101u8, 108u8, 115u8, 101u8] {
                assert(w@.len() == 4);
                assert(w@[0] == b@[start as int] && w@[1] == b@[start + 1] && w@[2] == b@[start + 2]
                    && w@[3] == b@[start + 3]);
                assert(w@[0] == 101u8 && w@[1] == 108u8 && w@[2] == 115u8 && w@[3] == 101u8);
            }
        }
        TokenKind::Ident
    }
}

/// Splits `b` into tokens.
pub fn tokenize(b: &[u8]) -> (r: Result<Vec<Token>, ParseError>)
    ensures
        match r {
            Ok(t) => lex(b@) == Ok::<Seq<Token>, ParseError>(t@) && tokens_wf(b@, t@),
            Err(e) => lex(b@) == Err::<Seq<Token>, ParseError>(e),
        },
{
    let mut toks: Vec<Token> = Vec::new();
    let mut i: usize = 0;
    assert(toks@ + Seq::<Token>::empty() =~= Seq::<Token>::empty());
    while i < b.len()
        invariant
            i <= b@.len(),
            lex(b@) == prepend(toks@, lex_from(b@, i as int)),
            tokens_wf(b@, toks@),
        decreases b@.len() - i,
    {
        let c = b[i];
        if c == 32 || c == 9 || c == 10 || c == 13 {
            i += 1;
        } else if 48 <= c && c <= 57 {
            let e = run_end(b, i + 1, false);
            let tok = Token { kind: TokenKind::Num, start: i, end: e };
            proof {
                lemma_prepend(toks@, tok, lex_from(b@, e as int));
            }
            toks.push(tok);
            i = e;
        } else if (65 <= c && c <= 90) || (97 <= c && c <= 122) || c == 95 {
            let e = run_end(b, i + 1, true);
            let tok = Token { kind: word(b, i, e), start: i, end: e };
            proof {
                lemma_prepend(toks@, tok, lex_from(b@, e as int));
            }
            toks.push(tok);
            i = e;
        } else if (c == 60 || c == 62) && i + 1 < b.len() && b[i + 1] == 61 {
            let kind = if c == 60 {
                TokenKind::Le
            } else {
                TokenKind::Ge
            };
            let tok = Token { kind, start: i, end: i + 2 };
            proof {
                lemma_prepend(toks@, tok, lex_from(b@, i + 2));
            }
            toks.push(tok);
            i = i + 2;
        } else {
            match symbol(c) {
                Some(kind) => {
                    let tok = Token { kind, start: i, end: i + 1 };
                    proof {
                        lemma_prepend(toks@, tok, lex_from(b@, i + 1));
                    }
                    toks.push(tok);
                    i = i + 1;
                },
                None => {
                    return Err(ParseError::InvalidToken { location: i });
                },
            }
        }
    }
    Ok(toks)
}

} // verus!
