//! Source positions and token metadata for a word-level analysis pass over
//! paragraph text: punctuation, spacing and style-marker tokens, each tagged
//! with the span of source text it covers.

use vstd::prelude::*;

use crate::style::Style;

verus! {

/// A position in the source text: a byte offset, a line number, and a
/// character column within the line.
#[derive(Clone, Copy, Debug, PartialEq, Eq, Structural)]
pub struct Pos {
    pub byte: usize,
    pub line: usize,
    pub char: usize,
}

impl Pos {
    /// Builds a position from its three coordinates.
    pub fn new(byte: usize, line: usize, char: usize) -> (p: Pos)
        ensures
            p == (Pos { byte, line, char }),
    {
        Pos { byte, line, char }
    }
}

/// One word-level token of paragraph text.
#[derive(Clone, Copy, Debug, PartialEq, Eq, Structural)]
pub enum Token {
    Space,
    Tab,
    Word,
    Hyphen,
    Comma,
    Semicolon,
    Colon,
    Period,
    Question,
    EmDash,
    Exclamation,
    Style(Style),
    Quote,
    OpenParentheses,
    CloseParentheses,
}

/// A token together with the span of source text it covers.
#[derive(Clone, Copy, Debug, PartialEq, Eq, Structural)]
pub struct TokenData {
    pub start: Pos,
    pub end: Pos,
    pub token: Token,
}

impl TokenData {
    /// Tags a token with the span of `len` characters beginning at `pos`:
    /// the span ends `len` bytes and columns later on the same line.
    pub fn new(token: Token, pos: Pos, len: usize) -> (t: TokenData)
        requires
            pos.byte + len <= usize::MAX,
            pos.char + len <= usize::MAX,
        ensures
            t.token == token,
            t.start == pos,
            t.end.byte == pos.byte + len,
            t.end.line == pos.line,
            t.end.char == pos.char + len,
    {
        TokenData {
            token,
            start: pos,
            end: Pos { byte: pos.byte + len, line: pos.line, char: pos.char + len },
        }
    }
}

} // verus!
