//! Tokens produced by the scanner, and the source positions they carry.

use vstd::prelude::*;

verus! {

/// Source location of a token or move, used only for diagnostics: a 0-based
/// line number, a (start, end) column span local to that line, and the
/// (start, end) byte indices into the original source.
#[derive(Debug, Clone, Copy)]
pub struct Position {
    pub line: usize,
    pub col: (usize, usize),
    pub indices: (usize, usize),
}

impl Position {
    pub fn new(line: usize, col: (usize, usize), indices: (usize, usize)) -> (r: Position)
        ensures
            r == (Position { line, col, indices }),
    {
        Position { line, col, indices }
    }
}

/// The lexical class of a token.
#[derive(Debug, Clone, Copy, PartialEq, Eq, Structural)]
pub enum TokenType {
    Number,
    Cut,
    Color,
    Swap,
    Merge,
    Vertical,
    Horizontal,
    LeftBrace,
    RightBrace,
    NewLine,
    Comma,
    Dot,
    Eof,
}

/// One scanned token. `num` is `Some` exactly for `Number` tokens.
#[derive(Debug, Clone, Copy)]
pub struct Token {
    pub token_type: TokenType,
    pub num: Option<u64>,
    pub position: Position,
}

} // verus!
