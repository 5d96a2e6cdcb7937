//! The scanner: a single forward pass over source bytes producing classified
//! tokens. `x`/`X` and `y`/`Y` are orientations, `[` `]` `,` `.` are
//! structural, a digit begins a number literal, a letter begins an identifier
//! matched against the keywords `cut`, `color`, `swap` and `merge`, `#`
//! begins a comment consumed up to and including the next newline, and `\n`
//! is a token of its own that advances the line counter. Any other byte
//! (spaces included) is skipped and produces no token. Exactly one `Eof`
//! token ends the output.
//!
//! An identifier outside the keyword set, or a number literal beyond the
//! `u64` range, is a recoverable error value, not a panic. The function
//! `spec_scan` is the scanner's mathematical model; `scan_tokens` is proved
//! to return exactly its value.

use crate::token::{Position, Token, TokenType};
use vstd::prelude::*;
use vstd::string::StringSliceAdditionalSpecFns;

verus! {

/// A lexical error, carrying the position of the offending lexeme.
#[derive(Debug, Clone, Copy)]
pub enum ScannerError {
    /// An alphabetic lexeme that is none of the four keywords.
    UnexpectedIdent(Position),
    /// A digit run whose value does not fit in a `u64`.
    NumberTooLarge(Position),
}

/// Byte values the classifier compares against.
pub const LF: u8 = 10;
pub const HASH: u8 = 35;
pub const COMMA_B: u8 = 44;
pub const DOT_B: u8 = 46;
pub const D0: u8 = 48;
pub const D9: u8 = 57;
pub const UA: u8 = 65;
pub const UX: u8 = 88;
pub const UY: u8 = 89;
pub const UZ: u8 = 90;
pub const LBRACK: u8 = 91;
pub const RBRACK: u8 = 93;
pub const UNDERSCORE: u8 = 95;
pub const LA: u8 = 97;
pub const B_C: u8 = 99;
pub const B_E: u8 = 101;
pub const B_G: u8 = 103;
pub const B_L: u8 = 108;
pub const B_M: u8 = 109;
pub const B_O: u8 = 111;
pub const B_P: u8 = 112;
pub const B_R: u8 = 114;
pub const B_S: u8 = 115;
pub const B_T: u8 = 116;
pub const B_U: u8 = 117;
pub const B_W: u8 = 119;
pub const LX: u8 = 120;
pub const LY: u8 = 121;
pub const LZ: u8 = 122;

pub open spec fn is_digit(b: u8) -> bool {
    D0 <= b <= D9
}

pub open spec fn is_alpha(b: u8) -> bool {
    (LA <= b <= LZ) || (UA <= b <= UZ)
}

/// Identifier continuation bytes: letters and underscores.
pub open spec fn is_ident_char(b: u8) -> bool {
    is_alpha(b) || b == UNDERSCORE
}

/// The index just past the digit run starting at `i`.
pub open spec fn digit_run_end(src: Seq<u8>, i: int) -> int
    decreases src.len() - i,
{
    if i < 0 || i >= src.len() || !is_digit(src[i]) {
        i
    } else {
        digit_run_end(src, i + 1)
    }
}

/// The index just past the identifier run starting at `i`.
pub open spec fn ident_run_end(src: Seq<u8>, i: int) -> int
    decreases src.len() - i,
{
    if i < 0 || i >= src.len() || !is_ident_char(src[i]) {
        i
    } else {
        ident_run_end(src, i + 1)
    }
}

/// The index just past a comment body starting at `i`: everything up to and
/// including the next newline, or to the end of the source.
pub open spec fn comment_end(src: Seq<u8>, i: int) -> int
    decreases src.len() - i,
{
    if i < 0 || i >= src.len() {
        src.len() as int
    } else if src[i] == LF {
        i + 1
    } else {
        comment_end(src, i + 1)
    }
}

/// The numeric value of the digit run `src[i..j)`.
pub open spec fn digits_val(src: Seq<u8>, i: int, j: int) -> int
    decreases j - i,
{
    if j <= i {
        0
    } else {
        digits_val(src, i, j - 1) * 10 + (src[j - 1] - D0)
    }
}

/// The keyword named by `src[i..j)`, if any.
pub open spec fn keyword_type(src: Seq<u8>, i: int, j: int) -> Option<TokenType> {
    if j - i == 3 && src[i] == B_C && src[i + 1] == B_U && src[i + 2] == B_T {
        Some(TokenType::Cut)
    } else if j - i == 5 && src[i] == B_C && src[i + 1] == B_O && src[i + 2] == B_L && src[i + 3]
        == B_O && src[i + 4] == B_R {
        Some(TokenType::Color)
    } else if j - i == 4 && src[i] == B_S && src[i + 1] == B_W && src[i + 2] == LA && src[i + 3]
        == B_P {
        Some(TokenType::Swap)
    } else if j - i == 5 && src[i] == B_M && src[i + 1] == B_E && src[i + 2] == B_R && src[i + 3]
        == B_G && src[i + 4] == B_E {
        Some(TokenType::Merge)
    } else {
        None
    }
}

/// The position of a lexeme on line `line` spanning columns `[c0, c1)` and
/// byte indices `[i0, i1)`.
pub open spec fn mk_pos(line: int, c0: int, c1: int, i0: int, i1: int) -> Position {
    Position {
        line: line as usize,
        col: ((c0 as usize), (c1 as usize)),
        indices: ((i0 as usize), (i1 as usize)),
    }
}

pub open spec fn mk_tok(tt: TokenType, num: Option<u64>, line: int, c0: int, c1: int, i0: int, i1: int) -> Token {
    Token { token_type: tt, num, position: mk_pos(line, c0, c1, i0, i1) }
}

/// Prepend a token to the result of scanning the rest.
pub open spec fn cons_tok(t: Token, rest: Result<Seq<Token>, ScannerError>) -> Result<
    Seq<Token>,
    ScannerError,
> {
    match rest {
        Ok(ts) => Ok(seq![t] + ts),
        Err(e) => Err(e),
    }
}

proof fn lemma_run_end_bounds(src: Seq<u8>, i: int)
    requires
        0 <= i <= src.len(),
    ensures
        i <= digit_run_end(src, i) <= src.len(),
        i <= ident_run_end(src, i) <= src.len(),
        i <= comment_end(src, i) <= src.len(),
    decreases src.len() - i,
{
    if i < src.len() {
        lemma_run_end_bounds(src, i + 1);
    }
}

/// The tokens of `src` from index `i`, on line `line` at column `col`: one
/// token per recognized lexeme, ending in exactly one `Eof`, or the first
/// lexical error. This is the scanner's model.
pub open spec fn spec_scan(src: Seq<u8>, i: int, line: int, col: int) -> Result<
    Seq<Token>,
    ScannerError,
>
    decreases src.len() - i
        when 0 <= i <= src.len()
        via spec_scan_decreases
{
    if i >= src.len() {
        Ok(seq![mk_tok(TokenType::Eof, None, line, col, col, i, i)])
    } else {
        let b = src[i];
        if b == LX || b == UX {
            cons_tok(
                mk_tok(TokenType::Vertical, None, line, col, col + 1, i, i + 1),
                spec_scan(src, i + 1, line, col + 1),
            )
        } else if b == LY || b == UY {
            cons_tok(
                mk_tok(TokenType::Horizontal, None, line, col, col + 1, i, i + 1),
                spec_scan(src, i + 1, line, col + 1),
            )
        } else if b == LBRACK {
            cons_tok(
                mk_tok(TokenType::LeftBrace, None, line, col, col + 1, i, i + 1),
                spec_scan(src, i + 1, line, col + 1),
            )
        } else if b == RBRACK {
            cons_tok(
                mk_tok(TokenType::RightBrace, None, line, col, col + 1, i, i + 1),
                spec_scan(src, i + 1, line, col + 1),
            )
        } else if b == COMMA_B {
            cons_tok(
                mk_tok(TokenType::Comma, None, line, col, col + 1, i, i + 1),
                spec_scan(src, i + 1, line, col + 1),
            )
        } else if b == DOT_B {
            cons_tok(
                mk_tok(TokenType::Dot, None, line, col, col + 1, i, i + 1),
                spec_scan(src, i + 1, line, col + 1),
            )
        } else if b == LF {
            cons_tok(
                mk_tok(TokenType::NewLine, None, line, col, col + 1, i, i + 1),
                spec_scan(src, i + 1, line + 1, 0),
            )
        } else if b == HASH {
            let j = comment_end(src, i + 1);
            if j >= i + 2 && src[j - 1] == LF {
                spec_scan(src, j, line + 1, 0)
            } else {
                spec_scan(src, j, line, col + (j - i))
            }
        } else if is_digit(b) {
            let j = digit_run_end(src, i + 1);
            let v = digits_val(src, i, j);
            if v > u64::MAX {
                Err(ScannerError::NumberTooLarge(mk_pos(line, col, col + (j - i), i, j)))
            } else {
                cons_tok(
                    mk_tok(TokenType::Number, Some(v as u64), line, col, col + (j - i), i, j),
                    spec_scan(src, j, line, col + (j - i)),
                )
            }
        } else if is_alpha(b) {
            let j = ident_run_end(src, i + 1);
            match keyword_type(src, i, j) {
                Some(tt) => cons_tok(
                    mk_tok(tt, None, line, col, col + (j - i), i, j),
                    spec_scan(src, j, line, col + (j - i)),
                ),
                None => Err(ScannerError::UnexpectedIdent(mk_pos(line, col, col + (j - i), i, j))),
            }
        } else {
            spec_scan(src, i + 1, line, col + 1)
        }
    }
}

#[via_fn]
proof fn spec_scan_decreases(src: Seq<u8>, i: int, line: int, col: int) {
    if 0 <= i < src.len() {
        lemma_run_end_bounds(src, i + 1);
    }
}

/// Scanning never stops early, and a successful scan's final token is `Eof`,
/// exactly once, at the end.
pub proof fn lemma_scan_eof(src: Seq<u8>, i: int, line: int, col: int)
    requires
        0 <= i <= src.len(),
        spec_scan(src, i, line, col) is Ok,
    ensures
        ({
            let ts = spec_scan(src, i, line, col)->Ok_0;
            &&& ts.len() >= 1
            &&& ts.last().token_type == TokenType::Eof
            &&& forall|j: int| 0 <= j < ts.len() - 1 ==> ts[j].token_type != TokenType::Eof
        }),
    decreases src.len() - i,
{
    if i < src.len() {
        lemma_run_end_bounds(src, i + 1);
        let b = src[i];
        if b == LX || b == UX || b == LY || b == UY || b == LBRACK || b == RBRACK || b == COMMA_B
            || b == DOT_B {
            lemma_scan_eof(src, i + 1, line, col + 1);
        } else if b == LF {
            lemma_scan_eof(src, i + 1, line + 1, 0);
        } else if b == HASH {
            let j = comment_end(src, i + 1);
            if j >= i + 2 && src[j - 1] == LF {
                lemma_scan_eof(src, j, line + 1, 0);
            } else {
                lemma_scan_eof(src, j, line, col + (j - i));
            }
        } else if is_digit(b) {
            let j = digit_run_end(src, i + 1);
            lemma_scan_eof(src, j, line, col + (j - i));
        } else if is_alpha(b) {
            let j = ident_run_end(src, i + 1);
            lemma_scan_eof(src, j, line, col + (j - i));
        } else {
            lemma_scan_eof(src, i + 1, line, col + 1);
        }
    }
}

/// Every number token of a successful scan carries its value: the parser
/// can rely on `num` being present wherever the kind is `Number`.
pub proof fn lemma_scan_numbers_carry_values(src: Seq<u8>, i: int, line: int, col: int)
    requires
        0 <= i <= src.len(),
        spec_scan(src, i, line, col) is Ok,
    ensures
        forall|j: int|
            0 <= j < spec_scan(src, i, line, col)->Ok_0.len() && #[trigger] spec_scan(
                src,
                i,
                line,
                col,
            )->Ok_0[j].token_type == TokenType::Number ==> spec_scan(
                src,
                i,
                line,
                col,
            )->Ok_0[j].num is Some,
    decreases src.len() - i,
{
    if i < src.len() {
        lemma_run_end_bounds(src, i + 1);
        let b = src[i];
        if b == LX || b == UX || b == LY || b == UY || b == LBRACK || b == RBRACK || b == COMMA_B
            || b == DOT_B {
            lemma_scan_numbers_carry_values(src, i + 1, line, col + 1);
        } else if b == LF {
            lemma_scan_numbers_carry_values(src, i + 1, line + 1, 0);
        } else if b == HASH {
            let j = comment_end(src, i + 1);
            if j >= i + 2 && src[j - 1] == LF {
                lemma_scan_numbers_carry_values(src, j, line + 1, 0);
            } else {
                lemma_scan_numbers_carry_values(src, j, line, col + (j - i));
            }
        } else if is_digit(b) {
            let j = digit_run_end(src, i + 1);
            lemma_scan_numbers_carry_values(src, j, line, col + (j - i));
        } else if is_alpha(b) {
            let j = ident_run_end(src, i + 1);
            lemma_scan_numbers_carry_values(src, j, line, col + (j - i));
        } else {
            lemma_scan_numbers_carry_values(src, i + 1, line, col + 1);
        }
    }
}

/// The scanner's cursor over the source bytes: `start` marks the first byte
/// of the lexeme in progress, `current` the next byte to read, and `line`
/// and `col` track the position for diagnostics.
pub struct Scanner {
    source: Vec<u8>,
    start: usize,
    current: usize,
    line: usize,
    col: (usize, usize),
}

impl Scanner {
    pub closed spec fn src(&self) -> Seq<u8> {
        self.source@
    }

    pub closed spec fn pos(&self) -> int {
        self.current as int
    }

    pub closed spec fn line_no(&self) -> int {
        self.line as int
    }

    pub closed spec fn col_no(&self) -> int {
        self.col.1 as int
    }

    spec fn col_start(&self) -> int {
        self.col.0 as int
    }

    spec fn lex_start(&self) -> int {
        self.start as int
    }

    /// The cursor is within the source, with enough headroom that the line
    /// and column counters cannot overflow while it scans to the end.
    pub closed spec fn wf(&self) -> bool {
        &&& self.current <= self.source@.len()
        &&& self.line + (self.source@.len() - self.current) <= usize::MAX
        &&& self.col.1 + (self.source@.len() - self.current) <= usize::MAX
    }

    fn new(source: &[u8]) -> (r: Scanner)
        ensures
            r.wf(),
            r.src() == source@,
            r.pos() == 0,
            r.line_no() == 0,
            r.col_no() == 0,
    {
        let n = source.len();
        proof {
            // The source length is a machine word, so the line and column
            // counters have room to reach it.
            assert(source@.len() == n);
        }
        Scanner {
            source: vstd::slice::slice_to_vec(source),
            start: 0,
            current: 0,
            line: 0,
            col: (0, 0),
        }
    }

    /// Whether every byte has been consumed.
    pub fn is_at_end(&self) -> (r: bool)
        ensures
            r == (self.pos() >= self.src().len()),
    {
        self.current >= self.source.len()
    }

    /// Consume a comment body: everything up to and including the next
    /// newline, which advances the line counter, or to the end of input.
    fn scan_comment(&mut self)
        requires
            old(self).wf(),
        ensures
            final(self).wf(),
            final(self).source == old(self).source,
            final(self).start == old(self).start,
            ({
                let j = comment_end(old(self).src(), old(self).pos());
                &&& final(self).pos() == j
                &&& if j >= old(self).pos() + 1 && old(self).src()[j - 1] == LF {
                    final(self).line_no() == old(self).line_no() + 1 && final(self).col_no() == 0
                } else {
                    final(self).line_no() == old(self).line_no() && final(self).col_no() == old(self).col_no() + (
                    j - old(self).pos())
                }
            }),
    {
        while self.current < self.source.len()
            invariant
                self.wf(),
                self.source == old(self).source,
                self.start == old(self).start,
                self.col.0 == old(self).col.0,
                self.line == old(self).line,
                old(self).pos() <= self.pos(),
                self.col_no() == old(self).col_no() + (self.pos() - old(self).pos()),
                comment_end(old(self).src(), old(self).pos()) == comment_end(self.src(), self.pos()),
                forall|k: int| old(self).pos() <= k < self.pos() ==> self.src()[k] != LF,
            decreases self.source@.len() - self.current,
        {
            let b = self.source[self.current];
            self.current += 1;
            self.col.1 += 1;
            if b == LF {
                self.line += 1;
                self.col = (0, 0);
                return ;
            }
        }
    }

    /// Consume the rest of a digit run whose first digit sits at `start`,
    /// and produce the number token, or a `NumberTooLarge` error if the
    /// run's value exceeds the `u64` range.
    fn scan_digit(&mut self) -> (r: Result<Token, ScannerError>)
        requires
            old(self).wf(),
            old(self).lex_start() + 1 == old(self).pos(),
            old(self).lex_start() < old(self).src().len(),
            is_digit(old(self).src()[old(self).lex_start()]),
            old(self).col_no() == old(self).col_start() + 1,
        ensures
            final(self).wf(),
            final(self).source == old(self).source,
            final(self).start == old(self).start,
            final(self).line == old(self).line,
            final(self).col.0 == old(self).col.0,
            ({
                let src = old(self).src();
                let i = old(self).lex_start();
                let j = digit_run_end(src, i + 1);
                let v = digits_val(src, i, j);
                &&& final(self).pos() == j
                &&& final(self).col_no() == final(self).col_start() + (j - i)
                &&& if v > u64::MAX {
                    r == Err::<Token, ScannerError>(
                        ScannerError::NumberTooLarge(
                            mk_pos(
                                old(self).line_no(),
                                old(self).col_start(),
                                old(self).col_start() + (j - i),
                                i,
                                j,
                            ),
                        ),
                    )
                } else {
                    r == Ok::<Token, ScannerError>(
                        mk_tok(
                            TokenType::Number,
                            Some(v as u64),
                            old(self).line_no(),
                            old(self).col_start(),
                            old(self).col_start() + (j - i),
                            i,
                            j,
                        ),
                    )
                }
            }),
    {
        let ghost src = self.src();
        let ghost i = self.lex_start();
        let mut val: u64 = (self.source[self.start] - D0) as u64;
        let mut ovf: bool = false;
        proof {
            assert(digits_val(src, i, i + 1) == digits_val(src, i, i) * 10 + (src[i] - D0));
        }
        while self.current < self.source.len() && self.source[self.current] >= D0
            && self.source[self.current] <= D9
            invariant
                self.wf(),
                self.source == old(self).source,
                self.start == old(self).start,
                self.line == old(self).line,
                self.col.0 == old(self).col.0,
                src == self.src(),
                i == self.lex_start(),
                i + 1 <= self.pos() <= self.src().len(),
                self.col_no() == self.col_start() + (self.pos() - i),
                digit_run_end(src, i + 1) == digit_run_end(src, self.pos()),
                !ovf ==> val == digits_val(src, i, self.pos()) && digits_val(src, i, self.pos())
                    <= u64::MAX,
                ovf ==> digits_val(src, i, self.pos()) > u64::MAX,
            decreases self.source@.len() - self.current,
        {
            let d = self.source[self.current] - D0;
            let ghost p = self.pos();
            self.current += 1;
            self.col.1 += 1;
            proof {
                assert(digits_val(src, i, p + 1) == digits_val(src, i, p) * 10 + (src[p] - D0));
                if ovf {
                    let x = digits_val(src, i, p);
                    assert(x * 10 + (src[p] - D0) > u64::MAX) by (nonlinear_arith)
                        requires
                            x > u64::MAX,
                            src[p] - D0 >= 0,
                    ;
                }
            }
            if !ovf {
                if val < 1844674407370955161 || (val == 1844674407370955161 && d <= 5) {
                    val = val * 10 + (d as u64);
                } else {
                    ovf = true;
                }
            }
        }
        let position = Position {
            line: self.line,
            col: (self.col.0, self.col.1),
            indices: (self.start, self.current),
        };
        if ovf {
            Err(ScannerError::NumberTooLarge(position))
        } else {
            Ok(Token { token_type: TokenType::Number, num: Some(val), position })
        }
    }

    /// Consume the rest of an identifier run whose first letter sits at
    /// `start`, and produce the keyword token, or an `UnexpectedIdent` error
    /// for any identifier outside the keyword set.
    fn scan_ident(&mut self) -> (r: Result<Token, ScannerError>)
        requires
            old(self).wf(),
            old(self).lex_start() + 1 == old(self).pos(),
            old(self).lex_start() < old(self).src().len(),
            old(self).col_no() == old(self).col_start() + 1,
        ensures
            final(self).wf(),
            final(self).source == old(self).source,
            final(self).start == old(self).start,
            final(self).line == old(self).line,
            final(self).col.0 == old(self).col.0,
            ({
                let src = old(self).src();
                let i = old(self).lex_start();
                let j = ident_run_end(src, i + 1);
                &&& final(self).pos() == j
                &&& final(self).col_no() == final(self).col_start() + (j - i)
                &&& match keyword_type(src, i, j) {
                    Some(tt) => r == Ok::<Token, ScannerError>(
                        mk_tok(
                            tt,
                            None,
                            old(self).line_no(),
                            old(self).col_start(),
                            old(self).col_start() + (j - i),
                            i,
                            j,
                        ),
                    ),
                    None => r == Err::<Token, ScannerError>(
                        ScannerError::UnexpectedIdent(
                            mk_pos(
                                old(self).line_no(),
                                old(self).col_start(),
                                old(self).col_start() + (j - i),
                                i,
                                j,
                            ),
                        ),
                    ),
                }
            }),
    {
        let ghost src = self.src();
        let ghost i = self.lex_start();
        while self.current < self.source.len() && (
        (self.source[self.current] >= LA && self.source[self.current] <= LZ) || (
        self.source[self.current] >= UA && self.source[self.current] <= UZ)
            || self.source[self.current] == UNDERSCORE)
            invariant
                self.wf(),
                self.source == old(self).source,
                self.start == old(self).start,
                self.line == old(self).line,
                self.col.0 == old(self).col.0,
                src == self.src(),
                i == self.lex_start(),
                i + 1 <= self.pos() <= self.src().len(),
                self.col_no() == self.col_start() + (self.pos() - i),
                ident_run_end(src, i + 1) == ident_run_end(src, self.pos()),
            decreases self.source@.len() - self.current,
        {
            self.current += 1;
            self.col.1 += 1;
        }
        let position = Position {
            line: self.line,
            col: (self.col.0, self.col.1),
            indices: (self.start, self.current),
        };
        let n = self.current - self.start;
        let token_type = if n == 3 && self.source[self.start] == B_C && self.source[self.start + 1]
            == B_U && self.source[self.start + 2] == B_T {
            Some(TokenType::Cut)
        } else if n == 5 && self.source[self.start] == B_C && self.source[self.start + 1] == B_O
            && self.source[self.start + 2] == B_L && self.source[self.start + 3] == B_O
            && self.source[self.start + 4] == B_R {
            Some(TokenType::Color)
        } else if n == 4 && self.source[self.start] == B_S && self.source[self.start + 1] == B_W
            && self.source[self.start + 2] == LA && self.source[self.start + 3] == B_P {
            Some(TokenType::Swap)
        } else if n == 5 && self.source[self.start] == B_M && self.source[self.start + 1] == B_E
            && self.source[self.start + 2] == B_R && self.source[self.start + 3] == B_G
            && self.source[self.start + 4] == B_E {
            Some(TokenType::Merge)
        } else {
            None
        };
        match token_type {
            Some(tt) => Ok(Token { token_type: tt, num: None, position }),
            None => Err(ScannerError::UnexpectedIdent(position)),
        }
    }

    /// The token of kind `tt` spanning the lexeme between `start` and the
    /// cursor, at the current line and column span.
    fn cur_token(&self, tt: TokenType) -> (t: Token)
        ensures
            t == mk_tok(
                tt,
                None,
                self.line_no(),
                self.col_start(),
                self.col_no(),
                self.lex_start(),
                self.pos(),
            ),
    {
        Token {
            token_type: tt,
            num: None,
            position: Position {
                line: self.line,
                col: (self.col.0, self.col.1),
                indices: (self.start, self.current),
            },
        }
    }

    /// Scan every token of the source from the cursor's position: exactly
    /// the value of the model `spec_scan`.
    pub fn scan_tokens(&mut self) -> (r: Result<Vec<Token>, ScannerError>)
        requires
            old(self).wf(),
        ensures
            match spec_scan(
                old(self).src(),
                old(self).pos(),
                old(self).line_no(),
                old(self).col_no(),
            ) {
                Ok(ts) => r matches Ok(v) && v@ == ts,
                Err(e) => r matches Err(x) && x == e,
            },
    {
        let ghost src = self.src();
        let ghost p0 = self.pos();
        let ghost l0 = self.line_no();
        let ghost c0 = self.col_no();
        let mut tokens: Vec<Token> = Vec::new();
        while self.current < self.source.len()
            invariant
                self.wf(),
                src == self.src(),
                src == old(self).src(),
                p0 == old(self).pos() && l0 == old(self).line_no() && c0 == old(self).col_no(),
                0 <= p0 <= src.len(),
                match spec_scan(src, self.pos(), self.line_no(), self.col_no()) {
                    Ok(ts) => spec_scan(src, p0, l0, c0) == Ok::<Seq<Token>, ScannerError>(
                        tokens@ + ts,
                    ),
                    Err(e) => spec_scan(src, p0, l0, c0) == Err::<Seq<Token>, ScannerError>(e),
                },
            decreases self.source@.len() - self.current,
        {
            let ghost p = self.pos();
            let ghost line = self.line_no();
            let ghost col = self.col_no();
            self.start = self.current;
            self.col = (self.col.1, self.col.1);
            let b = self.source[self.current];
            self.current += 1;
            self.col.1 += 1;
            proof {
                lemma_run_end_bounds(src, p + 1);
            }
            let tok: Option<Token> = if b == LX || b == UX {
                Some(self.cur_token(TokenType::Vertical))
            } else if b == LY || b == UY {
                Some(self.cur_token(TokenType::Horizontal))
            } else if b == LBRACK {
                Some(self.cur_token(TokenType::LeftBrace))
            } else if b == RBRACK {
                Some(self.cur_token(TokenType::RightBrace))
            } else if b == COMMA_B {
                Some(self.cur_token(TokenType::Comma))
            } else if b == DOT_B {
                Some(self.cur_token(TokenType::Dot))
            } else if b == LF {
                let t = self.cur_token(TokenType::NewLine);
                self.line += 1;
                self.col = (0, 0);
                Some(t)
            } else if b == HASH {
                self.scan_comment();
                None
            } else if b >= D0 && b <= D9 {
                match self.scan_digit() {
                    Ok(t) => Some(t),
                    Err(e) => {
                        proof {
                            assert(spec_scan(src, p, line, col) == Err::<
                                Seq<Token>,
                                ScannerError,
                            >(e));
                        }
                        return Err(e);
                    },
                }
            } else if (b >= LA && b <= LZ) || (b >= UA && b <= UZ) {
                match self.scan_ident() {
                    Ok(t) => Some(t),
                    Err(e) => {
                        proof {
                            assert(spec_scan(src, p, line, col) == Err::<
                                Seq<Token>,
                                ScannerError,
                            >(e));
                        }
                        return Err(e);
                    },
                }
            } else {
                None
            };
            proof {
                match tok {
                    Some(t) => {
                        assert(spec_scan(src, p, line, col) == cons_tok(
                            t,
                            spec_scan(src, self.pos(), self.line_no(), self.col_no()),
                        ));
                    },
                    None => {
                        assert(spec_scan(src, p, line, col) == spec_scan(
                            src,
                            self.pos(),
                            self.line_no(),
                            self.col_no(),
                        ));
                    },
                }
            }
            match tok {
                Some(t) => {
                    proof {
                        let tail = spec_scan(src, self.pos(), self.line_no(), self.col_no());
                        if tail is Ok {
                            assert(tokens@.push(t) + tail->Ok_0 =~= tokens@ + (seq![t]
                                + tail->Ok_0));
                        }
                    }
                    tokens.push(t);
                },
                None => {
                },
            }
        }
        self.start = self.current;
        self.col = (self.col.1, self.col.1);
        let eof = self.cur_token(TokenType::Eof);
        proof {
            let tail = spec_scan(src, self.pos(), self.line_no(), self.col_no());
            assert(tokens@.push(eof) =~= tokens@ + tail->Ok_0);
        }
        tokens.push(eof);
        Ok(tokens)
    }

    /// Scan a whole source string from scratch.
    pub fn scan_str(src: &str) -> (r: Result<Vec<Token>, ScannerError>)
        ensures
            match spec_scan(src.spec_bytes(), 0, 0, 0) {
                Ok(ts) => r matches Ok(v) && v@ == ts,
                Err(e) => r matches Err(x) && x == e,
            },
    {
        let mut scanner = Scanner::new(src.as_bytes());
        scanner.scan_tokens()
    }
}

} // verus!
