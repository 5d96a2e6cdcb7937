//! The recursive-descent parser from tokens to moves. One token of ordinary
//! lookahead, plus a second-token peek used only to tell the two cut forms
//! apart: after `cut` and a block, a number two tokens ahead means a point
//! cut, anything else an orientation and line number.
//!
//! Grammar, in words: a program is a sequence of moves, each optionally
//! followed by a newline; a move is `cut block (point | orientation
//! line-number)`, `color block color`, `swap block block` or `merge block
//! block`; a block is a bracketed dot-separated identifier path; a color is
//! four bracketed channel values, each at most 255. The first error aborts
//! the parse; no partial move list is returned.
//!
//! The `sp_` functions are the parser's mathematical model over the token
//! sequence and a cursor index; each executable method is proved to return
//! exactly its model's value and to leave the cursor at its model's index.

use crate::ast::{BlockId, Color, Move, MoveV, Orientation, Point};
use crate::token::{Position, Token, TokenType};
use vstd::prelude::*;

verus! {

/// The acceptable-kind sets used at the two dispatch points.
#[derive(Debug, Clone, Copy, PartialEq, Eq, Structural)]
pub enum ExpectedSet {
    /// One of `cut`, `color`, `swap`, `merge`, at the start of a move.
    MoveKeyword,
    /// One of `x`, `X`, `y`, `Y`, inside an orientation.
    OrientationKind,
}

/// A syntax error, carrying the position of the offending token.
#[derive(Debug, Clone, Copy)]
pub enum ParserError {
    /// The next token is not of the single expected kind.
    Expected(TokenType, Position),
    /// The next token is in none of an acceptable set of kinds.
    ExpectedOneOf(ExpectedSet, Position),
    /// A color channel value above 255.
    TooBigForRGBA(u64, Position),
    /// The input ended where more tokens were needed.
    Eof(Position),
}

/// No readable token remains before the final `Eof` token.
pub open spec fn at_end(toks: Seq<Token>, i: int) -> bool {
    i + 1 >= toks.len()
}

/// The position blamed by an error raised at cursor `i`.
pub open spec fn cur_pos(toks: Seq<Token>, i: int) -> Position {
    if 0 <= i < toks.len() {
        toks[i].position
    } else if toks.len() > 0 {
        toks[toks.len() - 1].position
    } else {
        Position { line: 0, col: (0, 0), indices: (0, 0) }
    }
}

/// Consume one token of kind `tt`, or fail with `Expected`.
pub open spec fn sp_consume(toks: Seq<Token>, i: int, tt: TokenType) -> Result<
    (Token, int),
    ParserError,
> {
    if !at_end(toks, i) && toks[i].token_type == tt {
        Ok((toks[i], i + 1))
    } else {
        Err(ParserError::Expected(tt, cur_pos(toks, i)))
    }
}

/// Consume a number token and yield its value.
pub open spec fn sp_number(toks: Seq<Token>, i: int) -> Result<(u64, int), ParserError> {
    match sp_consume(toks, i, TokenType::Number) {
        Err(e) => Err(e),
        Ok((t, j)) => match t.num {
            Some(n) => Ok((n, j)),
            None => Err(ParserError::Expected(TokenType::Number, t.position)),
        },
    }
}

/// The dot-separated numbers continuing a block identifier, appended to
/// `acc`. The index guard on the recursive call only discharges
/// termination: a consumed dot and number always advance the cursor.
pub open spec fn sp_block_id_rest(toks: Seq<Token>, i: int, acc: Seq<u64>) -> Result<
    (Seq<u64>, int),
    ParserError,
>
    decreases toks.len() - i,
{
    if !at_end(toks, i) && toks[i].token_type == TokenType::Dot {
        match sp_number(toks, i + 1) {
            Err(e) => Err(e),
            Ok((n, j)) => if i < j <= toks.len() {
                sp_block_id_rest(toks, j, acc.push(n))
            } else {
                Err(ParserError::Eof(cur_pos(toks, i)))
            },
        }
    } else {
        Ok((acc, i))
    }
}

/// A block identifier: a number, then any run of `.`-number pairs.
pub open spec fn sp_block_id(toks: Seq<Token>, i: int) -> Result<(Seq<u64>, int), ParserError> {
    match sp_number(toks, i) {
        Err(e) => Err(e),
        Ok((n, j)) => sp_block_id_rest(toks, j, seq![n]),
    }
}

/// A bracketed block identifier.
pub open spec fn sp_block(toks: Seq<Token>, i: int) -> Result<(Seq<u64>, int), ParserError> {
    match sp_consume(toks, i, TokenType::LeftBrace) {
        Err(e) => Err(e),
        Ok((_t, j)) => match sp_block_id(toks, j) {
            Err(e) => Err(e),
            Ok((path, k)) => match sp_consume(toks, k, TokenType::RightBrace) {
                Err(e) => Err(e),
                Ok((_r, l)) => Ok((path, l)),
            },
        },
    }
}

/// A bracketed coordinate pair.
pub open spec fn sp_point(toks: Seq<Token>, i: int) -> Result<(Point, int), ParserError> {
    match sp_consume(toks, i, TokenType::LeftBrace) {
        Err(e) => Err(e),
        Ok((_t, j)) => match sp_number(toks, j) {
            Err(e) => Err(e),
            Ok((x, k)) => match sp_consume(toks, k, TokenType::Comma) {
                Err(e) => Err(e),
                Ok((_c, l)) => match sp_number(toks, l) {
                    Err(e) => Err(e),
                    Ok((y, m)) => match sp_consume(toks, m, TokenType::RightBrace) {
                        Err(e) => Err(e),
                        Ok((_r, n)) => Ok((Point { x, y }, n)),
                    },
                },
            },
        },
    }
}

/// A color channel: a number no greater than 255.
pub open spec fn sp_rgb(toks: Seq<Token>, i: int) -> Result<(u8, int), ParserError> {
    match sp_consume(toks, i, TokenType::Number) {
        Err(e) => Err(e),
        Ok((t, j)) => match t.num {
            Some(n) => if n < 256 {
                Ok((n as u8, j))
            } else {
                Err(ParserError::TooBigForRGBA(n, t.position))
            },
            None => Err(ParserError::Expected(TokenType::Number, t.position)),
        },
    }
}

/// A bracketed list of four color channels.
pub open spec fn sp_color(toks: Seq<Token>, i: int) -> Result<(Color, int), ParserError> {
    match sp_consume(toks, i, TokenType::LeftBrace) {
        Err(e) => Err(e),
        Ok((_t, j)) => match sp_rgb(toks, j) {
            Err(e) => Err(e),
            Ok((r, k)) => match sp_consume(toks, k, TokenType::Comma) {
                Err(e) => Err(e),
                Ok((_c1, l)) => match sp_rgb(toks, l) {
                    Err(e) => Err(e),
                    Ok((g, m)) => match sp_consume(toks, m, TokenType::Comma) {
                        Err(e) => Err(e),
                        Ok((_c2, n)) => match sp_rgb(toks, n) {
                            Err(e) => Err(e),
                            Ok((b, o)) => match sp_consume(toks, o, TokenType::Comma) {
                                Err(e) => Err(e),
                                Ok((_c3, p)) => match sp_rgb(toks, p) {
                                    Err(e) => Err(e),
                                    Ok((a, q)) => match sp_consume(
                                        toks,
                                        q,
                                        TokenType::RightBrace,
                                    ) {
                                        Err(e) => Err(e),
                                        Ok((_r, s)) => Ok((Color(r, g, b, a), s)),
                                    },
                                },
                            },
                        },
                    },
                },
            },
        },
    }
}

/// An orientation letter: `x`/`X` vertical, `y`/`Y` horizontal.
pub open spec fn sp_orientation_type(toks: Seq<Token>, i: int) -> Result<
    (Orientation, int),
    ParserError,
> {
    if !at_end(toks, i) {
        let t = toks[i];
        if t.token_type == TokenType::Horizontal {
            Ok((Orientation::Horizontal, i + 1))
        } else if t.token_type == TokenType::Vertical {
            Ok((Orientation::Vertical, i + 1))
        } else {
            Err(ParserError::ExpectedOneOf(ExpectedSet::OrientationKind, t.position))
        }
    } else {
        Err(ParserError::Eof(cur_pos(toks, i)))
    }
}

/// A bracketed orientation letter.
pub open spec fn sp_orientation(toks: Seq<Token>, i: int) -> Result<(Orientation, int), ParserError> {
    match sp_consume(toks, i, TokenType::LeftBrace) {
        Err(e) => Err(e),
        Ok((_t, j)) => match sp_orientation_type(toks, j) {
            Err(e) => Err(e),
            Ok((o, k)) => match sp_consume(toks, k, TokenType::RightBrace) {
                Err(e) => Err(e),
                Ok((_r, l)) => Ok((o, l)),
            },
        },
    }
}

/// A bracketed line offset.
pub open spec fn sp_line_number(toks: Seq<Token>, i: int) -> Result<(u64, int), ParserError> {
    match sp_consume(toks, i, TokenType::LeftBrace) {
        Err(e) => Err(e),
        Ok((_t, j)) => match sp_number(toks, j) {
            Err(e) => Err(e),
            Ok((n, k)) => match sp_consume(toks, k, TokenType::RightBrace) {
                Err(e) => Err(e),
                Ok((_r, l)) => Ok((n, l)),
            },
        },
    }
}

/// A cut move: after the block, a number two tokens ahead (inside the next
/// bracketed group) selects the point form over the orientation form.
pub open spec fn sp_cut_move(toks: Seq<Token>, i: int) -> Result<(MoveV, int), ParserError> {
    match sp_consume(toks, i, TokenType::Cut) {
        Err(e) => Err(e),
        Ok((ct, j)) => match sp_block(toks, j) {
            Err(e) => Err(e),
            Ok((path, k)) => if k + 2 < toks.len() && toks[k + 1].token_type == TokenType::Number {
                match sp_point(toks, k) {
                    Err(e) => Err(e),
                    Ok((pt, l)) => Ok(
                        (MoveV::PCut { block: path, point: pt, pos: ct.position }, l),
                    ),
                }
            } else {
                match sp_orientation(toks, k) {
                    Err(e) => Err(e),
                    Ok((o, l)) => match sp_line_number(toks, l) {
                        Err(e) => Err(e),
                        Ok((n, m)) => Ok(
                            (
                                MoveV::LCut {
                                    block: path,
                                    orientation: o,
                                    line_no: n,
                                    pos: ct.position,
                                },
                                m,
                            ),
                        ),
                    },
                }
            },
        },
    }
}

pub open spec fn sp_color_move(toks: Seq<Token>, i: int) -> Result<(MoveV, int), ParserError> {
    match sp_consume(toks, i, TokenType::Color) {
        Err(e) => Err(e),
        Ok((ct, j)) => match sp_block(toks, j) {
            Err(e) => Err(e),
            Ok((path, k)) => match sp_color(toks, k) {
                Err(e) => Err(e),
                Ok((color, l)) => Ok(
                    (MoveV::Color { block: path, color, pos: ct.position }, l),
                ),
            },
        },
    }
}

pub open spec fn sp_swap_move(toks: Seq<Token>, i: int) -> Result<(MoveV, int), ParserError> {
    match sp_consume(toks, i, TokenType::Swap) {
        Err(e) => Err(e),
        Ok((ct, j)) => match sp_block(toks, j) {
            Err(e) => Err(e),
            Ok((p1, k)) => match sp_block(toks, k) {
                Err(e) => Err(e),
                Ok((p2, l)) => Ok((MoveV::Swap { b1: p1, b2: p2, pos: ct.position }, l)),
            },
        },
    }
}

pub open spec fn sp_merge_move(toks: Seq<Token>, i: int) -> Result<(MoveV, int), ParserError> {
    match sp_consume(toks, i, TokenType::Merge) {
        Err(e) => Err(e),
        Ok((ct, j)) => match sp_block(toks, j) {
            Err(e) => Err(e),
            Ok((p1, k)) => match sp_block(toks, k) {
                Err(e) => Err(e),
                Ok((p2, l)) => Ok((MoveV::Merge { b1: p1, b2: p2, pos: ct.position }, l)),
            },
        },
    }
}

/// One move, dispatched on the keyword token.
pub open spec fn sp_move(toks: Seq<Token>, i: int) -> Result<(MoveV, int), ParserError> {
    if !at_end(toks, i) && toks[i].token_type == TokenType::Cut {
        sp_cut_move(toks, i)
    } else if !at_end(toks, i) && toks[i].token_type == TokenType::Color {
        sp_color_move(toks, i)
    } else if !at_end(toks, i) && toks[i].token_type == TokenType::Swap {
        sp_swap_move(toks, i)
    } else if !at_end(toks, i) && toks[i].token_type == TokenType::Merge {
        sp_merge_move(toks, i)
    } else {
        Err(ParserError::ExpectedOneOf(ExpectedSet::MoveKeyword, cur_pos(toks, i)))
    }
}

/// One program line: a move, then a newline if one follows.
pub open spec fn sp_program_line(toks: Seq<Token>, i: int) -> Result<(MoveV, int), ParserError> {
    match sp_move(toks, i) {
        Err(e) => Err(e),
        Ok((m, j)) => if !at_end(toks, j) && toks[j].token_type == TokenType::NewLine {
            Ok((m, j + 1))
        } else {
            Ok((m, j))
        },
    }
}

/// A whole program: program lines until only the `Eof` token remains; the
/// moves in source order, appended to `acc`. The index guard on the
/// recursive call only discharges termination: a parsed line always
/// consumes at least its keyword token.
pub open spec fn sp_program(toks: Seq<Token>, i: int, acc: Seq<MoveV>) -> Result<
    Seq<MoveV>,
    ParserError,
>
    decreases toks.len() - i,
{
    if at_end(toks, i) {
        Ok(acc)
    } else {
        match sp_program_line(toks, i) {
            Err(e) => Err(e),
            Ok((m, j)) => if i < j <= toks.len() {
                sp_program(toks, j, acc.push(m))
            } else {
                Err(ParserError::Eof(cur_pos(toks, i)))
            },
        }
    }
}

/// Tokens `t2[i2..i2 + (hi - i1)]` are a copy of `t1[i1..hi]`, both ranges
/// in bounds, with one readable token beyond each.
pub open spec fn moved(t1: Seq<Token>, i1: int, t2: Seq<Token>, i2: int, hi: int) -> bool {
    &&& 0 <= i1 <= hi < t1.len()
    &&& 0 <= i2
    &&& i2 + (hi - i1) < t2.len()
    &&& forall|k: int| 0 <= k <= hi - i1 ==> #[trigger] t2[i2 + k] == t1[i1 + k]
}

proof fn lemma_consume_moved(t1: Seq<Token>, i1: int, t2: Seq<Token>, i2: int, hi: int, tt: TokenType)
    requires
        sp_consume(t1, i1, tt) is Ok,
        sp_consume(t1, i1, tt)->Ok_0.1 <= hi,
        moved(t1, i1, t2, i2, hi),
    ensures
        sp_consume(t2, i2, tt) == Ok::<(Token, int), ParserError>((t1[i1], i2 + 1)),
{
    assert(t2[i2 + 0] == t1[i1 + 0]);
}

proof fn lemma_number_moved(t1: Seq<Token>, i1: int, t2: Seq<Token>, i2: int, hi: int)
    requires
        sp_number(t1, i1) is Ok,
        sp_number(t1, i1)->Ok_0.1 <= hi,
        moved(t1, i1, t2, i2, hi),
    ensures
        sp_number(t2, i2) == Ok::<(u64, int), ParserError>((sp_number(t1, i1)->Ok_0.0, i2 + 1)),
{
    lemma_consume_moved(t1, i1, t2, i2, hi, TokenType::Number);
}

proof fn lemma_rgb_moved(t1: Seq<Token>, i1: int, t2: Seq<Token>, i2: int, hi: int)
    requires
        sp_rgb(t1, i1) is Ok,
        sp_rgb(t1, i1)->Ok_0.1 <= hi,
        moved(t1, i1, t2, i2, hi),
    ensures
        sp_rgb(t2, i2) == Ok::<(u8, int), ParserError>((sp_rgb(t1, i1)->Ok_0.0, i2 + 1)),
{
    lemma_consume_moved(t1, i1, t2, i2, hi, TokenType::Number);
}

proof fn lemma_block_id_rest_mono(toks: Seq<Token>, i: int, acc: Seq<u64>)
    requires
        sp_block_id_rest(toks, i, acc) is Ok,
    ensures
        sp_block_id_rest(toks, i, acc)->Ok_0.1 >= i,
    decreases toks.len() - i,
{
    if !at_end(toks, i) && toks[i].token_type == TokenType::Dot {
        let j = sp_number(toks, i + 1)->Ok_0.1;
        if i < j <= toks.len() {
            lemma_block_id_rest_mono(toks, j, acc.push(sp_number(toks, i + 1)->Ok_0.0));
        }
    }
}

proof fn lemma_block_id_rest_moved(
    t1: Seq<Token>,
    i1: int,
    t2: Seq<Token>,
    i2: int,
    hi: int,
    acc: Seq<u64>,
)
    requires
        sp_block_id_rest(t1, i1, acc) is Ok,
        sp_block_id_rest(t1, i1, acc)->Ok_0.1 <= hi,
        !at_end(t1, sp_block_id_rest(t1, i1, acc)->Ok_0.1),
        moved(t1, i1, t2, i2, hi),
    ensures
        sp_block_id_rest(t2, i2, acc) == Ok::<(Seq<u64>, int), ParserError>(
            (
                sp_block_id_rest(t1, i1, acc)->Ok_0.0,
                i2 + (sp_block_id_rest(t1, i1, acc)->Ok_0.1 - i1),
            ),
        ),
    decreases t1.len() - i1,
{
    let j1 = sp_block_id_rest(t1, i1, acc)->Ok_0.1;
    lemma_block_id_rest_mono(t1, i1, acc);
    assert(t2[i2 + 0] == t1[i1 + 0]);
    if !at_end(t1, i1) && t1[i1].token_type == TokenType::Dot {
        let n = sp_number(t1, i1 + 1)->Ok_0.0;
        lemma_block_id_rest_mono(t1, i1 + 2, acc.push(n));
        lemma_moved_shift(t1, i1, t2, i2, hi, 1);
        lemma_number_moved(t1, i1 + 1, t2, i2 + 1, hi);
        lemma_moved_shift(t1, i1, t2, i2, hi, 2);
        lemma_block_id_rest_moved(t1, i1 + 2, t2, i2 + 2, hi, acc.push(n));
    } else {
        assert(t2[i2 + (j1 - i1)] == t1[i1 + (j1 - i1)]);
    }
}

proof fn lemma_block_id_moved(t1: Seq<Token>, i1: int, t2: Seq<Token>, i2: int, hi: int)
    requires
        sp_block_id(t1, i1) is Ok,
        sp_block_id(t1, i1)->Ok_0.1 <= hi,
        !at_end(t1, sp_block_id(t1, i1)->Ok_0.1),
        moved(t1, i1, t2, i2, hi),
    ensures
        sp_block_id(t2, i2) == Ok::<(Seq<u64>, int), ParserError>(
            (sp_block_id(t1, i1)->Ok_0.0, i2 + (sp_block_id(t1, i1)->Ok_0.1 - i1)),
        ),
{
    let n = sp_number(t1, i1)->Ok_0.0;
    lemma_block_id_rest_mono(t1, i1 + 1, seq![n]);
    lemma_number_moved(t1, i1, t2, i2, hi);
    lemma_moved_shift(t1, i1, t2, i2, hi, 1);
    lemma_block_id_rest_moved(t1, i1 + 1, t2, i2 + 1, hi, seq![n]);
}

proof fn lemma_block_mono(toks: Seq<Token>, i: int)
    requires
        sp_block(toks, i) is Ok,
    ensures
        sp_block(toks, i)->Ok_0.1 >= i + 3,
{
    lemma_block_id_rest_mono(toks, i + 2, seq![sp_number(toks, i + 1)->Ok_0.0]);
}

/// Shifting the agreed window start forward by `d` consumed tokens.
proof fn lemma_moved_shift(t1: Seq<Token>, i1: int, t2: Seq<Token>, i2: int, hi: int, d: int)
    requires
        moved(t1, i1, t2, i2, hi),
        0 <= d <= hi - i1,
    ensures
        moved(t1, i1 + d, t2, i2 + d, hi),
{
    assert forall|k: int| 0 <= k <= hi - (i1 + d) implies #[trigger] t2[i2 + d + k] == t1[i1 + d + k] by {
        assert(t2[i2 + (k + d)] == t1[i1 + (k + d)]);
    }
}

proof fn lemma_block_moved(t1: Seq<Token>, i1: int, t2: Seq<Token>, i2: int, hi: int)
    requires
        sp_block(t1, i1) is Ok,
        sp_block(t1, i1)->Ok_0.1 <= hi,
        moved(t1, i1, t2, i2, hi),
    ensures
        sp_block(t2, i2) == Ok::<(Seq<u64>, int), ParserError>(
            (sp_block(t1, i1)->Ok_0.0, i2 + (sp_block(t1, i1)->Ok_0.1 - i1)),
        ),
{
    let k1 = sp_block_id(t1, i1 + 1)->Ok_0.1;
    lemma_block_id_rest_mono(t1, i1 + 2, seq![sp_number(t1, i1 + 1)->Ok_0.0]);
    lemma_block_mono(t1, i1);
    lemma_consume_moved(t1, i1, t2, i2, hi, TokenType::LeftBrace);
    lemma_moved_shift(t1, i1, t2, i2, hi, 1);
    lemma_block_id_moved(t1, i1 + 1, t2, i2 + 1, hi);
    lemma_moved_shift(t1, i1, t2, i2, hi, k1 - i1);
    lemma_consume_moved(t1, k1, t2, i2 + (k1 - i1), hi, TokenType::RightBrace);
}

proof fn lemma_point_moved(t1: Seq<Token>, i1: int, t2: Seq<Token>, i2: int, hi: int)
    requires
        sp_point(t1, i1) is Ok,
        sp_point(t1, i1)->Ok_0.1 <= hi,
        moved(t1, i1, t2, i2, hi),
    ensures
        sp_point(t2, i2) == Ok::<(Point, int), ParserError>(
            (sp_point(t1, i1)->Ok_0.0, i2 + (sp_point(t1, i1)->Ok_0.1 - i1)),
        ),
{
    lemma_consume_moved(t1, i1, t2, i2, hi, TokenType::LeftBrace);
    lemma_moved_shift(t1, i1, t2, i2, hi, 1);
    lemma_number_moved(t1, i1 + 1, t2, i2 + 1, hi);
    lemma_moved_shift(t1, i1, t2, i2, hi, 2);
    lemma_consume_moved(t1, i1 + 2, t2, i2 + 2, hi, TokenType::Comma);
    lemma_moved_shift(t1, i1, t2, i2, hi, 3);
    lemma_number_moved(t1, i1 + 3, t2, i2 + 3, hi);
    lemma_moved_shift(t1, i1, t2, i2, hi, 4);
    lemma_consume_moved(t1, i1 + 4, t2, i2 + 4, hi, TokenType::RightBrace);
}

proof fn lemma_color_moved(t1: Seq<Token>, i1: int, t2: Seq<Token>, i2: int, hi: int)
    requires
        sp_color(t1, i1) is Ok,
        sp_color(t1, i1)->Ok_0.1 <= hi,
        moved(t1, i1, t2, i2, hi),
    ensures
        sp_color(t2, i2) == Ok::<(Color, int), ParserError>(
            (sp_color(t1, i1)->Ok_0.0, i2 + (sp_color(t1, i1)->Ok_0.1 - i1)),
        ),
{
    lemma_consume_moved(t1, i1, t2, i2, hi, TokenType::LeftBrace);
    lemma_moved_shift(t1, i1, t2, i2, hi, 1);
    lemma_rgb_moved(t1, i1 + 1, t2, i2 + 1, hi);
    lemma_moved_shift(t1, i1, t2, i2, hi, 2);
    lemma_consume_moved(t1, i1 + 2, t2, i2 + 2, hi, TokenType::Comma);
    lemma_moved_shift(t1, i1, t2, i2, hi, 3);
    lemma_rgb_moved(t1, i1 + 3, t2, i2 + 3, hi);
    lemma_moved_shift(t1, i1, t2, i2, hi, 4);
    lemma_consume_moved(t1, i1 + 4, t2, i2 + 4, hi, TokenType::Comma);
    lemma_moved_shift(t1, i1, t2, i2, hi, 5);
    lemma_rgb_moved(t1, i1 + 5, t2, i2 + 5, hi);
    lemma_moved_shift(t1, i1, t2, i2, hi, 6);
    lemma_consume_moved(t1, i1 + 6, t2, i2 + 6, hi, TokenType::Comma);
    lemma_moved_shift(t1, i1, t2, i2, hi, 7);
    lemma_rgb_moved(t1, i1 + 7, t2, i2 + 7, hi);
    lemma_moved_shift(t1, i1, t2, i2, hi, 8);
    lemma_consume_moved(t1, i1 + 8, t2, i2 + 8, hi, TokenType::RightBrace);
}

proof fn lemma_orientation_moved(t1: Seq<Token>, i1: int, t2: Seq<Token>, i2: int, hi: int)
    requires
        sp_orientation(t1, i1) is Ok,
        sp_orientation(t1, i1)->Ok_0.1 <= hi,
        moved(t1, i1, t2, i2, hi),
    ensures
        sp_orientation(t2, i2) == Ok::<(Orientation, int), ParserError>(
            (sp_orientation(t1, i1)->Ok_0.0, i2 + (sp_orientation(t1, i1)->Ok_0.1 - i1)),
        ),
{
    lemma_consume_moved(t1, i1, t2, i2, hi, TokenType::LeftBrace);
    assert(t2[i2 + 1] == t1[i1 + 1]);
    lemma_moved_shift(t1, i1, t2, i2, hi, 2);
    lemma_consume_moved(t1, i1 + 2, t2, i2 + 2, hi, TokenType::RightBrace);
}

proof fn lemma_line_number_moved(t1: Seq<Token>, i1: int, t2: Seq<Token>, i2: int, hi: int)
    requires
        sp_line_number(t1, i1) is Ok,
        sp_line_number(t1, i1)->Ok_0.1 <= hi,
        moved(t1, i1, t2, i2, hi),
    ensures
        sp_line_number(t2, i2) == Ok::<(u64, int), ParserError>(
            (sp_line_number(t1, i1)->Ok_0.0, i2 + (sp_line_number(t1, i1)->Ok_0.1 - i1)),
        ),
{
    lemma_consume_moved(t1, i1, t2, i2, hi, TokenType::LeftBrace);
    lemma_moved_shift(t1, i1, t2, i2, hi, 1);
    lemma_number_moved(t1, i1 + 1, t2, i2 + 1, hi);
    lemma_moved_shift(t1, i1, t2, i2, hi, 2);
    lemma_consume_moved(t1, i1 + 2, t2, i2 + 2, hi, TokenType::RightBrace);
}

proof fn lemma_cut_move_moved(t1: Seq<Token>, i1: int, t2: Seq<Token>, i2: int, hi: int)
    requires
        sp_cut_move(t1, i1) is Ok,
        sp_cut_move(t1, i1)->Ok_0.1 <= hi,
        moved(t1, i1, t2, i2, hi),
    ensures
        sp_cut_move(t2, i2) == Ok::<(MoveV, int), ParserError>(
            (sp_cut_move(t1, i1)->Ok_0.0, i2 + (sp_cut_move(t1, i1)->Ok_0.1 - i1)),
        ),
{
    let k1 = sp_block(t1, i1 + 1)->Ok_0.1;
    lemma_block_mono(t1, i1 + 1);
    lemma_consume_moved(t1, i1, t2, i2, hi, TokenType::Cut);
    lemma_moved_shift(t1, i1, t2, i2, hi, 1);
    lemma_block_moved(t1, i1 + 1, t2, i2 + 1, hi);
    let k2 = i2 + (k1 - i1);
    lemma_moved_shift(t1, i1, t2, i2, hi, k1 - i1);
    if k1 + 2 < t1.len() && t1[k1 + 1].token_type == TokenType::Number {
        lemma_point_moved(t1, k1, t2, k2, hi);
        assert(t2[k2 + 1] == t1[k1 + 1]);
    } else {
        let l1 = sp_orientation(t1, k1)->Ok_0.1;
        lemma_orientation_moved(t1, k1, t2, k2, hi);
        lemma_moved_shift(t1, i1, t2, i2, hi, l1 - i1);
        lemma_line_number_moved(t1, l1, t2, i2 + (l1 - i1), hi);
        // The point branch was refused on the token kind, which the copy
        // shares; the length test holds of any successful cut.
        assert(t2[k2 + 1] == t1[k1 + 1]);
        assert(t1[k1 + 1].token_type != TokenType::Number);
    }
}

proof fn lemma_move_moved(t1: Seq<Token>, i1: int, t2: Seq<Token>, i2: int, hi: int)
    requires
        sp_move(t1, i1) is Ok,
        sp_move(t1, i1)->Ok_0.1 <= hi,
        moved(t1, i1, t2, i2, hi),
    ensures
        sp_move(t2, i2) == Ok::<(MoveV, int), ParserError>(
            (sp_move(t1, i1)->Ok_0.0, i2 + (sp_move(t1, i1)->Ok_0.1 - i1)),
        ),
        sp_move(t1, i1)->Ok_0.1 > i1,
{
    assert(t2[i2 + 0] == t1[i1 + 0]);
    if !at_end(t1, i1) && t1[i1].token_type == TokenType::Cut {
        lemma_block_mono(t1, i1 + 1);
        lemma_cut_move_moved(t1, i1, t2, i2, hi);
    } else if !at_end(t1, i1) && t1[i1].token_type == TokenType::Color {
        let k1 = sp_block(t1, i1 + 1)->Ok_0.1;
        lemma_block_mono(t1, i1 + 1);
        lemma_consume_moved(t1, i1, t2, i2, hi, TokenType::Color);
        lemma_moved_shift(t1, i1, t2, i2, hi, 1);
        lemma_block_moved(t1, i1 + 1, t2, i2 + 1, hi);
        lemma_moved_shift(t1, i1, t2, i2, hi, k1 - i1);
        lemma_color_moved(t1, k1, t2, i2 + (k1 - i1), hi);
    } else if !at_end(t1, i1) && t1[i1].token_type == TokenType::Swap {
        let k1 = sp_block(t1, i1 + 1)->Ok_0.1;
        lemma_block_mono(t1, i1 + 1);
        lemma_block_mono(t1, k1);
        lemma_consume_moved(t1, i1, t2, i2, hi, TokenType::Swap);
        lemma_moved_shift(t1, i1, t2, i2, hi, 1);
        lemma_block_moved(t1, i1 + 1, t2, i2 + 1, hi);
        lemma_moved_shift(t1, i1, t2, i2, hi, k1 - i1);
        lemma_block_moved(t1, k1, t2, i2 + (k1 - i1), hi);
    } else if !at_end(t1, i1) && t1[i1].token_type == TokenType::Merge {
        let k1 = sp_block(t1, i1 + 1)->Ok_0.1;
        lemma_block_mono(t1, i1 + 1);
        lemma_block_mono(t1, k1);
        lemma_consume_moved(t1, i1, t2, i2, hi, TokenType::Merge);
        lemma_moved_shift(t1, i1, t2, i2, hi, 1);
        lemma_block_moved(t1, i1 + 1, t2, i2 + 1, hi);
        lemma_moved_shift(t1, i1, t2, i2, hi, k1 - i1);
        lemma_block_moved(t1, k1, t2, i2 + (k1 - i1), hi);
    }
}

/// A sentinel making the final real token of a standalone line readable.
pub open spec fn pad_token() -> Token {
    Token {
        token_type: TokenType::Eof,
        num: None,
        position: Position { line: 0, col: (0, 0), indices: (0, 0) },
    }
}

/// `line` is one syntactically valid program line: the tokens of the move
/// `m` followed by one newline token.
pub open spec fn line_yields(line: Seq<Token>, m: MoveV) -> bool {
    &&& line.len() >= 2
    &&& line.last().token_type == TokenType::NewLine
    &&& sp_move(line.push(pad_token()), 0) == Ok::<(MoveV, int), ParserError>((m, line.len() - 1))
}

/// The tokens of a sequence of lines, in order.
pub open spec fn flatten_lines(lines: Seq<Seq<Token>>) -> Seq<Token>
    decreases lines.len(),
{
    if lines.len() == 0 {
        Seq::empty()
    } else {
        lines[0] + flatten_lines(lines.drop_first())
    }
}

proof fn lemma_program_of_lines_at(
    all: Seq<Token>,
    o: int,
    lines: Seq<Seq<Token>>,
    ms: Seq<MoveV>,
    acc: Seq<MoveV>,
)
    requires
        lines.len() == ms.len(),
        forall|t: int| 0 <= t < lines.len() ==> line_yields(lines[t], ms[t]),
        0 <= o,
        all.len() == o + flatten_lines(lines).len() + 1,
        forall|k: int|
            0 <= k < flatten_lines(lines).len() ==> all[o + k] == flatten_lines(lines)[k],
    ensures
        sp_program(all, o, acc) == Ok::<Seq<MoveV>, ParserError>(acc + ms),
    decreases lines.len(),
{
    if lines.len() == 0 {
        assert(at_end(all, o));
        assert(acc + ms =~= acc);
    } else {
        let line = lines[0];
        let m = ms[0];
        let rest = flatten_lines(lines.drop_first());
        let flat = flatten_lines(lines);
        assert(line_yields(lines[0], ms[0]));
        let padded = line.push(pad_token());
        // The line's tokens sit at offsets o..o + line.len() of the whole.
        assert forall|k: int| 0 <= k < line.len() implies #[trigger] all[o + k] == line[k] by {
            assert(flat[k] == line[k]);
            assert(all[o + k] == flat[k]);
        }
        assert(moved(padded, 0, all, o, line.len() - 1)) by {
            assert forall|k: int| 0 <= k <= line.len() - 1 implies #[trigger] all[o + k] == padded[0 + k] by {
                assert(padded[k] == line[k]);
            }
        }
        lemma_move_moved(padded, 0, all, o, line.len() - 1);
        let j = o + line.len() - 1;
        assert(all[o + (line.len() - 1)] == line.last());
        assert(sp_program_line(all, o) == Ok::<(MoveV, int), ParserError>((m, j + 1)));
        assert(sp_program(all, o, acc) == sp_program(all, j + 1, acc.push(m)));
        assert forall|k: int| 0 <= k < rest.len() implies #[trigger] all[(j + 1) + k] == rest[k] by {
            assert(flat[line.len() + k] == rest[k]);
            assert(all[o + (line.len() + k)] == flat[line.len() + k]);
        }
        lemma_program_of_lines_at(all, j + 1, lines.drop_first(), ms.drop_first(), acc.push(m));
        assert(acc.push(m) + ms.drop_first() =~= acc + ms);
    }
}

/// For any syntactically valid program of N lines — each line one move's
/// tokens followed by a newline — parsing succeeds and yields exactly the
/// N moves, in source order.
pub proof fn lemma_program_of_lines(lines: Seq<Seq<Token>>, ms: Seq<MoveV>)
    requires
        lines.len() == ms.len(),
        forall|t: int| 0 <= t < lines.len() ==> line_yields(lines[t], ms[t]),
    ensures
        sp_program(flatten_lines(lines).push(pad_token()), 0, Seq::empty())
            == Ok::<Seq<MoveV>, ParserError>(ms),
{
    let all = flatten_lines(lines).push(pad_token());
    assert forall|k: int| 0 <= k < flatten_lines(lines).len() implies #[trigger] all[0 + k]
        == flatten_lines(lines)[k] by {}
    lemma_program_of_lines_at(all, 0, lines, ms, Seq::empty());
    assert(Seq::<MoveV>::empty() + ms =~= ms);
}

/// The parser's cursor over the token sequence.
pub struct Parser {
    source: Vec<Token>,
    current: usize,
}

impl Parser {
    pub closed spec fn toks(&self) -> Seq<Token> {
        self.source@
    }

    pub closed spec fn idx(&self) -> int {
        self.current as int
    }

    /// The cursor never passes the final token.
    pub closed spec fn wf(&self) -> bool {
        self.source@.len() >= 1 && self.current < self.source@.len()
    }

    fn new(source: &[Token]) -> (r: Parser)
        requires
            source@.len() >= 1,
        ensures
            r.wf(),
            r.toks() == source@,
            r.idx() == 0,
    {
        Parser { source: vstd::slice::slice_to_vec(source), current: 0 }
    }

    /// Whether only the final token remains.
    pub fn is_at_end(&self) -> (r: bool)
        requires
            self.wf(),
        ensures
            r == at_end(self.toks(), self.idx()),
    {
        self.current >= self.source.len() - 1
    }

    /// Whether the next token has kind `tt`.
    fn check(&self, tt: TokenType) -> (r: bool)
        requires
            self.wf(),
        ensures
            r == (!at_end(self.toks(), self.idx()) && self.toks()[self.idx()].token_type == tt),
    {
        self.current < self.source.len() - 1 && self.source[self.current].token_type == tt
    }

    /// Consume the next token if it has kind `tt`, else fail.
    fn consume(&mut self, tt: TokenType) -> (r: Result<Token, ParserError>)
        requires
            old(self).wf(),
        ensures
            final(self).wf(),
            final(self).toks() == old(self).toks(),
            old(self).idx() <= final(self).idx(),
            match sp_consume(old(self).toks(), old(self).idx(), tt) {
                Ok((t, j)) => r matches Ok(rt) && rt == t && final(self).idx() == j,
                Err(e) => r matches Err(x) && x == e,
            },
    {
        if self.current < self.source.len() - 1 && self.source[self.current].token_type == tt {
            let t = self.source[self.current];
            self.current += 1;
            Ok(t)
        } else {
            Err(ParserError::Expected(tt, self.source[self.current].position))
        }
    }

    /// Consume a number token and yield its value.
    fn number(&mut self) -> (r: Result<u64, ParserError>)
        requires
            old(self).wf(),
        ensures
            final(self).wf(),
            final(self).toks() == old(self).toks(),
            old(self).idx() <= final(self).idx(),
            match sp_number(old(self).toks(), old(self).idx()) {
                Ok((n, j)) => r matches Ok(rn) && rn == n && final(self).idx() == j,
                Err(e) => r matches Err(x) && x == e,
            },
    {
        match self.consume(TokenType::Number) {
            Err(e) => Err(e),
            Ok(t) => match t.num {
                Some(n) => Ok(n),
                None => Err(ParserError::Expected(TokenType::Number, t.position)),
            },
        }
    }

    /// A block identifier: a number, then any run of `.`-number pairs.
    fn block_id(&mut self) -> (r: Result<BlockId, ParserError>)
        requires
            old(self).wf(),
        ensures
            final(self).wf(),
            final(self).toks() == old(self).toks(),
            old(self).idx() <= final(self).idx(),
            match sp_block_id(old(self).toks(), old(self).idx()) {
                Ok((path, j)) => r matches Ok(b) && b@ == path && final(self).idx() == j,
                Err(e) => r matches Err(x) && x == e,
            },
    {
        let ghost toks = self.toks();
        let first = match self.number() {
            Ok(n) => n,
            Err(e) => {
                return Err(e);
            },
        };
        let mut path: Vec<u64> = Vec::new();
        path.push(first);
        proof {
            assert(path@ =~= seq![first]);
        }
        while self.current < self.source.len() - 1 && self.source[self.current].token_type
            == TokenType::Dot
            invariant
                self.wf(),
                toks == self.toks(),
                toks == old(self).toks(),
                old(self).idx() <= self.idx(),
                sp_block_id(toks, old(self).idx()) == sp_block_id_rest(toks, self.idx(), path@),
            decreases self.toks().len() - self.idx(),
        {
            let ghost i = self.idx();
            let ghost acc = path@;
            self.current += 1;
            match self.number() {
                Ok(n) => {
                    proof {
                        assert(sp_block_id_rest(toks, i, acc) == sp_block_id_rest(
                            toks,
                            self.idx(),
                            acc.push(n),
                        ));
                    }
                    path.push(n);
                },
                Err(e) => {
                    proof {
                        assert(sp_block_id_rest(toks, i, acc) == Err::<
                            (Seq<u64>, int),
                            ParserError,
                        >(e));
                    }
                    return Err(e);
                },
            }
        }
        proof {
            assert(sp_block_id_rest(toks, self.idx(), path@) == Ok::<(Seq<u64>, int), ParserError>(
                (path@, self.idx()),
            ));
        }
        Ok(BlockId { path })
    }

    /// A bracketed block identifier.
    fn block(&mut self) -> (r: Result<BlockId, ParserError>)
        requires
            old(self).wf(),
        ensures
            final(self).wf(),
            final(self).toks() == old(self).toks(),
            old(self).idx() <= final(self).idx(),
            match sp_block(old(self).toks(), old(self).idx()) {
                Ok((path, j)) => r matches Ok(b) && b@ == path && final(self).idx() == j,
                Err(e) => r matches Err(x) && x == e,
            },
    {
        match self.consume(TokenType::LeftBrace) {
            Err(e) => {
                return Err(e);
            },
            Ok(_) => {},
        }
        let id = match self.block_id() {
            Ok(b) => b,
            Err(e) => {
                return Err(e);
            },
        };
        match self.consume(TokenType::RightBrace) {
            Err(e) => {
                return Err(e);
            },
            Ok(_) => {},
        }
        Ok(id)
    }

    /// A bracketed coordinate pair.
    fn point(&mut self) -> (r: Result<Point, ParserError>)
        requires
            old(self).wf(),
        ensures
            final(self).wf(),
            final(self).toks() == old(self).toks(),
            old(self).idx() <= final(self).idx(),
            match sp_point(old(self).toks(), old(self).idx()) {
                Ok((p, j)) => r matches Ok(rp) && rp == p && final(self).idx() == j,
                Err(e) => r matches Err(x) && x == e,
            },
    {
        match self.consume(TokenType::LeftBrace) {
            Err(e) => {
                return Err(e);
            },
            Ok(_) => {},
        }
        let x = match self.number() {
            Ok(n) => n,
            Err(e) => {
                return Err(e);
            },
        };
        match self.consume(TokenType::Comma) {
            Err(e) => {
                return Err(e);
            },
            Ok(_) => {},
        }
        let y = match self.number() {
            Ok(n) => n,
            Err(e) => {
                return Err(e);
            },
        };
        match self.consume(TokenType::RightBrace) {
            Err(e) => {
                return Err(e);
            },
            Ok(_) => {},
        }
        Ok(Point { x, y })
    }

    /// A color channel: a number no greater than 255.
    fn rgb_value(&mut self) -> (r: Result<u8, ParserError>)
        requires
            old(self).wf(),
        ensures
            final(self).wf(),
            final(self).toks() == old(self).toks(),
            old(self).idx() <= final(self).idx(),
            match sp_rgb(old(self).toks(), old(self).idx()) {
                Ok((n, j)) => r matches Ok(rn) && rn == n && final(self).idx() == j,
                Err(e) => r matches Err(x) && x == e,
            },
    {
        match self.consume(TokenType::Number) {
            Err(e) => Err(e),
            Ok(t) => match t.num {
                Some(n) => if n < 256 {
                    Ok(n as u8)
                } else {
                    Err(ParserError::TooBigForRGBA(n, t.position))
                },
                None => Err(ParserError::Expected(TokenType::Number, t.position)),
            },
        }
    }

    /// A bracketed list of four color channels.
    fn color(&mut self) -> (r: Result<Color, ParserError>)
        requires
            old(self).wf(),
        ensures
            final(self).wf(),
            final(self).toks() == old(self).toks(),
            old(self).idx() <= final(self).idx(),
            match sp_color(old(self).toks(), old(self).idx()) {
                Ok((c, j)) => r matches Ok(rc) && rc == c && final(self).idx() == j,
                Err(e) => r matches Err(x) && x == e,
            },
    {
        match self.consume(TokenType::LeftBrace) {
            Err(e) => {
                return Err(e);
            },
            Ok(_) => {},
        }
        let r = match self.rgb_value() {
            Ok(n) => n,
            Err(e) => {
                return Err(e);
            },
        };
        match self.consume(TokenType::Comma) {
            Err(e) => {
                return Err(e);
            },
            Ok(_) => {},
        }
        let g = match self.rgb_value() {
            Ok(n) => n,
            Err(e) => {
                return Err(e);
            },
        };
        match self.consume(TokenType::Comma) {
            Err(e) => {
                return Err(e);
            },
            Ok(_) => {},
        }
        let b = match self.rgb_value() {
            Ok(n) => n,
            Err(e) => {
                return Err(e);
            },
        };
        match self.consume(TokenType::Comma) {
            Err(e) => {
                return Err(e);
            },
            Ok(_) => {},
        }
        let a = match self.rgb_value() {
            Ok(n) => n,
            Err(e) => {
                return Err(e);
            },
        };
        match self.consume(TokenType::RightBrace) {
            Err(e) => {
                return Err(e);
            },
            Ok(_) => {},
        }
        Ok(Color(r, g, b, a))
    }

    /// An orientation letter: `x`/`X` vertical, `y`/`Y` horizontal.
    fn orientation_type(&mut self) -> (r: Result<Orientation, ParserError>)
        requires
            old(self).wf(),
        ensures
            final(self).wf(),
            final(self).toks() == old(self).toks(),
            old(self).idx() <= final(self).idx(),
            match sp_orientation_type(old(self).toks(), old(self).idx()) {
                Ok((o, j)) => r matches Ok(ro) && ro == o && final(self).idx() == j,
                Err(e) => r matches Err(x) && x == e,
            },
    {
        if self.current < self.source.len() - 1 {
            let t = self.source[self.current];
            self.current += 1;
            match t.token_type {
                TokenType::Horizontal => Ok(Orientation::Horizontal),
                TokenType::Vertical => Ok(Orientation::Vertical),
                _ => Err(ParserError::ExpectedOneOf(ExpectedSet::OrientationKind, t.position)),
            }
        } else {
            Err(ParserError::Eof(self.source[self.current].position))
        }
    }

    /// A bracketed orientation letter.
    fn orientation(&mut self) -> (r: Result<Orientation, ParserError>)
        requires
            old(self).wf(),
        ensures
            final(self).wf(),
            final(self).toks() == old(self).toks(),
            old(self).idx() <= final(self).idx(),
            match sp_orientation(old(self).toks(), old(self).idx()) {
                Ok((o, j)) => r matches Ok(ro) && ro == o && final(self).idx() == j,
                Err(e) => r matches Err(x) && x == e,
            },
    {
        match self.consume(TokenType::LeftBrace) {
            Err(e) => {
                return Err(e);
            },
            Ok(_) => {},
        }
        let o = match self.orientation_type() {
            Ok(o) => o,
            Err(e) => {
                return Err(e);
            },
        };
        match self.consume(TokenType::RightBrace) {
            Err(e) => {
                return Err(e);
            },
            Ok(_) => {},
        }
        Ok(o)
    }

    /// A bracketed line offset.
    fn line_number(&mut self) -> (r: Result<u64, ParserError>)
        requires
            old(self).wf(),
        ensures
            final(self).wf(),
            final(self).toks() == old(self).toks(),
            old(self).idx() <= final(self).idx(),
            match sp_line_number(old(self).toks(), old(self).idx()) {
                Ok((n, j)) => r matches Ok(rn) && rn == n && final(self).idx() == j,
                Err(e) => r matches Err(x) && x == e,
            },
    {
        match self.consume(TokenType::LeftBrace) {
            Err(e) => {
                return Err(e);
            },
            Ok(_) => {},
        }
        let n = match self.number() {
            Ok(n) => n,
            Err(e) => {
                return Err(e);
            },
        };
        match self.consume(TokenType::RightBrace) {
            Err(e) => {
                return Err(e);
            },
            Ok(_) => {},
        }
        Ok(n)
    }

    /// A cut move, disambiguated by the second token ahead.
    fn cut_move(&mut self) -> (r: Result<Move, ParserError>)
        requires
            old(self).wf(),
        ensures
            final(self).wf(),
            final(self).toks() == old(self).toks(),
            old(self).idx() <= final(self).idx(),
            match sp_cut_move(old(self).toks(), old(self).idx()) {
                Ok((m, j)) => r matches Ok(rm) && rm@ == m && final(self).idx() == j && old(
                    self,
                ).idx() < j,
                Err(e) => r matches Err(x) && x == e,
            },
    {
        let tok = match self.consume(TokenType::Cut) {
            Ok(t) => t,
            Err(e) => {
                return Err(e);
            },
        };
        let block_id = match self.block() {
            Ok(b) => b,
            Err(e) => {
                return Err(e);
            },
        };
        if self.source.len() > 2 && self.current < self.source.len() - 2 && self.source[self.current + 1].token_type
            == TokenType::Number {
            let point = match self.point() {
                Ok(p) => p,
                Err(e) => {
                    return Err(e);
                },
            };
            Ok(Move::PCut { block_id, point, position: tok.position })
        } else {
            let orientation = match self.orientation() {
                Ok(o) => o,
                Err(e) => {
                    return Err(e);
                },
            };
            let line_no = match self.line_number() {
                Ok(n) => n,
                Err(e) => {
                    return Err(e);
                },
            };
            Ok(Move::LCut { block_id, orientation, line_no, position: tok.position })
        }
    }

    /// A color move.
    fn color_move(&mut self) -> (r: Result<Move, ParserError>)
        requires
            old(self).wf(),
        ensures
            final(self).wf(),
            final(self).toks() == old(self).toks(),
            old(self).idx() <= final(self).idx(),
            match sp_color_move(old(self).toks(), old(self).idx()) {
                Ok((m, j)) => r matches Ok(rm) && rm@ == m && final(self).idx() == j && old(
                    self,
                ).idx() < j,
                Err(e) => r matches Err(x) && x == e,
            },
    {
        let tok = match self.consume(TokenType::Color) {
            Ok(t) => t,
            Err(e) => {
                return Err(e);
            },
        };
        let block_id = match self.block() {
            Ok(b) => b,
            Err(e) => {
                return Err(e);
            },
        };
        let color = match self.color() {
            Ok(c) => c,
            Err(e) => {
                return Err(e);
            },
        };
        Ok(Move::Color { block_id, color, position: tok.position })
    }

    /// A swap move.
    fn swap_move(&mut self) -> (r: Result<Move, ParserError>)
        requires
            old(self).wf(),
        ensures
            final(self).wf(),
            final(self).toks() == old(self).toks(),
            old(self).idx() <= final(self).idx(),
            match sp_swap_move(old(self).toks(), old(self).idx()) {
                Ok((m, j)) => r matches Ok(rm) && rm@ == m && final(self).idx() == j && old(
                    self,
                ).idx() < j,
                Err(e) => r matches Err(x) && x == e,
            },
    {
        let tok = match self.consume(TokenType::Swap) {
            Ok(t) => t,
            Err(e) => {
                return Err(e);
            },
        };
        let block_id_1 = match self.block() {
            Ok(b) => b,
            Err(e) => {
                return Err(e);
            },
        };
        let block_id_2 = match self.block() {
            Ok(b) => b,
            Err(e) => {
                return Err(e);
            },
        };
        Ok(Move::Swap { block_id_1, block_id_2, position: tok.position })
    }

    /// A merge move.
    fn merge_move(&mut self) -> (r: Result<Move, ParserError>)
        requires
            old(self).wf(),
        ensures
            final(self).wf(),
            final(self).toks() == old(self).toks(),
            old(self).idx() <= final(self).idx(),
            match sp_merge_move(old(self).toks(), old(self).idx()) {
                Ok((m, j)) => r matches Ok(rm) && rm@ == m && final(self).idx() == j && old(
                    self,
                ).idx() < j,
                Err(e) => r matches Err(x) && x == e,
            },
    {
        let tok = match self.consume(TokenType::Merge) {
            Ok(t) => t,
            Err(e) => {
                return Err(e);
            },
        };
        let block_id_1 = match self.block() {
            Ok(b) => b,
            Err(e) => {
                return Err(e);
            },
        };
        let block_id_2 = match self.block() {
            Ok(b) => b,
            Err(e) => {
                return Err(e);
            },
        };
        Ok(Move::Merge { block_id_1, block_id_2, position: tok.position })
    }

    /// One move, dispatched on the keyword token.
    fn move_(&mut self) -> (r: Result<Move, ParserError>)
        requires
            old(self).wf(),
        ensures
            final(self).wf(),
            final(self).toks() == old(self).toks(),
            old(self).idx() <= final(self).idx(),
            match sp_move(old(self).toks(), old(self).idx()) {
                Ok((m, j)) => r matches Ok(rm) && rm@ == m && final(self).idx() == j && old(
                    self,
                ).idx() < j,
                Err(e) => r matches Err(x) && x == e,
            },
    {
        if self.check(TokenType::Cut) {
            self.cut_move()
        } else if self.check(TokenType::Color) {
            self.color_move()
        } else if self.check(TokenType::Swap) {
            self.swap_move()
        } else if self.check(TokenType::Merge) {
            self.merge_move()
        } else {
            Err(
                ParserError::ExpectedOneOf(
                    ExpectedSet::MoveKeyword,
                    self.source[self.current].position,
                ),
            )
        }
    }

    /// One program line: a move, then a newline if one follows.
    fn program_line(&mut self) -> (r: Result<Move, ParserError>)
        requires
            old(self).wf(),
        ensures
            final(self).wf(),
            final(self).toks() == old(self).toks(),
            old(self).idx() <= final(self).idx(),
            match sp_program_line(old(self).toks(), old(self).idx()) {
                Ok((m, j)) => r matches Ok(rm) && rm@ == m && final(self).idx() == j && old(
                    self,
                ).idx() < j,
                Err(e) => r matches Err(x) && x == e,
            },
    {
        let m = match self.move_() {
            Ok(m) => m,
            Err(e) => {
                return Err(e);
            },
        };
        if self.check(TokenType::NewLine) {
            let _ = self.consume(TokenType::NewLine);
        }
        Ok(m)
    }

    /// Parse the whole program: the moves of every line, in source order;
    /// exactly the value of the model `sp_program`.
    pub fn parse(&mut self) -> (r: Result<Vec<Move>, ParserError>)
        requires
            old(self).wf(),
        ensures
            final(self).wf(),
            match sp_program(old(self).toks(), old(self).idx(), Seq::empty()) {
                Ok(ms) => r matches Ok(v) && crate::ast::moves_view(v@) == ms,
                Err(e) => r matches Err(x) && x == e,
            },
    {
        let ghost toks = self.toks();
        let mut moves: Vec<Move> = Vec::new();
        proof {
            assert(crate::ast::moves_view(moves@) =~= Seq::<MoveV>::empty());
        }
        while self.current < self.source.len() - 1
            invariant
                self.wf(),
                toks == self.toks(),
                toks == old(self).toks(),
                sp_program(toks, old(self).idx(), Seq::empty()) == sp_program(
                    toks,
                    self.idx(),
                    crate::ast::moves_view(moves@),
                ),
            decreases self.toks().len() - self.idx(),
        {
            let ghost i = self.idx();
            let ghost acc = crate::ast::moves_view(moves@);
            match self.program_line() {
                Ok(m) => {
                    proof {
                        assert(crate::ast::moves_view(moves@.push(m)) =~= acc.push(m@));
                        assert(sp_program(toks, i, acc) == sp_program(
                            toks,
                            self.idx(),
                            acc.push(m@),
                        ));
                    }
                    moves.push(m);
                },
                Err(e) => {
                    proof {
                        assert(sp_program(toks, i, acc) == Err::<Seq<MoveV>, ParserError>(e));
                    }
                    return Err(e);
                },
            }
        }
        Ok(moves)
    }

    /// Parse a token sequence from its start. An empty sequence — one that
    /// not even a scanner's bare `Eof` token ends — fails with an
    /// end-of-input error at the zero position.
    pub fn parse_tokens(tokens: &[Token]) -> (r: Result<Vec<Move>, ParserError>)
        ensures
            tokens@.len() == 0 ==> (r matches Err(x) && x == ParserError::Eof(
                Position { line: 0, col: (0, 0), indices: (0, 0) },
            )),
            tokens@.len() >= 1 ==> match sp_program(tokens@, 0, Seq::empty()) {
                Ok(ms) => r matches Ok(v) && crate::ast::moves_view(v@) == ms,
                Err(e) => r matches Err(x) && x == e,
            },
    {
        if tokens.len() == 0 {
            return Err(ParserError::Eof(Position::new(0, (0, 0), (0, 0))));
        }
        let mut parser = Parser::new(tokens);
        parser.parse()
    }
}

} // verus!
