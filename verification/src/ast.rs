//! The data model shared by the parser and the interpreter: points, colors,
//! block identifiers, orientations, and the move forms.

use crate::token::Position;
use vstd::prelude::*;

verus! {

/// Strict interiority of `(x, y)` in the rectangle whose top-left corner is
/// `tl` and whose bottom-right corner is `br` (y grows upward, so
/// `br.y < tl.y`). All four comparisons are strict.
pub open spec fn spec_within(x: u64, y: u64, tl: Point, br: Point) -> bool {
    tl.x < x && x < br.x && br.y < y && y < tl.y
}

/// An integer coordinate pair; `y` increases upward.
#[derive(Debug, Clone, Copy, PartialEq, Eq, Structural)]
pub struct Point {
    pub x: u64,
    pub y: u64,
}

impl Point {
    pub fn new(x: u64, y: u64) -> (r: Point)
        ensures
            r == (Point { x, y }),
    {
        Point { x, y }
    }

    pub fn set_x(&self, x: u64) -> (r: Point)
        ensures
            r == (Point { x, y: self.y }),
    {
        Point { x, y: self.y }
    }

    pub fn set_y(&self, y: u64) -> (r: Point)
        ensures
            r == (Point { x: self.x, y }),
    {
        Point { x: self.x, y }
    }

    pub fn move_left(&self, n: u64) -> (r: Point)
        requires
            n <= self.x,
        ensures
            r.x == self.x - n && r.y == self.y,
    {
        Point { x: self.x - n, y: self.y }
    }

    pub fn move_right(&self, n: u64) -> (r: Point)
        requires
            self.x + n <= u64::MAX,
        ensures
            r.x == self.x + n && r.y == self.y,
    {
        Point { x: self.x + n, y: self.y }
    }

    pub fn move_down(&self, n: u64) -> (r: Point)
        requires
            n <= self.y,
        ensures
            r.x == self.x && r.y == self.y - n,
    {
        Point { x: self.x, y: self.y - n }
    }

    pub fn move_up(&self, n: u64) -> (r: Point)
        requires
            self.y + n <= u64::MAX,
        ensures
            r.x == self.x && r.y == self.y + n,
    {
        Point { x: self.x, y: self.y + n }
    }

    /// Whether this point lies strictly inside the given (top-left,
    /// bottom-right) bounds.
    pub fn within(&self, bounds: (Point, Point)) -> (r: bool)
        ensures
            r == spec_within(self.x, self.y, bounds.0, bounds.1),
    {
        let (tl, br) = bounds;
        ((self.x > tl.x) && (self.x < br.x)) && ((self.y < tl.y) && (self.y > br.y))
    }
}

/// Whether the coordinate pair `pos` lies strictly inside the given
/// (top-left, bottom-right) bounds.
pub fn within(pos: (u64, u64), bounds: (Point, Point)) -> (r: bool)
    ensures
        r == spec_within(pos.0, pos.1, bounds.0, bounds.1),
{
    let (x, y) = pos;
    let (tl, br) = bounds;
    ((x > tl.x) && (x < br.x)) && ((y < tl.y) && (y > br.y))
}

/// Four 8-bit channels: red, green, blue, alpha.
#[derive(Debug, Clone, Copy, PartialEq, Eq, Structural)]
pub struct Color(pub u8, pub u8, pub u8, pub u8);

/// A block identifier: a non-empty path of segment numbers, read root-first.
/// Two identifiers denote the same block exactly when their full paths match.
#[derive(Debug)]
pub struct BlockId {
    pub path: Vec<u64>,
}

impl View for BlockId {
    type V = Seq<u64>;

    open spec fn view(&self) -> Seq<u64> {
        self.path@
    }
}

impl Clone for BlockId {
    fn clone(&self) -> (r: Self)
        ensures
            r@ == self@,
    {
        BlockId { path: self.path.clone() }
    }
}

impl BlockId {
    /// A block identifier is a non-empty path.
    pub open spec fn wf(&self) -> bool {
        self@.len() >= 1
    }

    /// The top-level identifier with the single segment `id`.
    pub fn new(id: u64) -> (r: BlockId)
        ensures
            r@ == seq![id],
            r.wf(),
    {
        let mut path: Vec<u64> = Vec::new();
        path.push(id);
        proof {
            assert(path@ =~= seq![id]);
        }
        BlockId { path }
    }

    /// The identifier naming the child `id` of the block `prev`.
    pub fn new_with_prev(prev: &BlockId, id: u64) -> (r: BlockId)
        ensures
            r@ == prev@.push(id),
    {
        let mut path = prev.path.clone();
        path.push(id);
        BlockId { path }
    }

    /// Whether this identifier and `other` name the same block.
    pub fn same(&self, other: &BlockId) -> (r: bool)
        ensures
            r == (self@ == other@),
    {
        if self.path.len() != other.path.len() {
            proof {
                assert(self@ != other@);
            }
            return false;
        }
        let mut i: usize = 0;
        while i < self.path.len()
            invariant
                i <= self.path.len(),
                self.path.len() == other.path.len(),
                forall|j: int| 0 <= j < i ==> self@[j] == other@[j],
            decreases self.path.len() - i,
        {
            if self.path[i] != other.path[i] {
                proof {
                    assert(self@[i as int] != other@[i as int]);
                }
                return false;
            }
            i += 1;
        }
        proof {
            assert(self@ =~= other@);
        }
        true
    }
}

/// The cut axis of a line cut: `Vertical` splits left from right, and
/// `Horizontal` splits bottom from top.
#[derive(Debug, Clone, Copy, PartialEq, Eq, Structural)]
pub enum Orientation {
    Horizontal,
    Vertical,
}

/// One move of a program, carrying the source position of its keyword for
/// diagnostics.
#[derive(Debug)]
pub enum Move {
    /// Cut a block into four quadrants around an interior point.
    PCut { block_id: BlockId, point: Point, position: Position },
    /// Cut a block in two along a line at a given offset from its left
    /// (vertical) or bottom (horizontal) edge.
    LCut { block_id: BlockId, orientation: Orientation, line_no: u64, position: Position },
    /// Recolor every pixel of a block.
    Color { block_id: BlockId, color: Color, position: Position },
    /// Exchange the rectangles bound to two equal-area blocks.
    Swap { block_id_1: BlockId, block_id_2: BlockId, position: Position },
    /// Replace two equal-area, adjoining blocks by their bounding rectangle
    /// under a freshly minted top-level identifier.
    Merge { block_id_1: BlockId, block_id_2: BlockId, position: Position },
}

/// The mathematical shape of a move: as `Move`, with each block identifier
/// replaced by its path. The specifications of the parser and of the
/// interpreter speak of this form.
#[verifier::ext_equal]
pub ghost enum MoveV {
    PCut { block: Seq<u64>, point: Point, pos: Position },
    LCut { block: Seq<u64>, orientation: Orientation, line_no: u64, pos: Position },
    Color { block: Seq<u64>, color: Color, pos: Position },
    Swap { b1: Seq<u64>, b2: Seq<u64>, pos: Position },
    Merge { b1: Seq<u64>, b2: Seq<u64>, pos: Position },
}

impl View for Move {
    type V = MoveV;

    open spec fn view(&self) -> MoveV {
        match *self {
            Move::PCut { block_id, point, position } => MoveV::PCut {
                block: block_id@,
                point,
                pos: position,
            },
            Move::LCut { block_id, orientation, line_no, position } => MoveV::LCut {
                block: block_id@,
                orientation,
                line_no,
                pos: position,
            },
            Move::Color { block_id, color, position } => MoveV::Color {
                block: block_id@,
                color,
                pos: position,
            },
            Move::Swap { block_id_1, block_id_2, position } => MoveV::Swap {
                b1: block_id_1@,
                b2: block_id_2@,
                pos: position,
            },
            Move::Merge { block_id_1, block_id_2, position } => MoveV::Merge {
                b1: block_id_1@,
                b2: block_id_2@,
                pos: position,
            },
        }
    }
}

/// The views of a sequence of moves.
pub open spec fn moves_view(ms: Seq<Move>) -> Seq<MoveV> {
    ms.map_values(|m: Move| m@)
}

} // verus!
