//! The canvas block engine: replays parsed moves against a map from block
//! identifiers to rectangles and a flat pixel buffer, accruing a per-move
//! cost scaled by canvas-to-block area ratio.
//!
//! The whole engine is specified by a mathematical model: `spec_step` gives
//! the outcome of one move on a canvas state (`CanvasV`), and `spec_run`
//! folds it over a move sequence. `Interpreter::interpret` is proved to
//! return exactly what `spec_run` says.

use crate::ast::{spec_within, within, BlockId, Color, Move, MoveV, Orientation, Point};
use crate::token::Position;
use vstd::prelude::*;

verus! {

/// A block's shape: its four corners, axis-aligned. The well-formedness
/// predicate `wf` requires the corners to bound a rectangle of positive area.
#[derive(Debug, Clone, Copy, PartialEq, Eq, Structural)]
pub struct BlockData {
    pub tl: Point,
    pub tr: Point,
    pub bl: Point,
    pub br: Point,
}

/// The axis-aligned rectangle with left edge `l`, right edge `r`, bottom
/// edge `b` and top edge `t`, as four corners.
pub open spec fn mk_rect(l: u64, r: u64, b: u64, t: u64) -> BlockData {
    BlockData {
        tl: Point { x: l, y: t },
        tr: Point { x: r, y: t },
        bl: Point { x: l, y: b },
        br: Point { x: r, y: b },
    }
}

impl BlockData {
    pub open spec fn left(self) -> int {
        self.tl.x as int
    }

    pub open spec fn right(self) -> int {
        self.tr.x as int
    }

    pub open spec fn bottom(self) -> int {
        self.bl.y as int
    }

    pub open spec fn top(self) -> int {
        self.tl.y as int
    }

    /// Axis-aligned with positive width and height: the two left corners
    /// share an x, the two right corners share an x, the two top corners
    /// share a y, the two bottom corners share a y, and the rectangle is
    /// non-degenerate.
    pub open spec fn wf(self) -> bool {
        self.tl.x == self.bl.x && self.tr.x == self.br.x && self.tl.y == self.tr.y
            && self.bl.y == self.br.y && self.left() < self.right() && self.bottom() < self.top()
    }

    /// The block's area: width times height.
    pub open spec fn area(self) -> int {
        (self.right() - self.left()) * (self.top() - self.bottom())
    }

    /// Whether the cell with coordinates `(x, y)` lies in this block:
    /// x in [left, right), y in [bottom, top).
    pub open spec fn contains_cell(self, x: int, y: int) -> bool {
        self.left() <= x < self.right() && self.bottom() <= y < self.top()
    }

    /// How many corners of `rhs` coincide with the point `p`.
    pub open spec fn corner_hits(p: Point, rhs: BlockData) -> int {
        (if p == rhs.tl { 1int } else { 0 }) + (if p == rhs.tr { 1int } else { 0 }) + (if p
            == rhs.br {
            1int
        } else {
            0
        }) + (if p == rhs.bl { 1int } else { 0 })
    }

    /// How many (corner of self, corner of rhs) pairs coincide.
    pub open spec fn common_corners(self, rhs: BlockData) -> int {
        Self::corner_hits(self.tl, rhs) + Self::corner_hits(self.tr, rhs) + Self::corner_hits(
            self.br,
            rhs,
        ) + Self::corner_hits(self.bl, rhs)
    }

    /// Two blocks adjoin when they share at least two corner points.
    pub open spec fn spec_adjoint(self, rhs: BlockData) -> bool {
        self.common_corners(rhs) > 1
    }

    /// The axis-aligned bounding rectangle of the two blocks: least left and
    /// bottom edges, greatest right and top edges.
    pub open spec fn spec_join(self, rhs: BlockData) -> BlockData {
        mk_rect(
            if self.tl.x <= rhs.tl.x {
                self.tl.x
            } else {
                rhs.tl.x
            },
            if self.tr.x >= rhs.tr.x {
                self.tr.x
            } else {
                rhs.tr.x
            },
            if self.bl.y <= rhs.bl.y {
                self.bl.y
            } else {
                rhs.bl.y
            },
            if self.tl.y >= rhs.tl.y {
                self.tl.y
            } else {
                rhs.tl.y
            },
        )
    }

    /// The block's area.
    pub fn size(&self) -> (r: u64)
        requires
            self.wf(),
            self.area() <= u64::MAX,
        ensures
            r == self.area(),
    {
        proof {
            let w = self.right() - self.left();
            let h = self.top() - self.bottom();
            assert(h * w == w * h) by (nonlinear_arith);
        }
        (self.tl.y - self.bl.y) * (self.tr.x - self.tl.x)
    }

    /// Whether the two blocks have equal area.
    pub fn same_shape(&self, rhs: &BlockData) -> (r: bool)
        requires
            self.wf(),
            rhs.wf(),
            self.area() <= u64::MAX,
            rhs.area() <= u64::MAX,
        ensures
            r == (self.area() == rhs.area()),
    {
        self.size() == rhs.size()
    }

    /// Whether the two blocks share at least two corner points.
    pub fn adjoint(&self, rhs: &BlockData) -> (r: bool)
        ensures
            r == self.spec_adjoint(*rhs),
    {
        let mut common: u64 = 0;
        common += Self::hits(self.tl, rhs);
        common += Self::hits(self.tr, rhs);
        common += Self::hits(self.br, rhs);
        common += Self::hits(self.bl, rhs);
        common > 1
    }

    /// How many corners of `rhs` the point `p` coincides with.
    fn hits(p: Point, rhs: &BlockData) -> (r: u64)
        ensures
            r == Self::corner_hits(p, *rhs),
    {
        let mut n: u64 = 0;
        if p == rhs.tl {
            n += 1;
        }
        if p == rhs.tr {
            n += 1;
        }
        if p == rhs.br {
            n += 1;
        }
        if p == rhs.bl {
            n += 1;
        }
        n
    }

    /// The axis-aligned bounding rectangle of the two blocks.
    pub fn join(&self, rhs: &BlockData) -> (r: BlockData)
        requires
            self.wf(),
            rhs.wf(),
        ensures
            r == self.spec_join(*rhs),
            r.wf(),
    {
        let l = if self.tl.x <= rhs.tl.x {
            self.tl.x
        } else {
            rhs.tl.x
        };
        let r_ = if self.tr.x >= rhs.tr.x {
            self.tr.x
        } else {
            rhs.tr.x
        };
        let b = if self.bl.y <= rhs.bl.y {
            self.bl.y
        } else {
            rhs.bl.y
        };
        let t = if self.tl.y >= rhs.tl.y {
            self.tl.y
        } else {
            rhs.tl.y
        };
        BlockData {
            tl: Point { x: l, y: t },
            tr: Point { x: r_, y: t },
            bl: Point { x: l, y: b },
            br: Point { x: r_, y: b },
        }
    }
}

/// A failed move. Each variant carries the source position of the move's
/// keyword; the first three name the offending block or blocks.
#[derive(Debug)]
pub enum InterpreterError {
    /// A cut point or cut line falls on or outside the block's boundary:
    /// the point, the block's (top-left, bottom-right) bounds, the position.
    OutOfBounds(Point, (Point, Point), Position),
    /// The named block is not in the block map.
    BlockNonExistent(BlockId, Position),
    /// Swap or merge applied to blocks of unequal area.
    NotTheSameSize(BlockId, BlockId, Position),
    /// Merge applied to blocks that share fewer than two corner points.
    NotAdjoint(BlockId, BlockId, Position),
}

/// The mathematical shape of an `InterpreterError`, with block identifiers
/// replaced by their paths.
#[verifier::ext_equal]
pub ghost enum ErrV {
    OutOfBounds { point: Point, tl: Point, br: Point, pos: Position },
    BlockNonExistent { block: Seq<u64>, pos: Position },
    NotTheSameSize { b1: Seq<u64>, b2: Seq<u64>, pos: Position },
    NotAdjoint { b1: Seq<u64>, b2: Seq<u64>, pos: Position },
}

impl View for InterpreterError {
    type V = ErrV;

    open spec fn view(&self) -> ErrV {
        match *self {
            InterpreterError::OutOfBounds(point, bounds, pos) => ErrV::OutOfBounds {
                point,
                tl: bounds.0,
                br: bounds.1,
                pos,
            },
            InterpreterError::BlockNonExistent(b, pos) => ErrV::BlockNonExistent {
                block: b@,
                pos,
            },
            InterpreterError::NotTheSameSize(b1, b2, pos) => ErrV::NotTheSameSize {
                b1: b1@,
                b2: b2@,
                pos,
            },
            InterpreterError::NotAdjoint(b1, b2, pos) => ErrV::NotAdjoint {
                b1: b1@,
                b2: b2@,
                pos,
            },
        }
    }
}

/// The abstract canvas state: the live block map keyed by identifier paths,
/// the counter minting fresh top-level identifiers for merge results, the
/// canvas dimensions, and the row-major pixel buffer.
#[verifier::ext_equal]
pub ghost struct CanvasV {
    pub blocks: Map<Seq<u64>, BlockData>,
    pub counter: int,
    pub width: int,
    pub height: int,
    pub pixels: Seq<Color>,
}

impl CanvasV {
    pub open spec fn area(self) -> int {
        self.width * self.height
    }

    /// The state invariant: positive dimensions small enough that ten times
    /// the canvas area fits in a `u64`; a pixel per cell; every block
    /// non-degenerate and within the canvas; every key a non-empty path whose
    /// root segment is below the counter, so that minted identifiers are
    /// always fresh.
    pub open spec fn inv(self) -> bool {
        &&& 1 <= self.width
        &&& 1 <= self.height
        &&& self.width * self.height * 10 <= u64::MAX
        &&& self.pixels.len() == self.width * self.height
        &&& 1 <= self.counter <= u64::MAX
        &&& forall|k: Seq<u64>|
            #[trigger] self.blocks.dom().contains(k) ==> 1 <= k.len() && k[0] < self.counter
                && self.blocks[k].wf() && 0 <= self.blocks[k].left() && 0
                <= self.blocks[k].bottom() && self.blocks[k].right() <= self.width
                && self.blocks[k].top() <= self.height
    }
}

/// The outcome of one move: either the successor state together with the
/// move's base cost and affected block size, or an error.
#[verifier::ext_equal]
pub ghost enum StepR {
    Next { s: CanvasV, base: int, size: int },
    Stop { e: ErrV },
}

/// The outcome of a whole run: the final state and total cost, or the state
/// and accumulated cost at the first failing move together with its error.
#[verifier::ext_equal]
pub ghost enum RunR {
    Done { s: CanvasV, total: int },
    Failed { s: CanvasV, total: int, e: ErrV },
}

/// `a + b` clamped to the `u64` range.
pub open spec fn spec_sat_add(a: u64, b: u64) -> u64 {
    if a + b <= u64::MAX {
        (a + b) as u64
    } else {
        u64::MAX
    }
}

/// Clamp an accumulated cost to the `u64` range.
pub open spec fn sat64(a: int) -> int {
    if a > u64::MAX {
        u64::MAX as int
    } else {
        a
    }
}

/// Whether the row-major pixel index `i` falls inside block `b` on a canvas
/// of the given width.
pub open spec fn pixel_in_rect(width: int, b: BlockData, i: int) -> bool {
    b.contains_cell(i % width, i / width)
}

/// The pixel buffer after recoloring every cell of `b` to `color`.
pub open spec fn paint(pixels: Seq<Color>, width: int, b: BlockData, color: Color) -> Seq<Color> {
    Seq::new(
        pixels.len(),
        |i: int|
            if pixel_in_rect(width, b, i) {
                color
            } else {
                pixels[i]
            },
    )
}

/// The outcome of one move `m` on canvas `c`. This is the semantics of the
/// language, one case per move shape, matching the per-move descriptions on
/// the executable methods of `Interpreter`.
pub open spec fn spec_step(c: CanvasV, m: MoveV) -> StepR {
    match m {
        MoveV::PCut { block, point, pos } => {
            if !c.blocks.dom().contains(block) {
                StepR::Stop { e: ErrV::BlockNonExistent { block, pos } }
            } else {
                let parent = c.blocks[block];
                if !spec_within(point.x, point.y, parent.tl, parent.br) {
                    StepR::Stop {
                        e: ErrV::OutOfBounds { point, tl: parent.tl, br: parent.br, pos },
                    }
                } else {
                    let blocks = c.blocks.remove(block).insert(
                        block.push(0u64),
                        mk_rect(parent.tl.x, point.x, parent.bl.y, point.y),
                    ).insert(block.push(1u64), mk_rect(point.x, parent.tr.x, parent.bl.y, point.y)).insert(
                        block.push(2u64),
                        mk_rect(point.x, parent.tr.x, point.y, parent.tl.y),
                    ).insert(block.push(3u64), mk_rect(parent.tl.x, point.x, point.y, parent.tl.y));
                    StepR::Next { s: CanvasV { blocks, ..c }, base: 10, size: parent.area() }
                }
            }
        },
        MoveV::LCut { block, orientation, line_no, pos } => {
            if !c.blocks.dom().contains(block) {
                StepR::Stop { e: ErrV::BlockNonExistent { block, pos } }
            } else {
                let parent = c.blocks[block];
                match orientation {
                    Orientation::Vertical => {
                        if 1 <= line_no && parent.left() + line_no < parent.right() {
                            let cut = (parent.tl.x + line_no) as u64;
                            let blocks = c.blocks.remove(block).insert(
                                block.push(0u64),
                                mk_rect(parent.tl.x, cut, parent.bl.y, parent.tl.y),
                            ).insert(
                                block.push(1u64),
                                mk_rect(cut, parent.tr.x, parent.bl.y, parent.tl.y),
                            );
                            StepR::Next {
                                s: CanvasV { blocks, ..c },
                                base: 7,
                                size: parent.area(),
                            }
                        } else {
                            StepR::Stop {
                                e: ErrV::OutOfBounds {
                                    point: Point {
                                        x: spec_sat_add(parent.tl.x, line_no),
                                        y: parent.tl.y,
                                    },
                                    tl: parent.tl,
                                    br: parent.br,
                                    pos,
                                },
                            }
                        }
                    },
                    Orientation::Horizontal => {
                        if 1 <= line_no && parent.bottom() + line_no < parent.top() {
                            let cut = (parent.bl.y + line_no) as u64;
                            let blocks = c.blocks.remove(block).insert(
                                block.push(0u64),
                                mk_rect(parent.tl.x, parent.tr.x, parent.bl.y, cut),
                            ).insert(
                                block.push(1u64),
                                mk_rect(parent.tl.x, parent.tr.x, cut, parent.tl.y),
                            );
                            StepR::Next {
                                s: CanvasV { blocks, ..c },
                                base: 7,
                                size: parent.area(),
                            }
                        } else {
                            StepR::Stop {
                                e: ErrV::OutOfBounds {
                                    point: Point {
                                        x: parent.tl.x,
                                        y: spec_sat_add(parent.bl.y, line_no),
                                    },
                                    tl: parent.tl,
                                    br: parent.br,
                                    pos,
                                },
                            }
                        }
                    },
                }
            }
        },
        MoveV::Color { block, color, pos } => {
            if !c.blocks.dom().contains(block) {
                StepR::Stop { e: ErrV::BlockNonExistent { block, pos } }
            } else {
                let parent = c.blocks[block];
                StepR::Next {
                    s: CanvasV { pixels: paint(c.pixels, c.width, parent, color), ..c },
                    base: 5,
                    size: parent.area(),
                }
            }
        },
        MoveV::Swap { b1, b2, pos } => {
            if !c.blocks.dom().contains(b1) {
                StepR::Stop { e: ErrV::BlockNonExistent { block: b1, pos } }
            } else if !c.blocks.dom().contains(b2) {
                StepR::Stop { e: ErrV::BlockNonExistent { block: b2, pos } }
            } else {
                let d1 = c.blocks[b1];
                let d2 = c.blocks[b2];
                if d1.area() != d2.area() {
                    StepR::Stop { e: ErrV::NotTheSameSize { b1, b2, pos } }
                } else {
                    StepR::Next {
                        s: CanvasV { blocks: c.blocks.insert(b1, d2).insert(b2, d1), ..c },
                        base: 3,
                        size: d1.area() + d2.area(),
                    }
                }
            }
        },
        MoveV::Merge { b1, b2, pos } => {
            if !c.blocks.dom().contains(b1) {
                StepR::Stop { e: ErrV::BlockNonExistent { block: b1, pos } }
            } else if !c.blocks.dom().contains(b2) {
                StepR::Stop { e: ErrV::BlockNonExistent { block: b2, pos } }
            } else {
                let d1 = c.blocks[b1];
                let d2 = c.blocks[b2];
                if d1.area() != d2.area() {
                    StepR::Stop { e: ErrV::NotTheSameSize { b1, b2, pos } }
                } else if !d1.spec_adjoint(d2) {
                    StepR::Stop { e: ErrV::NotAdjoint { b1, b2, pos } }
                } else {
                    let fresh = seq![c.counter as u64];
                    let blocks = c.blocks.remove(b1).remove(b2).insert(fresh, d1.spec_join(d2));
                    StepR::Next {
                        s: CanvasV { blocks, counter: c.counter + 1, ..c },
                        base: 1,
                        size: d1.area() + d2.area(),
                    }
                }
            }
        },
    }
}

/// The charged cost of a move: base cost times canvas area over affected
/// block size, in floor integer division.
pub open spec fn step_cost(c: CanvasV, base: int, size: int) -> int {
    base * (c.width * c.height) / size
}

/// Replay `ms` from state `c` with accumulated cost `acc`. Costs accumulate
/// left to right, clamped to the `u64` range at each addition.
pub open spec fn spec_run(c: CanvasV, ms: Seq<MoveV>, acc: int) -> RunR
    decreases ms.len(),
{
    if ms.len() == 0 {
        RunR::Done { s: c, total: acc }
    } else {
        match spec_step(c, ms[0]) {
            StepR::Stop { e } => RunR::Failed { s: c, total: acc, e },
            StepR::Next { s, base, size } => spec_run(
                s,
                ms.drop_first(),
                sat64(acc + step_cost(c, base, size)),
            ),
        }
    }
}

/// The map denoted by an association list of blocks: later entries win,
/// though under `distinct_keys` the order never matters.
pub open spec fn blocks_map(s: Seq<(BlockId, BlockData)>) -> Map<Seq<u64>, BlockData>
    decreases s.len(),
{
    if s.len() == 0 {
        Map::empty()
    } else {
        blocks_map(s.drop_last()).insert(s.last().0@, s.last().1)
    }
}

/// No two entries of the association list share a key path.
pub open spec fn distinct_keys(s: Seq<(BlockId, BlockData)>) -> bool {
    forall|i: int, j: int| 0 <= i < j < s.len() ==> s[i].0@ != s[j].0@
}

proof fn lemma_blocks_map_absent(s: Seq<(BlockId, BlockData)>, k: Seq<u64>)
    requires
        forall|j: int| 0 <= j < s.len() ==> s[j].0@ != k,
    ensures
        !blocks_map(s).dom().contains(k),
    decreases s.len(),
{
    if s.len() > 0 {
        lemma_blocks_map_absent(s.drop_last(), k);
    }
}

proof fn lemma_blocks_map_found(s: Seq<(BlockId, BlockData)>, i: int)
    requires
        distinct_keys(s),
        0 <= i < s.len(),
    ensures
        blocks_map(s).dom().contains(s[i].0@),
        blocks_map(s)[s[i].0@] == s[i].1,
    decreases s.len(),
{
    if i < s.len() - 1 {
        lemma_blocks_map_found(s.drop_last(), i);
    }
}

proof fn lemma_blocks_map_remove(s: Seq<(BlockId, BlockData)>, i: int)
    requires
        distinct_keys(s),
        0 <= i < s.len(),
    ensures
        blocks_map(s.remove(i)) =~= blocks_map(s).remove(s[i].0@),
        distinct_keys(s.remove(i)),
    decreases s.len(),
{
    let k = s[i].0@;
    if i == s.len() - 1 {
        assert(s.remove(i) =~= s.drop_last());
        lemma_blocks_map_absent(s.drop_last(), k);
    } else {
        assert(s.remove(i).drop_last() =~= s.drop_last().remove(i));
        assert(s.remove(i).last() == s.last());
        lemma_blocks_map_remove(s.drop_last(), i);
    }
}

proof fn lemma_blocks_map_update(s: Seq<(BlockId, BlockData)>, i: int, p: (BlockId, BlockData))
    requires
        distinct_keys(s),
        0 <= i < s.len(),
        p.0@ == s[i].0@,
    ensures
        blocks_map(s.update(i, p)) =~= blocks_map(s).insert(p.0@, p.1),
        distinct_keys(s.update(i, p)),
    decreases s.len(),
{
    if i == s.len() - 1 {
        assert(s.update(i, p).drop_last() =~= s.drop_last());
        assert(s.update(i, p).last() == p);
    } else {
        assert(s.update(i, p).drop_last() =~= s.drop_last().update(i, p));
        assert(s.update(i, p).last() == s.last());
        lemma_blocks_map_update(s.drop_last(), i, p);
    }
}

proof fn lemma_blocks_map_push(s: Seq<(BlockId, BlockData)>, p: (BlockId, BlockData))
    ensures
        blocks_map(s.push(p)) =~= blocks_map(s).insert(p.0@, p.1),
    decreases s.len(),
{
    assert(s.push(p).drop_last() =~= s);
    assert(s.push(p).last() == p);
}

/// The interpreter's state: the live blocks as an association list with
/// pairwise distinct keys, the counter minting fresh merge identifiers, the
/// canvas dimensions, and the pixel buffer, row-major, bottom row first.
pub struct Interpreter {
    blocks: Vec<(BlockId, BlockData)>,
    counter: u64,
    width: usize,
    height: usize,
    pixels: Vec<Color>,
}

impl View for Interpreter {
    type V = CanvasV;

    closed spec fn view(&self) -> CanvasV {
        CanvasV {
            blocks: blocks_map(self.blocks@),
            counter: self.counter as int,
            width: self.width as int,
            height: self.height as int,
            pixels: self.pixels@,
        }
    }
}

/// The state a fresh interpreter starts in: one block, `0`, covering the
/// whole canvas; the counter at 1; every pixel opaque white.
pub open spec fn init_canvas(width: int, height: int) -> CanvasV {
    CanvasV {
        blocks: Map::empty().insert(seq![0u64], mk_rect(0, width as u64, 0, height as u64)),
        counter: 1,
        width,
        height,
        pixels: Seq::new((width * height) as nat, |i: int| Color(255, 255, 255, 255)),
    }
}

impl Interpreter {
    /// Distinct store keys together with the abstract state invariant.
    pub closed spec fn wf(&self) -> bool {
        distinct_keys(self.blocks@) && self@.inv()
    }

    /// A fresh interpreter over a `width` by `height` canvas.
    pub fn new(width: usize, height: usize) -> (r: Interpreter)
        requires
            1 <= width,
            1 <= height,
            width * height <= usize::MAX,
            width * height * 10 <= u64::MAX,
        ensures
            r.wf(),
            r@ == init_canvas(width as int, height as int),
    {
        let n = width * height;
        let mut pixels: Vec<Color> = Vec::new();
        let mut i: usize = 0;
        while i < n
            invariant
                i <= n,
                pixels@.len() == i,
                forall|j: int| 0 <= j < i ==> pixels@[j] == Color(255, 255, 255, 255),
            decreases n - i,
        {
            pixels.push(Color(255, 255, 255, 255));
            i += 1;
        }
        let root = BlockData {
            tl: Point { x: 0, y: height as u64 },
            tr: Point { x: width as u64, y: height as u64 },
            bl: Point { x: 0, y: 0 },
            br: Point { x: width as u64, y: 0 },
        };
        let mut blocks: Vec<(BlockId, BlockData)> = Vec::new();
        blocks.push((BlockId::new(0), root));
        let r = Interpreter { blocks, counter: 1, width, height, pixels };
        proof {
            assert(blocks@.drop_last() =~= Seq::<(BlockId, BlockData)>::empty());
            assert(blocks_map(Seq::<(BlockId, BlockData)>::empty()) =~= Map::<
                Seq<u64>,
                BlockData,
            >::empty());
            assert(root == mk_rect(0, width as u64, 0, height as u64));
            assert(r@.blocks =~= init_canvas(width as int, height as int).blocks);
            assert(r@.pixels =~= init_canvas(width as int, height as int).pixels);
            assert(r@ =~= init_canvas(width as int, height as int));
            assert forall|k: Seq<u64>| #[trigger] r@.blocks.dom().contains(k) implies 1 <= k.len()
                && k[0] < r@.counter && r@.blocks[k].wf() && 0 <= r@.blocks[k].left() && 0
                <= r@.blocks[k].bottom() && r@.blocks[k].right() <= r@.width && r@.blocks[k].top()
                <= r@.height by {
                assert(k == seq![0u64]);
            }
        }
        r
    }

    /// The index of the entry whose key path equals `id`'s, if any.
    fn find_block(&self, id: &BlockId) -> (r: Option<usize>)
        ensures
            match r {
                Some(i) => 0 <= i < self.blocks@.len() && self.blocks@[i as int].0@ == id@,
                None => forall|j: int| 0 <= j < self.blocks@.len() ==> self.blocks@[j].0@ != id@,
            },
    {
        let mut i: usize = 0;
        while i < self.blocks.len()
            invariant
                i <= self.blocks@.len(),
                forall|j: int| 0 <= j < i ==> self.blocks@[j].0@ != id@,
            decreases self.blocks@.len() - i,
        {
            if self.blocks[i].0.same(id) {
                return Some(i);
            }
            i += 1;
        }
        None
    }

    /// Look a block up, or report it missing with the move's position.
    fn get_block(&self, block_id: &BlockId, position: &Position) -> (r: Result<
        BlockData,
        InterpreterError,
    >)
        requires
            self.wf(),
        ensures
            match r {
                Ok(b) => self@.blocks.dom().contains(block_id@) && b == self@.blocks[block_id@],
                Err(e) => !self@.blocks.dom().contains(block_id@) && e@ == (ErrV::BlockNonExistent {
                    block: block_id@,
                    pos: *position,
                }),
            },
    {
        match self.find_block(block_id) {
            Some(i) => {
                proof {
                    lemma_blocks_map_found(self.blocks@, i as int);
                }
                Ok(self.blocks[i].1)
            },
            None => {
                proof {
                    lemma_blocks_map_absent(self.blocks@, block_id@);
                }
                Err(InterpreterError::BlockNonExistent(block_id.clone(), *position))
            },
        }
    }

    /// Bind `id` to `data`, replacing any existing binding of the same path.
    fn set_block(&mut self, id: BlockId, data: BlockData)
        requires
            distinct_keys(old(self).blocks@),
        ensures
            distinct_keys(final(self).blocks@),
            final(self)@.blocks == old(self)@.blocks.insert(id@, data),
            final(self)@.counter == old(self)@.counter,
            final(self)@.width == old(self)@.width,
            final(self)@.height == old(self)@.height,
            final(self)@.pixels == old(self)@.pixels,
    {
        match self.find_block(&id) {
            Some(i) => {
                proof {
                    lemma_blocks_map_update(self.blocks@, i as int, (id, data));
                }
                self.blocks.set(i, (id, data));
            },
            None => {
                proof {
                    lemma_blocks_map_push(self.blocks@, (id, data));
                    assert(distinct_keys(self.blocks@.push((id, data))));
                }
                self.blocks.push((id, data));
            },
        }
    }

    /// Drop the binding of `id`'s path, if present.
    fn remove_block(&mut self, id: &BlockId)
        requires
            distinct_keys(old(self).blocks@),
        ensures
            distinct_keys(final(self).blocks@),
            final(self)@.blocks == old(self)@.blocks.remove(id@),
            final(self)@.counter == old(self)@.counter,
            final(self)@.width == old(self)@.width,
            final(self)@.height == old(self)@.height,
            final(self)@.pixels == old(self)@.pixels,
    {
        match self.find_block(id) {
            Some(i) => {
                proof {
                    lemma_blocks_map_remove(self.blocks@, i as int);
                }
                self.blocks.remove(i);
            },
            None => {
                proof {
                    lemma_blocks_map_absent(self.blocks@, id@);
                    assert(old(self)@.blocks.remove(id@) =~= old(self)@.blocks);
                }
            },
        }
    }
}

/// `a + b` clamped to the `u64` range.
fn sat_add(a: u64, b: u64) -> (r: u64)
    ensures
        r == spec_sat_add(a, b),
{
    if a <= u64::MAX - b {
        a + b
    } else {
        u64::MAX
    }
}

proof fn lemma_area_bounds(b: BlockData, w: int, h: int)
    requires
        b.wf(),
        0 <= b.left(),
        0 <= b.bottom(),
        b.right() <= w,
        b.top() <= h,
    ensures
        1 <= b.area() <= w * h,
{
    let dw = b.right() - b.left();
    let dh = b.top() - b.bottom();
    assert(1 <= dw * dh && dw * dh <= w * h) by (nonlinear_arith)
        requires
            1 <= dw,
            1 <= dh,
            dw <= w,
            dh <= h,
    ;
}

/// Facts every successful step obeys: the dimensions are unchanged, the
/// counter grows by at most one, the base cost is one of the five per-move
/// constants, the affected size is positive and at most twice the canvas
/// area, and the cost numerator fits in a `u64`.
pub proof fn lemma_step_props(c: CanvasV, m: MoveV)
    requires
        c.inv(),
    ensures
        spec_step(c, m) matches StepR::Next { s, base, size } ==> s.counter <= c.counter + 1
            && s.width == c.width && s.height == c.height && s.pixels.len() == c.pixels.len() && 1
            <= base <= 10 && 1 <= size <= 2 * c.area() && base * c.area() <= u64::MAX,
{
    let a = c.area();
    assert(1 <= a && a * 10 == c.width * c.height * 10) by (nonlinear_arith)
        requires
            1 <= c.width,
            1 <= c.height,
            a == c.width * c.height,
    ;
    if spec_step(c, m) is Next {
        match m {
            MoveV::PCut { block, point, pos } => {
                lemma_area_bounds(c.blocks[block], c.width, c.height);
            },
            MoveV::LCut { block, orientation, line_no, pos } => {
                lemma_area_bounds(c.blocks[block], c.width, c.height);
            },
            MoveV::Color { block, color, pos } => {
                lemma_area_bounds(c.blocks[block], c.width, c.height);
            },
            MoveV::Swap { b1, b2, pos } => {
                lemma_area_bounds(c.blocks[b1], c.width, c.height);
                lemma_area_bounds(c.blocks[b2], c.width, c.height);
            },
            MoveV::Merge { b1, b2, pos } => {
                lemma_area_bounds(c.blocks[b1], c.width, c.height);
                lemma_area_bounds(c.blocks[b2], c.width, c.height);
            },
        }
        let base = spec_step(c, m)->Next_base;
        assert(base * a <= 10 * a && 10 * a == a * 10) by (nonlinear_arith)
            requires
                1 <= base <= 10,
                1 <= a,
        ;
    }
}

impl Interpreter {
    /// Partition a block into four quadrants around an interior point:
    /// quadrant 0 is bottom-left of the point, 1 bottom-right, 2 top-right,
    /// 3 top-left, each keyed by the parent path with the quadrant number
    /// appended; the parent key is removed. The point must lie strictly
    /// inside the block. Base cost 10, size the parent's area.
    fn exec_pcut(&mut self, block_id: &BlockId, point: Point, position: Position) -> (r: Result<
        (u64, u64),
        InterpreterError,
    >)
        requires
            old(self).wf(),
        ensures
            final(self).wf(),
            match spec_step(old(self)@, MoveV::PCut { block: block_id@, point, pos: position }) {
                StepR::Next { s, base, size } => r matches Ok(p) && p.0 == base && p.1 == size
                    && final(self)@ == s,
                StepR::Stop { e } => r matches Err(x) && x@ == e && final(self)@ == old(self)@,
            },
    {
        let ghost c0 = self@;
        let ghost mv = MoveV::PCut { block: block_id@, point, pos: position };
        let parent = match self.get_block(block_id, &position) {
            Ok(b) => b,
            Err(e) => {
                return Err(e);
            },
        };
        if !within((point.x, point.y), (parent.tl, parent.br)) {
            return Err(InterpreterError::OutOfBounds(point, (parent.tl, parent.br), position));
        }
        proof {
            lemma_area_bounds(parent, c0.width, c0.height);
            assert(c0.area() * 10 == c0.width * c0.height * 10 && c0.area() <= c0.area() * 10)
                by (nonlinear_arith)
                requires
                    1 <= c0.area(),
                    c0.area() == c0.width * c0.height,
            ;
        }
        let size = parent.size();
        let l = parent.tl.x;
        let rr = parent.tr.x;
        let b = parent.bl.y;
        let t = parent.tl.y;
        let q0 = BlockData {
            tl: Point { x: l, y: point.y },
            tr: Point { x: point.x, y: point.y },
            bl: Point { x: l, y: b },
            br: Point { x: point.x, y: b },
        };
        let q1 = BlockData {
            tl: Point { x: point.x, y: point.y },
            tr: Point { x: rr, y: point.y },
            bl: Point { x: point.x, y: b },
            br: Point { x: rr, y: b },
        };
        let q2 = BlockData {
            tl: Point { x: point.x, y: t },
            tr: Point { x: rr, y: t },
            bl: Point { x: point.x, y: point.y },
            br: Point { x: rr, y: point.y },
        };
        let q3 = BlockData {
            tl: Point { x: l, y: t },
            tr: Point { x: point.x, y: t },
            bl: Point { x: l, y: point.y },
            br: Point { x: point.x, y: point.y },
        };
        self.remove_block(block_id);
        self.set_block(BlockId::new_with_prev(block_id, 0), q0);
        self.set_block(BlockId::new_with_prev(block_id, 1), q1);
        self.set_block(BlockId::new_with_prev(block_id, 2), q2);
        self.set_block(BlockId::new_with_prev(block_id, 3), q3);
        proof {
            let s = spec_step(c0, mv)->Next_s;
            assert(q0 == mk_rect(parent.tl.x, point.x, parent.bl.y, point.y));
            assert(q1 == mk_rect(point.x, parent.tr.x, parent.bl.y, point.y));
            assert(q2 == mk_rect(point.x, parent.tr.x, point.y, parent.tl.y));
            assert(q3 == mk_rect(parent.tl.x, point.x, point.y, parent.tl.y));
            assert(self@ =~= s);
            assert forall|k: Seq<u64>| #[trigger] self@.blocks.dom().contains(k) implies 1
                <= k.len() && k[0] < self@.counter && self@.blocks[k].wf() && 0
                <= self@.blocks[k].left() && 0 <= self@.blocks[k].bottom()
                && self@.blocks[k].right() <= self@.width && self@.blocks[k].top()
                <= self@.height by {
                if k == block_id@.push(0u64) || k == block_id@.push(1u64) || k == block_id@.push(
                    2u64,
                ) || k == block_id@.push(3u64) {
                    assert(c0.blocks.dom().contains(block_id@));
                    assert(k[0] == block_id@[0]);
                } else {
                    assert(c0.blocks.dom().contains(k));
                }
            }
        }
        Ok((10, size))
    }

    /// Split a block in two along a line at offset `line_no` from its left
    /// edge (vertical) or bottom edge (horizontal); child 0 adjoins that
    /// edge, child 1 is the rest, each keyed by the parent path with the
    /// child number appended; the parent key is removed. The offset must be
    /// strictly inside the block's span on the cut axis. Base cost 7, size
    /// the parent's area.
    fn exec_lcut(
        &mut self,
        block_id: &BlockId,
        orientation: Orientation,
        line_no: u64,
        position: Position,
    ) -> (r: Result<(u64, u64), InterpreterError>)
        requires
            old(self).wf(),
        ensures
            final(self).wf(),
            match spec_step(
                old(self)@,
                MoveV::LCut { block: block_id@, orientation, line_no, pos: position },
            ) {
                StepR::Next { s, base, size } => r matches Ok(p) && p.0 == base && p.1 == size
                    && final(self)@ == s,
                StepR::Stop { e } => r matches Err(x) && x@ == e && final(self)@ == old(self)@,
            },
    {
        let ghost c0 = self@;
        let ghost mv = MoveV::LCut { block: block_id@, orientation, line_no, pos: position };
        let parent = match self.get_block(block_id, &position) {
            Ok(b) => b,
            Err(e) => {
                return Err(e);
            },
        };
        proof {
            lemma_area_bounds(parent, c0.width, c0.height);
            assert(c0.area() * 10 == c0.width * c0.height * 10 && c0.area() <= c0.area() * 10)
                by (nonlinear_arith)
                requires
                    1 <= c0.area(),
                    c0.area() == c0.width * c0.height,
            ;
        }
        let l = parent.tl.x;
        let rr = parent.tr.x;
        let b = parent.bl.y;
        let t = parent.tl.y;
        let (zero, one) = match orientation {
            Orientation::Vertical => {
                if !(1 <= line_no && line_no < rr - l) {
                    return Err(
                        InterpreterError::OutOfBounds(
                            Point { x: sat_add(l, line_no), y: t },
                            (parent.tl, parent.br),
                            position,
                        ),
                    );
                }
                let cut = l + line_no;
                (
                    BlockData {
                        tl: Point { x: l, y: t },
                        tr: Point { x: cut, y: t },
                        bl: Point { x: l, y: b },
                        br: Point { x: cut, y: b },
                    },
                    BlockData {
                        tl: Point { x: cut, y: t },
                        tr: Point { x: rr, y: t },
                        bl: Point { x: cut, y: b },
                        br: Point { x: rr, y: b },
                    },
                )
            },
            Orientation::Horizontal => {
                if !(1 <= line_no && line_no < t - b) {
                    return Err(
                        InterpreterError::OutOfBounds(
                            Point { x: l, y: sat_add(b, line_no) },
                            (parent.tl, parent.br),
                            position,
                        ),
                    );
                }
                let cut = b + line_no;
                (
                    BlockData {
                        tl: Point { x: l, y: cut },
                        tr: Point { x: rr, y: cut },
                        bl: Point { x: l, y: b },
                        br: Point { x: rr, y: b },
                    },
                    BlockData {
                        tl: Point { x: l, y: t },
                        tr: Point { x: rr, y: t },
                        bl: Point { x: l, y: cut },
                        br: Point { x: rr, y: cut },
                    },
                )
            },
        };
        let size = parent.size();
        self.remove_block(block_id);
        self.set_block(BlockId::new_with_prev(block_id, 0), zero);
        self.set_block(BlockId::new_with_prev(block_id, 1), one);
        proof {
            let s = spec_step(c0, mv)->Next_s;
            assert(self@ =~= s);
            assert forall|k: Seq<u64>| #[trigger] self@.blocks.dom().contains(k) implies 1
                <= k.len() && k[0] < self@.counter && self@.blocks[k].wf() && 0
                <= self@.blocks[k].left() && 0 <= self@.blocks[k].bottom()
                && self@.blocks[k].right() <= self@.width && self@.blocks[k].top()
                <= self@.height by {
                if k == block_id@.push(0u64) || k == block_id@.push(1u64) {
                    assert(c0.blocks.dom().contains(block_id@));
                    assert(k[0] == block_id@[0]);
                } else {
                    assert(c0.blocks.dom().contains(k));
                }
            }
        }
        Ok((7, size))
    }

    /// Set every pixel whose cell lies in the block — x in [left, right),
    /// y in [bottom, top) — to `color`; the block map is unchanged. Base
    /// cost 5, size the block's area.
    fn exec_color(&mut self, block_id: &BlockId, color: Color, position: Position) -> (r: Result<
        (u64, u64),
        InterpreterError,
    >)
        requires
            old(self).wf(),
        ensures
            final(self).wf(),
            match spec_step(old(self)@, MoveV::Color { block: block_id@, color, pos: position }) {
                StepR::Next { s, base, size } => r matches Ok(p) && p.0 == base && p.1 == size
                    && final(self)@ == s,
                StepR::Stop { e } => r matches Err(x) && x@ == e && final(self)@ == old(self)@,
            },
    {
        let ghost c0 = self@;
        let parent = match self.get_block(block_id, &position) {
            Ok(b) => b,
            Err(e) => {
                return Err(e);
            },
        };
        proof {
            lemma_area_bounds(parent, c0.width, c0.height);
            assert(c0.area() * 10 == c0.width * c0.height * 10 && c0.area() <= c0.area() * 10)
                by (nonlinear_arith)
                requires
                    1 <= c0.area(),
                    c0.area() == c0.width * c0.height,
            ;
        }
        let size = parent.size();
        let w = self.width;
        let n = self.pixels.len();
        let mut i: usize = 0;
        while i < n
            invariant
                i <= n,
                w == self.width,
                w >= 1,
                n == self.pixels@.len(),
                self.blocks == old(self).blocks,
                self.counter == old(self).counter,
                self.width == old(self).width,
                self.height == old(self).height,
                forall|j: int|
                    0 <= j < i ==> self.pixels@[j] == (if pixel_in_rect(w as int, parent, j) {
                        color
                    } else {
                        old(self).pixels@[j]
                    }),
                forall|j: int| i <= j < n ==> self.pixels@[j] == old(self).pixels@[j],
            decreases n - i,
        {
            let x = i % w;
            let y = i / w;
            if parent.tl.x <= (x as u64) && (x as u64) < parent.tr.x && parent.bl.y <= (y as u64)
                && (y as u64) < parent.tl.y {
                self.pixels.set(i, color);
            }
            i += 1;
        }
        proof {
            let s = spec_step(c0, MoveV::Color { block: block_id@, color, pos: position })->Next_s;
            assert(self@.pixels =~= paint(c0.pixels, c0.width, parent, color));
            assert(self@ =~= s);
        }
        Ok((5, size))
    }

    /// Exchange the rectangles bound to the two block identifiers; the pixel
    /// buffer is untouched, so the content previously addressable under one
    /// identifier becomes addressable under the other. Both blocks must have
    /// equal area. Base cost 3, size the sum of both areas.
    fn exec_swap(
        &mut self,
        block_id_1: &BlockId,
        block_id_2: &BlockId,
        position: Position,
    ) -> (r: Result<(u64, u64), InterpreterError>)
        requires
            old(self).wf(),
        ensures
            final(self).wf(),
            match spec_step(
                old(self)@,
                MoveV::Swap { b1: block_id_1@, b2: block_id_2@, pos: position },
            ) {
                StepR::Next { s, base, size } => r matches Ok(p) && p.0 == base && p.1 == size
                    && final(self)@ == s,
                StepR::Stop { e } => r matches Err(x) && x@ == e && final(self)@ == old(self)@,
            },
    {
        let ghost c0 = self@;
        let block_1 = match self.get_block(block_id_1, &position) {
            Ok(b) => b,
            Err(e) => {
                return Err(e);
            },
        };
        let block_2 = match self.get_block(block_id_2, &position) {
            Ok(b) => b,
            Err(e) => {
                return Err(e);
            },
        };
        proof {
            lemma_area_bounds(block_1, c0.width, c0.height);
            lemma_area_bounds(block_2, c0.width, c0.height);
            assert(c0.area() * 10 == c0.width * c0.height * 10 && c0.area() + c0.area() <= c0.area()
                * 10) by (nonlinear_arith)
                requires
                    1 <= c0.area(),
                    c0.area() == c0.width * c0.height,
            ;
        }
        if !block_1.same_shape(&block_2) {
            return Err(
                InterpreterError::NotTheSameSize(block_id_1.clone(), block_id_2.clone(), position),
            );
        }
        let size_1 = block_1.size();
        let size_2 = block_2.size();
        self.set_block(block_id_1.clone(), block_2);
        self.set_block(block_id_2.clone(), block_1);
        proof {
            let s = spec_step(
                c0,
                MoveV::Swap { b1: block_id_1@, b2: block_id_2@, pos: position },
            )->Next_s;
            assert(self@ =~= s);
        }
        Ok((3, size_1 + size_2))
    }

    /// Replace two equal-area blocks that share at least two corner points
    /// by their bounding rectangle, keyed by a fresh top-level identifier
    /// minted from the counter; both operand keys are removed and the
    /// counter advances. Base cost 1, size the sum of both areas.
    fn exec_merge(
        &mut self,
        block_id_1: &BlockId,
        block_id_2: &BlockId,
        position: Position,
    ) -> (r: Result<(u64, u64), InterpreterError>)
        requires
            old(self).wf(),
            spec_step(
                old(self)@,
                MoveV::Merge { b1: block_id_1@, b2: block_id_2@, pos: position },
            ) matches StepR::Next { s, .. } ==> s.counter <= u64::MAX,
        ensures
            final(self).wf(),
            match spec_step(
                old(self)@,
                MoveV::Merge { b1: block_id_1@, b2: block_id_2@, pos: position },
            ) {
                StepR::Next { s, base, size } => r matches Ok(p) && p.0 == base && p.1 == size
                    && final(self)@ == s,
                StepR::Stop { e } => r matches Err(x) && x@ == e && final(self)@ == old(self)@,
            },
    {
        let ghost c0 = self@;
        let block_1 = match self.get_block(block_id_1, &position) {
            Ok(b) => b,
            Err(e) => {
                return Err(e);
            },
        };
        let block_2 = match self.get_block(block_id_2, &position) {
            Ok(b) => b,
            Err(e) => {
                return Err(e);
            },
        };
        proof {
            lemma_area_bounds(block_1, c0.width, c0.height);
            lemma_area_bounds(block_2, c0.width, c0.height);
            assert(c0.area() * 10 == c0.width * c0.height * 10 && c0.area() + c0.area() <= c0.area()
                * 10) by (nonlinear_arith)
                requires
                    1 <= c0.area(),
                    c0.area() == c0.width * c0.height,
            ;
        }
        if !block_1.same_shape(&block_2) {
            return Err(
                InterpreterError::NotTheSameSize(block_id_1.clone(), block_id_2.clone(), position),
            );
        }
        if !block_1.adjoint(&block_2) {
            return Err(
                InterpreterError::NotAdjoint(block_id_1.clone(), block_id_2.clone(), position),
            );
        }
        let size_1 = block_1.size();
        let size_2 = block_2.size();
        let new_block = block_1.join(&block_2);
        let new_id = BlockId::new(self.counter);
        self.remove_block(block_id_1);
        self.remove_block(block_id_2);
        self.set_block(new_id, new_block);
        self.counter = self.counter + 1;
        proof {
            let s = spec_step(
                c0,
                MoveV::Merge { b1: block_id_1@, b2: block_id_2@, pos: position },
            )->Next_s;
            assert(self@ =~= s);
            assert forall|k: Seq<u64>| #[trigger] self@.blocks.dom().contains(k) implies 1
                <= k.len() && k[0] < self@.counter && self@.blocks[k].wf() && 0
                <= self@.blocks[k].left() && 0 <= self@.blocks[k].bottom()
                && self@.blocks[k].right() <= self@.width && self@.blocks[k].top()
                <= self@.height by {
                if k == seq![(c0.counter as u64)] {
                } else {
                    assert(c0.blocks.dom().contains(k));
                }
            }
        }
        Ok((1, size_1 + size_2))
    }

    /// Apply one move, returning its base cost and affected size, or the
    /// error that stopped it, in which case the state is unchanged.
    fn execute(&mut self, m: &Move) -> (r: Result<(u64, u64), InterpreterError>)
        requires
            old(self).wf(),
            spec_step(old(self)@, m@) matches StepR::Next { s, .. } ==> s.counter <= u64::MAX,
        ensures
            final(self).wf(),
            match spec_step(old(self)@, m@) {
                StepR::Next { s, base, size } => r matches Ok(p) && p.0 == base && p.1 == size
                    && final(self)@ == s,
                StepR::Stop { e } => r matches Err(x) && x@ == e && final(self)@ == old(self)@,
            },
    {
        match m {
            Move::PCut { block_id, point, position } => self.exec_pcut(
                block_id,
                *point,
                *position,
            ),
            Move::LCut { block_id, orientation, line_no, position } => self.exec_lcut(
                block_id,
                *orientation,
                *line_no,
                *position,
            ),
            Move::Color { block_id, color, position } => self.exec_color(
                block_id,
                *color,
                *position,
            ),
            Move::Swap { block_id_1, block_id_2, position } => self.exec_swap(
                block_id_1,
                block_id_2,
                *position,
            ),
            Move::Merge { block_id_1, block_id_2, position } => self.exec_merge(
                block_id_1,
                block_id_2,
                *position,
            ),
        }
    }

    /// The canvas width in pixels.
    pub fn width(&self) -> (r: usize)
        ensures
            r == self@.width,
    {
        self.width
    }

    /// The canvas height in pixels.
    pub fn height(&self) -> (r: usize)
        ensures
            r == self@.height,
    {
        self.height
    }

    /// The next identifier the counter would mint for a merge result.
    pub fn counter(&self) -> (r: u64)
        ensures
            r == self@.counter,
    {
        self.counter
    }

    /// The color of the pixel at `(x, y)`; y counts up from the bottom row.
    pub fn pixel(&self, x: usize, y: usize) -> (c: Color)
        requires
            self.wf(),
            x < self@.width,
            y < self@.height,
        ensures
            c == self@.pixels[x + y * self@.width],
    {
        let n = self.pixels.len();
        proof {
            let w = self@.width;
            let h = self@.height;
            assert(x + y * w < w * h && y * w <= (h - 1) * w) by (nonlinear_arith)
                requires
                    0 <= x < w,
                    0 <= y < h,
                    1 <= w,
                    1 <= h,
            ;
            assert(n == w * h);
        }
        self.pixels[x + y * self.width]
    }

    /// Replay `moves` in order, accumulating each move's charged cost —
    /// base cost times canvas area over affected block size, floor division,
    /// the sum clamped to the `u64` range — and return the total, or the
    /// first move's error, leaving the state as that move found it. The
    /// result and final state are exactly those of the `spec_run` model.
    ///
    /// Every merge mints one fresh identifier, so the caller leaves the
    /// counter headroom for one identifier per move.
    pub fn interpret(&mut self, moves: &[Move]) -> (r: Result<u64, InterpreterError>)
        requires
            old(self).wf(),
            old(self)@.counter + moves@.len() <= u64::MAX,
        ensures
            final(self).wf(),
            match spec_run(old(self)@, crate::ast::moves_view(moves@), 0) {
                RunR::Done { s, total } => r matches Ok(t) && t == total && final(self)@ == s,
                RunR::Failed { s, total, e } => r matches Err(x) && x@ == e && final(self)@ == s,
            },
    {
        let ghost c0 = self@;
        let ghost mv = crate::ast::moves_view(moves@);
        let canvas_area: u64 = (self.width as u64) * (self.height as u64);
        proof {
            assert(mv.skip(0) =~= mv);
        }
        let mut sum: u64 = 0;
        let mut idx: usize = 0;
        while idx < moves.len()
            invariant
                self.wf(),
                idx <= moves@.len(),
                c0 == old(self)@,
                mv == crate::ast::moves_view(moves@),
                mv.len() == moves@.len(),
                self@.width == c0.width,
                self@.height == c0.height,
                canvas_area == c0.width * c0.height,
                self@.counter + (moves@.len() - idx) <= u64::MAX,
                spec_run(c0, mv, 0) == spec_run(self@, mv.skip(idx as int), sum as int),
            decreases moves@.len() - idx,
        {
            let ghost c_i = self@;
            proof {
                assert(mv.skip(idx as int)[0] == moves@[idx as int]@);
                assert(mv.skip(idx as int).drop_first() =~= mv.skip(idx as int + 1));
                lemma_step_props(c_i, mv.skip(idx as int)[0]);
            }
            let m = &moves[idx];
            match self.execute(m) {
                Err(e) => {
                    proof {
                        let st = spec_step(c_i, mv.skip(idx as int)[0]);
                        assert(spec_run(c_i, mv.skip(idx as int), sum as int) == (RunR::Failed {
                            s: c_i,
                            total: sum as int,
                            e: st->Stop_e,
                        }));
                    }
                    return Err(e);
                },
                Ok((base, size)) => {
                    let cost = base * canvas_area / size;
                    proof {
                        assert(cost == step_cost(c_i, base as int, size as int));
                        assert(spec_run(self@, mv.skip(idx as int + 1), sat64(
                            sum as int + cost as int,
                        )) == spec_run(c_i, mv.skip(idx as int), sum as int));
                    }
                    sum = if sum <= u64::MAX - cost {
                        sum + cost
                    } else {
                        u64::MAX
                    };
                    idx += 1;
                },
            }
        }
        proof {
            assert(mv.skip(moves@.len() as int) =~= Seq::<MoveV>::empty());
        }
        Ok(sum)
    }
}

/// The quadrant `q` (0 bottom-left, 1 bottom-right, 2 top-right, 3 top-left)
/// of `parent` around the interior point `p`.
pub open spec fn pcut_child(parent: BlockData, p: Point, q: int) -> BlockData {
    if q == 0 {
        mk_rect(parent.tl.x, p.x, parent.bl.y, p.y)
    } else if q == 1 {
        mk_rect(p.x, parent.tr.x, parent.bl.y, p.y)
    } else if q == 2 {
        mk_rect(p.x, parent.tr.x, p.y, parent.tl.y)
    } else {
        mk_rect(parent.tl.x, p.x, p.y, parent.tl.y)
    }
}

/// A point cut on a block of area A at an interior point always yields four
/// child blocks, keyed by the parent path with the quadrant number appended,
/// whose areas sum to A and whose rectangles exactly tile the parent: every
/// cell of the parent lies in exactly one child. The parent key is removed.
pub proof fn lemma_pcut_partition(c: CanvasV, id: Seq<u64>, p: Point, pos: Position)
    requires
        c.inv(),
        spec_step(c, MoveV::PCut { block: id, point: p, pos }) is Next,
    ensures
        ({
            let parent = c.blocks[id];
            let s = spec_step(c, MoveV::PCut { block: id, point: p, pos })->Next_s;
            &&& !s.blocks.dom().contains(id)
            &&& forall|q: int|
                0 <= q < 4 ==> #[trigger] s.blocks.dom().contains(id.push(q as u64))
                    && s.blocks[id.push(q as u64)] == pcut_child(parent, p, q)
            &&& pcut_child(parent, p, 0).area() + pcut_child(parent, p, 1).area() + pcut_child(
                parent,
                p,
                2,
            ).area() + pcut_child(parent, p, 3).area() == parent.area()
            &&& forall|x: int, y: int|
                #[trigger] parent.contains_cell(x, y) <==> (pcut_child(parent, p, 0).contains_cell(
                    x,
                    y,
                ) || pcut_child(parent, p, 1).contains_cell(x, y) || pcut_child(
                    parent,
                    p,
                    2,
                ).contains_cell(x, y) || pcut_child(parent, p, 3).contains_cell(x, y))
            &&& forall|x: int, y: int, q1: int, q2: int|
                0 <= q1 < 4 && 0 <= q2 < 4 && q1 != q2 ==> !(#[trigger] pcut_child(
                    parent,
                    p,
                    q1,
                ).contains_cell(x, y) && #[trigger] pcut_child(parent, p, q2).contains_cell(x, y))
        }),
{
    let parent = c.blocks[id];
    let l = parent.left();
    let r = parent.right();
    let b = parent.bottom();
    let t = parent.top();
    let px = p.x as int;
    let py = p.y as int;
    assert((px - l) * (py - b) + (r - px) * (py - b) + (r - px) * (t - py) + (px - l) * (t - py)
        == (r - l) * (t - b)) by (nonlinear_arith)
        requires
            l < px < r,
            b < py < t,
    ;
    let s = spec_step(c, MoveV::PCut { block: id, point: p, pos })->Next_s;
    assert forall|q: int| 0 <= q < 4 implies #[trigger] s.blocks.dom().contains(id.push(q as u64))
        && s.blocks[id.push(q as u64)] == pcut_child(parent, p, q) by {
        assert(id.push(0u64)[id.len() as int] == 0u64);
        assert(id.push(1u64)[id.len() as int] == 1u64);
        assert(id.push(2u64)[id.len() as int] == 2u64);
        assert(id.push(3u64)[id.len() as int] == 3u64);
    }
    assert(id.push(3u64)[id.len() as int] == 3u64);
    assert(!s.blocks.dom().contains(id)) by {
        assert(id.push(0u64).len() == id.len() + 1);
    }
}

/// A point on or outside the block's boundary never cuts: the step stops
/// with an out-of-bounds error carrying the point and the block's bounds.
pub proof fn lemma_pcut_out_of_bounds(c: CanvasV, id: Seq<u64>, p: Point, pos: Position)
    requires
        c.blocks.dom().contains(id),
        !spec_within(p.x, p.y, c.blocks[id].tl, c.blocks[id].br),
    ensures
        spec_step(c, MoveV::PCut { block: id, point: p, pos }) == (StepR::Stop {
            e: ErrV::OutOfBounds { point: p, tl: c.blocks[id].tl, br: c.blocks[id].br, pos },
        }),
{
}

/// The half of `parent` at offset `n` from the reference edge: for a
/// vertical cut, child 0 is the left part of width `n` and child 1 the
/// rest; for a horizontal cut, child 0 is the bottom part of height `n`.
pub open spec fn lcut_child(parent: BlockData, orientation: Orientation, n: u64, q: int) -> BlockData {
    match orientation {
        Orientation::Vertical => {
            let cut = (parent.tl.x + n) as u64;
            if q == 0 {
                mk_rect(parent.tl.x, cut, parent.bl.y, parent.tl.y)
            } else {
                mk_rect(cut, parent.tr.x, parent.bl.y, parent.tl.y)
            }
        },
        Orientation::Horizontal => {
            let cut = (parent.bl.y + n) as u64;
            if q == 0 {
                mk_rect(parent.tl.x, parent.tr.x, parent.bl.y, cut)
            } else {
                mk_rect(parent.tl.x, parent.tr.x, cut, parent.tl.y)
            }
        },
    }
}

/// A line cut, in either orientation, always yields two child blocks whose
/// areas sum to the parent's area and whose rectangles exactly partition the
/// parent. The parent key is removed.
pub proof fn lemma_lcut_partition(
    c: CanvasV,
    id: Seq<u64>,
    orientation: Orientation,
    n: u64,
    pos: Position,
)
    requires
        c.inv(),
        spec_step(c, MoveV::LCut { block: id, orientation, line_no: n, pos }) is Next,
    ensures
        ({
            let parent = c.blocks[id];
            let s = spec_step(c, MoveV::LCut { block: id, orientation, line_no: n, pos })->Next_s;
            &&& !s.blocks.dom().contains(id)
            &&& s.blocks.dom().contains(id.push(0u64)) && s.blocks[id.push(0u64)] == lcut_child(
                parent,
                orientation,
                n,
                0,
            )
            &&& s.blocks.dom().contains(id.push(1u64)) && s.blocks[id.push(1u64)] == lcut_child(
                parent,
                orientation,
                n,
                1,
            )
            &&& lcut_child(parent, orientation, n, 0).area() + lcut_child(
                parent,
                orientation,
                n,
                1,
            ).area() == parent.area()
            &&& forall|x: int, y: int|
                #[trigger] parent.contains_cell(x, y) <==> (lcut_child(
                    parent,
                    orientation,
                    n,
                    0,
                ).contains_cell(x, y) || lcut_child(parent, orientation, n, 1).contains_cell(x, y))
            &&& forall|x: int, y: int|
                !(#[trigger] lcut_child(parent, orientation, n, 0).contains_cell(x, y)
                    && #[trigger] lcut_child(parent, orientation, n, 1).contains_cell(x, y))
        }),
{
    let parent = c.blocks[id];
    let l = parent.left();
    let r = parent.right();
    let b = parent.bottom();
    let t = parent.top();
    let ni = n as int;
    match orientation {
        Orientation::Vertical => {
            assert(ni * (t - b) + (r - l - ni) * (t - b) == (r - l) * (t - b)) by (nonlinear_arith)
                requires
                    1 <= ni,
                    l + ni < r,
                    b < t,
            ;
        },
        Orientation::Horizontal => {
            assert((r - l) * ni + (r - l) * (t - b - ni) == (r - l) * (t - b)) by (nonlinear_arith)
                requires
                    1 <= ni,
                    b + ni < t,
                    l < r,
            ;
        },
    }
    assert(id.push(0u64)[id.len() as int] == 0u64);
    assert(id.push(1u64)[id.len() as int] == 1u64);
    assert(id.push(0u64).len() == id.len() + 1);
}

/// A line offset of zero, or at or beyond the block's extent on the cut
/// axis, never cuts: the step stops with an out-of-bounds error.
pub proof fn lemma_lcut_out_of_bounds(
    c: CanvasV,
    id: Seq<u64>,
    orientation: Orientation,
    n: u64,
    pos: Position,
)
    requires
        c.blocks.dom().contains(id),
        ({
            let parent = c.blocks[id];
            match orientation {
                Orientation::Vertical => !(1 <= n && parent.left() + n < parent.right()),
                Orientation::Horizontal => !(1 <= n && parent.bottom() + n < parent.top()),
            }
        }),
    ensures
        spec_step(c, MoveV::LCut { block: id, orientation, line_no: n, pos }) is Stop,
        spec_step(c, MoveV::LCut { block: id, orientation, line_no: n, pos })->Stop_e is OutOfBounds,
{
}

/// Merge succeeds exactly when both operands exist, have equal area, and
/// share at least two corner points; each failing condition stops the step
/// with its named error and no state change. On success both operand keys
/// are removed and the bounding rectangle is inserted under a fresh
/// top-level key — one the block map did not contain.
pub proof fn lemma_merge_conditions(c: CanvasV, id1: Seq<u64>, id2: Seq<u64>, pos: Position)
    requires
        c.inv(),
    ensures
        spec_step(c, MoveV::Merge { b1: id1, b2: id2, pos }) is Next <==> (c.blocks.dom().contains(
            id1,
        ) && c.blocks.dom().contains(id2) && c.blocks[id1].area() == c.blocks[id2].area()
            && c.blocks[id1].spec_adjoint(c.blocks[id2])),
        !c.blocks.dom().contains(id1) ==> spec_step(c, MoveV::Merge { b1: id1, b2: id2, pos })
            == (StepR::Stop { e: ErrV::BlockNonExistent { block: id1, pos } }),
        c.blocks.dom().contains(id1) && !c.blocks.dom().contains(id2) ==> spec_step(
            c,
            MoveV::Merge { b1: id1, b2: id2, pos },
        ) == (StepR::Stop { e: ErrV::BlockNonExistent { block: id2, pos } }),
        c.blocks.dom().contains(id1) && c.blocks.dom().contains(id2) && c.blocks[id1].area()
            != c.blocks[id2].area() ==> spec_step(c, MoveV::Merge { b1: id1, b2: id2, pos })
            == (StepR::Stop { e: ErrV::NotTheSameSize { b1: id1, b2: id2, pos } }),
        c.blocks.dom().contains(id1) && c.blocks.dom().contains(id2) && c.blocks[id1].area()
            == c.blocks[id2].area() && !c.blocks[id1].spec_adjoint(c.blocks[id2]) ==> spec_step(
            c,
            MoveV::Merge { b1: id1, b2: id2, pos },
        ) == (StepR::Stop { e: ErrV::NotAdjoint { b1: id1, b2: id2, pos } }),
        spec_step(c, MoveV::Merge { b1: id1, b2: id2, pos }) matches StepR::Next { s, .. }
            ==> !c.blocks.dom().contains(seq![(c.counter as u64)]) && s.blocks
            == c.blocks.remove(id1).remove(id2).insert(
            seq![(c.counter as u64)],
            c.blocks[id1].spec_join(c.blocks[id2]),
        ) && s.counter == c.counter + 1,
{
    if c.blocks.dom().contains(seq![(c.counter as u64)]) {
        assert(seq![(c.counter as u64)][0] < c.counter);
    }
}

/// The charged cost of a successful swap is `3 * canvas_area / (a1 + a2)`
/// in floor integer division, where `a1` and `a2` are the operands' areas.
pub proof fn lemma_swap_cost(c: CanvasV, id1: Seq<u64>, id2: Seq<u64>, pos: Position)
    requires
        c.inv(),
        spec_step(c, MoveV::Swap { b1: id1, b2: id2, pos }) is Next,
    ensures
        ({
            let st = spec_step(c, MoveV::Swap { b1: id1, b2: id2, pos });
            spec_run(c, seq![MoveV::Swap { b1: id1, b2: id2, pos }], 0) == (RunR::Done {
                s: st->Next_s,
                total: sat64(3 * c.area() / (c.blocks[id1].area() + c.blocks[id2].area())),
            })
        }),
{
    let m = MoveV::Swap { b1: id1, b2: id2, pos };
    let st = spec_step(c, m);
    let acc = sat64(0 + step_cost(c, st->Next_base, st->Next_size));
    assert(seq![m][0] == m);
    assert(seq![m].drop_first() =~= Seq::<MoveV>::empty());
    assert(spec_run(st->Next_s, Seq::<MoveV>::empty(), acc) == (RunR::Done {
        s: st->Next_s,
        total: acc,
    }));
    assert(st->Next_base == 3 && st->Next_size == c.blocks[id1].area() + c.blocks[id2].area());
}

/// The charged cost of a successful merge is `1 * canvas_area / (a1 + a2)`
/// in floor integer division, where `a1` and `a2` are the operands' areas.
pub proof fn lemma_merge_cost(c: CanvasV, id1: Seq<u64>, id2: Seq<u64>, pos: Position)
    requires
        c.inv(),
        spec_step(c, MoveV::Merge { b1: id1, b2: id2, pos }) is Next,
    ensures
        ({
            let st = spec_step(c, MoveV::Merge { b1: id1, b2: id2, pos });
            spec_run(c, seq![MoveV::Merge { b1: id1, b2: id2, pos }], 0) == (RunR::Done {
                s: st->Next_s,
                total: sat64(1 * c.area() / (c.blocks[id1].area() + c.blocks[id2].area())),
            })
        }),
{
    let m = MoveV::Merge { b1: id1, b2: id2, pos };
    let st = spec_step(c, m);
    let acc = sat64(0 + step_cost(c, st->Next_base, st->Next_size));
    assert(seq![m][0] == m);
    assert(seq![m].drop_first() =~= Seq::<MoveV>::empty());
    assert(spec_run(st->Next_s, Seq::<MoveV>::empty(), acc) == (RunR::Done {
        s: st->Next_s,
        total: acc,
    }));
    assert(st->Next_base == 1 && st->Next_size == c.blocks[id1].area() + c.blocks[id2].area());
}

} // verus!
