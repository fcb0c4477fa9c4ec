//! Batch the pixels to be rendered into pixel rows and pixel blocks.
//!
//! A pixel row is a run of horizontally contiguous pixels on one display
//! row; a pixel block is a run of vertically contiguous rows that share one
//! column span. Grouping pixels this way lets a whole rectangle be sent to
//! the display in a single bounded write transaction.
//!
//! The grouping is greedy with a three-way boundary rule: a run is flushed
//! when the next input is not adjacent, when the bounded buffer capacity is
//! reached, and once more at end of input. `rows_spec` and `blocks_spec`
//! state the rule mathematically; the executable batchers are proved to
//! produce exactly those groupings, and the coverage lemmas prove that the
//! groupings only group — they never drop, invent or reorder a pixel.

use vstd::prelude::*;

use crate::bounded::BlockColors;
use crate::bounded::CAP_BLOCK;
use crate::bounded::CAP_ROW;
use crate::bounded::RowColors;
use crate::bounded::block_colors_clear;
use crate::bounded::block_colors_clone;
use crate::bounded::block_colors_extend;
use crate::bounded::block_colors_model;
use crate::bounded::block_colors_new;
use crate::bounded::row_colors_clear;
use crate::bounded::row_colors_clone;
use crate::bounded::row_colors_model;
use crate::bounded::row_colors_new;
use crate::bounded::row_colors_push;

verus! {

/// One pixel to be rendered: device coordinates and a packed 16-bit colour.
#[derive(Clone, Copy, PartialEq, Eq, Structural, Debug)]
pub struct Pixel {
    /// Column number
    pub x: u16,
    /// Row number
    pub y: u16,
    /// Packed RGB565 colour word
    pub color: u16,
}

/// A row of contiguous pixels.
pub struct PixelRow {
    /// Start column number
    pub x_left: u16,
    /// End column number
    pub x_right: u16,
    /// Row number
    pub y: u16,
    /// Pixel colours of the row, leftmost first
    pub colors: RowColors,
}

/// A block of contiguous pixel rows with the same start and end column.
pub struct PixelBlock {
    /// Start column number
    pub x_left: u16,
    /// End column number
    pub x_right: u16,
    /// Start row number
    pub y_top: u16,
    /// End row number
    pub y_bottom: u16,
    /// Pixel colours of the block, row by row from the top
    pub colors: BlockColors,
}

/// Mathematical model of a pixel row.
#[verifier::ext_equal]
pub struct RowModel {
    pub x_left: u16,
    pub x_right: u16,
    pub y: u16,
    pub colors: Seq<u16>,
}

/// Mathematical model of a pixel block.
#[verifier::ext_equal]
pub struct BlockModel {
    pub x_left: u16,
    pub x_right: u16,
    pub y_top: u16,
    pub y_bottom: u16,
    pub colors: Seq<u16>,
}

impl View for PixelRow {
    type V = RowModel;

    open spec fn view(&self) -> RowModel {
        RowModel {
            x_left: self.x_left,
            x_right: self.x_right,
            y: self.y,
            colors: row_colors_model(self.colors),
        }
    }
}

impl View for PixelBlock {
    type V = BlockModel;

    open spec fn view(&self) -> BlockModel {
        BlockModel {
            x_left: self.x_left,
            x_right: self.x_right,
            y_top: self.y_top,
            y_bottom: self.y_bottom,
            colors: block_colors_model(self.colors),
        }
    }
}

impl RowModel {
    /// The shape invariant of an emitted row: the colour count matches the
    /// inclusive column span.
    pub open spec fn wf(self) -> bool {
        &&& self.x_left <= self.x_right
        &&& self.colors.len() == self.x_right - self.x_left + 1
        &&& self.colors.len() <= CAP_ROW
    }

    /// The pixels a row stands for: colour `j` sits at column `x_left + j`.
    pub open spec fn pixels(self) -> Seq<Pixel> {
        Seq::new(
            self.colors.len(),
            |j: int| Pixel { x: (self.x_left + j) as u16, y: self.y, color: self.colors[j] },
        )
    }
}

impl BlockModel {
    /// The shape invariant of an emitted block: the colour count is the
    /// area of the inclusive rectangle.
    pub open spec fn wf(self) -> bool {
        &&& self.x_left <= self.x_right
        &&& self.y_top <= self.y_bottom
        &&& self.colors.len() == (self.x_right - self.x_left + 1) * (self.y_bottom - self.y_top
            + 1)
        &&& self.colors.len() <= CAP_BLOCK
    }

    /// The width of the block's column span.
    pub open spec fn width(self) -> int {
        self.x_right - self.x_left + 1
    }

    /// The rows a block stands for, top first: row `i` holds the `i`-th
    /// width-sized slice of the block's colours.
    pub open spec fn rows(self) -> Seq<RowModel> {
        Seq::new(
            (self.y_bottom - self.y_top + 1) as nat,
            |i: int| RowModel {
                x_left: self.x_left,
                x_right: self.x_right,
                y: (self.y_top + i) as u16,
                colors: self.colors.subrange(i * self.width(), (i + 1) * self.width()),
            },
        )
    }
}

/// The one-pixel row started by `p`.
pub open spec fn row_start(p: Pixel) -> RowModel {
    RowModel { x_left: p.x, x_right: p.x, y: p.y, colors: seq![p.color] }
}

/// Whether pixel `p` extends the accumulating row `r` under capacity `cap`:
/// same display row, exactly one column to the right, and room left.
pub open spec fn row_accepts(r: RowModel, p: Pixel, cap: nat) -> bool {
    &&& p.y == r.y
    &&& p.x == r.x_right + 1
    &&& r.colors.len() < cap
}

/// The row `r` extended to the right by pixel `p`.
pub open spec fn row_extend(r: RowModel, p: Pixel) -> RowModel {
    RowModel { x_right: p.x, colors: r.colors.push(p.color), ..r }
}

/// The rows emitted for the remaining input `ps` while `r` is accumulating.
pub open spec fn rows_from(r: RowModel, ps: Seq<Pixel>, cap: nat) -> Seq<RowModel>
    decreases ps.len(),
{
    if ps.len() == 0 {
        seq![r]
    } else if row_accepts(r, ps[0], cap) {
        rows_from(row_extend(r, ps[0]), ps.drop_first(), cap)
    } else {
        seq![r] + rows_from(row_start(ps[0]), ps.drop_first(), cap)
    }
}

/// The greedy grouping of a pixel sequence into rows under capacity `cap`.
pub open spec fn rows_spec(ps: Seq<Pixel>, cap: nat) -> Seq<RowModel> {
    if ps.len() == 0 {
        Seq::empty()
    } else {
        rows_from(row_start(ps[0]), ps.drop_first(), cap)
    }
}

/// Batches a pixel stream into pixel rows: contiguous pixels on the same row.
pub struct RowBatcher {
    /// Capacity bound for one row, at most `CAP_ROW`
    cap: usize,
    /// True if no pixel of the next row has been seen yet
    first: bool,
    /// Start column number
    x_left: u16,
    /// End column number
    x_right: u16,
    /// Row number
    y: u16,
    /// Pixel colours accumulated so far
    colors: RowColors,
}

impl RowBatcher {
    /// Internal consistency of the accumulating state.
    pub closed spec fn wf(self) -> bool {
        &&& 1 <= self.cap <= CAP_ROW
        &&& (self.first ==> row_colors_model(self.colors).len() == 0)
        &&& (!self.first ==> {
            &&& self.x_left <= self.x_right
            &&& row_colors_model(self.colors).len() == self.x_right - self.x_left + 1
            &&& row_colors_model(self.colors).len() <= self.cap
        })
    }

    /// The capacity bound this batcher was created with.
    pub closed spec fn capacity(self) -> nat {
        self.cap as nat
    }

    /// The row accumulated so far, if any pixel has been seen.
    pub closed spec fn pending(self) -> Option<RowModel> {
        if self.first {
            None
        } else {
            Some(
                RowModel {
                    x_left: self.x_left,
                    x_right: self.x_right,
                    y: self.y,
                    colors: row_colors_model(self.colors),
                },
            )
        }
    }

    /// A fresh batcher whose rows hold at most `cap` pixels.
    pub fn with_cap(cap: usize) -> (r: RowBatcher)
        requires
            1 <= cap <= CAP_ROW,
        ensures
            r.wf(),
            r.capacity() == cap,
            r.pending() is None,
    {
        RowBatcher { cap, first: true, x_left: 0, x_right: 0, y: 0, colors: row_colors_new() }
    }

    /// A fresh batcher with the full row capacity.
    pub fn new() -> (r: RowBatcher)
        ensures
            r.wf(),
            r.capacity() == CAP_ROW,
            r.pending() is None,
    {
        RowBatcher::with_cap(CAP_ROW)
    }

    /// Feed one pixel. If it does not extend the accumulating row, that row
    /// is emitted and the pixel starts a new one.
    pub fn push(&mut self, p: Pixel) -> (emitted: Option<PixelRow>)
        requires
            old(self).wf(),
        ensures
            final(self).wf(),
            final(self).capacity() == old(self).capacity(),
            match old(self).pending() {
                None => emitted is None && final(self).pending() == Some(row_start(p)),
                Some(r) => if row_accepts(r, p, old(self).capacity()) {
                    emitted is None && final(self).pending() == Some(row_extend(r, p))
                } else {
                    emitted matches Some(row) && row@ == r && final(self).pending() == Some(
                        row_start(p),
                    )
                },
            },
    {
        if self.first {
            self.first = false;
            self.x_left = p.x;
            self.x_right = p.x;
            self.y = p.y;
            row_colors_clear(&mut self.colors);
            row_colors_push(&mut self.colors, p.color);
            proof {
                assert(final(self).pending() == Some(row_start(p))) by {
                    assert(row_colors_model(self.colors) =~= seq![p.color]);
                }
            }
            None
        } else {
            let len: usize = (self.x_right - self.x_left) as usize + 1;
            if p.y == self.y && p.x as u32 == self.x_right as u32 + 1 && len < self.cap {
                row_colors_push(&mut self.colors, p.color);
                self.x_right = p.x;
                None
            } else {
                let row = PixelRow {
                    x_left: self.x_left,
                    x_right: self.x_right,
                    y: self.y,
                    colors: row_colors_clone(&self.colors),
                };
                self.x_left = p.x;
                self.x_right = p.x;
                self.y = p.y;
                row_colors_clear(&mut self.colors);
                row_colors_push(&mut self.colors, p.color);
                proof {
                    assert(row_colors_model(self.colors) =~= seq![p.color]);
                }
                Some(row)
            }
        }
    }

    /// End of input: emit the partially accumulated row, if any.
    pub fn flush(&mut self) -> (emitted: Option<PixelRow>)
        requires
            old(self).wf(),
        ensures
            final(self).wf(),
            final(self).capacity() == old(self).capacity(),
            final(self).pending() is None,
            match old(self).pending() {
                None => emitted is None,
                Some(r) => emitted matches Some(row) && row@ == r,
            },
    {
        if self.first {
            None
        } else {
            let row = PixelRow {
                x_left: self.x_left,
                x_right: self.x_right,
                y: self.y,
                colors: row_colors_clone(&self.colors),
            };
            self.first = true;
            row_colors_clear(&mut self.colors);
            Some(row)
        }
    }
}

/// The one-row block started by `r`.
pub open spec fn block_start(r: RowModel) -> BlockModel {
    BlockModel { x_left: r.x_left, x_right: r.x_right, y_top: r.y, y_bottom: r.y, colors: r.colors }
}

/// Whether row `r` extends the accumulating block `b` under capacity `cap`:
/// exactly one display row below, the same column span at both ends, and
/// room for the whole row.
pub open spec fn block_accepts(b: BlockModel, r: RowModel, cap: nat) -> bool {
    &&& r.y == b.y_bottom + 1
    &&& r.x_left == b.x_left
    &&& r.x_right == b.x_right
    &&& b.colors.len() + r.colors.len() <= cap
}

/// The block `b` extended downward by row `r`.
pub open spec fn block_extend(b: BlockModel, r: RowModel) -> BlockModel {
    BlockModel { y_bottom: r.y, colors: b.colors + r.colors, ..b }
}

/// The blocks emitted for the remaining input `rs` while `b` is accumulating.
pub open spec fn blocks_from(b: BlockModel, rs: Seq<RowModel>, cap: nat) -> Seq<BlockModel>
    decreases rs.len(),
{
    if rs.len() == 0 {
        seq![b]
    } else if block_accepts(b, rs[0], cap) {
        blocks_from(block_extend(b, rs[0]), rs.drop_first(), cap)
    } else {
        seq![b] + blocks_from(block_start(rs[0]), rs.drop_first(), cap)
    }
}

/// The greedy grouping of a row sequence into blocks under capacity `cap`.
pub open spec fn blocks_spec(rs: Seq<RowModel>, cap: nat) -> Seq<BlockModel> {
    if rs.len() == 0 {
        Seq::empty()
    } else {
        blocks_from(block_start(rs[0]), rs.drop_first(), cap)
    }
}

/// Batches a pixel-row stream into pixel blocks: contiguous rows with the
/// same start and end column.
pub struct BlockBatcher {
    /// Capacity bound for one block, at most `CAP_BLOCK`
    cap: usize,
    /// True if no row of the next block has been seen yet
    first: bool,
    /// Start column number
    x_left: u16,
    /// End column number
    x_right: u16,
    /// Start row number
    y_top: u16,
    /// End row number
    y_bottom: u16,
    /// Pixel colours accumulated so far, row by row
    colors: BlockColors,
}

impl BlockBatcher {
    /// Internal consistency of the accumulating state.
    pub closed spec fn wf(self) -> bool {
        &&& 1 <= self.cap <= CAP_BLOCK
        &&& (self.first ==> block_colors_model(self.colors).len() == 0)
        &&& (!self.first ==> {
            &&& self.x_left <= self.x_right
            &&& self.y_top <= self.y_bottom
            &&& block_colors_model(self.colors).len() == (self.x_right - self.x_left + 1) * (
            self.y_bottom - self.y_top + 1)
            &&& block_colors_model(self.colors).len() <= CAP_BLOCK
        })
    }

    /// The capacity bound this batcher was created with.
    pub closed spec fn capacity(self) -> nat {
        self.cap as nat
    }

    /// The block accumulated so far, if any row has been seen.
    pub closed spec fn pending(self) -> Option<BlockModel> {
        if self.first {
            None
        } else {
            Some(
                BlockModel {
                    x_left: self.x_left,
                    x_right: self.x_right,
                    y_top: self.y_top,
                    y_bottom: self.y_bottom,
                    colors: block_colors_model(self.colors),
                },
            )
        }
    }

    /// A fresh batcher whose blocks hold at most `cap` pixels.
    pub fn with_cap(cap: usize) -> (r: BlockBatcher)
        requires
            1 <= cap <= CAP_BLOCK,
        ensures
            r.wf(),
            r.capacity() == cap,
            r.pending() is None,
    {
        BlockBatcher {
            cap,
            first: true,
            x_left: 0,
            x_right: 0,
            y_top: 0,
            y_bottom: 0,
            colors: block_colors_new(),
        }
    }

    /// A fresh batcher with the full block capacity.
    pub fn new() -> (r: BlockBatcher)
        ensures
            r.wf(),
            r.capacity() == CAP_BLOCK,
            r.pending() is None,
    {
        BlockBatcher::with_cap(CAP_BLOCK)
    }

    /// Feed one row. If it does not extend the accumulating block, that
    /// block is emitted and the row starts a new one.
    pub fn push(&mut self, row: &PixelRow) -> (emitted: Option<PixelBlock>)
        requires
            old(self).wf(),
            row@.wf(),
        ensures
            final(self).wf(),
            final(self).capacity() == old(self).capacity(),
            match old(self).pending() {
                None => emitted is None && final(self).pending() == Some(block_start(row@)),
                Some(b) => if block_accepts(b, row@, old(self).capacity()) {
                    emitted is None && final(self).pending() == Some(block_extend(b, row@))
                } else {
                    emitted matches Some(blk) && blk@ == b && final(self).pending() == Some(
                        block_start(row@),
                    )
                },
            },
    {
        let row_len: usize = (row.x_right - row.x_left) as usize + 1;
        if self.first {
            self.first = false;
            self.x_left = row.x_left;
            self.x_right = row.x_right;
            self.y_top = row.y;
            self.y_bottom = row.y;
            block_colors_clear(&mut self.colors);
            block_colors_extend(&mut self.colors, &row.colors);
            proof {
                assert(final(self).pending() == Some(block_start(row@))) by {
                    assert(block_colors_model(self.colors) =~= row@.colors);
                }
                let w: int = self.x_right - self.x_left + 1;
                assert(w * 1 == w) by (nonlinear_arith);
            }
            None
        } else {
            let width: u64 = (self.x_right - self.x_left) as u64 + 1;
            let height: u64 = (self.y_bottom - self.y_top) as u64 + 1;
            let len: u64 = width * height;
            if row.y as u32 == self.y_bottom as u32 + 1 && row.x_left == self.x_left
                && row.x_right == self.x_right && len + row_len as u64 <= self.cap as u64 {
                block_colors_extend(&mut self.colors, &row.colors);
                self.y_bottom = row.y;
                proof {
                    assert((self.x_right - self.x_left + 1) * (self.y_bottom - self.y_top + 1)
                        == (self.x_right - self.x_left + 1) * (self.y_bottom - 1 - self.y_top + 1)
                        + (self.x_right - self.x_left + 1)) by (nonlinear_arith);
                }
                None
            } else {
                let blk = PixelBlock {
                    x_left: self.x_left,
                    x_right: self.x_right,
                    y_top: self.y_top,
                    y_bottom: self.y_bottom,
                    colors: block_colors_clone(&self.colors),
                };
                self.x_left = row.x_left;
                self.x_right = row.x_right;
                self.y_top = row.y;
                self.y_bottom = row.y;
                block_colors_clear(&mut self.colors);
                block_colors_extend(&mut self.colors, &row.colors);
                proof {
                    assert(block_colors_model(self.colors) =~= row@.colors);
                    let w: int = self.x_right - self.x_left + 1;
                    assert(w * 1 == w) by (nonlinear_arith);
                }
                Some(blk)
            }
        }
    }

    /// End of input: emit the partially accumulated block, if any.
    pub fn flush(&mut self) -> (emitted: Option<PixelBlock>)
        requires
            old(self).wf(),
        ensures
            final(self).wf(),
            final(self).capacity() == old(self).capacity(),
            final(self).pending() is None,
            match old(self).pending() {
                None => emitted is None,
                Some(b) => emitted matches Some(blk) && blk@ == b,
            },
    {
        if self.first {
            None
        } else {
            let blk = PixelBlock {
                x_left: self.x_left,
                x_right: self.x_right,
                y_top: self.y_top,
                y_bottom: self.y_bottom,
                colors: block_colors_clone(&self.colors),
            };
            self.first = true;
            block_colors_clear(&mut self.colors);
            Some(blk)
        }
    }
}

/// The models of a sequence of emitted rows.
pub open spec fn row_views(rows: Seq<PixelRow>) -> Seq<RowModel> {
    rows.map_values(|r: PixelRow| r@)
}

/// Every row of a sequence is well formed: its colour count is exactly
/// its inclusive column span.
pub open spec fn all_rows_wf(rs: Seq<RowModel>) -> bool {
    forall|i: int| 0 <= i < rs.len() ==> (#[trigger] rs[i]).wf()
}

/// The models of a sequence of emitted blocks.
pub open spec fn block_views(blocks: Seq<PixelBlock>) -> Seq<BlockModel> {
    blocks.map_values(|b: PixelBlock| b@)
}

/// The rows still owed for the remaining input `ps`, given the accumulating
/// row, if any.
pub open spec fn rows_rest(pend: Option<RowModel>, ps: Seq<Pixel>, cap: nat) -> Seq<RowModel> {
    match pend {
        None => rows_spec(ps, cap),
        Some(r) => rows_from(r, ps, cap),
    }
}

/// The blocks still owed for the remaining input `rs`, given the
/// accumulating block, if any.
pub open spec fn blocks_rest(pend: Option<BlockModel>, rs: Seq<RowModel>, cap: nat) -> Seq<
    BlockModel,
> {
    match pend {
        None => blocks_spec(rs, cap),
        Some(b) => blocks_from(b, rs, cap),
    }
}

/// Batch the pixels into pixel rows, with at most `cap` pixels per row.
pub fn to_rows_bounded(pixels: &Vec<Pixel>, cap: usize) -> (rows: Vec<PixelRow>)
    requires
        1 <= cap <= CAP_ROW,
    ensures
        row_views(rows@) == rows_spec(pixels@, cap as nat),
        all_rows_wf(row_views(rows@)),
{
    proof {
        lemma_rows_wf(pixels@, cap as nat);
    }
    let mut batcher = RowBatcher::with_cap(cap);
    let mut rows: Vec<PixelRow> = Vec::new();
    let mut i: usize = 0;
    proof {
        assert(pixels@.skip(0) =~= pixels@);
        assert(row_views(rows@) =~= Seq::<RowModel>::empty());
        assert(Seq::<RowModel>::empty() + rows_spec(pixels@, cap as nat) =~= rows_spec(
            pixels@,
            cap as nat,
        ));
    }
    while i < pixels.len()
        invariant
            1 <= cap <= CAP_ROW,
            i <= pixels@.len(),
            batcher.wf(),
            batcher.capacity() == cap,
            row_views(rows@) + rows_rest(batcher.pending(), pixels@.skip(i as int), cap as nat)
                == rows_spec(pixels@, cap as nat),
        decreases pixels@.len() - i,
    {
        let ghost rest = pixels@.skip(i as int);
        let ghost old_pending = batcher.pending();
        let ghost old_views = row_views(rows@);
        let p = pixels[i];
        let emitted = batcher.push(p);
        match emitted {
            Some(row) => rows.push(row),
            None => (),
        }
        proof {
            assert(rest[0] == p);
            assert(rest.drop_first() =~= pixels@.skip(i + 1));
            match old_pending {
                None => {
                    assert(row_views(rows@) =~= old_views);
                }
                Some(r) => {
                    if row_accepts(r, p, cap as nat) {
                        assert(row_views(rows@) =~= old_views);
                    } else {
                        assert(row_views(rows@) =~= old_views + seq![r]);
                        assert((old_views + seq![r]) + rows_from(
                            row_start(p),
                            rest.drop_first(),
                            cap as nat,
                        ) =~= old_views + (seq![r] + rows_from(
                            row_start(p),
                            rest.drop_first(),
                            cap as nat,
                        )));
                    }
                }
            }
        }
        i = i + 1;
    }
    let last = batcher.flush();
    proof {
        assert(pixels@.skip(pixels@.len() as int) =~= Seq::<Pixel>::empty());
    }
    match last {
        Some(row) => {
            proof {
                assert(rows_from(row@, Seq::<Pixel>::empty(), cap as nat) == seq![row@]);
            }
            rows.push(row);
            proof {
                assert(row_views(rows@) =~= rows_spec(pixels@, cap as nat));
            }
        }
        None => {
            proof {
                assert(row_views(rows@) + Seq::<RowModel>::empty() =~= row_views(rows@));
            }
        }
    }
    rows
}

/// Batch the pixels into pixel rows: contiguous pixels on the same display
/// row, at most `CAP_ROW` per row.
pub fn to_rows(pixels: &Vec<Pixel>) -> (rows: Vec<PixelRow>)
    ensures
        row_views(rows@) == rows_spec(pixels@, CAP_ROW as nat),
        all_rows_wf(row_views(rows@)),
{
    to_rows_bounded(pixels, CAP_ROW)
}

/// Batch the pixel rows into pixel blocks, with at most `cap` pixels per
/// block.
pub fn to_blocks_bounded(rows: &Vec<PixelRow>, cap: usize) -> (blocks: Vec<PixelBlock>)
    requires
        1 <= cap <= CAP_BLOCK,
        forall|i: int| 0 <= i < rows@.len() ==> (#[trigger] rows@[i])@.wf(),
    ensures
        block_views(blocks@) == blocks_spec(row_views(rows@), cap as nat),
        all_blocks_wf(block_views(blocks@)),
{
    proof {
        assert(forall|i: int|
            0 <= i < rows@.len() ==> row_views(rows@)[i] == (#[trigger] rows@[i])@);
        lemma_blocks_wf(row_views(rows@), cap as nat);
    }
    let ghost rs = row_views(rows@);
    let mut batcher = BlockBatcher::with_cap(cap);
    let mut blocks: Vec<PixelBlock> = Vec::new();
    let mut i: usize = 0;
    proof {
        assert(rs.skip(0) =~= rs);
        assert(block_views(blocks@) =~= Seq::<BlockModel>::empty());
        assert(Seq::<BlockModel>::empty() + blocks_spec(rs, cap as nat) =~= blocks_spec(
            rs,
            cap as nat,
        ));
    }
    while i < rows.len()
        invariant
            1 <= cap <= CAP_BLOCK,
            i <= rows@.len(),
            rs == row_views(rows@),
            forall|k: int| 0 <= k < rows@.len() ==> (#[trigger] rows@[k])@.wf(),
            batcher.wf(),
            batcher.capacity() == cap,
            block_views(blocks@) + blocks_rest(batcher.pending(), rs.skip(i as int), cap as nat)
                == blocks_spec(rs, cap as nat),
        decreases rows@.len() - i,
    {
        let ghost rest = rs.skip(i as int);
        let ghost old_pending = batcher.pending();
        let ghost old_views = block_views(blocks@);
        let row = &rows[i];
        let emitted = batcher.push(row);
        match emitted {
            Some(blk) => blocks.push(blk),
            None => (),
        }
        proof {
            assert(rest[0] == row@);
            assert(rest.drop_first() =~= rs.skip(i + 1));
            match old_pending {
                None => {
                    assert(block_views(blocks@) =~= old_views);
                }
                Some(b) => {
                    if block_accepts(b, row@, cap as nat) {
                        assert(block_views(blocks@) =~= old_views);
                    } else {
                        assert(block_views(blocks@) =~= old_views + seq![b]);
                        assert((old_views + seq![b]) + blocks_from(
                            block_start(row@),
                            rest.drop_first(),
                            cap as nat,
                        ) =~= old_views + (seq![b] + blocks_from(
                            block_start(row@),
                            rest.drop_first(),
                            cap as nat,
                        )));
                    }
                }
            }
        }
        i = i + 1;
    }
    let last = batcher.flush();
    proof {
        assert(rs.skip(rs.len() as int) =~= Seq::<RowModel>::empty());
    }
    match last {
        Some(blk) => {
            proof {
                assert(blocks_from(blk@, Seq::<RowModel>::empty(), cap as nat) == seq![blk@]);
            }
            blocks.push(blk);
            proof {
                assert(block_views(blocks@) =~= blocks_spec(rs, cap as nat));
            }
        }
        None => {
            proof {
                assert(block_views(blocks@) + Seq::<BlockModel>::empty() =~= block_views(blocks@));
            }
        }
    }
    blocks
}

/// Batch the pixel rows into pixel blocks: contiguous rows with the same
/// column span, at most `CAP_BLOCK` pixels per block.
pub fn to_blocks(rows: &Vec<PixelRow>) -> (blocks: Vec<PixelBlock>)
    requires
        forall|i: int| 0 <= i < rows@.len() ==> (#[trigger] rows@[i])@.wf(),
    ensures
        block_views(blocks@) == blocks_spec(row_views(rows@), CAP_BLOCK as nat),
        all_blocks_wf(block_views(blocks@)),
{
    to_blocks_bounded(rows, CAP_BLOCK)
}

/// The pixels a sequence of rows stands for, in emission order.
pub open spec fn rows_pixels(rs: Seq<RowModel>) -> Seq<Pixel>
    decreases rs.len(),
{
    if rs.len() == 0 {
        Seq::empty()
    } else {
        rs[0].pixels() + rows_pixels(rs.drop_first())
    }
}

/// The colours of a sequence of rows, concatenated in emission order.
pub open spec fn rows_colors(rs: Seq<RowModel>) -> Seq<u16>
    decreases rs.len(),
{
    if rs.len() == 0 {
        Seq::empty()
    } else {
        rs[0].colors + rows_colors(rs.drop_first())
    }
}

/// The rows a sequence of blocks stands for, in emission order.
pub open spec fn blocks_rows(bs: Seq<BlockModel>) -> Seq<RowModel>
    decreases bs.len(),
{
    if bs.len() == 0 {
        Seq::empty()
    } else {
        bs[0].rows() + blocks_rows(bs.drop_first())
    }
}

/// The colours of a pixel sequence, in order.
pub open spec fn pixel_colors(ps: Seq<Pixel>) -> Seq<u16> {
    ps.map_values(|p: Pixel| p.color)
}

/// Every row emitted while `r` accumulates is well formed.
proof fn lemma_rows_from_wf(r: RowModel, ps: Seq<Pixel>, cap: nat)
    requires
        1 <= cap <= CAP_ROW,
        r.wf(),
    ensures
        forall|i: int|
            0 <= i < rows_from(r, ps, cap).len() ==> (#[trigger] rows_from(r, ps, cap)[i]).wf(),
    decreases ps.len(),
{
    if ps.len() == 0 {
    } else if row_accepts(r, ps[0], cap) {
        assert(row_extend(r, ps[0]).wf());
        lemma_rows_from_wf(row_extend(r, ps[0]), ps.drop_first(), cap);
        let tail = rows_from(row_extend(r, ps[0]), ps.drop_first(), cap);
        assert forall|i: int|
            0 <= i < rows_from(r, ps, cap).len() implies (#[trigger] rows_from(r, ps, cap)[i]).wf() by {
            assert(tail[i].wf());
        }
    } else {
        assert(row_start(ps[0]).wf());
        lemma_rows_from_wf(row_start(ps[0]), ps.drop_first(), cap);
        let tail = rows_from(row_start(ps[0]), ps.drop_first(), cap);
        assert forall|i: int|
            0 <= i < rows_from(r, ps, cap).len() implies (#[trigger] rows_from(r, ps, cap)[i]).wf() by {
            if i > 0 {
                assert(tail[i - 1].wf());
            }
        }
    }
}

/// Row contiguity invariant: every emitted row is well formed — its colour
/// count equals its inclusive column span, so inside one row each colour
/// `j` sits at column `x_left + j` of display row `y`, one column after
/// colour `j - 1`.
pub proof fn lemma_rows_wf(ps: Seq<Pixel>, cap: nat)
    requires
        1 <= cap <= CAP_ROW,
    ensures
        forall|i: int|
            0 <= i < rows_spec(ps, cap).len() ==> (#[trigger] rows_spec(ps, cap)[i]).wf(),
{
    if ps.len() == 0 {
    } else {
        assert(row_start(ps[0]).wf());
        lemma_rows_from_wf(row_start(ps[0]), ps.drop_first(), cap);
        let all = rows_from(row_start(ps[0]), ps.drop_first(), cap);
        assert forall|i: int|
            0 <= i < rows_spec(ps, cap).len() implies (#[trigger] rows_spec(ps, cap)[i]).wf() by {
            assert(all[i].wf());
        }
    }
}

/// The pixels of the rows emitted while `r` accumulates are `r`'s pixels
/// followed by the remaining input.
proof fn lemma_rows_from_cover(r: RowModel, ps: Seq<Pixel>, cap: nat)
    requires
        1 <= cap <= CAP_ROW,
        r.wf(),
    ensures
        rows_pixels(rows_from(r, ps, cap)) == r.pixels() + ps,
    decreases ps.len(),
{
    if ps.len() == 0 {
        assert(seq![r].drop_first() =~= Seq::<RowModel>::empty());
        assert(rows_pixels(Seq::<RowModel>::empty()) == Seq::<Pixel>::empty());
        assert(rows_pixels(seq![r]) == seq![r][0].pixels() + rows_pixels(seq![r].drop_first()));
        assert(rows_pixels(seq![r]) =~= r.pixels() + ps);
    } else {
        let p = ps[0];
        assert(ps =~= seq![p] + ps.drop_first());
        if row_accepts(r, p, cap) {
            assert(row_extend(r, p).wf());
            lemma_rows_from_cover(row_extend(r, p), ps.drop_first(), cap);
            assert(row_extend(r, p).pixels() =~= r.pixels().push(p));
            assert(r.pixels().push(p) + ps.drop_first() =~= r.pixels() + ps);
        } else {
            assert(row_start(p).wf());
            lemma_rows_from_cover(row_start(p), ps.drop_first(), cap);
            let tail = rows_from(row_start(p), ps.drop_first(), cap);
            assert((seq![r] + tail).drop_first() =~= tail);
            assert(rows_pixels(seq![r] + tail) == r.pixels() + rows_pixels(tail));
            assert(row_start(p).pixels() =~= seq![p]);
            assert(r.pixels() + (seq![p] + ps.drop_first()) =~= (r.pixels() + seq![p])
                + ps.drop_first());
        }
    }
}

/// Row coverage: the pixels of the emitted rows, concatenated in emission
/// order, are exactly the input pixels in the input order — batching never
/// reorders, drops or invents a pixel.
pub proof fn lemma_row_coverage(ps: Seq<Pixel>, cap: nat)
    requires
        1 <= cap <= CAP_ROW,
    ensures
        rows_pixels(rows_spec(ps, cap)) == ps,
{
    if ps.len() == 0 {
    } else {
        let p = ps[0];
        assert(row_start(p).wf());
        lemma_rows_from_cover(row_start(p), ps.drop_first(), cap);
        assert(row_start(p).pixels() =~= seq![p]);
        assert(seq![p] + ps.drop_first() =~= ps);
    }
}

/// Row contiguity, inside one row: adjacent pixels of a well-formed row
/// differ by exactly 1 in `x` and 0 in `y`.
pub proof fn lemma_row_pixels_adjacent(r: RowModel, j: int)
    requires
        r.wf(),
        0 <= j,
        j + 1 < r.pixels().len(),
    ensures
        r.pixels()[j + 1].x == r.pixels()[j].x + 1,
        r.pixels()[j + 1].y == r.pixels()[j].y,
{
}

/// The concatenated colours of rows are the colours of their pixels.
proof fn lemma_rows_colors_pixels(rs: Seq<RowModel>)
    ensures
        rows_colors(rs) == pixel_colors(rows_pixels(rs)),
    decreases rs.len(),
{
    if rs.len() == 0 {
        assert(pixel_colors(Seq::<Pixel>::empty()) =~= Seq::<u16>::empty());
    } else {
        lemma_rows_colors_pixels(rs.drop_first());
        assert(pixel_colors(rs[0].pixels() + rows_pixels(rs.drop_first())) =~= pixel_colors(
            rs[0].pixels(),
        ) + pixel_colors(rows_pixels(rs.drop_first())));
        assert(pixel_colors(rs[0].pixels()) =~= rs[0].colors);
        assert(rows_colors(rs) =~= rows_pixels(rs).map_values(|p: Pixel| p.color));
    }
}

/// Row coverage, stated over colours: concatenating the colours of all
/// emitted rows reproduces exactly the input colours in input order.
pub proof fn lemma_row_color_coverage(ps: Seq<Pixel>, cap: nat)
    requires
        1 <= cap <= CAP_ROW,
    ensures
        rows_colors(rows_spec(ps, cap)) == pixel_colors(ps),
{
    lemma_row_coverage(ps, cap);
    lemma_rows_colors_pixels(rows_spec(ps, cap));
}

/// Every block emitted while `b` accumulates is well formed.
proof fn lemma_blocks_from_wf(b: BlockModel, rs: Seq<RowModel>, cap: nat)
    requires
        1 <= cap <= CAP_BLOCK,
        b.wf(),
        forall|i: int| 0 <= i < rs.len() ==> (#[trigger] rs[i]).wf(),
    ensures
        forall|i: int|
            0 <= i < blocks_from(b, rs, cap).len() ==> (#[trigger] blocks_from(
                b,
                rs,
                cap,
            )[i]).wf(),
    decreases rs.len(),
{
    if rs.len() == 0 {
    } else {
        let r = rs[0];
        assert(r.wf());
        assert(forall|i: int|
            0 <= i < rs.drop_first().len() ==> (#[trigger] rs.drop_first()[i]).wf());
        if block_accepts(b, r, cap) {
            let eb = block_extend(b, r);
            assert(eb.wf()) by {
                let w = b.x_right - b.x_left + 1;
                assert(w * (r.y - b.y_top + 1) == w * (b.y_bottom - b.y_top + 1) + w)
                    by (nonlinear_arith)
                    requires
                        r.y == b.y_bottom + 1,
                ;
            }
            lemma_blocks_from_wf(eb, rs.drop_first(), cap);
            let tail = blocks_from(eb, rs.drop_first(), cap);
            assert forall|i: int|
                0 <= i < blocks_from(b, rs, cap).len() implies (#[trigger] blocks_from(b, rs, cap)[i]).wf() by {
                assert(tail[i].wf());
            }
        } else {
            assert(block_start(r).wf()) by {
                let w = r.x_right - r.x_left + 1;
                assert(w * 1 == w) by (nonlinear_arith);
            }
            lemma_blocks_from_wf(block_start(r), rs.drop_first(), cap);
            let tail = blocks_from(block_start(r), rs.drop_first(), cap);
            assert forall|i: int|
                0 <= i < blocks_from(b, rs, cap).len() implies (#[trigger] blocks_from(b, rs, cap)[i]).wf() by {
                if i > 0 {
                    assert(tail[i - 1].wf());
                }
            }
        }
    }
}

/// Every emitted block is well formed: its colour count is the area of its
/// rectangle, and its constituent rows share one column span.
pub proof fn lemma_blocks_wf(rs: Seq<RowModel>, cap: nat)
    requires
        1 <= cap <= CAP_BLOCK,
        forall|i: int| 0 <= i < rs.len() ==> (#[trigger] rs[i]).wf(),
    ensures
        forall|i: int|
            0 <= i < blocks_spec(rs, cap).len() ==> (#[trigger] blocks_spec(rs, cap)[i]).wf(),
{
    if rs.len() == 0 {
    } else {
        assert(block_start(rs[0]).wf()) by {
            let w = rs[0].x_right - rs[0].x_left + 1;
            assert(w * 1 == w) by (nonlinear_arith);
        }
        lemma_blocks_from_wf(block_start(rs[0]), rs.drop_first(), cap);
        let all = blocks_from(block_start(rs[0]), rs.drop_first(), cap);
        assert forall|i: int|
            0 <= i < blocks_spec(rs, cap).len() implies (#[trigger] blocks_spec(rs, cap)[i]).wf() by {
            assert(all[i].wf());
        }
    }
}

/// A block started from one well-formed row stands for that row alone.
proof fn lemma_block_start_rows(r: RowModel)
    requires
        r.wf(),
    ensures
        block_start(r).rows() == seq![r],
{
    let b = block_start(r);
    assert(b.width() * 1 == b.width()) by (nonlinear_arith);
    assert(b.rows()[0] =~= r) by {
        assert(b.colors.subrange(0, b.width()) =~= r.colors);
    }
    assert(b.rows() =~= seq![r]);
}

/// Extending a well-formed block by a matching row appends that row.
proof fn lemma_block_extend_rows(b: BlockModel, r: RowModel, cap: nat)
    requires
        b.wf(),
        r.wf(),
        block_accepts(b, r, cap),
    ensures
        block_extend(b, r).rows() == b.rows().push(r),
    decreases 0int,
{
    let eb = block_extend(b, r);
    let w = b.width();
    let h = b.y_bottom - b.y_top + 1;
    assert(w * (h + 1) == w * h + w) by (nonlinear_arith);
    assert forall|i: int| 0 <= i < h implies #[trigger] eb.rows()[i] == b.rows()[i] by {
        assert((i + 1) * w <= w * h && 0 <= i * w && i * w <= (i + 1) * w) by (nonlinear_arith)
            requires
                0 <= i < h,
                w >= 1,
        ;
        assert(eb.colors.subrange(i * w, (i + 1) * w) =~= b.colors.subrange(i * w, (i + 1) * w));
        assert(i * eb.width() == i * w && (i + 1) * eb.width() == (i + 1) * w);
    }
    assert(eb.rows()[h as int] =~= r) by {
        assert(h * w == w * h && (h + 1) * w == w * h + w) by (nonlinear_arith);
        assert(eb.colors.subrange(w * h, w * h + w) =~= r.colors);
    }
    assert(eb.rows() =~= b.rows().push(r));
}

/// The rows of the blocks emitted while `b` accumulates are `b`'s rows
/// followed by the remaining input.
proof fn lemma_blocks_from_cover(b: BlockModel, rs: Seq<RowModel>, cap: nat)
    requires
        1 <= cap <= CAP_BLOCK,
        b.wf(),
        forall|i: int| 0 <= i < rs.len() ==> (#[trigger] rs[i]).wf(),
    ensures
        blocks_rows(blocks_from(b, rs, cap)) == b.rows() + rs,
    decreases rs.len(),
{
    if rs.len() == 0 {
        assert(seq![b].drop_first() =~= Seq::<BlockModel>::empty());
        assert(blocks_rows(Seq::<BlockModel>::empty()) == Seq::<RowModel>::empty());
        assert(blocks_rows(seq![b]) == seq![b][0].rows() + blocks_rows(seq![b].drop_first()));
        assert(blocks_rows(seq![b]) =~= b.rows() + rs);
    } else {
        let r = rs[0];
        assert(r.wf());
        assert(forall|i: int|
            0 <= i < rs.drop_first().len() ==> (#[trigger] rs.drop_first()[i]).wf());
        assert(rs =~= seq![r] + rs.drop_first());
        if block_accepts(b, r, cap) {
            let eb = block_extend(b, r);
            assert(eb.wf()) by {
                let w = b.x_right - b.x_left + 1;
                assert(w * (r.y - b.y_top + 1) == w * (b.y_bottom - b.y_top + 1) + w)
                    by (nonlinear_arith)
                    requires
                        r.y == b.y_bottom + 1,
                ;
            }
            lemma_blocks_from_cover(eb, rs.drop_first(), cap);
            lemma_block_extend_rows(b, r, cap);
            assert(b.rows().push(r) + rs.drop_first() =~= b.rows() + rs);
        } else {
            assert(block_start(r).wf()) by {
                let w = r.x_right - r.x_left + 1;
                assert(w * 1 == w) by (nonlinear_arith);
            }
            lemma_blocks_from_cover(block_start(r), rs.drop_first(), cap);
            let tail = blocks_from(block_start(r), rs.drop_first(), cap);
            assert((seq![b] + tail).drop_first() =~= tail);
            assert(blocks_rows(seq![b] + tail) == b.rows() + blocks_rows(tail));
            lemma_block_start_rows(r);
            assert(b.rows() + (seq![r] + rs.drop_first()) =~= (b.rows() + seq![r])
                + rs.drop_first());
        }
    }
}

/// Block coverage: the rows implied by the emitted blocks, concatenated in
/// emission order, are exactly the input rows in the input order.
pub proof fn lemma_block_coverage(rs: Seq<RowModel>, cap: nat)
    requires
        1 <= cap <= CAP_BLOCK,
        forall|i: int| 0 <= i < rs.len() ==> (#[trigger] rs[i]).wf(),
    ensures
        blocks_rows(blocks_spec(rs, cap)) == rs,
{
    if rs.len() == 0 {
    } else {
        let r = rs[0];
        assert(block_start(r).wf()) by {
            let w = r.x_right - r.x_left + 1;
            assert(w * 1 == w) by (nonlinear_arith);
        }
        assert(forall|i: int|
            0 <= i < rs.drop_first().len() ==> (#[trigger] rs.drop_first()[i]).wf());
        lemma_blocks_from_cover(block_start(r), rs.drop_first(), cap);
        lemma_block_start_rows(r);
        assert(seq![r] + rs.drop_first() =~= rs);
    }
}

/// Pipeline coverage: running a pixel sequence through both batching
/// stages and flattening the emitted blocks back to pixels reproduces the
/// input exactly.
pub proof fn lemma_pipeline_coverage(ps: Seq<Pixel>, row_cap: nat, block_cap: nat)
    requires
        1 <= row_cap <= CAP_ROW,
        1 <= block_cap <= CAP_BLOCK,
    ensures
        rows_pixels(blocks_rows(blocks_spec(rows_spec(ps, row_cap), block_cap))) == ps,
{
    lemma_rows_wf(ps, row_cap);
    lemma_block_coverage(rows_spec(ps, row_cap), block_cap);
    lemma_row_coverage(ps, row_cap);
}

/// Every block of a sequence is well formed: each one is a rectangular
/// write transaction whose colour count is exactly its area.
pub open spec fn all_blocks_wf(bs: Seq<BlockModel>) -> bool {
    forall|i: int| 0 <= i < bs.len() ==> (#[trigger] bs[i]).wf()
}

/// The full batching pipeline: group the pixels into rows, then the rows
/// into blocks, each block one bounded rectangular write transaction.
pub fn batch_pixels(pixels: &Vec<Pixel>) -> (blocks: Vec<PixelBlock>)
    ensures
        block_views(blocks@) == blocks_spec(
            rows_spec(pixels@, CAP_ROW as nat),
            CAP_BLOCK as nat,
        ),
        all_blocks_wf(block_views(blocks@)),
{
    let rows = to_rows(pixels);
    proof {
        lemma_rows_wf(pixels@, CAP_ROW as nat);
        assert(forall|i: int|
            0 <= i < rows@.len() ==> (#[trigger] rows@[i])@ == row_views(rows@)[i]);
    }
    to_blocks(&rows)
}

} // verus!
