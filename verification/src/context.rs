//! The render context.
//!
//! An `EmbedRenderContext` turns drawing calls — fills, strokes, text —
//! into pixel blocks ready to be written to the display, applying the
//! cumulative translation of its transform stack and the resolved brush
//! colour. Rendering is immediate: every call computes its write
//! transactions in full; the caller owns the display transport and issues
//! one `write_block` per returned block.
//!
//! The context opens one root transform scope at construction. `save` and
//! `restore` must pair: a `restore` that would close the root scope is a
//! stack underflow and is refused.

use vstd::prelude::*;

use crate::batch::PixelBlock;
use crate::batch::Pixel;
use crate::batch::all_blocks_wf;
use crate::batch::batch_pixels;
use crate::batch::block_views;
use crate::batch::blocks_spec;
use crate::batch::rows_spec;
use crate::bounded::CAP_BLOCK;
use crate::bounded::CAP_ROW;
use crate::bounded::MAX_TRANSFORMS;
use crate::brush::Brush;
use crate::brush::resolve_brush;
use crate::brush::rgb565_of_rgba;
use crate::egfx::font_pts;
use crate::egfx::line_pts;
use crate::egfx::line_pixels;
use crate::egfx::text_pixels;
use crate::geom::Affine;
use crate::geom::PathEl;
use crate::geom::Point;
use crate::geom::Rect;
use crate::shapes::StrokeStyle;
use crate::status::RenderError;
use crate::text::EmbedText;
use crate::text::EmbedTextLayout;
use crate::transform::TransformStack;
use crate::transform::sum_offsets;

verus! {

/// Width of the target display, in pixels.
pub const DISPLAY_WIDTH: u16 = 240;

/// Height of the target display, in pixels.
pub const DISPLAY_HEIGHT: u16 = 240;

/// The colour a drawing call paints with.
pub open spec fn brush_color(b: Brush) -> u16 {
    match b {
        Brush::Solid(rgba) => rgb565_of_rgba(rgba),
    }
}

/// A render context: a transform stack and the rules that turn drawing
/// calls into batched pixel blocks.
pub struct EmbedRenderContext {
    transforms: TransformStack,
}

impl EmbedRenderContext {
    /// The entries of the transform stack, bottom first.
    pub closed spec fn stack(self) -> Seq<(i32, i32)> {
        self.transforms@
    }

    /// The context always keeps its root transform scope.
    pub closed spec fn wf(self) -> bool {
        self.transforms.wf() && self.transforms@.len() >= 1
    }

    /// The cumulative translation currently in effect.
    pub open spec fn offset(self) -> (int, int) {
        sum_offsets(self.stack())
    }

    /// A new context with one root transform scope holding a zero offset.
    pub fn new() -> (r: EmbedRenderContext)
        ensures
            r.wf(),
            r.stack() == seq![(0i32, 0i32)],
    {
        let mut transforms = TransformStack::new();
        let _ = transforms.push();
        proof {
            assert(transforms@ =~= seq![(0i32, 0i32)]);
        }
        EmbedRenderContext { transforms }
    }

    /// The context holds no deferred error state: status always succeeds.
    pub fn status(&mut self) -> (r: Result<(), RenderError>)
        ensures
            *final(self) == *old(self),
            r == Ok::<(), RenderError>(()),
    {
        Ok(())
    }

    /// Finish the render pass. Everything was written eagerly, so this is
    /// the same always-succeeding status check.
    pub fn finish(&mut self) -> (r: Result<(), RenderError>)
        ensures
            *final(self) == *old(self),
            r == Ok::<(), RenderError>(()),
    {
        self.status()
    }

    /// A solid brush of the given packed RGBA colour.
    pub fn solid_brush(&mut self, rgba: u32) -> (r: Brush)
        ensures
            *final(self) == *old(self),
            r == Brush::Solid(rgba),
    {
        Brush::Solid(rgba)
    }

    /// The packed 16-bit colour a brush paints with.
    pub fn convert_brush(&self, brush: &Brush) -> (color: u16)
        ensures
            color == brush_color(*brush),
    {
        resolve_brush(brush)
    }

    /// The text factory.
    pub fn text(&mut self) -> (r: EmbedText)
        ensures
            *final(self) == *old(self),
    {
        EmbedText
    }

    /// Open a transform scope inheriting the current cumulative
    /// translation. Fails only when the stack is at its maximum depth.
    pub fn save(&mut self) -> (r: Result<(), RenderError>)
        requires
            old(self).wf(),
        ensures
            final(self).wf(),
            if old(self).stack().len() < MAX_TRANSFORMS {
                r == Ok::<(), RenderError>(()) && final(self).stack() == old(self).stack().push(
                    (0i32, 0i32),
                )
            } else {
                r == Err::<(), RenderError>(RenderError::StackOverflow) && final(self).stack()
                    == old(self).stack()
            },
    {
        match self.transforms.push() {
            Ok(()) => Ok(()),
            Err(_) => Err(RenderError::StackOverflow),
        }
    }

    /// Close the innermost transform scope opened by `save`. A `restore`
    /// with no unmatched `save` would close the root scope: it is refused
    /// as a stack underflow.
    pub fn restore(&mut self) -> (r: Result<(), RenderError>)
        requires
            old(self).wf(),
        ensures
            final(self).wf(),
            if old(self).stack().len() > 1 {
                r == Ok::<(), RenderError>(()) && final(self).stack() == old(
                    self,
                ).stack().drop_last()
            } else {
                r == Err::<(), RenderError>(RenderError::StackUnderflow) && final(self).stack()
                    == old(self).stack()
            },
    {
        if self.transforms.depth() > 1 {
            let _ = self.transforms.pop();
            Ok(())
        } else {
            Err(RenderError::StackUnderflow)
        }
    }

    /// Fold an incoming transform into the innermost scope. Only the
    /// translation components are honoured; a transform with rotation,
    /// scale or skew components is rejected outright.
    pub fn transform(&mut self, t: Affine) -> (r: Result<(), RenderError>)
        requires
            old(self).wf(),
            t matches Affine::Translate(dx, dy) ==> {
                &&& i32::MIN <= old(self).stack().last().0 + dx <= i32::MAX
                &&& i32::MIN <= old(self).stack().last().1 + dy <= i32::MAX
            },
        ensures
            final(self).wf(),
            match t {
                Affine::Translate(dx, dy) => r == Ok::<(), RenderError>(()) && final(self).stack()
                    == old(self).stack().update(
                    old(self).stack().len() - 1,
                    (
                        (old(self).stack().last().0 + dx) as i32,
                        (old(self).stack().last().1 + dy) as i32,
                    ),
                ),
                Affine::NonTranslation => r == Err::<(), RenderError>(RenderError::Unsupported)
                    && final(self).stack() == old(self).stack(),
            },
    {
        match t {
            Affine::Translate(dx, dy) => {
                let _ = self.transforms.apply_translation(dx, dy);
                Ok(())
            }
            Affine::NonTranslation => Err(RenderError::Unsupported),
        }
    }

    /// Clipping is not supported. The call is rejected — not silently
    /// ignored — so that incorrect rendering cannot pass unnoticed.
    pub fn clip(&mut self, shape: Rect) -> (r: Result<(), RenderError>)
        ensures
            *final(self) == *old(self),
            r == Err::<(), RenderError>(RenderError::Unsupported),
    {
        let _ = shape;
        Err(RenderError::Unsupported)
    }

    /// The current cumulative translation, summed over the stack.
    pub fn current_offset(&self) -> (r: (i64, i64))
        requires
            self.wf(),
        ensures
            (r.0 as int, r.1 as int) == self.offset(),
    {
        self.transforms.current_offset()
    }
}

/// One horizontal run of `w` pixels of one colour, starting at device
/// column `x0` of device row `y`.
pub open spec fn hrow_pixels(x0: int, y: int, w: nat, color: u16) -> Seq<Pixel> {
    Seq::new(w, |j: int| Pixel { x: (x0 + j) as u16, y: y as u16, color })
}

/// The pixels of a `w` by `h` device rectangle with top-left corner
/// `(x0, y0)`, row-major with the top row first.
pub open spec fn rect_pixels(x0: int, y0: int, w: nat, h: nat, color: u16) -> Seq<Pixel>
    decreases h,
{
    if h == 0 {
        Seq::empty()
    } else {
        hrow_pixels(x0, y0, w, color) + rect_pixels(x0, y0 + 1, w, (h - 1) as nat, color)
    }
}

/// A rectangle one row taller appends one more row at the bottom.
proof fn lemma_rect_pixels_snoc(x0: int, y0: int, w: nat, h: nat, color: u16)
    ensures
        rect_pixels(x0, y0, w, (h + 1) as nat, color) == rect_pixels(x0, y0, w, h, color)
            + hrow_pixels(x0, y0 + h, w, color),
    decreases h,
{
    if h == 0 {
        assert(rect_pixels(x0, y0 + 1, w, 0, color) == Seq::<Pixel>::empty());
        assert(rect_pixels(x0, y0, w, 1, color) =~= rect_pixels(x0, y0, w, 0, color) + hrow_pixels(
            x0,
            y0,
            w,
            color,
        ));
    } else {
        lemma_rect_pixels_snoc(x0, y0 + 1, w, (h - 1) as nat, color);
        assert(rect_pixels(x0, y0, w, (h + 1) as nat, color) =~= rect_pixels(x0, y0, w, h, color)
            + hrow_pixels(x0, y0 + h, w, color));
    }
}

/// The pixels a fill of `shape` paints under cumulative translation
/// `off`: every pixel of the translated rectangle, row-major.
pub open spec fn fill_pixels(shape: Rect, off: (int, int), color: u16) -> Seq<Pixel> {
    rect_pixels(
        shape.x0 + off.0,
        shape.y0 + off.1,
        (shape.x1 - shape.x0 + 1) as nat,
        (shape.y1 - shape.y0 + 1) as nat,
        color,
    )
}

/// Whether a shape's corners stay on the device after translation.
pub open spec fn rect_in_range(shape: Rect, off: (int, int)) -> bool {
    &&& 0 <= shape.x0 + off.0
    &&& shape.x1 + off.0 <= u16::MAX
    &&& 0 <= shape.y0 + off.1
    &&& shape.y1 + off.1 <= u16::MAX
}

impl EmbedRenderContext {
    /// Fill a shape, given by its bounding rectangle: sub-pixel path
    /// rasterization is out of scope, so the fill paints every pixel of
    /// the box, translated by the current offset, through the batching
    /// pipeline.
    pub fn fill(&mut self, shape: Rect, brush: &Brush) -> (blocks: Vec<PixelBlock>)
        requires
            old(self).wf(),
            shape.wf(),
            rect_in_range(shape, old(self).offset()),
        ensures
            *final(self) == *old(self),
            block_views(blocks@) == blocks_spec(
                rows_spec(
                    fill_pixels(shape, old(self).offset(), brush_color(*brush)),
                    CAP_ROW as nat,
                ),
                CAP_BLOCK as nat,
            ),
            all_blocks_wf(block_views(blocks@)),
    {
        let off = self.current_offset();
        let color = self.convert_brush(brush);
        let x0 = (shape.x0 as i64 + off.0) as u16;
        let y0 = (shape.y0 as i64 + off.1) as u16;
        let x1 = (shape.x1 as i64 + off.0) as u16;
        let y1 = (shape.y1 as i64 + off.1) as u16;
        let w: u32 = (x1 - x0) as u32 + 1;
        let h: u32 = (y1 - y0) as u32 + 1;
        let mut pixels: Vec<Pixel> = Vec::new();
        let mut i: u32 = 0;
        proof {
            assert(pixels@ =~= rect_pixels(x0 as int, y0 as int, w as nat, 0, color));
        }
        while i < h
            invariant
                w == x1 - x0 + 1,
                h == y1 - y0 + 1,
                x0 + w - 1 <= u16::MAX,
                y0 + h - 1 <= u16::MAX,
                i <= h,
                pixels@ == rect_pixels(x0 as int, y0 as int, w as nat, i as nat, color),
            decreases h - i,
        {
            let y: u16 = y0 + i as u16;
            let mut j: u32 = 0;
            proof {
                assert(hrow_pixels(x0 as int, y as int, 0, color) =~= Seq::<Pixel>::empty());
                assert(pixels@ =~= rect_pixels(x0 as int, y0 as int, w as nat, i as nat, color)
                    + hrow_pixels(x0 as int, y as int, 0, color));
            }
            while j < w
                invariant
                    w == x1 - x0 + 1,
                    x0 + w - 1 <= u16::MAX,
                    y == y0 + i,
                    j <= w,
                    pixels@ == rect_pixels(x0 as int, y0 as int, w as nat, i as nat, color)
                        + hrow_pixels(x0 as int, y as int, j as nat, color),
                decreases w - j,
            {
                let x: u16 = x0 + j as u16;
                pixels.push(Pixel { x, y, color });
                proof {
                    assert(hrow_pixels(x0 as int, y as int, (j + 1) as nat, color) =~= hrow_pixels(
                        x0 as int,
                        y as int,
                        j as nat,
                        color,
                    ).push(Pixel { x, y, color }));
                }
                j = j + 1;
            }
            proof {
                lemma_rect_pixels_snoc(x0 as int, y0 as int, w as nat, i as nat, color);
            }
            i = i + 1;
        }
        batch_pixels(&pixels)
    }

    /// Fill with the even-odd rule. Sub-pixel rasterization is out of
    /// scope, so this is computed identically to `fill`.
    pub fn fill_even_odd(&mut self, shape: Rect, brush: &Brush) -> (blocks: Vec<PixelBlock>)
        requires
            old(self).wf(),
            shape.wf(),
            rect_in_range(shape, old(self).offset()),
        ensures
            *final(self) == *old(self),
            block_views(blocks@) == blocks_spec(
                rows_spec(
                    fill_pixels(shape, old(self).offset(), brush_color(*brush)),
                    CAP_ROW as nat,
                ),
                CAP_BLOCK as nat,
            ),
            all_blocks_wf(block_views(blocks@)),
    {
        self.fill(shape, brush)
    }

    /// Clear the display: fill the full display rectangle with a solid
    /// brush of the given colour.
    pub fn clear(&mut self, rgba: u32) -> (blocks: Vec<PixelBlock>)
        requires
            old(self).wf(),
            rect_in_range(
                Rect { x0: 0, y0: 0, x1: ((DISPLAY_WIDTH - 1) as i32), y1: ((DISPLAY_HEIGHT - 1) as i32) },
                old(self).offset(),
            ),
        ensures
            *final(self) == *old(self),
            block_views(blocks@) == blocks_spec(
                rows_spec(
                    fill_pixels(
                        Rect {
                            x0: 0,
                            y0: 0,
                            x1: ((DISPLAY_WIDTH - 1) as i32),
                            y1: ((DISPLAY_HEIGHT - 1) as i32),
                        },
                        old(self).offset(),
                        rgb565_of_rgba(rgba),
                    ),
                    CAP_ROW as nat,
                ),
                CAP_BLOCK as nat,
            ),
            all_blocks_wf(block_views(blocks@)),
    {
        let brush = self.solid_brush(rgba);
        let shape = Rect {
            x0: 0,
            y0: 0,
            x1: ((DISPLAY_WIDTH - 1) as i32),
            y1: ((DISPLAY_HEIGHT - 1) as i32),
        };
        self.fill(shape, &brush)
    }
}

/// Coordinate pairs turned into pixels of one colour.
pub open spec fn colored(pts: Seq<(u16, u16)>, color: u16) -> Seq<Pixel> {
    pts.map_values(|q: (u16, u16)| Pixel { x: q.0, y: q.1, color })
}

/// The pixels of the straight device line from `a` to `b`, both
/// translated by `off` and painted with `color`.
pub open spec fn line_seg(a: Point, b: Point, off: (int, int), color: u16) -> Seq<Pixel> {
    colored(
        line_pts(
            (a.x + off.0) as u16,
            (a.y + off.1) as u16,
            (b.x + off.0) as u16,
            (b.y + off.1) as u16,
        ),
        color,
    )
}

/// The first recorded point of the subpath, once one is recorded.
pub open spec fn upd_first(first: Option<Point>, p: Point) -> Option<Point> {
    if first is None {
        Some(p)
    } else {
        first
    }
}

/// The origin, the pen position before any path element.
pub open spec fn origin() -> Point {
    Point { x: 0, y: 0 }
}

/// The pixels a stroked path paints, one straight chord per element:
/// curve control points are not honoured — curves degrade to the chord
/// from the pen position to their end point — and `ClosePath` draws back
/// to the first recorded point. In a path that opens with a curve rather
/// than a `MoveTo`, the point recorded first is that curve's first
/// control point: the one place a control point is read at all.
pub open spec fn stroke_pixels(
    path: Seq<PathEl>,
    first: Option<Point>,
    last: Point,
    off: (int, int),
    color: u16,
) -> Seq<Pixel>
    decreases path.len(),
{
    if path.len() == 0 {
        Seq::empty()
    } else {
        let rest = path.drop_first();
        match path[0] {
            PathEl::MoveTo(p) => stroke_pixels(rest, upd_first(first, p), p, off, color),
            PathEl::LineTo(p) => line_seg(last, p, off, color) + stroke_pixels(
                rest,
                upd_first(first, p),
                p,
                off,
                color,
            ),
            PathEl::QuadTo(p1, p2) => line_seg(last, p2, off, color) + stroke_pixels(
                rest,
                upd_first(first, p1),
                p2,
                off,
                color,
            ),
            PathEl::CurveTo(p1, p2, p3) => line_seg(last, p3, off, color) + stroke_pixels(
                rest,
                upd_first(first, p1),
                p3,
                off,
                color,
            ),
            PathEl::ClosePath => match first {
                Some(f) => line_seg(last, f, off, color) + stroke_pixels(
                    rest,
                    first,
                    last,
                    off,
                    color,
                ),
                None => stroke_pixels(rest, first, last, off, color),
            },
        }
    }
}

/// A stroke is a fatal condition exactly when the path closes before any
/// point was recorded — that is, when its first element is `ClosePath`.
pub open spec fn stroke_fails(path: Seq<PathEl>) -> bool {
    path.len() > 0 && path[0] is ClosePath
}

/// The points an element mentions, control points included.
pub open spec fn el_points(e: PathEl) -> Seq<Point> {
    match e {
        PathEl::MoveTo(p) => seq![p],
        PathEl::LineTo(p) => seq![p],
        PathEl::QuadTo(p1, p2) => seq![p1, p2],
        PathEl::CurveTo(p1, p2, p3) => seq![p1, p2, p3],
        PathEl::ClosePath => Seq::empty(),
    }
}

/// Whether a point stays on the device after translation.
pub open spec fn point_in_range(p: Point, off: (int, int)) -> bool {
    &&& 0 <= p.x + off.0 <= u16::MAX
    &&& 0 <= p.y + off.1 <= u16::MAX
}

/// Whether every point of every path element stays on the device after
/// translation.
pub open spec fn path_in_range(path: Seq<PathEl>, off: (int, int)) -> bool {
    forall|i: int, j: int|
        0 <= i < path.len() && 0 <= j < el_points(path[i]).len() ==> point_in_range(
            #[trigger] el_points(path[i])[j],
            off,
        )
}

/// Whether the pen starts drawing from the origin: only a path whose
/// first element draws needs the translated origin on the device.
pub open spec fn starts_at_origin(path: Seq<PathEl>) -> bool {
    path.len() > 0 && (path[0] is LineTo || path[0] is QuadTo || path[0] is CurveTo)
}

/// Append the pixels of one translated device line to `pixels`.
fn emit_line(pixels: &mut Vec<Pixel>, a: Point, b: Point, off: (i64, i64), width: u8, color: u16)
    requires
        point_in_range(a, (off.0 as int, off.1 as int)),
        point_in_range(b, (off.0 as int, off.1 as int)),
    ensures
        final(pixels)@ == old(pixels)@ + line_seg(a, b, (off.0 as int, off.1 as int), color),
{
    let ax = (a.x as i64 + off.0) as u16;
    let ay = (a.y as i64 + off.1) as u16;
    let bx = (b.x as i64 + off.0) as u16;
    let by = (b.y as i64 + off.1) as u16;
    let pts = line_pixels(ax, ay, bx, by, width);
    let ghost seg = line_seg(a, b, (off.0 as int, off.1 as int), color);
    let ghost base = pixels@;
    let mut k: usize = 0;
    proof {
        assert(pixels@ =~= base + seg.subrange(0, 0));
    }
    while k < pts.len()
        invariant
            k <= pts@.len(),
            seg == colored(pts@, color),
            pixels@ == base + seg.subrange(0, k as int),
        decreases pts@.len() - k,
    {
        let pt = pts[k];
        pixels.push(Pixel { x: pt.0, y: pt.1, color });
        proof {
            assert(seg.subrange(0, k + 1) =~= seg.subrange(0, k as int).push(
                Pixel { x: pt.0, y: pt.1, color },
            ));
            assert(pixels@ =~= base + seg.subrange(0, k + 1));
        }
        k = k + 1;
    }
    proof {
        assert(seg.subrange(0, seg.len() as int) =~= seg);
    }
}

impl EmbedRenderContext {
    /// Stroke a flattened path: each element is drawn as one straight
    /// device line from the pen position to its end point, translated by
    /// the current offset and painted with the brush colour, and the
    /// whole pixel stream runs through the batching pipeline. The stroke
    /// width is accepted for interface parity; the rasterizer draws
    /// single-pixel chords. A path that closes before recording a point
    /// is refused.
    pub fn stroke(&mut self, path: &Vec<PathEl>, brush: &Brush, width: u8) -> (r: Result<
        Vec<PixelBlock>,
        RenderError,
    >)
        requires
            old(self).wf(),
            path_in_range(path@, old(self).offset()),
            starts_at_origin(path@) ==> point_in_range(origin(), old(self).offset()),
        ensures
            *final(self) == *old(self),
            if stroke_fails(path@) {
                r == Err::<Vec<PixelBlock>, RenderError>(RenderError::ClosePathNoStart)
            } else {
                r matches Ok(blocks) && block_views(blocks@) == blocks_spec(
                    rows_spec(
                        stroke_pixels(
                            path@,
                            None,
                            origin(),
                            old(self).offset(),
                            brush_color(*brush),
                        ),
                        CAP_ROW as nat,
                    ),
                    CAP_BLOCK as nat,
                ) && all_blocks_wf(block_views(blocks@))
            },
    {
        let off = self.current_offset();
        let ghost goff = ((off.0 as int, off.1 as int));
        let color = self.convert_brush(brush);
        if path.len() > 0 {
            if let PathEl::ClosePath = path[0] {
                return Err(RenderError::ClosePathNoStart);
            }
        }
        let mut pixels: Vec<Pixel> = Vec::new();
        let mut first: Option<Point> = None;
        let mut last: Point = Point::zero();
        let mut i: usize = 0;
        proof {
            assert(path@.skip(0) =~= path@);
            assert(Seq::<Pixel>::empty() + stroke_pixels(path@, None, origin(), goff, color)
                =~= stroke_pixels(path@, None, origin(), goff, color));
        }
        while i < path.len()
            invariant
                i <= path@.len(),
                goff == old(self).offset(),
                goff == ((off.0 as int, off.1 as int)),
                path_in_range(path@, goff),
                !stroke_fails(path@),
                starts_at_origin(path@) ==> point_in_range(origin(), goff),
                i == 0 ==> first is None && last == origin(),
                i > 0 ==> first is Some,
                i > 0 ==> point_in_range(last, goff),
                first matches Some(f) ==> point_in_range(f, goff),
                stroke_pixels(path@, None, origin(), goff, color) == pixels@ + stroke_pixels(
                    path@.skip(i as int),
                    first,
                    last,
                    goff,
                    color,
                ),
            decreases path@.len() - i,
        {
            let ghost rest = path@.skip(i as int);
            proof {
                assert(rest[0] == path@[i as int]);
                assert(rest.drop_first() =~= path@.skip(i + 1));
            }
            let el = path[i];
            match el {
                PathEl::MoveTo(p) => {
                    proof {
                        assert(point_in_range(el_points(el)[0], goff));
                    }
                    if first.is_none() {
                        first = Some(p);
                    }
                    last = p;
                }
                PathEl::LineTo(p) => {
                    proof {
                        assert(point_in_range(el_points(el)[0], goff));
                    }
                    emit_line(&mut pixels, last, p, off, width, color);
                    if first.is_none() {
                        first = Some(p);
                    }
                    last = p;
                }
                PathEl::QuadTo(p1, p2) => {
                    proof {
                        assert(point_in_range(el_points(el)[0], goff));
                        assert(point_in_range(el_points(el)[1], goff));
                    }
                    emit_line(&mut pixels, last, p2, off, width, color);
                    if first.is_none() {
                        first = Some(p1);
                    }
                    last = p2;
                }
                PathEl::CurveTo(p1, _p2, p3) => {
                    proof {
                        assert(point_in_range(el_points(el)[0], goff));
                        assert(point_in_range(el_points(el)[2], goff));
                    }
                    emit_line(&mut pixels, last, p3, off, width, color);
                    if first.is_none() {
                        first = Some(p1);
                    }
                    last = p3;
                }
                PathEl::ClosePath => {
                    match first {
                        Some(f) => {
                            emit_line(&mut pixels, last, f, off, width, color);
                        }
                        None => {
                            // The path cannot close here: its first element
                            // was checked not to be a ClosePath, and every
                            // other element records a first point.
                            proof {
                                assert(i == 0);
                                assert(path@[0] is ClosePath);
                                assert(false);
                            }
                        }
                    }
                }
            }
            i = i + 1;
        }
        proof {
            assert(path@.skip(path@.len() as int) =~= Seq::<PathEl>::empty());
            assert(pixels@ + Seq::<Pixel>::empty() =~= pixels@);
        }
        Ok(batch_pixels(&pixels))
    }

    /// Stroke with a style. No style option is honoured yet beyond the
    /// width, so a styled stroke draws exactly as `stroke` does.
    pub fn stroke_styled(
        &mut self,
        path: &Vec<PathEl>,
        brush: &Brush,
        width: u8,
        style: &StrokeStyle,
    ) -> (r: Result<Vec<PixelBlock>, RenderError>)
        requires
            old(self).wf(),
            path_in_range(path@, old(self).offset()),
            starts_at_origin(path@) ==> point_in_range(origin(), old(self).offset()),
        ensures
            *final(self) == *old(self),
            if stroke_fails(path@) {
                r == Err::<Vec<PixelBlock>, RenderError>(RenderError::ClosePathNoStart)
            } else {
                r matches Ok(blocks) && block_views(blocks@) == blocks_spec(
                    rows_spec(
                        stroke_pixels(
                            path@,
                            None,
                            origin(),
                            old(self).offset(),
                            brush_color(*brush),
                        ),
                        CAP_ROW as nat,
                    ),
                    CAP_BLOCK as nat,
                ) && all_blocks_wf(block_views(blocks@))
            },
    {
        let _ = style;
        self.stroke(path, brush, width)
    }
}

/// The background colour behind rendered text cells.
pub const TEXT_FILL: u16 = 0;

/// The pixels a text draw paints: the layout's glyph pixels, each moved
/// by the draw position plus the cumulative translation.
pub open spec fn placed_text(text: Seq<char>, stroke: u16, ox: int, oy: int) -> Seq<Pixel> {
    font_pts(text, stroke, TEXT_FILL).map_values(
        |t: (u16, u16, u16)| Pixel { x: (t.0 + ox) as u16, y: (t.1 + oy) as u16, color: t.2 },
    )
}

/// Whether a layout drawn at `pos` stays on the device after translation:
/// its cell grid is 12 units wide per character and 16 units tall.
pub open spec fn text_in_range(layout: EmbedTextLayout, pos: Point, off: (int, int)) -> bool {
    &&& 0 <= pos.x + off.0
    &&& pos.x + off.0 + 12 * layout.text@.len() <= u16::MAX + 1
    &&& 0 <= pos.y + off.1
    &&& pos.y + off.1 + 16 <= u16::MAX + 1
}

impl EmbedRenderContext {
    /// Draw a text layout at `pos` with the brush colour, using the fixed
    /// 12×16 bitmap font; the cells' background is filled with the text
    /// fill colour. The glyph pixels, moved by `pos` plus the current
    /// offset, run through the batching pipeline.
    pub fn draw_text(&mut self, layout: &EmbedTextLayout, pos: Point, brush: &Brush) -> (blocks:
        Vec<PixelBlock>)
        requires
            old(self).wf(),
            layout.wf(),
            text_in_range(*layout, pos, old(self).offset()),
        ensures
            *final(self) == *old(self),
            block_views(blocks@) == blocks_spec(
                rows_spec(
                    placed_text(
                        layout.text@,
                        brush_color(*brush),
                        pos.x + old(self).offset().0,
                        pos.y + old(self).offset().1,
                    ),
                    CAP_ROW as nat,
                ),
                CAP_BLOCK as nat,
            ),
            all_blocks_wf(block_views(blocks@)),
    {
        let off = self.current_offset();
        let color = self.convert_brush(brush);
        let ox: i64 = pos.x as i64 + off.0;
        let oy: i64 = pos.y as i64 + off.1;
        let pts = text_pixels(layout.text.as_str(), color, TEXT_FILL);
        let ghost placed = placed_text(layout.text@, brush_color(*brush), ox as int, oy as int);
        let mut pixels: Vec<Pixel> = Vec::new();
        let mut k: usize = 0;
        proof {
            assert(pixels@ =~= placed.subrange(0, 0));
        }
        while k < pts.len()
            invariant
                k <= pts@.len(),
                0 <= ox,
                ox + 12 * layout.text@.len() <= u16::MAX + 1,
                0 <= oy,
                oy + 16 <= u16::MAX + 1,
                pts@ == font_pts(layout.text@, color, TEXT_FILL),
                forall|n: int|
                    0 <= n < pts@.len() ==> (#[trigger] pts@[n]).0 < 12 * layout.text@.len()
                        && pts@[n].1 < 16,
                placed == placed_text(layout.text@, color, ox as int, oy as int),
                pixels@ == placed.subrange(0, k as int),
            decreases pts@.len() - k,
        {
            let pt = pts[k];
            let px: u16 = (pt.0 as i64 + ox) as u16;
            let py: u16 = (pt.1 as i64 + oy) as u16;
            pixels.push(Pixel { x: px, y: py, color: pt.2 });
            proof {
                assert(placed[k as int] == (Pixel { x: px, y: py, color: pt.2 }));
                assert(placed.subrange(0, k + 1) =~= placed.subrange(0, k as int).push(
                    placed[k as int],
                ));
            }
            k = k + 1;
        }
        proof {
            assert(placed.subrange(0, placed.len() as int) =~= placed);
        }
        batch_pixels(&pixels)
    }
}

/// Stroke chord degradation, for one curve: stroking a path that moves to
/// `a` and draws a cubic to `b` paints exactly the straight device line
/// from `a` to `b` — the control points have no effect at all.
pub proof fn lemma_stroke_chord(
    a: Point,
    c1: Point,
    c2: Point,
    b: Point,
    off: (int, int),
    color: u16,
)
    ensures
        stroke_pixels(seq![PathEl::MoveTo(a), PathEl::CurveTo(c1, c2, b)], None, origin(), off, color)
            == line_seg(a, b, off, color),
{
    let path = seq![PathEl::MoveTo(a), PathEl::CurveTo(c1, c2, b)];
    let tail = seq![PathEl::CurveTo(c1, c2, b)];
    assert(path.drop_first() =~= tail);
    assert(tail.drop_first() =~= Seq::<PathEl>::empty());
    assert(stroke_pixels(Seq::<PathEl>::empty(), Some(a), b, off, color) == Seq::<Pixel>::empty());
    assert(stroke_pixels(tail, Some(a), a, off, color) =~= line_seg(a, b, off, color));
    assert(stroke_pixels(path, None, origin(), off, color) == stroke_pixels(
        tail,
        Some(a),
        a,
        off,
        color,
    ));
}

/// Once a first point is recorded, the control points of a cubic element
/// never reach the emitted pixels.
proof fn lemma_controls_helper(
    path: Seq<PathEl>,
    i: int,
    c1: Point,
    c2: Point,
    d1: Point,
    d2: Point,
    p: Point,
    first: Option<Point>,
    last: Point,
    off: (int, int),
    color: u16,
)
    requires
        0 <= i < path.len(),
        path[i] == PathEl::CurveTo(c1, c2, p),
        first is Some,
    ensures
        stroke_pixels(path.update(i, PathEl::CurveTo(d1, d2, p)), first, last, off, color)
            == stroke_pixels(path, first, last, off, color),
    decreases i,
{
    let changed = path.update(i, PathEl::CurveTo(d1, d2, p));
    if i == 0 {
        assert(changed.drop_first() =~= path.drop_first());
        assert(upd_first(first, c1) == first && upd_first(first, d1) == first);
    } else {
        assert(changed[0] == path[0]);
        assert(changed.drop_first() =~= path.drop_first().update(i - 1, PathEl::CurveTo(d1, d2, p)));
        match path[0] {
            PathEl::MoveTo(q) => {
                lemma_controls_helper(
                    path.drop_first(), i - 1, c1, c2, d1, d2, p,
                    upd_first(first, q), q, off, color,
                );
            }
            PathEl::LineTo(q) => {
                lemma_controls_helper(
                    path.drop_first(), i - 1, c1, c2, d1, d2, p,
                    upd_first(first, q), q, off, color,
                );
            }
            PathEl::QuadTo(q1, q2) => {
                lemma_controls_helper(
                    path.drop_first(), i - 1, c1, c2, d1, d2, p,
                    upd_first(first, q1), q2, off, color,
                );
            }
            PathEl::CurveTo(q1, q2, q3) => {
                lemma_controls_helper(
                    path.drop_first(), i - 1, c1, c2, d1, d2, p,
                    upd_first(first, q1), q3, off, color,
                );
            }
            PathEl::ClosePath => {
                lemma_controls_helper(
                    path.drop_first(), i - 1, c1, c2, d1, d2, p,
                    first, last, off, color,
                );
            }
        }
    }
}

/// Stroke chord degradation, in general: in any path that opens with a
/// `MoveTo`, replacing the control points of a cubic element changes
/// nothing about the emitted pixels.
pub proof fn lemma_stroke_controls_irrelevant(
    path: Seq<PathEl>,
    i: int,
    c1: Point,
    c2: Point,
    d1: Point,
    d2: Point,
    p: Point,
    off: (int, int),
    color: u16,
)
    requires
        0 <= i < path.len(),
        path[0] is MoveTo,
        path[i] == PathEl::CurveTo(c1, c2, p),
    ensures
        stroke_pixels(path.update(i, PathEl::CurveTo(d1, d2, p)), None, origin(), off, color)
            == stroke_pixels(path, None, origin(), off, color),
{
    let changed = path.update(i, PathEl::CurveTo(d1, d2, p));
    assert(i > 0);
    assert(changed[0] == path[0]);
    assert(changed.drop_first() =~= path.drop_first().update(i - 1, PathEl::CurveTo(d1, d2, p)));
    match path[0] {
        PathEl::MoveTo(q) => {
            lemma_controls_helper(
                path.drop_first(), i - 1, c1, c2, d1, d2, p,
                Some(q), q, off, color,
            );
        }
        _ => {}
    }
}

} // verus!
