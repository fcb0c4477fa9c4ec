//! Rasterization calls into `embedded_graphics`.
//!
//! Two pieces of pixel generation are delegated to the `embedded_graphics`
//! crate: the Bresenham walk of a straight line and the bitmap rendering
//! of the fixed 12×16 font. Both are pure functions of their arguments;
//! their exact pixel sets are named by uninterpreted model functions, and
//! the trusted wrappers below hand the pixels over as plain coordinate
//! tuples for verified code to place and colour.

use vstd::prelude::*;

use embedded_graphics::coord::Coord;
use embedded_graphics::drawable::Pixel as EgPixel;
use embedded_graphics::fonts::Font;
use embedded_graphics::fonts::Font12x16;
use embedded_graphics::pixelcolor::PixelColorU16;
use embedded_graphics::primitives::Line;
use embedded_graphics::style::WithStyle;

verus! {

/// The pixels of the straight line from `(x0, y0)` to `(x1, y1)`, as
/// `embedded_graphics` rasterizes it. A line of zero length has no pixels.
pub uninterp spec fn line_pts(x0: u16, y0: u16, x1: u16, y1: u16) -> Seq<(u16, u16)>;

/// The pixels of `text` rendered in the fixed 12×16 font at the origin:
/// coordinates and colour, where set bits carry `stroke` and cleared bits
/// carry `fill`.
pub uninterp spec fn font_pts(text: Seq<char>, stroke: u16, fill: u16) -> Seq<(u16, u16, u16)>;

/// Relies on `embedded_graphics::primitives::Line`'s pixel iterator: a
/// Bresenham walk over the two endpoints alone. Its source reads neither
/// the stroke colour (beyond requiring one to be set) nor the stroke
/// width, so the pixels are a function of the endpoints; with both
/// endpoints at non-negative coordinates no pixel is clipped, and every
/// pixel lies between them, so the coordinates fit back into `u16`.
#[verifier::external_body]
pub fn line_pixels(x0: u16, y0: u16, x1: u16, y1: u16, width: u8) -> (r: Vec<(u16, u16)>)
    ensures
        r@ == line_pts(x0, y0, x1, y1),
{
    let line = Line::<PixelColorU16>::new(
        Coord::new(x0 as i32, y0 as i32),
        Coord::new(x1 as i32, y1 as i32),
    ).with_stroke(Some(PixelColorU16(0))).with_stroke_width(width);
    let mut out: Vec<(u16, u16)> = Vec::new();
    for EgPixel(c, _) in (&line).into_iter() {
        out.push((c.0 as u16, c.1 as u16));
    }
    out
}

/// Relies on `embedded_graphics::fonts::Font12x16`'s `render_str` and its
/// pixel iterator: each character is drawn into its own 12×16 cell, cells
/// left to right from the origin, so every pixel has `x` below 12 times
/// the character count and `y` below 16.
#[verifier::external_body]
pub fn text_pixels(text: &str, stroke: u16, fill: u16) -> (r: Vec<(u16, u16, u16)>)
    ensures
        r@ == font_pts(text@, stroke, fill),
        forall|i: int|
            0 <= i < r@.len() ==> (#[trigger] r@[i]).0 < 12 * text@.len() && r@[i].1 < 16,
{
    let rendered = Font12x16::<PixelColorU16>::render_str(text).with_stroke(
        Some(PixelColorU16(stroke)),
    ).with_fill(Some(PixelColorU16(fill)));
    let mut out: Vec<(u16, u16, u16)> = Vec::new();
    for EgPixel(c, color) in (&rendered).into_iter() {
        out.push((c.0 as u16, c.1 as u16, color.0));
    }
    out
}

} // verus!
