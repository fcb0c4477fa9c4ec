//! Brushes and their resolution to the display's packed colour space.
//!
//! A brush describes how pixels are painted. Only solid colours are
//! supported; the variant is a tagged sum so that gradient brushes can be
//! added later. A solid brush carries a packed 32-bit RGBA value, and
//! resolving it extracts the red, green and blue byte lanes (alpha is
//! accepted but discarded — transparency is not composited) and repacks
//! them as RGB565, the 16-bit colour format of the display.

use vstd::prelude::*;

verus! {

/// How pixels are painted. Currently only solid colours exist.
#[derive(Clone, Copy, PartialEq, Eq, Structural, Debug)]
pub enum Brush {
    /// A solid colour, as packed 32-bit RGBA.
    Solid(u32),
}

impl Brush {
    /// The concrete brush to paint with: a brush stands for itself.
    pub fn make_brush(&self) -> (r: Brush)
        ensures
            r == *self,
    {
        *self
    }
}

/// The red byte lane of a packed RGBA value.
pub open spec fn red_lane(rgba: u32) -> u8 {
    (rgba >> 24) as u8
}

/// The green byte lane of a packed RGBA value.
pub open spec fn green_lane(rgba: u32) -> u8 {
    (rgba >> 16) as u8
}

/// The blue byte lane of a packed RGBA value.
pub open spec fn blue_lane(rgba: u32) -> u8 {
    (rgba >> 8) as u8
}

/// 8-bit red, green and blue packed as RGB565: the top 5 bits of red, the
/// top 6 bits of green and the top 5 bits of blue, in that order from the
/// high bit.
pub open spec fn rgb565_pack(r: u8, g: u8, b: u8) -> u16 {
    (((r >> 3) as u16) << 11) | (((g >> 2) as u16) << 5) | ((b >> 3) as u16)
}

/// The RGB565 colour of a packed RGBA value: its byte lanes repacked,
/// alpha discarded.
pub open spec fn rgb565_of_rgba(rgba: u32) -> u16 {
    rgb565_pack(red_lane(rgba), green_lane(rgba), blue_lane(rgba))
}

/// Resolve a brush to the packed 16-bit colour the display is driven with.
pub fn resolve_brush(brush: &Brush) -> (color: u16)
    ensures
        color == match *brush { Brush::Solid(rgba) => rgb565_of_rgba(rgba) },
{
    match *brush {
        Brush::Solid(rgba) => {
            let r = (rgba >> 24) as u8;
            let g = (rgba >> 16) as u8;
            let b = (rgba >> 8) as u8;
            (((r >> 3) as u16) << 11) | (((g >> 2) as u16) << 5) | ((b >> 3) as u16)
        }
    }
}

} // verus!
