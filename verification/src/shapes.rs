//! Options for drawing stroked lines.
//!
//! A stroke style carries join and cap choices. The render context accepts
//! a style but does not yet act on it: styled strokes draw exactly as
//! unstyled ones.

use vstd::prelude::*;

verus! {

/// Options for angled joins in strokes.
#[derive(Clone, Copy, PartialEq, Eq, Structural, Debug)]
pub enum LineJoin {
    Miter,
    Round,
    Bevel,
}

/// Options for the cap of stroked lines.
#[derive(Clone, Copy, PartialEq, Eq, Structural, Debug)]
pub enum LineCap {
    Butt,
    Round,
    Square,
}

/// Options for drawing stroked lines.
#[derive(Clone, Copy, PartialEq, Eq, Structural, Debug)]
pub struct StrokeStyle {
    pub line_join: Option<LineJoin>,
    pub line_cap: Option<LineCap>,
}

impl StrokeStyle {
    /// A style with every option left at its default.
    pub fn new() -> (r: StrokeStyle)
        ensures
            r.line_join is None,
            r.line_cap is None,
    {
        StrokeStyle { line_join: None, line_cap: None }
    }

    /// Choose how angled joins are drawn.
    pub fn set_line_join(&mut self, line_join: LineJoin)
        ensures
            final(self).line_join == Some(line_join),
            final(self).line_cap == old(self).line_cap,
    {
        self.line_join = Some(line_join);
    }

    /// Choose how line ends are capped.
    pub fn set_line_cap(&mut self, line_cap: LineCap)
        ensures
            final(self).line_cap == Some(line_cap),
            final(self).line_join == old(self).line_join,
    {
        self.line_cap = Some(line_cap);
    }
}

} // verus!
