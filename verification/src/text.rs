//! The text factory and its layouts.
//!
//! Text is rendered with a fixed 12×16 bitmap font, so a layout is no more
//! than the text it was built from, bounded by the row buffer it must fit.
//! Layout metrics and hit testing are an external collaborator's concern:
//! the width and hit-testing methods here are deliberate stubs that return
//! zero and default values.

use vstd::prelude::*;

use crate::geom::Point;
use crate::status::RenderError;

verus! {

/// Width of one font cell, in device units.
pub const FONT_WIDTH: u16 = 12;

/// Height of one font cell, in device units.
pub const FONT_HEIGHT: u16 = 16;

/// Max number of characters in one text layout.
pub const MAX_TEXT: usize = 20;

/// The text factory. The fixed bitmap font needs no state.
pub struct EmbedText;

/// The one available font.
pub struct EmbedFont;

/// Builder for `EmbedFont`. The fixed font has nothing to configure.
pub struct EmbedFontBuilder;

/// A laid-out text: the text itself, in fixed-width font cells.
pub struct EmbedTextLayout {
    /// The text of the layout, at most `MAX_TEXT` characters.
    pub text: String,
}

/// Builder for `EmbedTextLayout`.
pub struct EmbedTextLayoutBuilder(pub EmbedTextLayout);

/// Where a point falls in a layout.
#[derive(Clone, Copy, PartialEq, Eq, Structural, Debug)]
pub struct HitTestPoint {
    /// The text position closest to the point.
    pub text_position: usize,
    /// Whether the point hits the text.
    pub is_inside: bool,
}

/// Where a text position falls in device space.
#[derive(Clone, Copy, PartialEq, Eq, Structural, Debug)]
pub struct HitTestTextPosition {
    /// The leading edge of the position.
    pub point: Point,
    /// The text position hit.
    pub text_position: usize,
}

impl EmbedTextLayout {
    /// A layout fits the bounded row buffer of the batching pipeline.
    pub open spec fn wf(self) -> bool {
        self.text@.len() <= MAX_TEXT
    }

    /// Layout metrics are not supported: the width is stubbed to zero.
    pub fn width(&self) -> (r: usize)
        ensures
            r == 0,
    {
        0
    }

    /// Hit-testing with text is not supported: every point reports the
    /// default position.
    pub fn hit_test_point(&self, point: Point) -> (r: HitTestPoint)
        ensures
            r == (HitTestPoint { text_position: 0, is_inside: false }),
    {
        let _ = point;
        HitTestPoint { text_position: 0, is_inside: false }
    }

    /// Hit-testing with text is not supported: every position reports the
    /// default location.
    pub fn hit_test_text_position(&self, text_position: usize) -> (r: Option<HitTestTextPosition>)
        ensures
            r == Some(
                HitTestTextPosition { point: Point { x: 0, y: 0 }, text_position: 0 },
            ),
    {
        let _ = text_position;
        Some(HitTestTextPosition { point: Point { x: 0, y: 0 }, text_position: 0 })
    }
}

impl EmbedText {
    /// A new text factory.
    pub fn new() -> EmbedText {
        EmbedText
    }

    /// Start building the one available font; the name and size are
    /// accepted for interface parity and ignored.
    pub fn new_font_by_name(&mut self, name: &str, size: u32) -> EmbedFontBuilder {
        let _ = name;
        let _ = size;
        EmbedFontBuilder
    }

    /// Lay out `text` in the fixed font.
    pub fn new_text_layout(&mut self, font: &EmbedFont, text: &str) -> (r: EmbedTextLayoutBuilder)
        requires
            text@.len() <= MAX_TEXT,
        ensures
            r.0.wf(),
            r.0.text@ == text@,
    {
        let _ = font;
        EmbedTextLayoutBuilder(EmbedTextLayout { text: text.to_string() })
    }
}

impl EmbedFontBuilder {
    /// The fixed font always builds.
    pub fn build(self) -> (r: Result<EmbedFont, RenderError>)
        ensures
            r is Ok,
    {
        Ok(EmbedFont)
    }
}

impl EmbedTextLayoutBuilder {
    /// A layout always builds, unchanged.
    pub fn build(self) -> (r: Result<EmbedTextLayout, RenderError>)
        ensures
            r matches Ok(l) && l.text@ == self.0.text@,
    {
        Ok(self.0)
    }
}

} // verus!
