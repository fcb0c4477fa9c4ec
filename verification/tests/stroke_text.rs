use embedded_graphics::coord::Coord;
use embedded_graphics::drawable::Pixel as EgPixel;
use embedded_graphics::fonts::Font;
use embedded_graphics::fonts::Font12x16;
use embedded_graphics::pixelcolor::PixelColorU16;
use embedded_graphics::primitives::Line;
use embedded_graphics::style::WithStyle;

use piet_embedded_graphics::batch::PixelBlock;
use piet_embedded_graphics::context::EmbedRenderContext;
use piet_embedded_graphics::geom::Affine;
use piet_embedded_graphics::geom::PathEl;
use piet_embedded_graphics::geom::Point;
use piet_embedded_graphics::shapes::LineCap;
use piet_embedded_graphics::shapes::LineJoin;
use piet_embedded_graphics::shapes::StrokeStyle;
use piet_embedded_graphics::status::RenderError;
use piet_embedded_graphics::text::EmbedText;

const WHITE: u32 = 0xFFFF_FFFF;
const WHITE565: u16 = 0xFFFF;

fn pt(x: i32, y: i32) -> Point {
    Point { x, y }
}

/// The device pixels of a straight line, computed with the rasterizer
/// directly, independently of the library.
fn eg_line(x0: u16, y0: u16, x1: u16, y1: u16) -> Vec<(u16, u16)> {
    let line = Line::<PixelColorU16>::new(
        Coord::new(x0 as i32, y0 as i32),
        Coord::new(x1 as i32, y1 as i32),
    )
    .with_stroke(Some(PixelColorU16(0)));
    (&line).into_iter().map(|EgPixel(c, _)| (c.0 as u16, c.1 as u16)).collect()
}

/// The pixels the emitted blocks write, in emission order.
fn flatten_blocks(blocks: &[PixelBlock]) -> Vec<(u16, u16, u16)> {
    let mut out = Vec::new();
    for b in blocks {
        let w = (b.x_right - b.x_left + 1) as usize;
        for (i, chunk) in b.colors.as_slice().chunks(w).enumerate() {
            for (j, &c) in chunk.iter().enumerate() {
                out.push((b.x_left + j as u16, b.y_top + i as u16, c));
            }
        }
    }
    out
}

#[test]
fn stroke_cubic_degrades_to_chord() {
    // Stroking a cubic curve draws the straight device line from the
    // curve's start to its end; the control points have zero effect.
    let mut ctx = EmbedRenderContext::new();
    let brush = ctx.solid_brush(WHITE);
    let path = vec![
        PathEl::MoveTo(pt(10, 10)),
        PathEl::CurveTo(pt(50, 0), pt(60, 90), pt(20, 15)),
    ];
    let blocks = ctx.stroke(&path, &brush, 1).unwrap();
    let emitted = flatten_blocks(&blocks);
    let expected: Vec<(u16, u16, u16)> =
        eg_line(10, 10, 20, 15).into_iter().map(|(x, y)| (x, y, WHITE565)).collect();
    assert_eq!(emitted, expected);
    // The emitted pixels start at the curve's start point and finish at
    // its end point.
    assert_eq!(emitted.first().map(|&(x, y, _)| (x, y)), Some((10, 10)));
    assert_eq!(emitted.last().map(|&(x, y, _)| (x, y)), Some((20, 15)));

    // Wildly different control points leave the pixels unchanged.
    let other = vec![
        PathEl::MoveTo(pt(10, 10)),
        PathEl::CurveTo(pt(0, 200), pt(199, 3), pt(20, 15)),
    ];
    let blocks2 = ctx.stroke(&other, &brush, 1).unwrap();
    assert_eq!(flatten_blocks(&blocks2), emitted);
}

#[test]
fn stroke_quad_degrades_to_chord() {
    let mut ctx = EmbedRenderContext::new();
    let brush = ctx.solid_brush(WHITE);
    let path = vec![PathEl::MoveTo(pt(0, 0)), PathEl::QuadTo(pt(90, 90), pt(8, 3))];
    let blocks = ctx.stroke(&path, &brush, 1).unwrap();
    let expected: Vec<(u16, u16, u16)> =
        eg_line(0, 0, 8, 3).into_iter().map(|(x, y)| (x, y, WHITE565)).collect();
    assert_eq!(flatten_blocks(&blocks), expected);
}

#[test]
fn stroke_line_matches_rasterizer() {
    let mut ctx = EmbedRenderContext::new();
    let brush = ctx.solid_brush(0xFF00_0000);
    let path = vec![PathEl::MoveTo(pt(3, 4)), PathEl::LineTo(pt(30, 11))];
    let blocks = ctx.stroke(&path, &brush, 1).unwrap();
    let expected: Vec<(u16, u16, u16)> =
        eg_line(3, 4, 30, 11).into_iter().map(|(x, y)| (x, y, 0xF800)).collect();
    assert_eq!(flatten_blocks(&blocks), expected);
}

#[test]
fn stroke_close_path_draws_back_to_first_point() {
    let mut ctx = EmbedRenderContext::new();
    let brush = ctx.solid_brush(WHITE);
    let path = vec![
        PathEl::MoveTo(pt(0, 0)),
        PathEl::LineTo(pt(6, 2)),
        PathEl::ClosePath,
    ];
    let blocks = ctx.stroke(&path, &brush, 1).unwrap();
    let mut expected: Vec<(u16, u16, u16)> =
        eg_line(0, 0, 6, 2).into_iter().map(|(x, y)| (x, y, WHITE565)).collect();
    expected.extend(eg_line(6, 2, 0, 0).into_iter().map(|(x, y)| (x, y, WHITE565)));
    assert_eq!(flatten_blocks(&blocks), expected);
}

#[test]
fn stroke_close_path_without_start_is_fatal() {
    let mut ctx = EmbedRenderContext::new();
    let brush = ctx.solid_brush(WHITE);
    let path = vec![PathEl::ClosePath];
    match ctx.stroke(&path, &brush, 1) {
        Err(e) => assert_eq!(e, RenderError::ClosePathNoStart),
        Ok(_) => panic!("a path that closes before any point must be refused"),
    }
}

#[test]
fn stroke_applies_the_current_translation() {
    let mut ctx = EmbedRenderContext::new();
    let brush = ctx.solid_brush(WHITE);
    assert!(ctx.transform(Affine::Translate(100, 50)).is_ok());
    let path = vec![PathEl::MoveTo(pt(0, 0)), PathEl::LineTo(pt(5, 5))];
    let blocks = ctx.stroke(&path, &brush, 1).unwrap();
    let expected: Vec<(u16, u16, u16)> =
        eg_line(100, 50, 105, 55).into_iter().map(|(x, y)| (x, y, WHITE565)).collect();
    assert_eq!(flatten_blocks(&blocks), expected);
}

#[test]
fn stroke_styled_matches_stroke() {
    let mut ctx = EmbedRenderContext::new();
    let brush = ctx.solid_brush(WHITE);
    let mut style = StrokeStyle::new();
    style.set_line_join(LineJoin::Round);
    style.set_line_cap(LineCap::Square);
    let path = vec![PathEl::MoveTo(pt(1, 1)), PathEl::LineTo(pt(9, 4))];
    let plain = ctx.stroke(&path, &brush, 2).unwrap();
    let styled = ctx.stroke_styled(&path, &brush, 2, &style).unwrap();
    assert_eq!(flatten_blocks(&plain), flatten_blocks(&styled));
}

#[test]
fn stroke_style_setters_record_choices() {
    let mut style = StrokeStyle::new();
    assert!(style.line_join.is_none());
    assert!(style.line_cap.is_none());
    style.set_line_join(LineJoin::Bevel);
    style.set_line_cap(LineCap::Butt);
    assert_eq!(style.line_join, Some(LineJoin::Bevel));
    assert_eq!(style.line_cap, Some(LineCap::Butt));
}

#[test]
fn draw_text_renders_the_font_pixels() {
    let mut ctx = EmbedRenderContext::new();
    let brush = ctx.solid_brush(WHITE);
    let mut factory = EmbedText::new();
    let font = factory.new_font_by_name("sans-serif", 12).build().unwrap();
    let layout = factory.new_text_layout(&font, "AB").build().unwrap();
    let blocks = ctx.draw_text(&layout, pt(30, 20), &brush);

    // Expected: the rasterizer's own glyph pixels, moved to (30, 20).
    let rendered = Font12x16::<PixelColorU16>::render_str("AB")
        .with_stroke(Some(PixelColorU16(WHITE565)))
        .with_fill(Some(PixelColorU16(0)));
    let expected: Vec<(u16, u16, u16)> = (&rendered)
        .into_iter()
        .map(|EgPixel(c, col)| (c.0 as u16 + 30, c.1 as u16 + 20, col.0))
        .collect();
    // Two 12 by 16 cells, background included.
    assert_eq!(expected.len(), 2 * 12 * 16);
    assert_eq!(flatten_blocks(&blocks), expected);
}

#[test]
fn draw_text_honours_the_translation() {
    let mut ctx = EmbedRenderContext::new();
    let brush = ctx.solid_brush(WHITE);
    assert!(ctx.save().is_ok());
    assert!(ctx.transform(Affine::Translate(7, 3)).is_ok());
    let mut factory = EmbedText::new();
    let font = factory.new_font_by_name("sans-serif", 12).build().unwrap();
    let layout = factory.new_text_layout(&font, "!").build().unwrap();
    let blocks = ctx.draw_text(&layout, pt(0, 0), &brush);
    let pixels = flatten_blocks(&blocks);
    assert_eq!(pixels.len(), 12 * 16);
    // The glyph cell's top-left corner lands at the translated origin.
    assert_eq!(pixels.iter().map(|&(x, _, _)| x).min(), Some(7));
    assert_eq!(pixels.iter().map(|&(_, y, _)| y).min(), Some(3));
}

#[test]
fn text_layout_width_is_stubbed_to_zero() {
    let mut factory = EmbedText::new();
    let font = factory.new_font_by_name("sans-serif", 12).build().unwrap();
    let layout = factory.new_text_layout(&font, "piet").build().unwrap();
    assert_eq!(layout.width(), 0);
    let empty = factory.new_text_layout(&font, "").build().unwrap();
    assert_eq!(empty.width(), 0);
}

#[test]
fn hit_testing_is_stubbed_to_defaults() {
    let mut factory = EmbedText::new();
    let font = factory.new_font_by_name("sans-serif", 12).build().unwrap();
    let layout = factory.new_text_layout(&font, "piet text!").build().unwrap();
    let hit = layout.hit_test_point(pt(25, 4));
    assert_eq!(hit.text_position, 0);
    assert!(!hit.is_inside);
    let pos = layout.hit_test_text_position(4).unwrap();
    assert_eq!(pos.point, pt(0, 0));
    assert_eq!(pos.text_position, 0);
}
