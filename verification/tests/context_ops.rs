use piet_embedded_graphics::brush::Brush;
use piet_embedded_graphics::context::DISPLAY_HEIGHT;
use piet_embedded_graphics::context::DISPLAY_WIDTH;
use piet_embedded_graphics::context::EmbedRenderContext;
use piet_embedded_graphics::geom::Affine;
use piet_embedded_graphics::geom::Rect;
use piet_embedded_graphics::status::RenderError;

const WHITE: u32 = 0xFFFF_FFFF;

fn one_pixel_rect() -> Rect {
    Rect { x0: 0, y0: 0, x1: 0, y1: 0 }
}

#[test]
fn transform_scoping_offsets_then_restores() {
    // save(); transform(dx=5); draw at local (0,0); restore(); draw at
    // local (0,0): the first draw lands at device x=5, the second at x=0.
    let mut ctx = EmbedRenderContext::new();
    let brush = ctx.solid_brush(WHITE);
    assert!(ctx.save().is_ok());
    assert!(ctx.transform(Affine::Translate(5, 0)).is_ok());
    let inside = ctx.fill(one_pixel_rect(), &brush);
    assert_eq!(inside.len(), 1);
    assert_eq!((inside[0].x_left, inside[0].y_top), (5, 0));
    assert!(ctx.restore().is_ok());
    let outside = ctx.fill(one_pixel_rect(), &brush);
    assert_eq!(outside.len(), 1);
    assert_eq!((outside[0].x_left, outside[0].y_top), (0, 0));
}

#[test]
fn nested_transforms_accumulate() {
    let mut ctx = EmbedRenderContext::new();
    let brush = ctx.solid_brush(WHITE);
    assert!(ctx.save().is_ok());
    assert!(ctx.transform(Affine::Translate(5, 2)).is_ok());
    assert!(ctx.save().is_ok());
    assert!(ctx.transform(Affine::Translate(10, 1)).is_ok());
    let blocks = ctx.fill(one_pixel_rect(), &brush);
    assert_eq!((blocks[0].x_left, blocks[0].y_top), (15, 3));
    assert!(ctx.restore().is_ok());
    let blocks = ctx.fill(one_pixel_rect(), &brush);
    assert_eq!((blocks[0].x_left, blocks[0].y_top), (5, 2));
    assert!(ctx.restore().is_ok());
    let blocks = ctx.fill(one_pixel_rect(), &brush);
    assert_eq!((blocks[0].x_left, blocks[0].y_top), (0, 0));
}

#[test]
fn restore_without_save_is_stack_underflow() {
    // An unmatched restore must be detected, not silently ignored.
    let mut ctx = EmbedRenderContext::new();
    assert_eq!(ctx.restore(), Err(RenderError::StackUnderflow));
    // Pairing still works afterwards.
    assert!(ctx.save().is_ok());
    assert!(ctx.restore().is_ok());
    assert_eq!(ctx.restore(), Err(RenderError::StackUnderflow));
}

#[test]
fn save_beyond_stack_depth_is_stack_overflow() {
    let mut ctx = EmbedRenderContext::new();
    // The root scope occupies one slot of the ten.
    for _ in 0..9 {
        assert!(ctx.save().is_ok());
    }
    assert_eq!(ctx.save(), Err(RenderError::StackOverflow));
}

#[test]
fn non_translation_transform_is_rejected() {
    let mut ctx = EmbedRenderContext::new();
    assert_eq!(ctx.transform(Affine::NonTranslation), Err(RenderError::Unsupported));
    // Rejection leaves the stack usable and unchanged.
    let brush = ctx.solid_brush(WHITE);
    let blocks = ctx.fill(one_pixel_rect(), &brush);
    assert_eq!((blocks[0].x_left, blocks[0].y_top), (0, 0));
}

#[test]
fn transform_without_save_applies_to_root() {
    // The context opens a root scope at construction, so an immediate
    // transform is valid and folds into it.
    let mut ctx = EmbedRenderContext::new();
    assert!(ctx.transform(Affine::Translate(3, 4)).is_ok());
    let brush = ctx.solid_brush(WHITE);
    let blocks = ctx.fill(one_pixel_rect(), &brush);
    assert_eq!((blocks[0].x_left, blocks[0].y_top), (3, 4));
}

#[test]
fn clip_is_rejected_loudly() {
    let mut ctx = EmbedRenderContext::new();
    let r = ctx.clip(Rect { x0: 0, y0: 0, x1: 10, y1: 10 });
    assert_eq!(r, Err(RenderError::Unsupported));
}

#[test]
fn status_and_finish_always_succeed() {
    let mut ctx = EmbedRenderContext::new();
    assert!(ctx.status().is_ok());
    assert!(ctx.finish().is_ok());
}

#[test]
fn fill_paints_every_pixel_of_the_box() {
    let mut ctx = EmbedRenderContext::new();
    let brush = ctx.solid_brush(0xFF00_0000); // pure red
    let blocks = ctx.fill(Rect { x0: 2, y0: 3, x1: 6, y1: 5 }, &brush);
    let mut total = 0usize;
    for b in &blocks {
        let area = (b.x_right - b.x_left + 1) as usize * (b.y_bottom - b.y_top + 1) as usize;
        assert_eq!(area, b.colors.as_slice().len());
        assert!(b.colors.as_slice().iter().all(|&c| c == 0xF800));
        assert!(b.x_left >= 2 && b.x_right <= 6);
        assert!(b.y_top >= 3 && b.y_bottom <= 5);
        total += area;
    }
    // A 5 by 3 box paints 15 pixels.
    assert_eq!(total, 15);
    // A box this small batches into a single block.
    assert_eq!(blocks.len(), 1);
    assert_eq!(
        (blocks[0].x_left, blocks[0].x_right, blocks[0].y_top, blocks[0].y_bottom),
        (2, 6, 3, 5)
    );
}

#[test]
fn fill_even_odd_matches_fill() {
    let mut ctx = EmbedRenderContext::new();
    let brush = ctx.solid_brush(WHITE);
    let shape = Rect { x0: 1, y0: 1, x1: 4, y1: 2 };
    let a = ctx.fill(shape, &brush);
    let b = ctx.fill_even_odd(shape, &brush);
    assert_eq!(a.len(), b.len());
    for (x, y) in a.iter().zip(b.iter()) {
        assert_eq!((x.x_left, x.x_right, x.y_top, x.y_bottom), (y.x_left, y.x_right, y.y_top, y.y_bottom));
        assert_eq!(x.colors.as_slice(), y.colors.as_slice());
    }
}

#[test]
fn clear_covers_the_display() {
    let mut ctx = EmbedRenderContext::new();
    let blocks = ctx.clear(0x0000_0000);
    let mut total = 0usize;
    for b in &blocks {
        let area = (b.x_right - b.x_left + 1) as usize * (b.y_bottom - b.y_top + 1) as usize;
        assert_eq!(area, b.colors.as_slice().len());
        assert!(b.colors.as_slice().iter().all(|&c| c == 0));
        total += area;
    }
    assert_eq!(total, DISPLAY_WIDTH as usize * DISPLAY_HEIGHT as usize);
}

#[test]
fn solid_brush_and_make_brush_carry_the_color() {
    let mut ctx = EmbedRenderContext::new();
    let brush = ctx.solid_brush(0x1234_5678);
    assert_eq!(brush, Brush::Solid(0x1234_5678));
    assert_eq!(brush.make_brush(), brush);
}

#[test]
fn convert_brush_packs_rgb565() {
    let ctx = EmbedRenderContext::new();
    // White: all channels saturated.
    assert_eq!(ctx.convert_brush(&Brush::Solid(0xFFFF_FFFF)), 0xFFFF);
    // Pure channels land in their 565 lanes.
    assert_eq!(ctx.convert_brush(&Brush::Solid(0xFF00_0000)), 0xF800);
    assert_eq!(ctx.convert_brush(&Brush::Solid(0x00FF_0000)), 0x07E0);
    assert_eq!(ctx.convert_brush(&Brush::Solid(0x0000_FF00)), 0x001F);
    // Alpha is discarded.
    assert_eq!(ctx.convert_brush(&Brush::Solid(0x0000_00FF)), 0x0000);
    assert_eq!(
        ctx.convert_brush(&Brush::Solid(0x1234_5600)),
        ctx.convert_brush(&Brush::Solid(0x1234_56FF))
    );
    // An arbitrary colour: 0x12 red, 0x34 green, 0x56 blue.
    let expected: u16 = ((0x12u16 >> 3) << 11) | ((0x34u16 >> 2) << 5) | (0x56u16 >> 3);
    assert_eq!(ctx.convert_brush(&Brush::Solid(0x1234_5600)), expected);
}
