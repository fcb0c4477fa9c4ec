use piet_embedded_graphics::batch::Pixel;
use piet_embedded_graphics::batch::PixelBlock;
use piet_embedded_graphics::batch::PixelRow;
use piet_embedded_graphics::batch::batch_pixels;
use piet_embedded_graphics::batch::to_blocks;
use piet_embedded_graphics::batch::to_blocks_bounded;
use piet_embedded_graphics::batch::to_rows;
use piet_embedded_graphics::batch::to_rows_bounded;

fn px(x: u16, y: u16, color: u16) -> Pixel {
    Pixel { x, y, color }
}

/// The pixels a row stands for, reconstructed from its span and colours.
fn row_pixels(row: &PixelRow) -> Vec<Pixel> {
    let mut out = Vec::new();
    for (j, &c) in row.colors.as_slice().iter().enumerate() {
        out.push(px(row.x_left + j as u16, row.y, c));
    }
    out
}

/// The rows a block stands for, reconstructed from its bounds and colours.
fn block_rows(block: &PixelBlock) -> Vec<(u16, u16, u16, Vec<u16>)> {
    let w = (block.x_right - block.x_left + 1) as usize;
    let mut out = Vec::new();
    for (i, chunk) in block.colors.as_slice().chunks(w).enumerate() {
        out.push((
            block.x_left,
            block.x_right,
            block.y_top + i as u16,
            chunk.to_vec(),
        ));
    }
    out
}

#[test]
fn row_coverage_preserves_input_colors() {
    // A scan with gaps, row changes and varying colours.
    let pixels = vec![
        px(3, 0, 10),
        px(4, 0, 11),
        px(5, 0, 12),
        px(9, 0, 13), // gap in x
        px(10, 0, 14),
        px(0, 1, 15), // new row
        px(1, 1, 16),
        px(7, 3, 17), // skipped a row
    ];
    let rows = to_rows(&pixels);
    let mut reconstructed = Vec::new();
    for row in &rows {
        reconstructed.extend(row_pixels(row));
    }
    assert_eq!(reconstructed, pixels);
}

#[test]
fn row_contiguity_invariant_holds() {
    let pixels = vec![
        px(3, 0, 1),
        px(4, 0, 2),
        px(6, 0, 3),
        px(7, 0, 4),
        px(8, 1, 5),
    ];
    let rows = to_rows(&pixels);
    for row in &rows {
        assert!(row.x_left <= row.x_right);
        assert_eq!(
            (row.x_right - row.x_left + 1) as usize,
            row.colors.as_slice().len()
        );
        // Adjacent pixels inside one row differ by exactly 1 in x, 0 in y.
        let ps = row_pixels(row);
        for pair in ps.windows(2) {
            assert_eq!(pair[1].x, pair[0].x + 1);
            assert_eq!(pair[1].y, pair[0].y);
        }
    }
}

#[test]
fn row_overflow_splits_at_capacity() {
    // With a row capacity of 3, five adjacent same-row pixels become
    // exactly two rows: one of length 3, one of length 2.
    let pixels = vec![
        px(0, 0, 1),
        px(1, 0, 2),
        px(2, 0, 3),
        px(3, 0, 4),
        px(4, 0, 5),
    ];
    let rows = to_rows_bounded(&pixels, 3);
    assert_eq!(rows.len(), 2);
    assert_eq!(rows[0].colors.as_slice(), &[1, 2, 3]);
    assert_eq!((rows[0].x_left, rows[0].x_right, rows[0].y), (0, 2, 0));
    assert_eq!(rows[1].colors.as_slice(), &[4, 5]);
    assert_eq!((rows[1].x_left, rows[1].x_right, rows[1].y), (3, 4, 0));
}

#[test]
fn block_merge_requires_exact_span_match() {
    // Rows (0..=4, y=0), (0..=4, y=1), (1..=4, y=2): the first two merge
    // into one block, the span mismatch forces a separate block for y=2.
    let mut pixels = Vec::new();
    for x in 0..=4u16 {
        pixels.push(px(x, 0, 100 + x));
    }
    for x in 0..=4u16 {
        pixels.push(px(x, 1, 200 + x));
    }
    for x in 1..=4u16 {
        pixels.push(px(x, 2, 300 + x));
    }
    let rows = to_rows(&pixels);
    assert_eq!(rows.len(), 3);
    let blocks = to_blocks(&rows);
    assert_eq!(blocks.len(), 2);
    assert_eq!(
        (blocks[0].x_left, blocks[0].x_right, blocks[0].y_top, blocks[0].y_bottom),
        (0, 4, 0, 1)
    );
    assert_eq!(
        blocks[0].colors.as_slice(),
        &[100, 101, 102, 103, 104, 200, 201, 202, 203, 204]
    );
    assert_eq!(
        (blocks[1].x_left, blocks[1].x_right, blocks[1].y_top, blocks[1].y_bottom),
        (1, 4, 2, 2)
    );
    assert_eq!(blocks[1].colors.as_slice(), &[301, 302, 303, 304]);
}

#[test]
fn block_coverage_preserves_row_sequence() {
    // Three stacked spans and one offset row.
    let mut pixels = Vec::new();
    for y in 0..3u16 {
        for x in 2..=5u16 {
            pixels.push(px(x, y, y * 10 + x));
        }
    }
    for x in 4..=6u16 {
        pixels.push(px(x, 3, 90 + x));
    }
    let rows = to_rows(&pixels);
    let expected: Vec<(u16, u16, u16, Vec<u16>)> = rows
        .iter()
        .map(|r| (r.x_left, r.x_right, r.y, r.colors.as_slice().to_vec()))
        .collect();
    let blocks = to_blocks(&rows);
    let mut implied = Vec::new();
    for b in &blocks {
        implied.extend(block_rows(b));
    }
    assert_eq!(implied, expected);
}

#[test]
fn block_overflow_splits_at_capacity() {
    // Rows of 4 pixels with a block capacity of 10: two rows fit (8), a
    // third would need 12, so each pair of rows forms a block.
    let mut pixels = Vec::new();
    for y in 0..4u16 {
        for x in 0..4u16 {
            pixels.push(px(x, y, y));
        }
    }
    let rows = to_rows(&pixels);
    assert_eq!(rows.len(), 4);
    let blocks = to_blocks_bounded(&rows, 10);
    assert_eq!(blocks.len(), 2);
    assert_eq!((blocks[0].y_top, blocks[0].y_bottom), (0, 1));
    assert_eq!((blocks[1].y_top, blocks[1].y_bottom), (2, 3));
}

#[test]
fn empty_input_emits_nothing() {
    let pixels: Vec<Pixel> = Vec::new();
    let rows = to_rows(&pixels);
    assert!(rows.is_empty());
    let blocks = to_blocks(&rows);
    assert!(blocks.is_empty());
    assert!(batch_pixels(&pixels).is_empty());
}

#[test]
fn single_pixel_round_trips() {
    let pixels = vec![px(7, 9, 42)];
    let blocks = batch_pixels(&pixels);
    assert_eq!(blocks.len(), 1);
    let b = &blocks[0];
    assert_eq!((b.x_left, b.x_right, b.y_top, b.y_bottom), (7, 7, 9, 9));
    assert_eq!(b.colors.as_slice(), &[42]);
}

#[test]
fn full_capacity_row_is_one_row() {
    // Exactly 100 adjacent pixels fill one row to its capacity.
    let mut pixels = Vec::new();
    for x in 0..100u16 {
        pixels.push(px(x, 5, x));
    }
    let rows = to_rows(&pixels);
    assert_eq!(rows.len(), 1);
    assert_eq!(rows[0].colors.as_slice().len(), 100);
    // One more pixel starts a second row.
    pixels.push(px(100, 5, 100));
    let rows = to_rows(&pixels);
    assert_eq!(rows.len(), 2);
    assert_eq!(rows[1].colors.as_slice(), &[100]);
    assert_eq!((rows[1].x_left, rows[1].x_right), (100, 100));
}

#[test]
fn descending_x_never_merges() {
    // Adjacency is directional: only x_right + 1 extends a row.
    let pixels = vec![px(5, 0, 1), px(4, 0, 2), px(3, 0, 3)];
    let rows = to_rows(&pixels);
    assert_eq!(rows.len(), 3);
    for (i, row) in rows.iter().enumerate() {
        assert_eq!(row.colors.as_slice().len(), 1);
        assert_eq!(row.x_left, 5 - i as u16);
    }
}
