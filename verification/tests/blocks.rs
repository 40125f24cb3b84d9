//! Quadrant blocks and the subpixels behind them.

use astraglyph::ascii::blocks::{
    build_block_atlas, gather_subpixels, lit_pattern, luminance_range, pattern_above, render_block,
    BLOCK_CHARS, BLOCK_COUNT, LL, LR, UL, UR,
};
use astraglyph::ascii::glyph_atlas::{Glyph, GLYPH_BYTES, GLYPH_SIZE};

/// The subpixels of a cell, each channel as a fraction of full intensity.
fn scaled(px: &[[u8; 4]], width: u32, height: u32, col: u32, row: u32) -> [[f32; 3]; 4] {
    gather_subpixels(px, width, height, col, row)
        .map(|pixel| pixel.map(|channel| channel as f32 / 255.0))
}

/// The pattern and the colours of one cell.
#[derive(Debug)]
struct BlockCell {
    pattern: u8,
    color: [f32; 3],
    background: [f32; 3],
    flat: bool,
}

fn average(colors: &[[f32; 3]]) -> [f32; 3] {
    [0, 1, 2].map(|i| {
        let sum: f32 = colors.iter().map(|c| if c[i].is_finite() { c[i] } else { 0.0 }).sum();
        sum / colors.len() as f32
    })
}

/// A cell with no interior detail is solid; any other splits at the middle of
/// its own range of luminances.
fn classify(sub: &[[f32; 3]; 4]) -> BlockCell {
    let lum = sub.map(|c| (0.299 * c[0] + 0.587 * c[1] + 0.114 * c[2]).to_bits());
    let (darkest, brightest) = luminance_range(lum);
    let (darkest, brightest) = (f32::from_bits(darkest), f32::from_bits(brightest));
    if !(brightest - darkest > 1.0 / 255.0) {
        let mean = average(sub);
        return BlockCell { pattern: 0b1111, color: mean, background: mean, flat: true };
    }
    let pattern = pattern_above(lum, ((darkest + brightest) * 0.5).to_bits());
    let pick = |lit: bool| -> Vec<[f32; 3]> {
        let bits = [UL, UR, LL, LR];
        (0..4).filter(|i| (pattern & bits[*i] != 0) == lit).map(|i| sub[i]).collect()
    };
    let color = average(&pick(true));
    let unlit = pick(false);
    let background = if unlit.is_empty() { color } else { average(&unlit) };
    BlockCell { pattern, color, background, flat: false }
}

fn ink_count(glyph: &Glyph) -> usize {
    glyph.iter().filter(|p| p[3] > 0).count()
}

/// Is the given quadrant of the rendered glyph filled?
fn quadrant_filled(glyph: &Glyph, qx: usize, qy: usize) -> bool {
    let size = GLYPH_SIZE as usize;
    let half = size / 2;
    let mut any = false;
    for y in (qy * half)..(qy * half + half) {
        for x in (qx * half)..(qx * half + half) {
            if glyph[y * size + x][3] > 0 {
                any = true;
            }
        }
    }
    any
}

#[test]
fn char_table_covers_all_sixteen_patterns() {
    assert_eq!(BLOCK_CHARS.len(), BLOCK_COUNT);
    assert_eq!(BLOCK_CHARS[0], ' ');
    assert_eq!(BLOCK_CHARS[0b1111], '█');
    assert_eq!(BLOCK_CHARS[0b0011], '▀', "bits 0|1 are the upper half");
    assert_eq!(BLOCK_CHARS[0b1100], '▄', "bits 2|3 are the lower half");
    assert_eq!(BLOCK_CHARS[0b0101], '▌', "bits 0|2 are the left half");
    assert_eq!(BLOCK_CHARS[0b1010], '▐', "bits 1|3 are the right half");
    // Every entry must be distinct.
    for i in 0..BLOCK_COUNT {
        for j in (i + 1)..BLOCK_COUNT {
            assert_ne!(BLOCK_CHARS[i], BLOCK_CHARS[j], "duplicate char at {i}/{j}");
        }
    }
}

#[test]
fn rendered_quadrants_match_their_bits() {
    for pattern in 0..BLOCK_COUNT as u8 {
        let glyph = render_block(pattern);
        // Quadrant coordinates: (qx, qy) with qy=0 on top.
        assert_eq!(quadrant_filled(&glyph, 0, 0), pattern & UL != 0, "UL of {pattern:#06b}");
        assert_eq!(quadrant_filled(&glyph, 1, 0), pattern & UR != 0, "UR of {pattern:#06b}");
        assert_eq!(quadrant_filled(&glyph, 0, 1), pattern & LL != 0, "LL of {pattern:#06b}");
        assert_eq!(quadrant_filled(&glyph, 1, 1), pattern & LR != 0, "LR of {pattern:#06b}");
    }
}

#[test]
fn empty_and_full_patterns_are_exactly_that() {
    assert_eq!(ink_count(&render_block(0b0000)), 0);
    assert_eq!(ink_count(&render_block(0b1111)), GLYPH_BYTES);
    // Each single quadrant covers exactly a quarter of the cell.
    for bit in [UL, UR, LL, LR] {
        assert_eq!(ink_count(&render_block(bit)), GLYPH_BYTES / 4, "bit {bit:#06b}");
    }
    // Halves cover exactly half.
    for pat in [0b0011u8, 0b1100, 0b0101, 0b1010, 0b1001, 0b0110] {
        assert_eq!(ink_count(&render_block(pat)), GLYPH_BYTES / 2, "pattern {pat:#06b}");
    }
}

#[test]
fn high_bits_are_ignored() {
    assert_eq!(render_block(0b1111_0000), render_block(0));
    assert_eq!(render_block(0b1111_1111), render_block(0b1111));
}

#[test]
fn atlas_length_matches_the_block_count() {
    assert_eq!(build_block_atlas().len(), BLOCK_COUNT * GLYPH_BYTES * 4);
}

#[test]
fn flat_cell_becomes_a_solid_block_carrying_its_tone() {
    let grey = [0.4, 0.4, 0.4];
    let cell = classify(&[grey, grey, grey, grey]);
    assert_eq!(cell.pattern, 0b1111);
    assert!(cell.flat);
    for c in 0..3 {
        assert!((cell.color[c] - 0.4).abs() < 1e-6);
    }
}

#[test]
fn horizontal_edge_splits_into_upper_and_lower_halves() {
    let bright = [1.0, 1.0, 1.0];
    let dark = [0.0, 0.0, 0.0];
    // Top two subpixels bright, bottom two dark.
    let cell = classify(&[bright, bright, dark, dark]);
    assert_eq!(cell.pattern, UL | UR, "expected the upper half");
    assert_eq!(BLOCK_CHARS[cell.pattern as usize], '▀');
    assert!(!cell.flat);
    // Colour comes from the filled (bright) quadrants only, so the edge does
    // not get dimmed by the dark half.
    for c in 0..3 {
        assert!((cell.color[c] - 1.0).abs() < 1e-6, "got {:?}", cell.color);
    }
}

#[test]
fn vertical_edge_splits_into_left_and_right_halves() {
    let bright = [1.0, 1.0, 1.0];
    let dark = [0.0, 0.0, 0.0];
    let cell = classify(&[bright, dark, bright, dark]);
    assert_eq!(cell.pattern, UL | LL);
    assert_eq!(BLOCK_CHARS[cell.pattern as usize], '▌');
}

#[test]
fn single_bright_subpixel_becomes_a_single_quadrant() {
    let bright = [1.0, 1.0, 1.0];
    let dark = [0.05, 0.05, 0.05];
    assert_eq!(classify(&[bright, dark, dark, dark]).pattern, UL);
    assert_eq!(classify(&[dark, bright, dark, dark]).pattern, UR);
    assert_eq!(classify(&[dark, dark, bright, dark]).pattern, LL);
    assert_eq!(classify(&[dark, dark, dark, bright]).pattern, LR);
}

#[test]
fn diagonal_pattern_is_resolved() {
    let bright = [1.0, 1.0, 1.0];
    let dark = [0.0, 0.0, 0.0];
    let cell = classify(&[bright, dark, dark, bright]);
    assert_eq!(cell.pattern, UL | LR);
    assert_eq!(BLOCK_CHARS[cell.pattern as usize], '▚');
}

/// A partially covered cell must supply a colour for its EMPTY quadrants too.
#[test]
fn partial_cells_carry_a_background_from_the_unlit_subpixels() {
    let bright = [0.8, 0.8, 0.8];
    let dim = [0.2, 0.2, 0.2];
    let cell = classify(&[bright, bright, dim, dim]);

    assert_eq!(cell.pattern, UL | UR);
    // Foreground from the lit half...
    for c in cell.color {
        assert!((c - 0.8).abs() < 1e-6, "foreground {:?}", cell.color);
    }
    // ...and background from the unlit half, NOT black.
    for c in cell.background {
        assert!((c - 0.2).abs() < 1e-6, "background {:?}", cell.background);
    }
    assert_ne!(cell.background, [0.0, 0.0, 0.0], "background must not be a black hole");
}

#[test]
fn background_matches_foreground_when_every_quadrant_is_lit() {
    // Flat cell: fully covered, so the background is never sampled. Keeping it
    // equal to the foreground means a stray mask value cannot darken the cell.
    let cell = classify(&[[0.5; 3], [0.5; 3], [0.5; 3], [0.5; 3]]);
    assert_eq!(cell.pattern, 0b1111);
    assert_eq!(cell.color, cell.background);
}

#[test]
fn background_is_finite_for_hostile_input() {
    let nan = [f32::NAN; 3];
    for s in [[nan, [1.0; 3], nan, [0.0; 3]], [nan, nan, nan, nan]] {
        let cell = classify(&s);
        assert!(cell.background.iter().all(|c| c.is_finite()), "{cell:?}");
    }
}

#[test]
fn classify_always_fills_at_least_one_quadrant() {
    // Whatever the input, the brightest subpixel is at or above the midpoint,
    // so an all-empty pattern (which would render an invisible cell) is
    // impossible.
    let samples = [
        [[0.0; 3], [0.0; 3], [0.0; 3], [0.0; 3]],
        [[1.0; 3], [0.0; 3], [0.5; 3], [0.25; 3]],
        [[0.01, 0.02, 0.03], [0.0; 3], [0.0; 3], [0.0; 3]],
    ];
    for s in samples {
        assert_ne!(classify(&s).pattern, 0, "pattern must not be empty for {s:?}");
    }
}

#[test]
fn classify_survives_non_finite_input() {
    let nan = [f32::NAN, f32::NAN, f32::NAN];
    let inf = [f32::INFINITY, 0.0, 0.0];
    for s in [
        [nan, nan, nan, nan],
        [inf, [0.0; 3], [0.0; 3], [0.0; 3]],
        [nan, [1.0; 3], inf, [0.5; 3]],
    ] {
        let cell = classify(&s);
        assert!(cell.color.iter().all(|c| c.is_finite()), "colour went non-finite: {cell:?}");
        assert!(cell.pattern < 16);
    }
}

#[test]
fn gather_subpixels_reads_the_right_2x2_block() {
    // 4x2 subpixel buffer = a 2x1 cell grid.
    let px = vec![
        [10u8, 0, 0, 255], [20, 0, 0, 255], [30, 0, 0, 255], [40, 0, 0, 255],
        [50, 0, 0, 255], [60, 0, 0, 255], [70, 0, 0, 255], [80, 0, 0, 255],
    ];
    let cell0 = scaled(&px, 4, 2, 0, 0);
    assert!((cell0[0][0] - 10.0 / 255.0).abs() < 1e-6, "UL");
    assert!((cell0[1][0] - 20.0 / 255.0).abs() < 1e-6, "UR");
    assert!((cell0[2][0] - 50.0 / 255.0).abs() < 1e-6, "LL");
    assert!((cell0[3][0] - 60.0 / 255.0).abs() < 1e-6, "LR");

    let cell1 = scaled(&px, 4, 2, 1, 0);
    assert!((cell1[0][0] - 30.0 / 255.0).abs() < 1e-6);
    assert!((cell1[3][0] - 80.0 / 255.0).abs() < 1e-6);
}

#[test]
fn gather_subpixels_clamps_out_of_range_and_empty_buffers() {
    let px = vec![[255u8, 255, 255, 255]];
    // Asking for a cell past the end clamps to the only subpixel.
    let sub = scaled(&px, 1, 1, 5, 5);
    for s in sub {
        assert_eq!(s, [1.0, 1.0, 1.0]);
    }
    // An empty buffer yields black rather than panicking.
    let sub = scaled(&[], 0, 0, 0, 0);
    for s in sub {
        assert_eq!(s, [0.0, 0.0, 0.0]);
    }
}

#[test]
fn lit_subpixels_become_their_quadrants() {
    assert_eq!(lit_pattern([false, false, false, false]), 0);
    assert_eq!(lit_pattern([true, true, false, false]), UL | UR);
    assert_eq!(lit_pattern([true, false, true, false]), UL | LL);
    assert_eq!(lit_pattern([true, false, false, true]), UL | LR);
    assert_eq!(BLOCK_CHARS[lit_pattern([true, false, false, true]) as usize], '▚');
    assert_eq!(lit_pattern([true; 4]), 0b1111);
}

#[test]
fn luminances_that_are_no_numbers_count_as_dark() {
    let lum = [0.25, f32::NAN, 0.75, f32::NEG_INFINITY].map(f32::to_bits);
    assert_eq!(luminance_range(lum), (0.0f32.to_bits(), 0.75f32.to_bits()));
    assert_eq!(pattern_above(lum, 0.375f32.to_bits()), LL);
    assert_eq!(pattern_above(lum, 0.25f32.to_bits()), UL | LL, "the threshold itself is lit");
    assert_eq!(pattern_above(lum, 0.0f32.to_bits()), 0b1111);
    assert_eq!(pattern_above(lum, f32::NAN.to_bits()), 0);
}
