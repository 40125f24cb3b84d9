//! The 5x7 font and its glyph bitmaps.

use astraglyph::ascii::font5x7::{
    build_font_atlas, glyph_index, glyph_rows, render_glyph, text_width, CHAR_COUNT, FIRST_CHAR,
    FONT, FONT_HEIGHT, FONT_WIDTH, LAST_CHAR, PAD_X, PAD_Y,
};
use astraglyph::ascii::glyph_atlas::{Glyph, GLYPH_BYTES, GLYPH_SIZE};

/// Does the rendered glyph have any ink on this 8x8 row?
fn row_has_ink(glyph: &Glyph, y: usize) -> bool {
    let size = GLYPH_SIZE as usize;
    (0..size).any(|x| glyph[y * size + x][3] > 0)
}

fn ink_count(glyph: &Glyph) -> usize {
    glyph.iter().filter(|p| p[3] > 0).count()
}

#[test]
fn table_length_matches_the_character_range() {
    assert_eq!(FONT.len(), CHAR_COUNT);
    assert_eq!(LAST_CHAR as usize - FIRST_CHAR as usize + 1, CHAR_COUNT);
}

#[test]
fn every_row_fits_in_five_bits() {
    for (i, rows) in FONT.iter().enumerate() {
        for (r, row) in rows.iter().enumerate() {
            assert!(
                *row <= 0b11111,
                "glyph {i} (char {:?}) row {r} = {row:#07b} exceeds 5 bits",
                char::from_u32(FIRST_CHAR as u32 + i as u32).unwrap()
            );
        }
    }
}

#[test]
fn covered_range_is_contiguous_and_ordered() {
    assert_eq!(glyph_index(' '), Some(0));
    assert_eq!(glyph_index('A'), Some('A' as usize - 0x20));
    assert_eq!(glyph_index('~'), Some(CHAR_COUNT - 1));
    for i in 0..CHAR_COUNT {
        let c = char::from_u32(0x20 + i as u32).unwrap();
        assert_eq!(glyph_index(c), Some(i), "index mismatch for {c:?}");
        assert!(glyph_rows(c).is_some());
        assert!(render_glyph(c).is_some());
    }
}

#[test]
fn uncovered_characters_return_none_without_panicking() {
    for c in ['\n', '\t', '\u{0}', '\u{7F}', 'Я', '€', '\u{10FFFF}'] {
        assert_eq!(glyph_index(c), None, "{c:?} should be uncovered");
        assert_eq!(glyph_rows(c), None);
        assert!(render_glyph(c).is_none());
    }
}

#[test]
fn space_is_completely_blank() {
    let glyph = render_glyph(' ').unwrap();
    assert_eq!(ink_count(&glyph), 0);
    assert!(glyph.iter().all(|p| p[3] == 0));
}

#[test]
fn every_non_space_glyph_has_ink() {
    for i in 1..CHAR_COUNT {
        let c = char::from_u32(0x20 + i as u32).unwrap();
        let glyph = render_glyph(c).unwrap();
        assert!(ink_count(&glyph) > 0, "{c:?} rendered blank");
    }
}

#[test]
fn hyphen_has_ink_only_on_its_middle_row() {
    let glyph = render_glyph('-').unwrap();
    for y in 0..GLYPH_SIZE as usize {
        let expected = y == 3 + PAD_Y;
        assert_eq!(
            row_has_ink(&glyph, y),
            expected,
            "hyphen row {y}: expected ink={expected}"
        );
    }
}

#[test]
fn underscore_sits_on_the_last_font_row() {
    let glyph = render_glyph('_').unwrap();
    assert!(row_has_ink(&glyph, FONT_HEIGHT - 1 + PAD_Y));
    assert!(!row_has_ink(&glyph, 0));
}

#[test]
fn capital_a_has_a_hollow_middle() {
    // The crossbar row is solid, but the rows above and below must have gaps
    // — a solid block would mean the glyph is a filled rectangle.
    let rows = glyph_rows('A').unwrap();
    assert_eq!(rows[3], 0b11111, "crossbar should be solid");
    for r in [1usize, 2, 4, 5, 6] {
        assert_ne!(rows[r], 0b11111, "row {r} of 'A' should not be solid");
    }
}

#[test]
fn descenders_reach_the_bottom_row_and_x_height_letters_do_not() {
    for c in ['g', 'j', 'p', 'q', 'y'] {
        let rows = glyph_rows(c).unwrap();
        assert_ne!(rows[FONT_HEIGHT - 1], 0, "{c:?} should have a descender");
    }
    for c in ['a', 'e', 'o', 'x', 'c', 'm', 'n'] {
        let rows = glyph_rows(c).unwrap();
        assert_eq!(rows[0], 0, "{c:?} should not reach the ascender row");
    }
}

#[test]
fn no_two_different_characters_share_a_bitmap() {
    // Catches the most likely authoring error: a copy-pasted row block left
    // unedited between two letters.
    for i in 0..CHAR_COUNT {
        for j in (i + 1)..CHAR_COUNT {
            if FONT[i] == FONT[j] {
                let a = char::from_u32(0x20 + i as u32).unwrap();
                let b = char::from_u32(0x20 + j as u32).unwrap();
                panic!("{a:?} and {b:?} have identical bitmaps");
            }
        }
    }
}

#[test]
fn rendering_respects_the_padding_and_cell_bounds() {
    let size = GLYPH_SIZE as usize;
    for i in 0..CHAR_COUNT {
        let c = char::from_u32(0x20 + i as u32).unwrap();
        let glyph = render_glyph(c).unwrap();
        for y in 0..size {
            for x in 0..size {
                if glyph[y * size + x][3] == 0 {
                    continue;
                }
                assert!(
                    x >= PAD_X && x < PAD_X + FONT_WIDTH,
                    "{c:?} has ink at x={x}, outside the padded 5px band"
                );
                assert!(
                    y >= PAD_Y && y < PAD_Y + FONT_HEIGHT,
                    "{c:?} has ink at y={y}, outside the padded 7px band"
                );
            }
        }
    }
}

#[test]
fn bit_order_is_left_to_right() {
    // '1' has its stem left of centre on the top row (0b00100 -> x = 2),
    // which pins down the bit-to-column mapping.
    let glyph = render_glyph('1').unwrap();
    let size = GLYPH_SIZE as usize;
    assert!(glyph[0 * size + (2 + PAD_X)][3] > 0, "expected ink at column 2");
    assert_eq!(glyph[0 * size + (0 + PAD_X)][3], 0, "column 0 should be clear");

    // '/' rises to the right: its top row has ink at the far right, its
    // bottom row at the far left. If the bit order were mirrored this would
    // read as a backslash.
    let slash = render_glyph('/').unwrap();
    assert!(slash[0 * size + (4 + PAD_X)][3] > 0, "'/' top row should be rightmost");
    assert!(slash[6 * size + (0 + PAD_X)][3] > 0, "'/' bottom row should be leftmost");
}

#[test]
fn atlas_length_and_contents_match_the_glyphs() {
    let atlas = build_font_atlas();
    assert_eq!(atlas.len(), CHAR_COUNT * GLYPH_BYTES * 4);

    // Spot-check that 'A' lands at its own index.
    let idx = glyph_index('A').unwrap();
    let offset = idx * GLYPH_BYTES * 4;
    let expected = render_glyph('A').unwrap();
    for (p, pixel) in expected.iter().enumerate() {
        for c in 0..4 {
            assert_eq!(
                atlas[offset + p * 4 + c],
                pixel[c],
                "atlas byte mismatch for 'A' at pixel {p} channel {c}"
            );
        }
    }

    // Space at index 0 must be all zeros.
    assert!(atlas[..GLYPH_BYTES * 4].iter().all(|b| *b == 0));
}

#[test]
fn text_width_counts_characters_including_unsupported_ones() {
    assert_eq!(text_width(""), 0);
    assert_eq!(text_width("FPS: 60"), 7);
    // Unsupported chars still occupy a cell so layout stays predictable.
    assert_eq!(text_width("aЯb"), 3);
}
