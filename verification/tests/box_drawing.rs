//! Box-drawing pieces and arrows.

use astraglyph::ascii::box_drawing::{
    box_index, build_box_atlas, render_box_glyph, BOX_CHARS, BOX_COUNT, HI, LO, MID,
};
use astraglyph::ascii::glyph_atlas::{Glyph, GLYPH_BYTES, GLYPH_SIZE};

fn lit(glyph: &Glyph, x: usize, y: usize) -> bool {
    glyph[y * GLYPH_SIZE as usize + x][3] > 0
}

fn ink(glyph: &Glyph) -> usize {
    glyph.iter().filter(|p| p[3] > 0).count()
}

#[test]
fn char_table_length_matches_the_count() {
    assert_eq!(BOX_CHARS.len(), BOX_COUNT);
    for i in 0..BOX_CHARS.len() {
        for j in (i + 1)..BOX_CHARS.len() {
            assert_ne!(BOX_CHARS[i], BOX_CHARS[j], "duplicate char at {i}/{j}");
        }
    }
}

#[test]
fn box_index_finds_known_chars_and_rejects_others() {
    assert_eq!(box_index('─'), Some(0));
    assert_eq!(box_index('┼'), Some(10));
    assert_eq!(box_index('╬'), Some(21));
    assert_eq!(box_index('►'), Some(25));
    assert_eq!(box_index('A'), None);
    assert_eq!(box_index(' '), None);
}

#[test]
fn every_glyph_has_ink() {
    for i in 0..BOX_COUNT {
        assert!(ink(&render_box_glyph(i)) > 0, "glyph {i} ({}) is blank", BOX_CHARS[i]);
    }
}

#[test]
fn horizontal_and_vertical_lines_span_the_cell() {
    let h = render_box_glyph(0); // '─'
    for x in 0..8 {
        assert!(lit(&h, x, MID), "horizontal line missing at x={x}");
    }
    assert_eq!(ink(&h), 8, "a single line must be exactly one pixel thick");

    let v = render_box_glyph(1); // '│'
    for y in 0..8 {
        assert!(lit(&v, MID, y), "vertical line missing at y={y}");
    }
    assert_eq!(ink(&v), 8);
}

/// The reason segments are used instead of hand-drawn bitmaps: adjacent
/// pieces of a frame have to meet exactly at the centre axis.
#[test]
fn corners_touch_the_centre_and_only_their_own_two_edges() {
    // '┌' opens right and down.
    let tl = render_box_glyph(2);
    assert!(lit(&tl, MID, MID), "corner must cover the centre");
    assert!(lit(&tl, 7, MID), "'┌' must reach the right edge");
    assert!(lit(&tl, MID, 7), "'┌' must reach the bottom edge");
    assert!(!lit(&tl, 0, MID), "'┌' must not reach the left edge");
    assert!(!lit(&tl, MID, 0), "'┌' must not reach the top edge");

    // '┘' opens left and up — the opposite corner.
    let br = render_box_glyph(5);
    assert!(lit(&br, 0, MID));
    assert!(lit(&br, MID, 0));
    assert!(!lit(&br, 7, MID));
    assert!(!lit(&br, MID, 7));
}

#[test]
fn tees_keep_their_through_line_and_one_stub() {
    // '├': full vertical, stub to the right.
    let t = render_box_glyph(6);
    for y in 0..8 {
        assert!(lit(&t, MID, y), "'├' vertical broken at y={y}");
    }
    assert!(lit(&t, 7, MID), "'├' stub must reach the right edge");
    assert!(!lit(&t, 0, MID), "'├' must not reach the left edge");

    // '┬': full horizontal, stub downward.
    let d = render_box_glyph(8);
    for x in 0..8 {
        assert!(lit(&d, x, MID));
    }
    assert!(lit(&d, MID, 7));
    assert!(!lit(&d, MID, 0));
}

#[test]
fn cross_spans_both_axes_fully() {
    let cross = render_box_glyph(10); // '┼'
    for i in 0..8 {
        assert!(lit(&cross, i, MID));
        assert!(lit(&cross, MID, i));
    }
}

#[test]
fn double_lines_use_two_distinct_axes() {
    let h = render_box_glyph(11); // '═'
    for x in 0..8 {
        assert!(lit(&h, x, LO), "upper stroke missing at x={x}");
        assert!(lit(&h, x, HI), "lower stroke missing at x={x}");
        assert!(!lit(&h, x, MID), "the gap between the strokes must stay clear");
    }
    assert_eq!(ink(&h), 16);

    let v = render_box_glyph(12); // '║'
    for y in 0..8 {
        assert!(lit(&v, LO, y));
        assert!(lit(&v, HI, y));
        assert!(!lit(&v, MID, y));
    }
}

#[test]
fn double_corner_closes_without_a_notch() {
    // '╔': the outer strokes must form a continuous corner, and the inner
    // ones must meet it — a notch here is the classic double-line artefact.
    let g = render_box_glyph(13);
    assert!(lit(&g, LO, LO), "outer corner pixel missing");
    assert!(lit(&g, 7, LO), "outer stroke must reach the right edge");
    assert!(lit(&g, LO, 7), "outer stroke must reach the bottom edge");
    assert!(lit(&g, HI, HI), "inner corner pixel missing");
    assert!(lit(&g, 7, HI), "inner stroke must reach the right edge");
    assert!(lit(&g, HI, 7), "inner stroke must reach the bottom edge");
    // Nothing above or to the left of the outer corner.
    assert!(!lit(&g, 0, LO));
    assert!(!lit(&g, LO, 0));
}

#[test]
fn double_cross_covers_all_four_axes() {
    let g = render_box_glyph(21); // '╬'
    for i in 0..8 {
        assert!(lit(&g, i, LO));
        assert!(lit(&g, i, HI));
        assert!(lit(&g, LO, i));
        assert!(lit(&g, HI, i));
    }
}

#[test]
fn arrows_point_the_right_way() {
    // '▲' is narrow at the top, wide at the bottom.
    let up = render_box_glyph(22);
    let top_width = (0..8).filter(|&x| lit(&up, x, 2)).count();
    let bottom_width = (0..8).filter(|&x| lit(&up, x, 5)).count();
    assert!(bottom_width > top_width, "'▲' should widen downward: {top_width} -> {bottom_width}");

    // '▼' is the mirror.
    let down = render_box_glyph(23);
    let top_width = (0..8).filter(|&x| lit(&down, x, 2)).count();
    let bottom_width = (0..8).filter(|&x| lit(&down, x, 5)).count();
    assert!(top_width > bottom_width, "'▼' should narrow downward");

    // '◄' widens to the right, '►' to the left.
    let left = render_box_glyph(24);
    let left_col = (0..8).filter(|&y| lit(&left, 2, y)).count();
    let right_col = (0..8).filter(|&y| lit(&left, 5, y)).count();
    assert!(right_col > left_col, "'◄' should widen rightward");

    let right = render_box_glyph(25);
    let left_col = (0..8).filter(|&y| lit(&right, 2, y)).count();
    let right_col = (0..8).filter(|&y| lit(&right, 5, y)).count();
    assert!(left_col > right_col, "'►' should widen leftward");
}

#[test]
fn out_of_range_index_renders_blank_without_panicking() {
    assert_eq!(ink(&render_box_glyph(999)), 0);
}

#[test]
fn atlas_length_matches_the_glyph_count() {
    assert_eq!(build_box_atlas().len(), BOX_COUNT * GLYPH_BYTES * 4);
}

#[test]
fn arrows_are_mirror_images() {
    let [up, down, left, right] = [22, 23, 24, 25].map(render_box_glyph);
    for y in 0..8 {
        for x in 0..8 {
            assert_eq!(lit(&up, x, y), lit(&down, x, 7 - y), "({x}, {y})");
            assert_eq!(lit(&left, x, y), lit(&right, 7 - x, y), "({x}, {y})");
            assert_eq!(lit(&up, x, y), lit(&left, y, x), "({x}, {y})");
        }
    }
}

/// Two pieces side by side meet where both turn an arm to the shared edge.
#[test]
fn neighbouring_pieces_meet() {
    let corner = render_box_glyph(box_index('┌').unwrap());
    let line = render_box_glyph(box_index('─').unwrap());
    for y in 0..8 {
        assert_eq!(lit(&corner, 7, y), lit(&line, 0, y), "row {y}");
    }
}
