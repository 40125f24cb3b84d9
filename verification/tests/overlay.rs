//! The text overlay.

use astraglyph::ascii::glyph_atlas::{ALL_CHARS, BRIGHTNESS_RAMP, SPACE_INDEX};
use astraglyph::ascii::overlay::{
    default_glyph_of, GlyphMap, Overlay, OverlayCell, Rgb, SceneCell,
};
use astraglyph::ascii::overlay_glyph_of;

const WHITE: Rgb = Rgb { r: 0x3f80_0000, g: 0x3f80_0000, b: 0x3f80_0000 };
const RED: Rgb = Rgb { r: 0x3f80_0000, g: 0, b: 0 };
const GREY: Rgb = Rgb { r: 0x3f00_0000, g: 0x3f00_0000, b: 0x3f00_0000 };
const BLACK: Rgb = Rgb { r: 0, g: 0, b: 0 };

/// Glyph index used by the test policy below. Chosen so that no character
/// the tests feed it maps here under `default_glyph_of` (the default only
/// ever returns 12 for '▓'), making "was the injected map used?" decisive.
const CUSTOM_GLYPH: u32 = 12;

#[test]
fn new_is_empty_and_correctly_sized() {
    let overlay = Overlay::new(6, 4);
    assert_eq!(overlay.cols(), 6);
    assert_eq!(overlay.rows(), 4);
    assert_eq!(overlay.cells().len(), 24);
    assert!(overlay.is_empty());
    assert!(overlay.cells().iter().all(|c| !c.opaque));
    // The default cell is the transparent one.
    assert_eq!(OverlayCell::default(), OverlayCell::transparent());
    assert_eq!(OverlayCell::default().glyph_index, SPACE_INDEX);
}

#[test]
fn set_and_get_round_trip() {
    let mut overlay = Overlay::new(4, 3);
    let cell = OverlayCell::new(5, RED);
    overlay.set_cell(2, 1, cell);
    assert_eq!(overlay.cell(2, 1), Some(&cell));
    // Row-major index = row * cols + col = 1 * 4 + 2 = 6.
    assert_eq!(overlay.cells()[6], cell);
    assert!(!overlay.is_empty());
    // Neighbours untouched.
    assert!(!overlay.cell(1, 1).unwrap().opaque);
    assert!(!overlay.cell(2, 0).unwrap().opaque);
}

#[test]
fn out_of_bounds_access_is_safe() {
    let mut overlay = Overlay::new(4, 3);
    overlay.set_cell(4, 0, OverlayCell::new(1, WHITE)); // col == cols
    overlay.set_cell(0, 3, OverlayCell::new(1, WHITE)); // row == rows
    overlay.set_cell(u32::MAX, u32::MAX, OverlayCell::new(1, WHITE));
    assert!(overlay.is_empty());
    assert!(overlay.cells().iter().all(|c| !c.opaque));

    assert!(overlay.cell(4, 0).is_none());
    assert!(overlay.cell(0, 3).is_none());
    assert!(overlay.cell(u32::MAX, 1).is_none());
    assert!(overlay.cell(3, 2).is_some());
}

#[test]
fn clear_resets_is_empty() {
    let mut overlay = Overlay::new(3, 2);
    overlay.draw_text(0, 0, "ab", WHITE);
    assert!(!overlay.is_empty());
    overlay.clear();
    assert!(overlay.is_empty());
    assert_eq!(overlay.cells().len(), 6);
    assert!(overlay.cells().iter().all(|c| *c == OverlayCell::transparent()));
}

#[test]
fn is_empty_counts_opaque_cells_only() {
    let mut overlay = Overlay::new(3, 3);
    overlay.set_cell(0, 0, OverlayCell::transparent());
    assert!(overlay.is_empty(), "writing a transparent cell is not content");

    overlay.set_cell(1, 1, OverlayCell::new(3, WHITE));
    assert!(!overlay.is_empty());
    // Overwriting the same cell twice must not double-count.
    overlay.set_cell(1, 1, OverlayCell::new(4, RED));
    overlay.set_cell(1, 1, OverlayCell::transparent());
    assert!(overlay.is_empty());
}

#[test]
fn draw_text_lands_expected_cells_in_order() {
    let mut overlay = Overlay::new(8, 2);
    overlay.draw_text(1, 1, "#@:", RED);
    // '#', '@' and ':' all exist in the atlas -> exact indices 7, 9, 2.
    assert_eq!(overlay.cell(1, 1), Some(&OverlayCell::new(7, RED)));
    assert_eq!(overlay.cell(2, 1), Some(&OverlayCell::new(9, RED)));
    assert_eq!(overlay.cell(3, 1), Some(&OverlayCell::new(2, RED)));
    // Nothing before the start, nothing after the end, nothing on row 0.
    assert!(!overlay.cell(0, 1).unwrap().opaque);
    assert!(!overlay.cell(4, 1).unwrap().opaque);
    assert!(overlay.cells()[0..8].iter().all(|c| !c.opaque));
}

#[test]
fn draw_text_clips_at_right_edge_without_wrapping() {
    let mut overlay = Overlay::new(4, 2);
    overlay.draw_text(2, 0, "####", WHITE);
    // Only cols 2 and 3 fit.
    assert!(overlay.cell(2, 0).unwrap().opaque);
    assert!(overlay.cell(3, 0).unwrap().opaque);
    // Row 1 must stay empty — no wrapping.
    for col in 0..4 {
        assert!(!overlay.cell(col, 1).unwrap().opaque, "wrapped into row 1");
    }
    assert_eq!(overlay.cells().iter().filter(|c| c.opaque).count(), 2);
}

#[test]
fn draw_text_out_of_range_is_a_noop() {
    let mut overlay = Overlay::new(4, 2);
    overlay.draw_text(0, 2, "###", WHITE); // row == rows
    overlay.draw_text(0, u32::MAX, "###", WHITE);
    overlay.draw_text(4, 0, "###", WHITE); // col == cols
    overlay.draw_text(u32::MAX, 0, "###", WHITE); // would overflow col + i
    assert!(overlay.is_empty());
}

#[test]
fn draw_text_on_empty_string_draws_nothing() {
    let mut overlay = Overlay::new(4, 2);
    overlay.draw_text(0, 0, "", WHITE);
    assert!(overlay.is_empty());
}

#[test]
fn injected_glyph_map_is_used() {
    let mut overlay = Overlay::with_glyph_map(4, 1, GlyphMap::Fixed(CUSTOM_GLYPH));
    overlay.draw_text(0, 0, "A ", WHITE);
    // Under the default policy these would be 7 ('A' by density) and 0 (' ').
    assert_ne!(default_glyph_of('A'), CUSTOM_GLYPH);
    assert_ne!(default_glyph_of(' '), CUSTOM_GLYPH);
    assert_eq!(overlay.cell(0, 0).unwrap().glyph_index, CUSTOM_GLYPH);
    assert_eq!(overlay.cell(1, 0).unwrap().glyph_index, CUSTOM_GLYPH);
    // The seam is used by every glyph-producing entry point, not just text.
    assert_eq!(overlay.glyph_index_of(' '), CUSTOM_GLYPH);
    assert_eq!(overlay.background_cell(WHITE).glyph_index, CUSTOM_GLYPH);
    overlay.draw_box(3, 0, 1, 1, WHITE);
    assert_eq!(overlay.cell(3, 0).unwrap().glyph_index, CUSTOM_GLYPH);

    // Swapping the policy at runtime affects later draws only.
    overlay.set_glyph_map(GlyphMap::Shading);
    overlay.draw_text(2, 0, " ", WHITE);
    assert_eq!(overlay.cell(2, 0).unwrap().glyph_index, SPACE_INDEX);
    assert_eq!(overlay.cell(0, 0).unwrap().glyph_index, CUSTOM_GLYPH);
}

#[test]
fn default_map_is_exact_for_atlas_chars() {
    for (index, &c) in ALL_CHARS.iter().enumerate() {
        assert_eq!(default_glyph_of(c), index as u32, "atlas char {c:?}");
    }
}

#[test]
fn default_map_keeps_unknown_chars_inside_the_ramp() {
    let ramp_last = (BRIGHTNESS_RAMP.len() - 1) as u32;
    for c in ['A', 'z', '5', 'Q', 'i', '?', '(', 'ы', '☃'] {
        let index = default_glyph_of(c);
        assert!(index > 0, "visible char {c:?} mapped to blank");
        assert!(index <= ramp_last, "char {c:?} escaped the ramp: {index}");
    }
    // Blank-ish characters collapse to the space glyph.
    for c in ['\n', '\t', '\r', '\u{0}'] {
        assert_eq!(default_glyph_of(c), SPACE_INDEX, "char {c:?}");
    }
    // Heavier shapes get heavier glyphs: 'i' < 'a' < 'A'.
    assert!(default_glyph_of('i') < default_glyph_of('a'));
    assert!(default_glyph_of('a') < default_glyph_of('A'));
    // Derived by hand from the density table scaled to the ramp:
    // 0.3*9 = 2.7 -> 3, 0.55*9 = 4.95 -> 5, 0.75*9 = 6.75 -> 7.
    assert_eq!(default_glyph_of('i'), 3);
    assert_eq!(default_glyph_of('a'), 5);
    assert_eq!(default_glyph_of('A'), 7);
    assert_eq!(default_glyph_of('?'), 4); // 0.45*9 = 4.05 -> 4
    assert_eq!(default_glyph_of('☃'), 5); // 0.6*9 = 5.4 -> 5
}

#[test]
fn background_cell_uses_the_densest_block() {
    let overlay = Overlay::new(2, 2);
    let cell = overlay.background_cell(RED);
    assert!(cell.opaque);
    assert_eq!(cell.color, RED);
    // '█' is the last entry of ALL_CHARS.
    assert_eq!(cell.glyph_index, (ALL_CHARS.len() - 1) as u32);
}

#[test]
fn fill_rect_writes_exactly_the_region() {
    let mut overlay = Overlay::new(5, 4);
    overlay.fill_rect(1, 1, 3, 2, OverlayCell::new(11, WHITE));
    assert_eq!(overlay.cells().iter().filter(|c| c.opaque).count(), 6);
    for row in 1..3 {
        for col in 1..4 {
            assert!(overlay.cell(col, row).unwrap().opaque, "({col},{row})");
        }
    }
    assert!(!overlay.cell(0, 1).unwrap().opaque);
    assert!(!overlay.cell(4, 1).unwrap().opaque);
    assert!(!overlay.cell(1, 0).unwrap().opaque);
    assert!(!overlay.cell(1, 3).unwrap().opaque);
}

#[test]
fn fill_rect_clips_at_every_edge() {
    let cell = OverlayCell::new(13, WHITE);

    // Right + bottom overflow.
    let mut overlay = Overlay::new(4, 4);
    overlay.fill_rect(2, 2, 10, 10, cell);
    assert_eq!(overlay.cells().iter().filter(|c| c.opaque).count(), 4);
    assert!(overlay.cell(3, 3).unwrap().opaque);

    // Starting exactly on the far edge: nothing visible.
    let mut overlay = Overlay::new(4, 4);
    overlay.fill_rect(4, 0, 2, 2, cell);
    overlay.fill_rect(0, 4, 2, 2, cell);
    assert!(overlay.is_empty());

    // Saturating arithmetic: no overflow panic in debug builds.
    let mut overlay = Overlay::new(4, 4);
    overlay.fill_rect(3, 3, u32::MAX, u32::MAX, cell);
    assert_eq!(overlay.cells().iter().filter(|c| c.opaque).count(), 1);
    assert!(overlay.cell(3, 3).unwrap().opaque);

    // Whole overlay.
    let mut overlay = Overlay::new(4, 4);
    overlay.fill_rect(0, 0, 4, 4, cell);
    assert_eq!(overlay.cells().iter().filter(|c| c.opaque).count(), 16);
}

#[test]
fn zero_sized_rect_draws_nothing() {
    let mut overlay = Overlay::new(4, 4);
    overlay.fill_rect(1, 1, 0, 3, OverlayCell::new(13, WHITE));
    overlay.fill_rect(1, 1, 3, 0, OverlayCell::new(13, WHITE));
    overlay.draw_box(1, 1, 0, 3, WHITE);
    overlay.draw_box(1, 1, 3, 0, WHITE);
    assert!(overlay.is_empty());
}

#[test]
fn draw_box_draws_border_only() {
    let mut overlay = Overlay::new(6, 5);
    overlay.draw_box(0, 0, 4, 3, RED);

    let horizontal = default_glyph_of('─');
    let vertical = default_glyph_of('│');

    // Corners: each is its own glyph, so the frame closes cleanly.
    for (col, row, corner_char) in [
        (0u32, 0u32, '┌'),
        (3, 0, '┐'),
        (0, 2, '└'),
        (3, 2, '┘'),
    ] {
        let cell = overlay.cell(col, row).unwrap();
        assert!(cell.opaque, "corner ({col},{row}) missing");
        assert_eq!(cell.glyph_index, default_glyph_of(corner_char), "corner ({col},{row})");
        assert_eq!(cell.color, RED);
    }
    // Horizontal edges.
    for col in 1..3 {
        assert_eq!(overlay.cell(col, 0).unwrap().glyph_index, horizontal);
        assert_eq!(overlay.cell(col, 2).unwrap().glyph_index, horizontal);
    }
    // Vertical edges.
    assert_eq!(overlay.cell(0, 1).unwrap().glyph_index, vertical);
    assert_eq!(overlay.cell(3, 1).unwrap().glyph_index, vertical);
    // Interior stays transparent.
    for col in 1..3 {
        assert_eq!(
            *overlay.cell(col, 1).unwrap(),
            OverlayCell::transparent(),
            "interior ({col},1) was painted"
        );
    }
    // Border of a 4x3 box = 2*4 + 2*(3-2) = 10 cells.
    assert_eq!(overlay.cells().iter().filter(|c| c.opaque).count(), 10);
    // Outside the box.
    assert!(!overlay.cell(4, 0).unwrap().opaque);
    assert!(!overlay.cell(0, 3).unwrap().opaque);
}

#[test]
fn draw_box_degenerate_sizes() {
    let horizontal = default_glyph_of('─');
    let vertical = default_glyph_of('│');
    let top_left = default_glyph_of('┌');
    let top_right = default_glyph_of('┐');
    let bottom_left = default_glyph_of('└');

    // 1x1 -> a single cell that is both top and left, so it takes the
    // top-left corner.
    let mut overlay = Overlay::new(4, 4);
    overlay.draw_box(1, 1, 1, 1, WHITE);
    assert_eq!(overlay.cells().iter().filter(|c| c.opaque).count(), 1);
    assert_eq!(overlay.cell(1, 1).unwrap().glyph_index, top_left);

    // 1x3 -> vertical line capped with corners.
    let mut overlay = Overlay::new(4, 4);
    overlay.draw_box(0, 0, 1, 3, WHITE);
    assert_eq!(overlay.cell(0, 0).unwrap().glyph_index, top_left);
    assert_eq!(overlay.cell(0, 1).unwrap().glyph_index, vertical);
    assert_eq!(overlay.cell(0, 2).unwrap().glyph_index, bottom_left);
    assert_eq!(overlay.cells().iter().filter(|c| c.opaque).count(), 3);

    // 3x1 -> horizontal line capped with corners.
    let mut overlay = Overlay::new(4, 4);
    overlay.draw_box(0, 0, 3, 1, WHITE);
    assert_eq!(overlay.cell(0, 0).unwrap().glyph_index, top_left);
    assert_eq!(overlay.cell(1, 0).unwrap().glyph_index, horizontal);
    assert_eq!(overlay.cell(2, 0).unwrap().glyph_index, top_right);
    assert_eq!(overlay.cells().iter().filter(|c| c.opaque).count(), 3);
}

#[test]
fn draw_box_clipping_keeps_edge_roles() {
    // The box extends past the right/bottom edge: the clipped-away far edge
    // must NOT turn visible cells into corners.
    let mut overlay = Overlay::new(3, 3);
    overlay.draw_box(0, 0, 10, 10, WHITE);
    let horizontal = default_glyph_of('─');
    let vertical = default_glyph_of('│');
    assert_eq!(overlay.cell(0, 0).unwrap().glyph_index, default_glyph_of('┌'));
    assert_eq!(overlay.cell(1, 0).unwrap().glyph_index, horizontal);
    assert_eq!(overlay.cell(2, 0).unwrap().glyph_index, horizontal);
    assert_eq!(overlay.cell(0, 1).unwrap().glyph_index, vertical);
    assert_eq!(overlay.cell(0, 2).unwrap().glyph_index, vertical);
    // Interior of the logical box, still interior after clipping.
    assert!(!overlay.cell(2, 2).unwrap().opaque);
    // Saturating: huge origin + huge size must not panic.
    overlay.draw_box(u32::MAX - 1, 0, u32::MAX, 2, WHITE);
}

#[test]
fn composite_over_replaces_only_opaque_cells() {
    let mut overlay = Overlay::new(3, 2);
    overlay.set_cell(1, 0, OverlayCell::new(9, RED));
    overlay.set_cell(2, 1, OverlayCell::new(0, WHITE));

    let mut scene: Vec<SceneCell> = (0..6).map(|i| (i as u32, GREY)).collect();
    overlay.composite_over(&mut scene);

    assert_eq!(scene[0], (0, GREY));
    assert_eq!(scene[1], (9, RED));
    assert_eq!(scene[2], (2, GREY));
    assert_eq!(scene[3], (3, GREY));
    assert_eq!(scene[4], (4, GREY));
    assert_eq!(scene[5], (0, WHITE));
}

#[test]
fn composite_over_of_an_empty_overlay_changes_nothing() {
    let overlay = Overlay::new(2, 2);
    let before: Vec<SceneCell> = (0..4).map(|i| (i as u32, RED)).collect();
    let mut scene = before.clone();
    overlay.composite_over(&mut scene);
    assert_eq!(scene, before);
}

#[test]
fn composite_over_tolerates_mismatched_scene_length() {
    let mut overlay = Overlay::new(3, 2);
    for row in 0..2 {
        for col in 0..3 {
            overlay.set_cell(col, row, OverlayCell::new(13, WHITE));
        }
    }

    // Too short: composited up to its length, no panic.
    let mut short: Vec<SceneCell> = vec![(1, BLACK); 2];
    overlay.composite_over(&mut short);
    assert_eq!(short.len(), 2);
    assert!(short.iter().all(|c| *c == (13, WHITE)));

    // Too long: the tail beyond cols*rows is untouched.
    let mut long: Vec<SceneCell> = vec![(1, BLACK); 9];
    overlay.composite_over(&mut long);
    assert_eq!(long.len(), 9);
    assert!(long[0..6].iter().all(|c| *c == (13, WHITE)));
    assert!(long[6..9].iter().all(|c| *c == (1, BLACK)));

    // Empty scene slice.
    overlay.composite_over(&mut []);
}

#[test]
fn resize_to_bigger_and_smaller_stays_consistent() {
    let mut overlay = Overlay::new(4, 3);
    overlay.fill_rect(0, 0, 4, 3, OverlayCell::new(13, WHITE));
    assert!(!overlay.is_empty());

    overlay.resize(6, 5);
    assert_eq!(overlay.cols(), 6);
    assert_eq!(overlay.rows(), 5);
    assert_eq!(overlay.cells().len(), 30);
    assert!(overlay.is_empty(), "resize must drop contents");
    assert!(overlay.cell(5, 4).is_some());

    // The new far corner is addressable and lands at the right index.
    overlay.set_cell(5, 4, OverlayCell::new(1, RED));
    assert_eq!(overlay.cells()[29].glyph_index, 1);

    overlay.resize(2, 2);
    assert_eq!(overlay.cells().len(), 4);
    assert!(overlay.is_empty());
    assert!(overlay.cell(2, 0).is_none());
    overlay.set_cell(1, 1, OverlayCell::new(2, WHITE));
    assert_eq!(overlay.cells()[3].glyph_index, 2);
    assert!(!overlay.is_empty());

    // Resize to zero and back.
    overlay.resize(0, 0);
    assert_eq!(overlay.cells().len(), 0);
    assert!(overlay.is_empty());
    overlay.resize(3, 1);
    assert_eq!(overlay.cells().len(), 3);
}

#[test]
fn zero_sized_overlay_is_usable() {
    for (cols, rows) in [(0u32, 0u32), (0, 5), (5, 0)] {
        let mut overlay = Overlay::new(cols, rows);
        assert_eq!(overlay.cells().len(), 0);
        assert!(overlay.is_empty());
        assert!(overlay.cell(0, 0).is_none());
        overlay.set_cell(0, 0, OverlayCell::new(3, WHITE));
        overlay.draw_text(0, 0, "hello", WHITE);
        overlay.fill_rect(0, 0, 4, 4, OverlayCell::new(13, WHITE));
        overlay.draw_box(0, 0, 4, 4, WHITE);
        overlay.clear();
        assert!(overlay.is_empty());
        let mut scene: Vec<SceneCell> = vec![(1, BLACK); 3];
        overlay.composite_over(&mut scene);
        assert!(scene.iter().all(|c| *c == (1, BLACK)));
    }
}

#[test]
fn the_brightness_ramp_begins_the_atlas() {
    assert!(BRIGHTNESS_RAMP.len() <= ALL_CHARS.len());
    for (i, &c) in BRIGHTNESS_RAMP.iter().enumerate() {
        assert_eq!(ALL_CHARS[i], c);
    }
}

/// With the atlas map a box is made of the box-drawing pieces themselves.
#[test]
fn the_atlas_map_draws_real_corners() {
    let mut overlay = Overlay::with_glyph_map(2, 2, GlyphMap::Atlas);
    overlay.draw_box(0, 0, 2, 2, WHITE);
    let glyphs: Vec<u32> = overlay.cells().iter().map(|c| c.glyph_index).collect();
    assert_eq!(glyphs, ['┌', '┐', '└', '┘'].map(overlay_glyph_of));
}

#[test]
fn compositing_twice_is_compositing_once() {
    let mut overlay = Overlay::new(2, 1);
    overlay.set_cell(1, 0, OverlayCell::new(5, RED));
    let mut once: Vec<SceneCell> = vec![(1, GREY), (2, GREY)];
    overlay.composite_over(&mut once);
    assert_eq!(once, [(1, GREY), (5, RED)]);
    let mut twice = once.clone();
    overlay.composite_over(&mut twice);
    assert_eq!(twice, once);
}

/// A caller's own map: the first entry of a character counts, and characters
/// without one share a glyph.
#[test]
fn a_table_maps_characters_to_glyphs() {
    let table = vec![('A', 5), ('B', 6), ('A', 7)];
    let mut overlay = Overlay::with_glyph_map(4, 1, GlyphMap::Table(table, 9));
    overlay.draw_text(0, 0, "ABC", WHITE);
    let glyphs: Vec<u32> = (0..3).map(|x| overlay.cell(x, 0).unwrap().glyph_index).collect();
    assert_eq!(glyphs, [5, 6, 9]);
    assert_eq!(overlay.background_cell(WHITE).glyph_index, 9);
}
