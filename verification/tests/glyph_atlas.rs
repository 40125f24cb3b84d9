//! The shading glyph atlas.

use astraglyph::ascii::glyph_atlas::{build_atlas, glyph_count, ALL_CHARS, GLYPH_BYTES};

#[test]
fn atlas_size() {
    let atlas = build_atlas();
    let expected = glyph_count() * GLYPH_BYTES * 4;
    assert_eq!(atlas.len(), expected);
}

#[test]
fn space_glyph_is_empty() {
    let atlas = build_atlas();
    // First glyph (space) should be all zeros.
    for i in 0..GLYPH_BYTES * 4 {
        assert_eq!(atlas[i], 0, "space glyph not empty at byte {i}");
    }
}

#[test]
fn full_block_glyph_is_filled() {
    let atlas = build_atlas();
    let offset = (ALL_CHARS.len() - 1) * GLYPH_BYTES * 4;
    for i in 0..GLYPH_BYTES * 4 {
        assert_eq!(atlas[offset + i], 255, "full block not filled at byte {i}");
    }
}
