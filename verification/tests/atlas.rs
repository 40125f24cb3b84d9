//! The combined atlas and the glyph indices into it.

use astraglyph::ascii::glyph_atlas::{build_atlas, glyph_count, GLYPH_BYTES, GLYPH_SIZE};
use astraglyph::ascii::{
    atlas_to_row_major_r8, block_glyph_index, blocks, box_drawing, box_glyph_index,
    build_combined_atlas, combined_glyph_count, font5x7, glyph_atlas, overlay_glyph_of,
    text_glyph_index, BLOCK_GLYPH_OFFSET, BOX_GLYPH_OFFSET, FONT_GLYPH_OFFSET,
};

#[test]
fn font_offset_matches_the_shading_glyph_count() {
    // If a shading glyph is ever added, this must move with it — otherwise
    // every text glyph silently shifts.
    assert_eq!(FONT_GLYPH_OFFSET as usize, glyph_count());
}

#[test]
fn combined_atlas_has_all_sections() {
    let atlas = build_combined_atlas();
    assert_eq!(
        combined_glyph_count(),
        glyph_count() + font5x7::CHAR_COUNT + blocks::BLOCK_COUNT + box_drawing::BOX_COUNT
    );
    assert_eq!(atlas.len(), combined_glyph_count() * GLYPH_BYTES * 4);

    // The shading section must be byte-identical to the shading atlas, so
    // brightness mappings are unaffected.
    let shading = build_atlas();
    assert_eq!(&atlas[..shading.len()], &shading[..]);
}

#[test]
fn block_indices_land_inside_the_block_section() {
    assert_eq!(BLOCK_GLYPH_OFFSET as usize, glyph_count() + font5x7::CHAR_COUNT);
    assert_eq!(block_glyph_index(0), BLOCK_GLYPH_OFFSET);
    assert_eq!(block_glyph_index(0b1111), BLOCK_GLYPH_OFFSET + 15);
    // High bits are masked off, so a stray value cannot index past the section.
    assert_eq!(block_glyph_index(0xFF), BLOCK_GLYPH_OFFSET + 15);
    assert!((block_glyph_index(0b1111) as usize) < combined_glyph_count());
}

#[test]
fn the_block_and_box_sections_match_their_atlases() {
    let atlas = build_combined_atlas();

    let blocks_bytes = blocks::build_block_atlas();
    let block_offset = (BLOCK_GLYPH_OFFSET as usize) * GLYPH_BYTES * 4;
    assert_eq!(
        &atlas[block_offset..block_offset + blocks_bytes.len()],
        &blocks_bytes[..]
    );

    let box_bytes = box_drawing::build_box_atlas();
    let box_offset = (BOX_GLYPH_OFFSET as usize) * GLYPH_BYTES * 4;
    assert_eq!(&atlas[box_offset..], &box_bytes[..], "box section must end the atlas");
}

#[test]
fn box_glyph_indices_land_inside_the_box_section() {
    assert_eq!(
        BOX_GLYPH_OFFSET as usize,
        glyph_count() + font5x7::CHAR_COUNT + blocks::BLOCK_COUNT
    );
    let corner = box_glyph_index('┌').expect("box chars must resolve");
    assert!(corner >= BOX_GLYPH_OFFSET);
    assert!((corner as usize) < combined_glyph_count());
    assert_eq!(box_glyph_index('A'), None, "letters belong to the font section");

    // The overlay map must reach both sections, since UI code writes text and
    // frame characters side by side.
    assert_eq!(overlay_glyph_of('┌'), corner);
    assert_eq!(overlay_glyph_of('A'), text_glyph_index('A').unwrap());
    assert_eq!(overlay_glyph_of('▲'), box_glyph_index('▲').unwrap());
}

#[test]
fn text_glyph_index_lands_inside_the_font_section() {
    let a = text_glyph_index('A').expect("'A' must be covered");
    assert!(a >= FONT_GLYPH_OFFSET);
    assert!((a as usize) < combined_glyph_count());

    assert_eq!(text_glyph_index(' '), Some(FONT_GLYPH_OFFSET));
    assert_eq!(text_glyph_index('~'), Some(FONT_GLYPH_OFFSET + 94));
    assert_eq!(text_glyph_index('\n'), None);
}

#[test]
fn overlay_glyph_of_falls_back_to_space_for_unsupported_chars() {
    assert_eq!(overlay_glyph_of('A'), text_glyph_index('A').unwrap());
    assert_eq!(overlay_glyph_of('Я'), glyph_atlas::SPACE_INDEX);
    assert_eq!(overlay_glyph_of('\n'), glyph_atlas::SPACE_INDEX);
}

#[test]
fn row_major_conversion_places_each_glyph_row_side_by_side() {
    let atlas = build_combined_atlas();
    let count = combined_glyph_count();
    let rows = atlas_to_row_major_r8(&atlas, count);
    let size = GLYPH_SIZE as usize;
    let width = count * size;

    assert_eq!(rows.len(), width * size, "one byte per texel");

    // Check a glyph whose shape is unambiguous: the solid block must be fully
    // set on every row, at its own horizontal slot.
    let solid = block_glyph_index(0b1111) as usize;
    for y in 0..size {
        for x in 0..size {
            assert_eq!(
                rows[y * width + solid * size + x],
                255,
                "solid block hole at ({x},{y})"
            );
        }
    }

    // The upper-half block must be set on the top four rows and clear below —
    // this is what distinguishes a correct transpose from a plausible-looking
    // but wrong one.
    let upper = block_glyph_index(blocks::UL | blocks::UR) as usize;
    for y in 0..size {
        let expected = if y < size / 2 { 255 } else { 0 };
        for x in 0..size {
            assert_eq!(
                rows[y * width + upper * size + x],
                expected,
                "upper-half block wrong at ({x},{y})"
            );
        }
    }

    // The space glyph stays empty, and a text glyph keeps its own bitmap.
    let space = glyph_atlas::SPACE_INDEX as usize;
    for y in 0..size {
        for x in 0..size {
            assert_eq!(rows[y * width + space * size + x], 0);
        }
    }
    let a = text_glyph_index('A').unwrap() as usize;
    let expected_a = font5x7::render_glyph('A').unwrap();
    for y in 0..size {
        for x in 0..size {
            assert_eq!(
                rows[y * width + a * size + x],
                expected_a[y * size + x][0],
                "glyph 'A' differs at ({x},{y})"
            );
        }
    }
}

#[test]
fn row_major_conversion_tolerates_a_short_input() {
    // Must not panic if the caller passes a mismatched count.
    let out = atlas_to_row_major_r8(&[255, 255, 255, 255], 4);
    assert_eq!(out.len(), 4 * 8 * 8);
}

#[test]
fn the_font_section_bytes_match_the_font_atlas() {
    let atlas = build_combined_atlas();
    let font = font5x7::build_font_atlas();
    let offset = glyph_count() * GLYPH_BYTES * 4;
    assert_eq!(&atlas[offset..offset + font.len()], &font[..]);
}
