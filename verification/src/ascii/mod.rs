//! Glyph atlas sections, colour modes, grid layout and the text overlay.
//!
//! All glyphs share one atlas: the shading ramp, then printable ASCII, then the
//! quadrant blocks, then box drawing and arrows.

use vstd::prelude::*;
use crate::ascii::blocks::{block_ink, block_strip, build_block_atlas};
use crate::ascii::box_drawing::{BOX_CHARS, box_index, box_ink, box_strip, build_box_atlas};
use crate::ascii::font5x7::{build_font_atlas, covers, font_ink, font_strip, glyph_index, position};
use crate::ascii::glyph_atlas::{SPACE_INDEX, build_atlas, glyph_count, shading_ink};
use crate::ascii::glyph_atlas::{lemma_glyph_offset, shading_strip, strip};

pub mod block_depth;
pub mod block_laws;
pub mod blocks;
pub mod box_drawing;
pub mod cell_grid;
pub mod color;
pub mod color_laws;
pub mod font5x7;
pub mod font_laws;
pub mod glyph_atlas;
pub mod glyph_laws;
pub mod grid_laws;
pub mod grid_layout;
pub mod overlay;
pub mod overlay_laws;

verus! {

/// Atlas index of the first font glyph (that of the space).
pub const FONT_GLYPH_OFFSET: u32 = 14;

/// Atlas index of the first block-element glyph (quadrant pattern 0).
pub const BLOCK_GLYPH_OFFSET: u32 = 109;

/// Atlas index of the first box-drawing glyph.
pub const BOX_GLYPH_OFFSET: u32 = 125;

/// The picture of the glyph at `index` of the combined atlas.
pub open spec fn combined_ink(index: int, x: int, y: int) -> bool {
    if index < FONT_GLYPH_OFFSET {
        shading_ink(index, x, y)
    } else if index < BLOCK_GLYPH_OFFSET {
        font_ink(index - FONT_GLYPH_OFFSET, x, y)
    } else if index < BOX_GLYPH_OFFSET {
        block_ink((index - BLOCK_GLYPH_OFFSET) as u8, x, y)
    } else {
        box_ink(index - BOX_GLYPH_OFFSET, x, y)
    }
}

/// The combined atlas: a strip of all glyphs.
pub open spec fn combined_strip() -> Seq<u8> {
    strip(151, |index: int, x: int, y: int| combined_ink(index, x, y))
}

/// Total glyphs in the combined atlas.
pub fn combined_glyph_count() -> (n: usize)
    ensures
        n == 151,
        n == glyph_atlas::ALL_CHARS@.len() + font5x7::CHAR_COUNT + blocks::BLOCK_COUNT
            + box_drawing::BOX_COUNT,
{
    glyph_count() + font5x7::CHAR_COUNT + blocks::BLOCK_COUNT + box_drawing::BOX_COUNT
}

/// Two strips, one behind the other, are one strip.
pub proof fn lemma_strips_join(
    m: nat,
    n: nat,
    first: spec_fn(int, int, int) -> bool,
    second: spec_fn(int, int, int) -> bool,
    both: spec_fn(int, int, int) -> bool,
)
    requires
        forall|i: int, x: int, y: int|
            0 <= i < m && 0 <= x < 8 && 0 <= y < 8 ==> #[trigger] first(i, x, y) == both(i, x, y),
        forall|i: int, x: int, y: int|
            0 <= i < n && 0 <= x < 8 && 0 <= y < 8 ==> #[trigger] second(i, x, y) == both(
                i + m,
                x,
                y,
            ),
    ensures
        strip(m, first) + strip(n, second) == strip(m + n, both),
{
    let whole = strip(m, first) + strip(n, second);
    assert forall|k: int| 0 <= k < (m + n) * 256 implies #[trigger] whole[k] == strip(
        m + n,
        both,
    )[k] by {
        if k < m * 256 {
            assert(first(k / 256, k / 4 % 8, k / 32 % 8) == both(k / 256, k / 4 % 8, k / 32 % 8));
        } else {
            let j = k - m * 256;
            lemma_glyph_offset(m as int, j);
            assert(second(j / 256, j / 4 % 8, j / 32 % 8) == both(
                j / 256 + m,
                j / 4 % 8,
                j / 32 % 8,
            ));
        }
    }
    assert(whole =~= strip(m + n, both));
}

/// The sections of the combined atlas, one behind the other, are the strip of
/// all its glyphs.
pub proof fn law_sections_tile_the_atlas()
    ensures
        shading_strip() + font_strip() + block_strip() + box_strip() == combined_strip(),
        shading_strip().len() == FONT_GLYPH_OFFSET * 256,
        (shading_strip() + font_strip()).len() == BLOCK_GLYPH_OFFSET * 256,
        (shading_strip() + font_strip() + block_strip()).len() == BOX_GLYPH_OFFSET * 256,
{
    let ink = |index: int, x: int, y: int| combined_ink(index, x, y);
    lemma_strips_join(
        14,
        95,
        |index: int, x: int, y: int| shading_ink(index, x, y),
        |index: int, x: int, y: int| font_ink(index, x, y),
        ink,
    );
    lemma_strips_join(
        109,
        16,
        ink,
        |index: int, x: int, y: int| block_ink(index as u8, x, y),
        ink,
    );
    lemma_strips_join(
        125,
        26,
        ink,
        |index: int, x: int, y: int| box_ink(index, x, y),
        ink,
    );
}

/// The combined atlas: shading glyphs, the text font, the block elements, then
/// box drawing, in one flat RGBA layout.
pub fn build_combined_atlas() -> (atlas: Vec<u8>)
    ensures
        atlas@ == shading_strip() + font_strip() + block_strip() + box_strip(),
        atlas@ == combined_strip(),
{
    let mut atlas = build_atlas();
    let mut font = build_font_atlas();
    atlas.append(&mut font);
    let mut block = build_block_atlas();
    atlas.append(&mut block);
    let mut boxes = build_box_atlas();
    atlas.append(&mut boxes);
    proof {
        law_sections_tile_the_atlas();
    }
    atlas
}

/// Atlas index for a box-drawing character, or `None` if it is not one.
pub fn box_glyph_index(c: char) -> (r: Option<u32>)
    ensures
        r matches Some(i) ==> BOX_GLYPH_OFFSET <= i < 151 && BOX_CHARS@[i - BOX_GLYPH_OFFSET] == c
            && forall|j: int| 0 <= j < i - BOX_GLYPH_OFFSET ==> BOX_CHARS@[j] != c,
        r is None <==> !BOX_CHARS@.contains(c),
{
    match box_index(c) {
        Some(i) => Some(BOX_GLYPH_OFFSET + i as u32),
        None => None,
    }
}

/// Atlas index for a 4-bit quadrant pattern; higher bits are masked off.
pub fn block_glyph_index(pattern: u8) -> (r: u32)
    ensures
        r == BLOCK_GLYPH_OFFSET + pattern % 16,
{
    assert(pattern & 0b1111 == pattern % 16) by (bit_vector);
    BLOCK_GLYPH_OFFSET + (pattern & 0b1111) as u32
}

/// The byte at `i`, or 0 past the end.
pub open spec fn byte_or_zero(bytes: Seq<u8>, i: int) -> u8 {
    if i < bytes.len() {
        bytes[i]
    } else {
        0
    }
}

/// One channel of a glyph-major atlas, arranged row by row: row `y` of the
/// texture holds row `y` of every glyph, side by side.
pub open spec fn row_major(atlas: Seq<u8>, count: nat) -> Seq<u8> {
    Seq::new(
        count * 64,
        |d: int|
            {
                let y = d / (count * 8) as int;
                let column = d % (count * 8) as int;
                byte_or_zero(atlas, (column / 8 * 64 + y * 8 + column % 8) * 4)
            },
    )
}

/// Convert the per-glyph atlas layout into the row-major single-channel data
/// that a texture upload expects. The red channel is taken; a short input
/// leaves the texels it does not reach at 0.
pub fn atlas_to_row_major_r8(atlas_rgba: &[u8], glyph_count: usize) -> (out: Vec<u8>)
    requires
        glyph_count * 256 <= usize::MAX,
    ensures
        out@ == row_major(atlas_rgba@, glyph_count as nat),
{
    let mut out: Vec<u8> = Vec::new();
    if glyph_count == 0 {
        assert(out@ =~= row_major(atlas_rgba@, 0));
        return out;
    }
    let width: usize = glyph_count * 8;
    let total: usize = glyph_count * 64;
    let mut d: usize = 0;
    while d < total
        invariant
            0 < glyph_count,
            glyph_count * 256 <= usize::MAX,
            width == glyph_count * 8,
            total == glyph_count * 64,
            d <= total,
            out@ == row_major(atlas_rgba@, glyph_count as nat).take(d as int),
        decreases total - d,
    {
        let y: usize = d / width;
        let column: usize = d % width;
        assert(0 <= y < 8 && column == d - y * width && 0 <= column < width) by (nonlinear_arith)
            requires
                0 <= d < 8 * width,
                y == d / width,
                column == d % width,
        ;
        let glyph: usize = column / 8;
        let source: usize = (glyph * 64 + y * 8 + column % 8) * 4;
        assert(atlas_rgba.len() == atlas_rgba@.len());
        let value: u8 = if source < atlas_rgba.len() {
            atlas_rgba[source]
        } else {
            0
        };
        out.push(value);
        assert(out@ =~= row_major(atlas_rgba@, glyph_count as nat).take(d + 1));
        d += 1;
    }
    assert(out@ =~= row_major(atlas_rgba@, glyph_count as nat));
    out
}

/// In the row-major texture of a strip, the texel at column `8 * glyph + x` of
/// row `y` is set exactly where the glyph has ink.
pub proof fn law_row_major_texels(
    count: nat,
    ink: spec_fn(int, int, int) -> bool,
    glyph: int,
    x: int,
    y: int,
)
    requires
        0 <= glyph < count,
        0 <= x < 8,
        0 <= y < 8,
    ensures
        row_major(strip(count, ink), count)[y * (count * 8) + glyph * 8 + x] == (if ink(
            glyph,
            x,
            y,
        ) {
            255u8
        } else {
            0u8
        }),
{
    let width = (count * 8) as int;
    let d = y * width + glyph * 8 + x;
    let column = glyph * 8 + x;
    assert(d / width == y && d % width == column && 0 <= d < 8 * width) by (nonlinear_arith)
        requires
            0 <= column < width,
            0 <= y < 8,
            d == y * width + column,
    ;
    let source = (glyph * 64 + y * 8 + x) * 4;
    assert(column / 8 == glyph && column % 8 == x);
    assert(source / 256 == glyph);
    assert(source / 4 % 8 == x);
    assert(source / 32 % 8 == y);
}

/// Atlas index for a text character, or `None` when the font does not cover it.
pub fn text_glyph_index(c: char) -> (r: Option<u32>)
    ensures
        r == (if covers(c) {
            Some((FONT_GLYPH_OFFSET + position(c)) as u32)
        } else {
            None
        }),
{
    match glyph_index(c) {
        Some(i) => Some(FONT_GLYPH_OFFSET + i as u32),
        None => None,
    }
}

/// The glyph that a character of the user interface is drawn with: its font
/// glyph, its box glyph, or the space for anything else.
pub open spec fn overlay_glyph(c: char) -> u32 {
    if covers(c) {
        (FONT_GLYPH_OFFSET + position(c)) as u32
    } else if BOX_CHARS@.contains(c) {
        (BOX_GLYPH_OFFSET + BOX_CHARS@.index_of_first(c).unwrap()) as u32
    } else {
        SPACE_INDEX
    }
}

/// `char` to glyph index mapping for overlays. An unexpected character leaves a
/// gap rather than a bright artefact in the middle of a panel.
pub fn overlay_glyph_of(c: char) -> (r: u32)
    ensures
        r == overlay_glyph(c),
        r < 151,
{
    if let Some(index) = text_glyph_index(c) {
        return index;
    }
    if let Some(index) = box_glyph_index(c) {
        proof {
            BOX_CHARS@.index_of_first_ensures(c);
            let first = BOX_CHARS@.index_of_first(c).unwrap();
            let found = index - BOX_GLYPH_OFFSET;
            assert(BOX_CHARS@[found] == c);
            assert(first == found);
        }
        return index;
    }
    SPACE_INDEX
}

} // verus!
