//! Where quadrants and cells lie, and what their depths say, said in coordinates.

use vstd::prelude::*;
use crate::ascii::block_depth::{all_far, depth_of, describes_block, in_block, is_far, occurs};
use crate::ascii::blocks::{
    block_ink, comparable, is_lit, quadrant_bit, subpixel, subpixel_bit,
};
use crate::ascii::cell_grid::{dark_sample, grid_cell, CellGridConfig, CellSample};
use crate::engine::single::{below, is_finite};

verus! {

/// Bit 0 of a pattern is its upper left quadrant, bit 1 the upper right one, bit 2 the
/// lower left one and bit 3 the lower right one; each fills its four by four pixels.
pub proof fn law_quadrants(pattern: u8, x: int, y: int)
    requires
        0 <= x < 8,
        0 <= y < 8,
    ensures
        x < 4 && y < 4 ==> (block_ink(pattern, x, y) <==> pattern % 2 == 1),
        x >= 4 && y < 4 ==> (block_ink(pattern, x, y) <==> pattern / 2 % 2 == 1),
        x < 4 && y >= 4 ==> (block_ink(pattern, x, y) <==> pattern / 4 % 2 == 1),
        x >= 4 && y >= 4 ==> (block_ink(pattern, x, y) <==> pattern / 8 % 2 == 1),
{
    assert((pattern & 1 != 0) <==> pattern % 2 == 1) by (bit_vector);
    assert((pattern & 2 != 0) <==> pattern / 2 % 2 == 1) by (bit_vector);
    assert((pattern & 4 != 0) <==> pattern / 4 % 2 == 1) by (bit_vector);
    assert((pattern & 8 != 0) <==> pattern / 8 % 2 == 1) by (bit_vector);
}

/// The four pixels of a cell light the quadrants in which they lie.
pub proof fn law_subpixels_light_their_quadrant(q: int, x: int, y: int)
    requires
        0 <= q < 4,
        0 <= x < 8,
        0 <= y < 8,
    ensures
        subpixel_bit(q) == quadrant_bit(x, y) <==> x / 4 == q % 2 && y / 4 == q / 2,
{
}

/// A pixel of the picture, row by row, without its alpha; past the right and lower
/// edges the pixels at the edge are repeated. An empty picture is black.
pub proof fn law_subpixels(pixels: Seq<[u8; 4]>, width: int, height: int, x: int, y: int)
    requires
        width >= 0,
        height >= 0,
        pixels.len() == width * height,
        x >= 0,
        y >= 0,
    ensures
        subpixel(pixels, width, height, x, y).len() == 3,
        x < width && y < height ==> 0 <= y * width + x < pixels.len() && forall|c: int|
            0 <= c < 3 ==> #[trigger] subpixel(pixels, width, height, x, y)[c] == pixels[y * width
                + x]@[c],
        x >= width > 0 ==> subpixel(pixels, width, height, x, y) == subpixel(
            pixels,
            width,
            height,
            width - 1,
            y,
        ),
        y >= height > 0 ==> subpixel(pixels, width, height, x, y) == subpixel(
            pixels,
            width,
            height,
            x,
            height - 1,
        ),
        width == 0 || height == 0 ==> subpixel(pixels, width, height, x, y) == seq![0u8, 0u8, 0u8],
{
    if x < width && y < height {
        assert(0 <= y * width && y * width + width <= height * width) by (nonlinear_arith)
            requires
                0 <= y < height,
                width >= 0,
        ;
        assert(height * width == width * height) by (nonlinear_arith);
    }
}

/// Luminances that are no finite numbers count as zero, and a pixel is lit from the
/// threshold on.
pub proof fn law_lit_pixels(luminance: u32, threshold: u32)
    requires
        is_finite(threshold),
    ensures
        is_finite(luminance) ==> comparable(luminance) == luminance,
        is_finite(luminance) ==> (is_lit(luminance, threshold) <==> !below(luminance, threshold)),
        !is_finite(luminance) ==> (is_lit(luminance, threshold) <==> !below(0, threshold)),
{
}

/// The smaller of the two depths that are given for a block.
pub open spec fn low_of(r: Option<(u32, u32)>) -> u32 {
    match r {
        Some(range) => range.0,
        None => 0,
    }
}

/// One near, infinite or missing depth keeps a block from being merged, and a merged
/// block's depths lie between the two that are given for it.
pub proof fn law_merged_blocks(
    depth: Seq<u32>,
    cols: int,
    x0: int,
    y0: int,
    span: int,
    merge_depth: u32,
    r: Option<(u32, u32)>,
    x: int,
    y: int,
)
    requires
        describes_block(depth, cols, x0, y0, span, merge_depth, r),
        x0 <= x < x0 + span,
        y0 <= y < y0 + span,
    ensures
        y * cols + x >= depth.len() ==> r is None,
        y * cols + x < depth.len() && !is_finite(depth[y * cols + x]) ==> r is None,
        y * cols + x < depth.len() && below(depth[y * cols + x], merge_depth) ==> r is None,
        r matches Some(range) ==> {
            &&& !below(depth[y * cols + x], range.0)
            &&& !below(range.1, depth[y * cols + x])
        },
{
    assert(in_block(x0, y0, span, x, y));
    let d = depth_of(depth, cols, x, y);
    if r is Some {
        assert(is_far(d, merge_depth));
    }
}

/// A block of finite depths that all lie as far as the merging depth or farther is
/// merged, and the two depths given for it are depths of its own.
pub proof fn law_far_blocks_are_merged(
    depth: Seq<u32>,
    cols: int,
    x0: int,
    y0: int,
    span: int,
    merge_depth: u32,
    r: Option<(u32, u32)>,
)
    requires
        describes_block(depth, cols, x0, y0, span, merge_depth, r),
        forall|x: int, y: int|
            #![trigger depth[y * cols + x]]
            x0 <= x < x0 + span && y0 <= y < y0 + span ==> y * cols + x < depth.len() && is_finite(
                depth[y * cols + x],
            ) && !below(depth[y * cols + x], merge_depth),
    ensures
        r is Some,
        exists|x: int, y: int|
            #![trigger depth[y * cols + x]]
            x0 <= x < x0 + span && y0 <= y < y0 + span && depth[y * cols + x] == low_of(r),
{
    assert forall|x: int, y: int| in_block(x0, y0, span, x, y) implies is_far(
        #[trigger] depth_of(depth, cols, x, y),
        merge_depth,
    ) by {
        let d = depth[y * cols + x];
    }
    assert(all_far(depth, cols, x0, y0, span, merge_depth));
    assert(occurs(depth, cols, x0, y0, span, low_of(r)));
    let (x, y) = choose|x: int, y: int|
        in_block(x0, y0, span, x, y) && #[trigger] depth_of(depth, cols, x, y) == Some(low_of(r));
    assert(depth[y * cols + x] == low_of(r));
}

/// Cells stand row by row; a new one is dark and as large as all others.
pub proof fn law_cells_stand_in_rows(config: CellGridConfig, col: u32, row: u32, s: CellSample)
    requires
        col < config.cols,
        row < config.rows,
    ensures
        ({
            let cell = grid_cell(config, row * config.cols + col, s);
            &&& cell.col == col
            &&& cell.row == row
            &&& cell.width == config.cell_size
            &&& cell.height == config.cell_size
            &&& cell.sample == s
        }),
        dark_sample().brightness == 0 && dark_sample().glyph_index == 0,
        dark_sample().color.r == 0 && dark_sample().color.g == 0 && dark_sample().color.b == 0,
{
    let i = row * config.cols + col;
    vstd::arithmetic::div_mod::lemma_fundamental_div_mod_converse(
        i,
        config.cols as int,
        row as int,
        col as int,
    );
}

} // verus!
