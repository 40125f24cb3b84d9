//! What merged tiles stand for, said of cells and pixels directly.

use vstd::prelude::*;
use vstd::arithmetic::div_mod::lemma_fundamental_div_mod_converse;
use crate::ascii::grid_layout::{
    block_cells, block_sum, cut, precedes, row_cells, row_sum, span_limit, tile_cells, tile_of,
    tile_sums, MergeFlags, Tile,
};

verus! {

// --- colours -----------------------------------------------------------------

/// A pixel with one channel raised.
pub open spec fn raised(p: [u8; 4], channel: int, d: int, q: [u8; 4]) -> bool {
    &&& q@[channel] == p@[channel] + d
    &&& forall|c: int| 0 <= c < 4 && c != channel ==> #[trigger] q@[c] == p@[c]
}

proof fn lemma_row_change(
    pixels: Seq<[u8; 4]>,
    q: [u8; 4],
    at: int,
    cols: int,
    channel: int,
    y: int,
    x0: int,
    x1: int,
)
    requires
        0 <= at < pixels.len(),
        0 <= x0,
        0 <= y * cols,
    ensures
        row_sum(pixels.update(at, q), cols, channel, y, x0, x1) == row_sum(
            pixels,
            cols,
            channel,
            y,
            x0,
            x1,
        ) + (if x0 <= at - y * cols < x1 {
            q@[channel] - pixels[at]@[channel]
        } else {
            0
        }),
    decreases x1 - x0,
{
    if x1 > x0 {
        lemma_row_change(pixels, q, at, cols, channel, y, x0, x1 - 1);
    }
}

proof fn lemma_block_change(
    pixels: Seq<[u8; 4]>,
    q: [u8; 4],
    x: int,
    y: int,
    cols: int,
    channel: int,
    x0: int,
    x1: int,
    y0: int,
    y1: int,
)
    requires
        0 <= x < cols,
        0 <= y,
        y * cols + x < pixels.len(),
        0 <= x0,
        x1 <= cols,
        0 <= y0,
    ensures
        block_sum(pixels.update(y * cols + x, q), cols, channel, x0, x1, y0, y1) == block_sum(
            pixels,
            cols,
            channel,
            x0,
            x1,
            y0,
            y1,
        ) + (if x0 <= x < x1 && y0 <= y < y1 {
            q@[channel] - pixels[y * cols + x]@[channel]
        } else {
            0
        }),
    decreases y1 - y0,
{
    assert(0 <= y * cols) by (nonlinear_arith)
        requires
            0 <= y,
            0 < cols,
    ;
    if y1 > y0 {
        let v = y1 - 1;
        lemma_block_change(pixels, q, x, y, cols, channel, x0, x1, y0, v);
        assert(0 <= v * cols) by (nonlinear_arith)
            requires
                0 <= v,
                0 < cols,
        ;
        lemma_row_change(pixels, q, y * cols + x, cols, channel, v, x0, x1);
        if v > y {
            assert(v * cols >= y * cols + cols) by (nonlinear_arith)
                requires
                    v >= y + 1,
                    0 < cols,
            ;
        } else if v < y {
            assert(y * cols >= v * cols + cols) by (nonlinear_arith)
                requires
                    y >= v + 1,
                    0 < cols,
            ;
        }
    }
}

/// Every pixel of a tile counts once and no other counts: putting another pixel
/// at a cell changes each sum by the difference if the cell is one of the tile's,
/// and by nothing otherwise. The number of cells stays.
pub proof fn law_each_pixel_of_a_tile_counts_once(
    pixels: Seq<[u8; 4]>,
    q: [u8; 4],
    cols: int,
    rows: int,
    tile: Tile,
    x: int,
    y: int,
)
    requires
        0 <= x < cols,
        0 <= y < rows,
        y * cols + x < pixels.len(),
    ensures
        ({
            let p = pixels[y * cols + x];
            let before = tile_sums(pixels, cols, rows, tile);
            let after = tile_sums(pixels.update(y * cols + x, q), cols, rows, tile);
            if tile.col <= x < tile.col + tile.span && tile.row <= y < tile.row + tile.span {
                &&& after.0 - before.0 == q@[0] - p@[0]
                &&& after.1 - before.1 == q@[1] - p@[1]
                &&& after.2 - before.2 == q@[2] - p@[2]
            } else {
                after == before
            }
        }),
{
    let (x0, y0) = (tile.col as int, tile.row as int);
    let x1 = cut(x0, tile.span as int, cols);
    let y1 = cut(y0, tile.span as int, rows);
    lemma_block_change(pixels, q, x, y, cols, 0, x0, x1, y0, y1);
    lemma_block_change(pixels, q, x, y, cols, 1, x0, x1, y0, y1);
    lemma_block_change(pixels, q, x, y, cols, 2, x0, x1, y0, y1);
}

/// Raising one channel of a pixel of a tile by `d` raises the sum of that channel
/// by `d` and leaves the others.
pub proof fn law_raised_channels_raise_their_sum(
    pixels: Seq<[u8; 4]>,
    q: [u8; 4],
    channel: int,
    d: int,
    cols: int,
    rows: int,
    tile: Tile,
    x: int,
    y: int,
)
    requires
        0 <= x < cols,
        0 <= y < rows,
        y * cols + x < pixels.len(),
        tile.holds(x, y),
        0 <= channel < 3,
        raised(pixels[y * cols + x], channel, d, q),
    ensures
        ({
            let before = tile_sums(pixels, cols, rows, tile);
            let after = tile_sums(pixels.update(y * cols + x, q), cols, rows, tile);
            &&& after.0 == before.0 + (if channel == 0 {
                d
            } else {
                0
            })
            &&& after.1 == before.1 + (if channel == 1 {
                d
            } else {
                0
            })
            &&& after.2 == before.2 + (if channel == 2 {
                d
            } else {
                0
            })
        }),
{
    law_each_pixel_of_a_tile_counts_once(pixels, q, cols, rows, tile, x, y);
    let p = pixels[y * cols + x];
    assert(channel == 0 || q@[0] == p@[0]);
    assert(channel == 1 || q@[1] == p@[1]);
    assert(channel == 2 || q@[2] == p@[2]);
}

proof fn lemma_black_row(
    pixels: Seq<[u8; 4]>,
    cols: int,
    channel: int,
    y: int,
    x0: int,
    x1: int,
)
    requires
        0 <= cols,
        0 <= y,
        0 <= x0,
        0 <= channel < 3,
        forall|i: int, c: int|
            0 <= i < pixels.len() && 0 <= c < 3 ==> #[trigger] pixels[i]@[c] == 0,
    ensures
        row_sum(pixels, cols, channel, y, x0, x1) == 0,
    decreases x1 - x0,
{
    if x1 > x0 {
        lemma_black_row(pixels, cols, channel, y, x0, x1 - 1);
        assert(0 <= y * cols) by (nonlinear_arith)
            requires
                0 <= y,
                0 <= cols,
        ;
    }
}

proof fn lemma_black_block(
    pixels: Seq<[u8; 4]>,
    cols: int,
    channel: int,
    x0: int,
    x1: int,
    y0: int,
    y1: int,
)
    requires
        0 <= cols,
        0 <= x0,
        0 <= y0,
        0 <= channel < 3,
        forall|i: int, c: int|
            0 <= i < pixels.len() && 0 <= c < 3 ==> #[trigger] pixels[i]@[c] == 0,
    ensures
        block_sum(pixels, cols, channel, x0, x1, y0, y1) == 0,
    decreases y1 - y0,
{
    if y1 > y0 {
        lemma_black_block(pixels, cols, channel, x0, x1, y0, y1 - 1);
        lemma_black_row(pixels, cols, channel, y1 - 1, x0, x1);
    }
}

/// Black sums to nothing.
pub proof fn law_black_sums_to_nothing(
    pixels: Seq<[u8; 4]>,
    cols: int,
    rows: int,
    tile: Tile,
)
    requires
        0 <= cols,
        forall|i: int, c: int|
            0 <= i < pixels.len() && 0 <= c < 3 ==> #[trigger] pixels[i]@[c] == 0,
    ensures
        tile_sums(pixels, cols, rows, tile) == (0int, 0int, 0int),
{
    let (x0, y0) = (tile.col as int, tile.row as int);
    let x1 = cut(x0, tile.span as int, cols);
    let y1 = cut(y0, tile.span as int, rows);
    lemma_black_block(pixels, cols, 0, x0, x1, y0, y1);
    lemma_black_block(pixels, cols, 1, x0, x1, y0, y1);
    lemma_black_block(pixels, cols, 2, x0, x1, y0, y1);
}

proof fn lemma_full_row(len: int, cols: int, y: int, x0: int, x1: int)
    requires
        0 <= x0 <= x1,
        y * cols + x1 <= len,
    ensures
        row_cells(len, cols, y, x0, x1) == x1 - x0,
    decreases x1 - x0,
{
    if x1 > x0 {
        lemma_full_row(len, cols, y, x0, x1 - 1);
    }
}

proof fn lemma_full_block(
    len: int,
    cols: int,
    rows: int,
    x0: int,
    x1: int,
    y0: int,
    y1: int,
)
    requires
        0 <= x0 <= x1 <= cols,
        0 <= y0 <= y1 <= rows,
        cols * rows <= len,
    ensures
        block_cells(len, cols, x0, x1, y0, y1) == (x1 - x0) * (y1 - y0),
    decreases y1 - y0,
{
    if y1 > y0 {
        let v = y1 - 1;
        lemma_full_block(len, cols, rows, x0, x1, y0, v);
        assert(v * cols + cols <= cols * rows) by (nonlinear_arith)
            requires
                v + 1 <= rows,
                0 <= cols,
        ;
        lemma_full_row(len, cols, v, x0, x1);
        assert((x1 - x0) * (y1 - y0) == (x1 - x0) * (v - y0) + (x1 - x0)) by (nonlinear_arith)
            requires
                v == y1 - 1,
        ;
    } else {
        assert((x1 - x0) * (y1 - y0) == 0) by (nonlinear_arith)
            requires
                y1 == y0,
        ;
    }
}

/// In a grid with all its pixels a tile has as many cells as it is wide and high,
/// cut off at the edges of the grid.
pub proof fn law_cells_of_a_tile(len: int, cols: int, rows: int, tile: Tile)
    requires
        cols * rows <= len,
        tile.col < cols,
        tile.row < rows,
    ensures
        ({
            let wide = if tile.col + tile.span <= cols {
                tile.span as int
            } else {
                cols - tile.col
            };
            let high = if tile.row + tile.span <= rows {
                tile.span as int
            } else {
                rows - tile.row
            };
            tile_cells(len, cols, rows, tile) == wide * high
        }),
{
    let (x0, y0) = (tile.col as int, tile.row as int);
    let x1 = cut(x0, tile.span as int, cols);
    let y1 = cut(y0, tile.span as int, rows);
    lemma_full_block(len, cols, rows, x0, x1, y0, y1);
}

// --- tiles -------------------------------------------------------------------

/// Spans are powers of two up to eight, the largest that the policy allows.
pub proof fn law_spans(max_span: int)
    ensures
        ({
            let span = span_limit(max_span);
            &&& span == 1 || span == 2 || span == 4 || span == 8
            &&& max_span >= 1 ==> span <= max_span
            &&& span < 8 ==> 2 * span > max_span
        }),
{
}

/// Cells are merged into a block of `span` only where the flag of that block says
/// so and the block lies whole within the grid, and never where a larger block,
/// within the limit, holds them already. Block (`i`, `j`) of that size has its
/// flag at the place it has when the blocks are counted row by row.
pub proof fn law_tiles_follow_their_flags(
    merge: MergeFlags,
    cols: int,
    rows: int,
    limit: int,
    x: int,
    y: int,
    span: int,
    i: int,
    j: int,
)
    requires
        0 <= x < cols,
        0 <= y < rows,
        span == 2 || span == 4 || span == 8,
        span <= limit,
        i * span <= x < (i + 1) * span,
        j * span <= y < (j + 1) * span,
    ensures
        ({
            let flags = if span == 2 {
                merge.twos@
            } else if span == 4 {
                merge.fours@
            } else {
                merge.eights@
            };
            let at = j * (cols / span) + i;
            let whole = (i + 1) * span <= cols && (j + 1) * span <= rows;
            let flagged = whole && at < flags.len() && flags[at];
            let level = merge.level(cols, rows, limit, x, y);
            &&& level == span ==> flagged
            &&& flagged ==> level >= span
            &&& level == 1 || level == 2 || level == 4 || level == 8
            &&& level <= limit
        }),
{
    lemma_fundamental_div_mod_converse(x, span, i, x - i * span);
    lemma_fundamental_div_mod_converse(y, span, j, y - j * span);
}

/// Larger tiles come first, and tiles of one size row by row from left to right.
pub proof fn law_tile_order(a: Tile, b: Tile)
    ensures
        a.span > b.span ==> precedes(a, b) && !precedes(b, a),
        a.span == b.span && a.row < b.row ==> precedes(a, b) && !precedes(b, a),
        a.span == b.span && a.row == b.row && a.col < b.col ==> precedes(a, b) && !precedes(b, a),
        a.span == b.span && a.row == b.row && a.col == b.col ==> !precedes(a, b),
{
}

/// The tile of a place has the place's span, begins at multiples of it and holds the
/// place.
pub proof fn law_tiles_hold_their_places(
    merge: MergeFlags,
    cols: int,
    rows: int,
    limit: int,
    x: int,
    y: int,
)
    requires
        0 <= x < cols <= u32::MAX,
        0 <= y < rows <= u32::MAX,
    ensures
        ({
            let tile = tile_of(merge, cols, rows, limit, x, y);
            let span = merge.level(cols, rows, limit, x, y);
            &&& tile.span == span
            &&& tile.col as int % span == 0 && tile.row as int % span == 0
            &&& tile.col <= x < tile.col + span
            &&& tile.row <= y < tile.row + span
            &&& tile.holds(x, y)
        }),
{
    let span = merge.level(cols, rows, limit, x, y);
    assert(span == 1 || span == 2 || span == 4 || span == 8);
    lemma_multiple_below(x, span);
    lemma_multiple_below(y, span);
}

/// The multiple of a number at or below another.
proof fn lemma_multiple_below(x: int, span: int)
    requires
        0 <= x,
        span == 1 || span == 2 || span == 4 || span == 8,
    ensures
        0 <= x / span * span <= x < x / span * span + span,
        (x / span * span) % span == 0,
{
    if span == 1 {
        assert(x / 1 * 1 == x);
    } else if span == 2 {
        assert(x / 2 * 2 <= x < x / 2 * 2 + 2 && (x / 2 * 2) % 2 == 0);
    } else if span == 4 {
        assert(x / 4 * 4 <= x < x / 4 * 4 + 4 && (x / 4 * 4) % 4 == 0);
    } else {
        assert(x / 8 * 8 <= x < x / 8 * 8 + 8 && (x / 8 * 8) % 8 == 0);
    }
}

} // verus!
