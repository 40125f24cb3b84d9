//! Which blocks of cells are far enough away to be merged, and how far the
//! depths within each lie apart.
//!
//! Depths are bit patterns of single-precision numbers, row by row.

use vstd::arithmetic::div_mod::lemma_fundamental_div_mod_converse;
use vstd::prelude::*;

use crate::engine::single::{below, finite, is_finite, is_less, rank};

verus! {

/// The depth of a cell, where the buffer has one.
pub open spec fn depth_of(depth: Seq<u32>, cols: int, x: int, y: int) -> Option<u32> {
    if y * cols + x < depth.len() {
        Some(depth[y * cols + x])
    } else {
        None
    }
}

/// The cell `(x, y)` lies in the block.
pub open spec fn in_block(x0: int, y0: int, span: int, x: int, y: int) -> bool {
    x0 <= x < x0 + span && y0 <= y < y0 + span
}

/// A depth that does not rule out merging: finite, and not nearer than the
/// limit.
pub open spec fn is_far(d: Option<u32>, merge_depth: u32) -> bool {
    d matches Some(d) && is_finite(d) && !below(d, merge_depth)
}

/// Every cell of the block is far.
pub open spec fn all_far(
    depth: Seq<u32>,
    cols: int,
    x0: int,
    y0: int,
    span: int,
    merge_depth: u32,
) -> bool {
    forall|x: int, y: int|
        in_block(x0, y0, span, x, y) ==> is_far(#[trigger] depth_of(depth, cols, x, y), merge_depth)
}

/// Some cell of the block has this depth.
pub open spec fn occurs(
    depth: Seq<u32>,
    cols: int,
    x0: int,
    y0: int,
    span: int,
    d: u32,
) -> bool {
    exists|x: int, y: int|
        in_block(x0, y0, span, x, y) && #[trigger] depth_of(depth, cols, x, y) == Some(d)
}

/// The nearest and the farthest depth of the block.
pub open spec fn is_range(
    depth: Seq<u32>,
    cols: int,
    x0: int,
    y0: int,
    span: int,
    range: (u32, u32),
) -> bool {
    &&& occurs(depth, cols, x0, y0, span, range.0)
    &&& occurs(depth, cols, x0, y0, span, range.1)
    &&& forall|x: int, y: int|
        in_block(x0, y0, span, x, y) ==> (#[trigger] depth_of(depth, cols, x, y) matches Some(d)
            && rank(range.0) <= rank(d) <= rank(range.1))
}

/// What is known of a block: nothing where a cell of it is near or has no
/// finite depth, else the nearest and the farthest of its depths.
pub open spec fn describes_block(
    depth: Seq<u32>,
    cols: int,
    x0: int,
    y0: int,
    span: int,
    merge_depth: u32,
    r: Option<(u32, u32)>,
) -> bool {
    &&& r is Some <==> all_far(depth, cols, x0, y0, span, merge_depth)
    &&& r matches Some(range) ==> is_range(depth, cols, x0, y0, span, range)
}

/// The cell `(x, y)` of the block comes before `(cx, cy)`, row by row.
spec fn visited(x0: int, y0: int, span: int, cx: int, cy: int, x: int, y: int) -> bool {
    in_block(x0, y0, span, x, y) && (y < cy || (y == cy && x < cx))
}

/// The depths of the cells visited so far lie in the range, and its ends are
/// among them.
spec fn range_until(
    depth: Seq<u32>,
    cols: int,
    x0: int,
    y0: int,
    span: int,
    cx: int,
    cy: int,
    merge_depth: u32,
    range: Option<(u32, u32)>,
) -> bool {
    &&& forall|x: int, y: int|
        visited(x0, y0, span, cx, cy, x, y) ==> {
            let d = #[trigger] depth_of(depth, cols, x, y);
            &&& is_far(d, merge_depth)
            &&& range matches Some(r) && rank(r.0) <= rank(d->0) <= rank(r.1)
        }
    &&& range matches Some(r) ==> {
        &&& is_finite(r.0)
        &&& is_finite(r.1)
        &&& occurs(depth, cols, x0, y0, span, r.0)
        &&& occurs(depth, cols, x0, y0, span, r.1)
    }
}

/// The nearest and the farthest depth of the block at `(col, row)`, where no
/// cell of it is nearer than `merge_depth` and every depth is finite.
pub fn block_range(
    depth: &[u32],
    cols: u32,
    col: u32,
    row: u32,
    span: u32,
    merge_depth: u32,
) -> (r: Option<(u32, u32)>)
    requires
        span > 0,
        col + span <= cols,
        row + span <= u32::MAX,
        (row + span) * cols <= usize::MAX,
    ensures
        describes_block(
            depth@,
            cols as int,
            col as int,
            row as int,
            span as int,
            merge_depth,
            r,
        ),
{
    assert(depth.len() == depth@.len());
    let mut range: Option<(u32, u32)> = None;
    let mut y: u32 = row;
    while y < row + span
        invariant
            span > 0,
            col + span <= cols,
            row + span <= u32::MAX,
            (row + span) * cols <= usize::MAX,
            row <= y <= row + span,
            depth.len() == depth@.len(),
            y > row ==> range is Some,
            range_until(
                depth@,
                cols as int,
                col as int,
                row as int,
                span as int,
                col as int,
                y as int,
                merge_depth,
                range,
            ),
        decreases row + span - y,
    {
        let mut x: u32 = col;
        while x < col + span
            invariant
                span > 0,
                col + span <= cols,
                row + span <= u32::MAX,
                (row + span) * cols <= usize::MAX,
                row <= y < row + span,
                col <= x <= col + span,
                depth.len() == depth@.len(),
                x > col ==> range is Some,
                range_until(
                    depth@,
                    cols as int,
                    col as int,
                    row as int,
                    span as int,
                    x as int,
                    y as int,
                    merge_depth,
                    range,
                ),
            decreases col + span - x,
        {
            assert(0 <= y * cols && y * cols + x < (row + span) * cols) by (nonlinear_arith)
                requires
                    0 <= y < row + span,
                    0 <= x < cols,
            ;
            let at: usize = y as usize * cols as usize + x as usize;
            assert(in_block(col as int, row as int, span as int, x as int, y as int));
            if at >= depth.len() {
                assert(!is_far(depth_of(depth@, cols as int, x as int, y as int), merge_depth));
                return None;
            }
            let d: u32 = depth[at];
            assert(depth_of(depth@, cols as int, x as int, y as int) == Some(d));
            if !finite(d) || is_less(d, merge_depth) {
                assert(!is_far(depth_of(depth@, cols as int, x as int, y as int), merge_depth));
                return None;
            }
            range = match range {
                None => Some((d, d)),
                Some((lo, hi)) => Some(
                    (
                        if is_less(d, lo) {
                            d
                        } else {
                            lo
                        },
                        if is_less(hi, d) {
                            d
                        } else {
                            hi
                        },
                    ),
                ),
            };
            x += 1;
        }
        y += 1;
    }
    assert forall|x: int, y: int|
        in_block(col as int, row as int, span as int, x, y) implies visited(
        col as int,
        row as int,
        span as int,
        col as int,
        row + span,
        x,
        y,
    ) by {}
    range
}

/// What is known of each aligned block of the grid, row by row; blocks that
/// would reach past the edge of the grid are left out.
pub fn block_ranges(
    depth: &[u32],
    cols: u32,
    rows: u32,
    span: u32,
    merge_depth: u32,
) -> (r: Vec<Option<(u32, u32)>>)
    requires
        span > 0,
        cols * rows <= usize::MAX,
    ensures
        r@.len() == (rows / span) * (cols / span),
        forall|i: int|
            0 <= i < r@.len() ==> describes_block(
                depth@,
                cols as int,
                (i % (cols / span) as int) * span,
                (i / (cols / span) as int) * span,
                span as int,
                merge_depth,
                #[trigger] r@[i],
            ),
{
    let across: u32 = cols / span;
    let down: u32 = rows / span;
    let mut out: Vec<Option<(u32, u32)>> = Vec::new();
    let mut by: u32 = 0;
    assert(0 * across == 0) by (nonlinear_arith);
    while by < down
        invariant
            span > 0,
            cols * rows <= usize::MAX,
            across == cols / span,
            down == rows / span,
            by <= down,
            out@.len() == by * across,
            forall|i: int|
                0 <= i < out@.len() ==> describes_block(
                    depth@,
                    cols as int,
                    (i % across as int) * span,
                    (i / across as int) * span,
                    span as int,
                    merge_depth,
                    #[trigger] out@[i],
                ),
        decreases down - by,
    {
        let mut bx: u32 = 0;
        while bx < across
            invariant
                span > 0,
                cols * rows <= usize::MAX,
                across == cols / span,
                down == rows / span,
                by < down,
                bx <= across,
                out@.len() == by * across + bx,
                forall|i: int|
                    0 <= i < out@.len() ==> describes_block(
                        depth@,
                        cols as int,
                        (i % across as int) * span,
                        (i / across as int) * span,
                        span as int,
                        merge_depth,
                        #[trigger] out@[i],
                    ),
            decreases across - bx,
        {
            proof {
                lemma_block_fits(cols as int, span as int, bx as int);
                lemma_block_fits(rows as int, span as int, by as int);
                assert((by * span + span) * cols <= rows * cols && rows * cols == cols * rows)
                    by (nonlinear_arith)
                    requires
                        by * span + span <= rows,
                        0 <= cols,
                ;
                lemma_fundamental_div_mod_converse(
                    by * across + bx,
                    across as int,
                    by as int,
                    bx as int,
                );
            }
            let known = block_range(depth, cols, bx * span, by * span, span, merge_depth);
            out.push(known);
            bx += 1;
        }
        assert((by + 1) * across == by * across + across) by (nonlinear_arith);
        by += 1;
    }
    out
}

/// A block whose number is below the count of whole blocks lies in the grid.
proof fn lemma_block_fits(size: int, span: int, b: int)
    requires
        span > 0,
        0 <= b < size / span,
    ensures
        0 <= b * span,
        b * span + span <= size,
{
    assert(0 <= b * span && b * span + span <= size) by (nonlinear_arith)
        requires
            span > 0,
            0 <= b < size / span,
    ;
}

} // verus!
