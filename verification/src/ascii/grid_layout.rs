//! Cell grid layout: which glyph cells are merged into larger ones.
//!
//! Blocks are squares whose edge is a power of two, each aligned to its own
//! size. Whether the cells of a block may be merged (they are far away and
//! equally far) is decided before; the layout picks the largest blocks that may
//! and leaves every other cell on its own.

use vstd::prelude::*;

verus! {

/// One laid-out cell: a `span` x `span` block of base cells drawn as a single
/// glyph. `span == 1` is an ordinary cell.
#[derive(Clone, Copy, Debug, PartialEq, Eq, Structural)]
pub struct Tile {
    /// Column of the block's top-left base cell.
    pub col: u32,
    /// Row of the block's top-left base cell.
    pub row: u32,
    /// Block edge length in base cells (a power of two, >= 1).
    pub span: u32,
}

impl Tile {
    /// Number of base cells this tile covers.
    pub fn area(&self) -> (r: u32)
        requires
            self.span * self.span <= u32::MAX,
        ensures
            r == self.span * self.span,
    {
        self.span * self.span
    }

    /// Does the tile cover the base cell?
    pub open spec fn holds(self, x: int, y: int) -> bool {
        self.col <= x < self.col + self.span && self.row <= y < self.row + self.span
    }
}

/// How far cells may be merged.
#[derive(Clone, Copy, Debug, PartialEq, Eq, Structural)]
pub struct SubdivisionPolicy {
    /// Largest allowed span. Rounded down to a power of two of at most 8; 1
    /// disables merging.
    pub max_span: u32,
}

impl Default for SubdivisionPolicy {
    /// Never coarser than 2x2.
    fn default() -> (r: Self)
        ensures
            r.max_span == 2,
    {
        SubdivisionPolicy { max_span: 2 }
    }
}

/// A span limit rounded down to a power of two in 1..=8; 0 counts as 1.
pub open spec fn span_limit(max_span: int) -> int {
    if max_span < 2 {
        1
    } else if max_span < 4 {
        2
    } else if max_span < 8 {
        4
    } else {
        8
    }
}

impl SubdivisionPolicy {
    /// A policy that performs no merging at all: a plain uniform grid.
    pub fn uniform() -> (r: Self)
        ensures
            r.max_span == 1,
    {
        SubdivisionPolicy { max_span: 1 }
    }

    /// Whether this policy can ever merge anything.
    pub fn merges(&self) -> (r: bool)
        ensures
            r == (self.max_span >= 2),
    {
        self.effective_max_span() > 1
    }

    /// The span limit that `max_span` stands for.
    pub fn effective_max_span(&self) -> (r: u32)
        ensures
            r == span_limit(self.max_span as int),
    {
        match self.max_span {
            0 | 1 => 1,
            2 | 3 => 2,
            4..=7 => 4,
            _ => 8,
        }
    }
}

/// For each span, which aligned blocks may be merged: row by row, one flag for
/// each block that lies in the grid.
#[derive(Debug)]
pub struct MergeFlags {
    pub twos: Vec<bool>,
    pub fours: Vec<bool>,
    pub eights: Vec<bool>,
}

/// The flag at `i`; blocks without one may not be merged.
pub open spec fn flag(flags: Seq<bool>, i: int) -> bool {
    i < flags.len() && flags[i]
}

impl MergeFlags {
    /// The flags of the blocks of a span.
    pub open spec fn of_span(self, span: int) -> Seq<bool> {
        if span == 2 {
            self.twos@
        } else if span == 4 {
            self.fours@
        } else {
            self.eights@
        }
    }

    /// The block of edge `span` that holds the cell `(x, y)` lies in the grid
    /// and may be merged.
    pub open spec fn joins(self, cols: int, rows: int, span: int, x: int, y: int) -> bool {
        &&& (x / span + 1) * span <= cols
        &&& (y / span + 1) * span <= rows
        &&& flag(self.of_span(span), (y / span) * (cols / span) + x / span)
    }

    /// The edge of the largest mergeable block around a cell, up to `limit`.
    pub open spec fn level(self, cols: int, rows: int, limit: int, x: int, y: int) -> int {
        if limit >= 8 && self.joins(cols, rows, 8, x, y) {
            8
        } else if limit >= 4 && self.joins(cols, rows, 4, x, y) {
            4
        } else if limit >= 2 && self.joins(cols, rows, 2, x, y) {
            2
        } else {
            1
        }
    }

    /// The tile is the largest mergeable block around its corner.
    pub open spec fn lays(self, cols: int, rows: int, limit: int, tile: Tile) -> bool {
        let (x, y, span) = (tile.col as int, tile.row as int, tile.span as int);
        &&& x < cols
        &&& y < rows
        &&& span == self.level(cols, rows, limit, x, y)
        &&& x % span == 0
        &&& y % span == 0
    }

    fn joined(&self, cols: u32, rows: u32, span: u32, x: u32, y: u32) -> (r: bool)
        requires
            span == 2 || span == 4 || span == 8,
            cols * rows <= usize::MAX,
            x < cols,
            y < rows,
        ensures
            r == self.joins(cols as int, rows as int, span as int, x as int, y as int),
    {
        let bx: u32 = x / span;
        let by: u32 = y / span;
        let across: u32 = cols / span;
        let down: u32 = rows / span;
        proof {
            lemma_block_fits(cols as int, span as int, bx as int);
            lemma_block_fits(rows as int, span as int, by as int);
        }
        if bx >= across || by >= down {
            return false;
        }
        assert(0 <= by * across && by * across + bx < across * down && across * down <= cols * rows)
            by (nonlinear_arith)
            requires
                0 <= bx < across,
                0 <= by < down,
                0 <= across <= cols,
                0 <= down <= rows,
        ;
        let at: usize = by as usize * across as usize + bx as usize;
        match span {
            2 => at < self.twos.len() && self.twos[at],
            4 => at < self.fours.len() && self.fours[at],
            _ => at < self.eights.len() && self.eights[at],
        }
    }

    fn level_of(&self, cols: u32, rows: u32, limit: u32, x: u32, y: u32) -> (r: u32)
        requires
            cols * rows <= usize::MAX,
            x < cols,
            y < rows,
        ensures
            r == self.level(cols as int, rows as int, limit as int, x as int, y as int),
    {
        if limit >= 8 && self.joined(cols, rows, 8, x, y) {
            8
        } else if limit >= 4 && self.joined(cols, rows, 4, x, y) {
            4
        } else if limit >= 2 && self.joined(cols, rows, 2, x, y) {
            2
        } else {
            1
        }
    }
}

proof fn lemma_block_fits(size: int, span: int, b: int)
    requires
        0 <= size,
        0 <= b,
        span == 2 || span == 4 || span == 8,
    ensures
        (b + 1) * span <= size <==> b < size / span,
{
    assert((b + 1) * span == b * span + span) by (nonlinear_arith);
    if span == 2 {
        assert(b * 2 + 2 <= size <==> b < size / 2);
    } else if span == 4 {
        assert(b * 4 + 4 <= size <==> b < size / 4);
    } else {
        assert(b * 8 + 8 <= size <==> b < size / 8);
    }
}

/// Larger tiles come first; among tiles of one size, row by row.
pub open spec fn precedes(a: Tile, b: Tile) -> bool {
    a.span > b.span || (a.span == b.span && (a.row < b.row || (a.row == b.row && a.col < b.col)))
}

/// The tiles that have been laid when those of span `span` are done up to the
/// cell `(x, y)`, row by row.
pub open spec fn laid_until(
    merge: MergeFlags,
    cols: int,
    rows: int,
    limit: int,
    tile: Tile,
    span: int,
    x: int,
    y: int,
) -> bool {
    &&& merge.lays(cols, rows, limit, tile)
    &&& (tile.span > span || (tile.span == span && (tile.row < y || (tile.row == y && tile.col
        < x))))
}

/// The tile layout for one frame.
///
/// `depth_len` is the number of depth values the flags were made from; where
/// it is not that of the grid there is no depth information, and no cell is
/// merged.
pub fn compute_tiles(
    depth_len: usize,
    merge: &MergeFlags,
    cols: u32,
    rows: u32,
    policy: &SubdivisionPolicy,
) -> (tiles: Vec<Tile>)
    requires
        cols * rows <= usize::MAX,
    ensures
        forall|i: int, j: int|
            0 <= i < j < tiles@.len() ==> precedes(#[trigger] tiles@[i], #[trigger] tiles@[j]),
        forall|tile: Tile| #[trigger]
            tiles@.contains(tile) <==> merge.lays(
                cols as int,
                rows as int,
                if depth_len == cols * rows {
                    span_limit(policy.max_span as int)
                } else {
                    1
                },
                tile,
            ),
{
    let mut tiles: Vec<Tile> = Vec::new();
    let limit: u32 = if depth_len == cols as usize * rows as usize {
        policy.effective_max_span()
    } else {
        1
    };
    let mut span: u32 = limit;
    proof {
        assert forall|tile: Tile| #[trigger] tiles@.contains(tile) <==> laid_until(
            *merge,
            cols as int,
            rows as int,
            limit as int,
            tile,
            span as int,
            0,
            0,
        ) by {}
    }
    while span >= 1
        invariant
            cols * rows <= usize::MAX,
            span == 0 || span == 1 || span == 2 || span == 4 || span == 8,
            limit == 1 || limit == 2 || limit == 4 || limit == 8,
            limit == (if depth_len == cols * rows {
                span_limit(policy.max_span as int)
            } else {
                1
            }),
            span <= limit,
            forall|i: int, j: int|
                0 <= i < j < tiles@.len() ==> precedes(#[trigger] tiles@[i], #[trigger] tiles@[j]),
            forall|tile: Tile| #[trigger]
                tiles@.contains(tile) <==> laid_until(
                    *merge,
                    cols as int,
                    rows as int,
                    limit as int,
                    tile,
                    span as int,
                    0,
                    0,
                ),
        decreases span,
    {
        lay_span(&mut tiles, merge, cols, rows, limit, span);
        proof {
            assert forall|tile: Tile| #[trigger] tiles@.contains(tile) <==> laid_until(
                *merge,
                cols as int,
                rows as int,
                limit as int,
                tile,
                span as int / 2,
                0,
                0,
            ) by {
                assert(merge.lays(cols as int, rows as int, limit as int, tile) ==> tile.span == 1
                    || tile.span == 2 || tile.span == 4 || tile.span == 8);
            }
        }
        span = span / 2;
    }
    proof {
        assert forall|tile: Tile| #[trigger] tiles@.contains(tile) <==> merge.lays(
            cols as int,
            rows as int,
            limit as int,
            tile,
        ) by {}
    }
    tiles
}

/// Append the tiles of one span, row by row.
fn lay_span(
    tiles: &mut Vec<Tile>,
    merge: &MergeFlags,
    cols: u32,
    rows: u32,
    limit: u32,
    span: u32,
)
    requires
        cols * rows <= usize::MAX,
        span == 1 || span == 2 || span == 4 || span == 8,
        forall|i: int, j: int|
            0 <= i < j < old(tiles)@.len() ==> precedes(
                #[trigger] old(tiles)@[i],
                #[trigger] old(tiles)@[j],
            ),
        forall|tile: Tile| #[trigger]
            old(tiles)@.contains(tile) <==> laid_until(
                *merge,
                cols as int,
                rows as int,
                limit as int,
                tile,
                span as int,
                0,
                0,
            ),
    ensures
        forall|i: int, j: int|
            0 <= i < j < final(tiles)@.len() ==> precedes(
                #[trigger] final(tiles)@[i],
                #[trigger] final(tiles)@[j],
            ),
        forall|tile: Tile| #[trigger]
            final(tiles)@.contains(tile) <==> laid_until(
                *merge,
                cols as int,
                rows as int,
                limit as int,
                tile,
                span as int,
                0,
                rows as int,
            ),
{
    let mut y: u32 = 0;
    while y < rows
        invariant
            cols * rows <= usize::MAX,
            span == 1 || span == 2 || span == 4 || span == 8,
            y <= rows,
            forall|i: int, j: int|
                0 <= i < j < tiles@.len() ==> precedes(#[trigger] tiles@[i], #[trigger] tiles@[j]),
            forall|tile: Tile| #[trigger]
                tiles@.contains(tile) <==> laid_until(
                    *merge,
                    cols as int,
                    rows as int,
                    limit as int,
                    tile,
                    span as int,
                    0,
                    y as int,
                ),
        decreases rows - y,
    {
        let mut x: u32 = 0;
        while x < cols
            invariant
                cols * rows <= usize::MAX,
                span == 1 || span == 2 || span == 4 || span == 8,
                y < rows,
                x <= cols,
                forall|i: int, j: int|
                    0 <= i < j < tiles@.len() ==> precedes(
                        #[trigger] tiles@[i],
                        #[trigger] tiles@[j],
                    ),
                forall|tile: Tile| #[trigger]
                    tiles@.contains(tile) <==> laid_until(
                        *merge,
                        cols as int,
                        rows as int,
                        limit as int,
                        tile,
                        span as int,
                        x as int,
                        y as int,
                    ),
            decreases cols - x,
        {
            let ghost before = tiles@;
            let tile = Tile { col: x, row: y, span };
            if x % span == 0 && y % span == 0 && merge.level_of(cols, rows, limit, x, y) == span {
                assert forall|i: int| 0 <= i < before.len() implies precedes(
                    #[trigger] before[i],
                    tile,
                ) by {
                    assert(before.contains(before[i]));
                }
                tiles.push(tile);
                assert forall|t: Tile| #[trigger] tiles@.contains(t) <==> laid_until(
                    *merge,
                    cols as int,
                    rows as int,
                    limit as int,
                    t,
                    span as int,
                    x as int + 1,
                    y as int,
                ) by {
                    if before.contains(t) {
                        let k = choose|k: int| 0 <= k < before.len() && before[k] == t;
                        assert(tiles@[k] == t);
                    }
                    if t == tile {
                        assert(tiles@[before.len() as int] == t);
                    }
                    if tiles@.contains(t) {
                        let k = choose|k: int| 0 <= k < tiles@.len() && tiles@[k] == t;
                        if k < before.len() {
                            assert(before[k] == t);
                        }
                    }
                }
            } else {
                assert forall|t: Tile| #[trigger] tiles@.contains(t) <==> laid_until(
                    *merge,
                    cols as int,
                    rows as int,
                    limit as int,
                    t,
                    span as int,
                    x as int + 1,
                    y as int,
                ) by {
                    if t == tile {
                        assert(!merge.lays(cols as int, rows as int, limit as int, t));
                    }
                }
            }
            x += 1;
        }
        y += 1;
    }
}

// --- the tiles partition the grid --------------------------------------------

proof fn lemma_block_alignment(x: int, span: int, fine: int)
    requires
        0 <= x,
        span == 1 || span == 2 || span == 4 || span == 8,
        fine == 1 || fine == 2 || fine == 4 || fine == 8,
        fine <= span,
    ensures
        x / span * span <= x < x / span * span + span,
        (x / fine * fine) / span == x / span,
        (x / span * span) % fine == 0,
        (x / span * span) % span == 0,
        (x / span * span) / span == x / span,
{
    if span == 1 {
    } else if span == 2 {
        if fine == 1 {
        } else {
        }
    } else if span == 4 {
        if fine == 1 {
        } else if fine == 2 {
        } else {
        }
    } else {
        if fine == 1 {
        } else if fine == 2 {
        } else if fine == 4 {
        } else {
        }
    }
}

/// Two cells of one block of edge `span` have the same coarser blocks.
proof fn lemma_same_block(
    merge: MergeFlags,
    cols: int,
    rows: int,
    span: int,
    x: int,
    y: int,
    u: int,
    v: int,
)
    requires
        x / span == u / span,
        y / span == v / span,
    ensures
        merge.joins(cols, rows, span, x, y) == merge.joins(cols, rows, span, u, v),
{
}

/// Cells of a block share every coarser block.
proof fn lemma_coarser(x: int, u: int, fine: int, span: int)
    requires
        0 <= x,
        0 <= u,
        x / fine == u / fine,
        fine == 1 || fine == 2 || fine == 4 || fine == 8,
        span == 1 || span == 2 || span == 4 || span == 8,
        fine <= span,
    ensures
        x / span == u / span,
{
    lemma_block_alignment(x, span, fine);
    lemma_block_alignment(u, span, fine);
    assert(x / fine * fine == u / fine * fine);
}

proof fn lemma_level_of_block(
    merge: MergeFlags,
    cols: int,
    rows: int,
    limit: int,
    x: int,
    y: int,
    u: int,
    v: int,
)
    requires
        0 <= x,
        0 <= y,
        0 <= u,
        0 <= v,
        ({
            let span = merge.level(cols, rows, limit, x, y);
            x / span == u / span && y / span == v / span
        }),
    ensures
        merge.level(cols, rows, limit, u, v) == merge.level(cols, rows, limit, x, y),
{
    let span = merge.level(cols, rows, limit, x, y);
    if span <= 8 {
        lemma_coarser(x, u, span, 8);
        lemma_coarser(y, v, span, 8);
        lemma_same_block(merge, cols, rows, 8, x, y, u, v);
    }
    if span <= 4 {
        lemma_coarser(x, u, span, 4);
        lemma_coarser(y, v, span, 4);
        lemma_same_block(merge, cols, rows, 4, x, y, u, v);
    }
    if span <= 2 {
        lemma_coarser(x, u, span, 2);
        lemma_coarser(y, v, span, 2);
        lemma_same_block(merge, cols, rows, 2, x, y, u, v);
    }
}

/// The tile around a cell.
pub open spec fn tile_of(merge: MergeFlags, cols: int, rows: int, limit: int, x: int, y: int) -> Tile {
    let span = merge.level(cols, rows, limit, x, y);
    Tile { col: (x / span * span) as u32, row: (y / span * span) as u32, span: span as u32 }
}

/// The tiles cover every base cell of the grid exactly once, and nothing
/// outside it.
pub proof fn law_tiles_partition_the_grid(
    merge: MergeFlags,
    cols: int,
    rows: int,
    limit: int,
    x: int,
    y: int,
)
    requires
        0 <= x < cols <= u32::MAX,
        0 <= y < rows <= u32::MAX,
    ensures
        merge.lays(cols, rows, limit, tile_of(merge, cols, rows, limit, x, y)),
        tile_of(merge, cols, rows, limit, x, y).holds(x, y),
        forall|tile: Tile| #[trigger]
            merge.lays(cols, rows, limit, tile) && tile.holds(x, y) ==> tile == tile_of(
                merge,
                cols,
                rows,
                limit,
                x,
                y,
            ),
        forall|tile: Tile| #[trigger]
            merge.lays(cols, rows, limit, tile) ==> tile.col + tile.span <= cols && tile.row
                + tile.span <= rows,
{
    let span = merge.level(cols, rows, limit, x, y);
    let (u, v) = (x / span * span, y / span * span);
    lemma_block_alignment(x, span, span);
    lemma_block_alignment(y, span, span);
    lemma_level_of_block(merge, cols, rows, limit, x, y, u, v);
    assert forall|tile: Tile| #[trigger]
        merge.lays(cols, rows, limit, tile) && tile.holds(x, y) implies tile == tile_of(
        merge,
        cols,
        rows,
        limit,
        x,
        y,
    ) by {
        let (c, r, s) = (tile.col as int, tile.row as int, tile.span as int);
        lemma_in_block(c, x, s);
        lemma_in_block(r, y, s);
        lemma_level_of_block(merge, cols, rows, limit, c, r, x, y);
    }
    assert forall|tile: Tile| #[trigger] merge.lays(cols, rows, limit, tile) implies tile.col
        + tile.span <= cols && tile.row + tile.span <= rows by {
        let (c, r, s) = (tile.col as int, tile.row as int, tile.span as int);
        lemma_in_block(c, c, s);
        lemma_in_block(r, r, s);
    }
}

proof fn lemma_in_block(corner: int, x: int, span: int)
    requires
        0 <= corner <= x < corner + span,
        corner % span == 0,
        span == 1 || span == 2 || span == 4 || span == 8,
    ensures
        x / span == corner / span,
        corner / span * span == corner,
        (corner / span + 1) * span == corner + span,
{
    if span == 1 {
    } else if span == 2 {
    } else if span == 4 {
    } else {
    }
}

// --- colours of merged cells -------------------------------------------------

/// Sum of one channel over the columns `x0..x1` of a row; cells without a pixel
/// add nothing.
pub open spec fn row_sum(
    pixels: Seq<[u8; 4]>,
    cols: int,
    channel: int,
    y: int,
    x0: int,
    x1: int,
) -> int
    decreases x1 - x0,
{
    if x1 <= x0 {
        0
    } else {
        row_sum(pixels, cols, channel, y, x0, x1 - 1) + (if y * cols + x1 - 1 < pixels.len() {
            pixels[y * cols + x1 - 1]@[channel] as int
        } else {
            0
        })
    }
}

/// Sum of one channel over a block of cells.
pub open spec fn block_sum(
    pixels: Seq<[u8; 4]>,
    cols: int,
    channel: int,
    x0: int,
    x1: int,
    y0: int,
    y1: int,
) -> int
    decreases y1 - y0,
{
    if y1 <= y0 {
        0
    } else {
        block_sum(pixels, cols, channel, x0, x1, y0, y1 - 1) + row_sum(
            pixels,
            cols,
            channel,
            y1 - 1,
            x0,
            x1,
        )
    }
}

/// How many cells of a row have a pixel.
pub open spec fn row_cells(len: int, cols: int, y: int, x0: int, x1: int) -> int
    decreases x1 - x0,
{
    if x1 <= x0 {
        0
    } else {
        row_cells(len, cols, y, x0, x1 - 1) + (if y * cols + x1 - 1 < len {
            1int
        } else {
            0
        })
    }
}

/// How many cells of a block have a pixel.
pub open spec fn block_cells(len: int, cols: int, x0: int, x1: int, y0: int, y1: int) -> int
    decreases y1 - y0,
{
    if y1 <= y0 {
        0
    } else {
        block_cells(len, cols, x0, x1, y0, y1 - 1) + row_cells(len, cols, y1 - 1, x0, x1)
    }
}

/// The end of a tile along an axis, cut at the edge of the grid.
pub open spec fn cut(start: int, span: int, size: int) -> int {
    if start + span < size {
        start + span
    } else {
        size
    }
}

/// The sums of a tile's colours and the number of its cells that have one.
#[derive(Clone, Copy, Debug, PartialEq, Eq, Structural)]
pub struct ColorSums {
    pub red: u128,
    pub green: u128,
    pub blue: u128,
    pub count: u64,
}

/// The sums of red, green and blue over the cells of a tile that the grid has.
pub open spec fn tile_sums(pixels: Seq<[u8; 4]>, cols: int, rows: int, tile: Tile) -> (
    int,
    int,
    int,
) {
    let (x0, y0) = (tile.col as int, tile.row as int);
    let x1 = cut(x0, tile.span as int, cols);
    let y1 = cut(y0, tile.span as int, rows);
    (
        block_sum(pixels, cols, 0, x0, x1, y0, y1),
        block_sum(pixels, cols, 1, x0, x1, y0, y1),
        block_sum(pixels, cols, 2, x0, x1, y0, y1),
    )
}

/// How many cells of a tile have a pixel.
pub open spec fn tile_cells(len: int, cols: int, rows: int, tile: Tile) -> int {
    let (x0, y0) = (tile.col as int, tile.row as int);
    block_cells(
        len,
        cols,
        x0,
        cut(x0, tile.span as int, cols),
        y0,
        cut(y0, tile.span as int, rows),
    )
}

/// Sum an RGBA8 block, for the average colour of a merged tile. Coordinates
/// outside the grid, and cells without a pixel, are skipped.
pub fn block_color_sums(pixels: &[[u8; 4]], cols: u32, rows: u32, tile: &Tile) -> (r: ColorSums)
    requires
        cols * rows <= usize::MAX,
    ensures
        ({
            let (x1, y1) = (
                cut(tile.col as int, tile.span as int, cols as int),
                cut(tile.row as int, tile.span as int, rows as int),
            );
            let (x0, y0) = (tile.col as int, tile.row as int);
            &&& r.red == block_sum(pixels@, cols as int, 0, x0, x1, y0, y1)
            &&& r.green == block_sum(pixels@, cols as int, 1, x0, x1, y0, y1)
            &&& r.blue == block_sum(pixels@, cols as int, 2, x0, x1, y0, y1)
            &&& r.count == block_cells(pixels@.len() as int, cols as int, x0, x1, y0, y1)
        }),
        (r.red as int, r.green as int, r.blue as int) == tile_sums(
            pixels@,
            cols as int,
            rows as int,
            *tile,
        ),
        r.count == tile_cells(pixels@.len() as int, cols as int, rows as int, *tile),
{
    let x0: u32 = tile.col;
    let y0: u32 = tile.row;
    let x1: u32 = if x0 < cols && tile.span < cols - x0 {
        x0 + tile.span
    } else {
        cols
    };
    let y1: u32 = if y0 < rows && tile.span < rows - y0 {
        y0 + tile.span
    } else {
        rows
    };
    let mut sums = ColorSums { red: 0, green: 0, blue: 0, count: 0 };
    let mut y: u32 = y0;
    while y < y1
        invariant
            cols * rows <= usize::MAX,
            x0 == tile.col,
            y0 == tile.row,
            x1 == cut(x0 as int, tile.span as int, cols as int),
            y1 == cut(y0 as int, tile.span as int, rows as int),
            y0 <= y,
            y0 < y1 ==> y <= y1,
            y1 <= y0 ==> y == y0,
            sums.red == block_sum(pixels@, cols as int, 0, x0 as int, x1 as int, y0 as int, y as int),
            sums.green == block_sum(
                pixels@,
                cols as int,
                1,
                x0 as int,
                x1 as int,
                y0 as int,
                y as int,
            ),
            sums.blue == block_sum(
                pixels@,
                cols as int,
                2,
                x0 as int,
                x1 as int,
                y0 as int,
                y as int,
            ),
            sums.count == block_cells(
                pixels@.len() as int,
                cols as int,
                x0 as int,
                x1 as int,
                y0 as int,
                y as int,
            ),
            sums.red <= 255 * sums.count,
            sums.green <= 255 * sums.count,
            sums.blue <= 255 * sums.count,
            sums.count <= (y - y0) * 0xffff_ffff,
        decreases y1 - y,
    {
        let row = sum_row(pixels, cols, rows, y, x0, x1, tile.span);
        assert((y - y0) * 0xffff_ffff <= 0xffff_ffff * 0xffff_ffff) by (nonlinear_arith)
            requires
                y - y0 <= 0xffff_ffff,
        ;
        sums = ColorSums {
            red: sums.red + row.red,
            green: sums.green + row.green,
            blue: sums.blue + row.blue,
            count: sums.count + row.count,
        };
        y += 1;
    }
    sums
}

/// The sums of one row of a block.
fn sum_row(
    pixels: &[[u8; 4]],
    cols: u32,
    rows: u32,
    y: u32,
    x0: u32,
    x1: u32,
    span: u32,
) -> (sums: ColorSums)
    requires
        cols * rows <= usize::MAX,
        y < rows,
        x1 == cut(x0 as int, span as int, cols as int),
    ensures
        sums.red == row_sum(pixels@, cols as int, 0, y as int, x0 as int, x1 as int),
        sums.green == row_sum(pixels@, cols as int, 1, y as int, x0 as int, x1 as int),
        sums.blue == row_sum(pixels@, cols as int, 2, y as int, x0 as int, x1 as int),
        sums.count == row_cells(pixels@.len() as int, cols as int, y as int, x0 as int, x1 as int),
        sums.red <= 255 * sums.count,
        sums.green <= 255 * sums.count,
        sums.blue <= 255 * sums.count,
        sums.count <= 0xffff_ffff,
{
    let mut sums = ColorSums { red: 0, green: 0, blue: 0, count: 0 };
    let mut x: u32 = x0;
    while x < x1
        invariant
            cols * rows <= usize::MAX,
            y < rows,
            x1 == cut(x0 as int, span as int, cols as int),
            x0 <= x,
            x0 < x1 ==> x <= x1,
            x1 <= x0 ==> x == x0,
            sums.red == row_sum(pixels@, cols as int, 0, y as int, x0 as int, x as int),
            sums.green == row_sum(pixels@, cols as int, 1, y as int, x0 as int, x as int),
            sums.blue == row_sum(pixels@, cols as int, 2, y as int, x0 as int, x as int),
            sums.count == row_cells(
                pixels@.len() as int,
                cols as int,
                y as int,
                x0 as int,
                x as int,
            ),
            sums.red <= 255 * sums.count,
            sums.green <= 255 * sums.count,
            sums.blue <= 255 * sums.count,
            sums.count <= x - x0,
        decreases x1 - x,
    {
        assert(0 <= y * cols && y * cols + x < rows * cols && rows * cols == cols * rows)
            by (nonlinear_arith)
            requires
                0 <= x < cols,
                0 <= y < rows,
        ;
        let at: usize = y as usize * cols as usize + x as usize;
        assert(pixels.len() == pixels@.len());
        if at < pixels.len() {
            let p: [u8; 4] = pixels[at];
            sums = ColorSums {
                red: sums.red + p[0] as u128,
                green: sums.green + p[1] as u128,
                blue: sums.blue + p[2] as u128,
                count: sums.count + 1,
            };
        }
        x += 1;
    }
    sums
}

} // verus!
