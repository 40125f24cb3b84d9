//! Merging far cells into larger tiles.

use astraglyph::ascii::block_depth::block_ranges;
use astraglyph::ascii::grid_layout::{
    block_color_sums, compute_tiles, MergeFlags, SubdivisionPolicy, Tile,
};

/// When cells may be merged.
struct Limits {
    merge_depth: f32,
    depth_tolerance: f32,
    max_span: u32,
}

fn usual() -> Limits {
    Limits { merge_depth: 0.90, depth_tolerance: 0.01, max_span: 2 }
}

/// Which blocks are far and flat enough.
fn flags(depth: &[u32], cols: u32, rows: u32, span: u32, limits: &Limits) -> Vec<bool> {
    block_ranges(depth, cols, rows, span, limits.merge_depth.to_bits())
        .into_iter()
        .map(|range| match range {
            Some((near, far)) => {
                f32::from_bits(far) - f32::from_bits(near) <= limits.depth_tolerance.max(0.0)
            }
            None => false,
        })
        .collect()
}

fn tiles_of(depth: &[f32], cols: u32, rows: u32, limits: &Limits) -> Vec<Tile> {
    let bits: Vec<u32> = depth.iter().map(|d| d.to_bits()).collect();
    let merge = MergeFlags {
        twos: flags(&bits, cols, rows, 2, limits),
        fours: flags(&bits, cols, rows, 4, limits),
        eights: flags(&bits, cols, rows, 8, limits),
    };
    let policy = SubdivisionPolicy { max_span: limits.max_span };
    compute_tiles(depth.len(), &merge, cols, rows, &policy)
}

/// The average colour of a tile, black where it has no pixel.
fn average_block_color(pixels: &[[u8; 4]], cols: u32, rows: u32, tile: &Tile) -> [f32; 3] {
    let sums = block_color_sums(pixels, cols, rows, tile);
    if sums.count == 0 {
        return [0.0; 3];
    }
    [sums.red, sums.green, sums.blue].map(|sum| sum as f32 / sums.count as f32 / 255.0)
}

/// The invariant the whole module rests on: tiles partition the grid.
fn assert_exact_cover(tiles: &[Tile], cols: u32, rows: u32) {
    let mut hits = vec![0u32; (cols as usize) * (rows as usize)];
    for t in tiles {
        for dy in 0..t.span {
            for dx in 0..t.span {
                let idx = ((t.row + dy) as usize) * (cols as usize) + ((t.col + dx) as usize);
                hits[idx] += 1;
            }
        }
    }
    for (i, h) in hits.iter().enumerate() {
        assert_eq!(*h, 1, "cell {i} covered {h} times, expected exactly once");
    }
    let area: u32 = tiles.iter().map(|t| t.area()).sum();
    assert_eq!(area, cols * rows, "total tile area must equal the grid");
}

#[test]
fn uniform_policy_yields_one_tile_per_cell() {
    let depth = vec![1.0; 4 * 3];
    let tiles = tiles_of(&depth, 4, 3, &Limits { merge_depth: 1.0, depth_tolerance: 0.0, max_span: 1 });
    assert_eq!(tiles.len(), 12);
    assert!(tiles.iter().all(|t| t.span == 1));
    assert_exact_cover(&tiles, 4, 3);
}

#[test]
fn flat_far_region_merges_to_max_span() {
    let policy = Limits { merge_depth: 0.9, depth_tolerance: 0.01, max_span: 2 };
    let depth = vec![1.0; 4 * 4];
    let tiles = tiles_of(&depth, 4, 4, &policy);
    // 4x4 of uniform far depth => four 2x2 tiles, no 1x1 leftovers.
    assert_eq!(tiles.len(), 4);
    assert!(tiles.iter().all(|t| t.span == 2));
    assert_exact_cover(&tiles, 4, 4);
}

#[test]
fn near_region_keeps_full_detail() {
    let policy = Limits { merge_depth: 0.9, depth_tolerance: 0.01, max_span: 2 };
    // Everything close to the camera.
    let depth = vec![0.2; 4 * 4];
    let tiles = tiles_of(&depth, 4, 4, &policy);
    assert_eq!(tiles.len(), 16);
    assert!(tiles.iter().all(|t| t.span == 1));
    assert_exact_cover(&tiles, 4, 4);
}

#[test]
fn depth_discontinuity_blocks_merging() {
    let policy = Limits { merge_depth: 0.5, depth_tolerance: 0.01, max_span: 2 };
    // All cells are "far" but the block straddles a big depth step, so
    // merging across the edge must be refused.
    let depth = vec![
        0.60, 0.99, //
        0.60, 0.99, //
    ];
    let tiles = tiles_of(&depth, 2, 2, &policy);
    assert_eq!(tiles.len(), 4, "an edge must not be merged away");
    assert_exact_cover(&tiles, 2, 2);
}

#[test]
fn near_object_surrounded_by_far_background() {
    let policy = Limits { merge_depth: 0.9, depth_tolerance: 0.01, max_span: 2 };
    let (cols, rows) = (4u32, 4u32);
    let mut depth = vec![1.0f32; (cols * rows) as usize];
    // A single near cell at (1,1) — its aligned 2x2 block must stay fine,
    // while the other three blocks merge.
    depth[(1 * cols + 1) as usize] = 0.3;
    let tiles = tiles_of(&depth, cols, rows, &policy);
    assert_exact_cover(&tiles, cols, rows);

    let merged = tiles.iter().filter(|t| t.span == 2).count();
    let fine = tiles.iter().filter(|t| t.span == 1).count();
    assert_eq!(merged, 3, "the three untouched blocks merge");
    assert_eq!(fine, 4, "the block containing the near cell stays 1:1");
}

#[test]
fn odd_dimensions_leave_remainder_as_single_cells() {
    let policy = Limits { merge_depth: 0.9, depth_tolerance: 0.01, max_span: 2 };
    let (cols, rows) = (5u32, 3u32);
    let depth = vec![1.0; (cols * rows) as usize];
    let tiles = tiles_of(&depth, cols, rows, &policy);
    // One 2x2 block fits in the 5x3 grid's first two rows/cols... two of
    // them horizontally; the rest is remainder.
    assert_exact_cover(&tiles, cols, rows);
    assert!(tiles.iter().any(|t| t.span == 2));
    assert!(tiles.iter().any(|t| t.span == 1));
}

#[test]
fn coarse_span_beats_fine_when_allowed() {
    let policy = Limits { merge_depth: 0.9, depth_tolerance: 0.01, max_span: 4 };
    let depth = vec![1.0; 4 * 4];
    let tiles = tiles_of(&depth, 4, 4, &policy);
    assert_eq!(tiles.len(), 1, "a flat far 4x4 becomes one tile");
    assert_eq!(tiles[0].span, 4);
    assert_exact_cover(&tiles, 4, 4);
}

#[test]
fn max_span_is_clamped_to_a_power_of_two() {
    assert_eq!(SubdivisionPolicy { max_span: 0 }.effective_max_span(), 1);
    assert_eq!(SubdivisionPolicy { max_span: 3 }.effective_max_span(), 2);
    assert_eq!(SubdivisionPolicy { max_span: 7 }.effective_max_span(), 4);
    assert_eq!(SubdivisionPolicy { max_span: 99 }.effective_max_span(), 8);
    assert!(!SubdivisionPolicy { max_span: 1 }.merges());
    assert!(SubdivisionPolicy { max_span: 2 }.merges());
}

#[test]
fn wrong_depth_length_falls_back_to_uniform() {
    let policy = Limits { merge_depth: 0.0, depth_tolerance: 1.0, max_span: 4 };
    // A depth buffer of another size.
    let stale = vec![1.0; 3];
    let tiles = tiles_of(&stale, 4, 4, &policy);
    assert_eq!(tiles.len(), 16, "a mismatched depth buffer must not merge blindly");
    assert_exact_cover(&tiles, 4, 4);
}

#[test]
fn non_finite_depth_does_not_merge_or_panic() {
    let policy = Limits { merge_depth: 0.5, depth_tolerance: 1.0, max_span: 2 };
    let depth = vec![f32::NAN, 1.0, 1.0, f32::INFINITY];
    let tiles = tiles_of(&depth, 2, 2, &policy);
    assert_eq!(tiles.len(), 4);
    assert_exact_cover(&tiles, 2, 2);
}

#[test]
fn negative_tolerance_is_treated_as_zero() {
    let policy = Limits { merge_depth: 0.5, depth_tolerance: -5.0, max_span: 2 };
    // Perfectly flat, so a zero tolerance still permits the merge.
    let depth = vec![1.0; 4];
    let tiles = tiles_of(&depth, 2, 2, &policy);
    assert_eq!(tiles.len(), 1);
    assert_eq!(tiles[0].span, 2);
}

#[test]
fn empty_grid_is_handled() {
    assert!(tiles_of(&[], 0, 0, &usual()).is_empty());
    assert!(tiles_of(&[], 4, 0, &usual()).is_empty());
    assert!(tiles_of(&[], 0, 4, &usual()).is_empty());
}

#[test]
fn single_cell_grid_yields_one_tile() {
    let tiles = tiles_of(&[1.0], 1, 1, &usual());
    assert_eq!(tiles, vec![Tile { col: 0, row: 0, span: 1 }]);
}

#[test]
fn average_block_color_averages_the_span() {
    let pixels = vec![
        [0, 0, 0, 255], [255, 255, 255, 255], //
        [255, 255, 255, 255], [0, 0, 0, 255], //
    ];
    let tile = Tile { col: 0, row: 0, span: 2 };
    let avg = average_block_color(&pixels, 2, 2, &tile);
    for c in avg {
        assert!((c - 0.5).abs() < 1e-3, "expected mid grey, got {avg:?}");
    }
}

#[test]
fn average_block_color_of_single_cell_is_that_cell() {
    let pixels = vec![[51, 102, 153, 255]];
    let avg = average_block_color(&pixels, 1, 1, &Tile { col: 0, row: 0, span: 1 });
    assert!((avg[0] - 0.2).abs() < 1e-2);
    assert!((avg[1] - 0.4).abs() < 1e-2);
    assert!((avg[2] - 0.6).abs() < 1e-2);
}

#[test]
fn average_block_color_clips_at_the_edges() {
    // A span-2 tile at the bottom-right of a 3x3 grid only has one valid
    // cell; it must average that one rather than reading out of bounds.
    let mut pixels = vec![[0u8, 0, 0, 255]; 9];
    pixels[8] = [200, 200, 200, 255];
    let tile = Tile { col: 2, row: 2, span: 2 };
    let avg = average_block_color(&pixels, 3, 3, &tile);
    assert!((avg[0] - 200.0 / 255.0).abs() < 1e-3, "got {avg:?}");
}

#[test]
fn average_block_color_out_of_range_is_black_not_a_panic() {
    let pixels = vec![[10u8, 20, 30, 255]];
    let avg = average_block_color(&pixels, 1, 1, &Tile { col: 9, row: 9, span: 2 });
    assert_eq!(avg, [0.0, 0.0, 0.0]);
    assert_eq!(average_block_color(&[], 4, 4, &Tile { col: 0, row: 0, span: 2 }), [0.0, 0.0, 0.0]);
}

#[test]
fn merging_reduces_instance_count_on_a_mostly_far_frame() {
    // The point of the feature: fewer glyphs for the same grid.
    let (cols, rows) = (16u32, 16u32);
    let mut depth = vec![1.0f32; (cols * rows) as usize];
    // A near patch in the middle keeps its detail.
    for row in 6..10 {
        for col in 6..10 {
            depth[(row * cols + col) as usize] = 0.25;
        }
    }
    let policy = Limits { merge_depth: 0.9, depth_tolerance: 0.01, max_span: 4 };
    let tiles = tiles_of(&depth, cols, rows, &policy);
    assert_exact_cover(&tiles, cols, rows);
    assert!(
        tiles.len() < (cols * rows) as usize,
        "merging must lower the glyph count: {} vs {}",
        tiles.len(),
        cols * rows
    );
    // The near patch must still be at full resolution.
    assert!(tiles.iter().filter(|t| t.span == 1).count() >= 16);
}

#[test]
fn the_uniform_policy_merges_nothing() {
    assert!(!SubdivisionPolicy::uniform().merges());
    assert_eq!(SubdivisionPolicy::default().effective_max_span(), 2);
}

/// Blocks are taken row by row, and those that reach past the edge of the grid
/// are left out.
#[test]
fn block_ranges_give_the_nearest_and_the_farthest_depth() {
    let depth = [
        0.9, 0.95, 0.2, 0.9, 1.0, //
        1.0, 0.92, 0.9, 0.9, 1.0, //
        0.5, 0.5, 0.5, 0.5, 0.5,
    ]
    .map(f32::to_bits);
    let far = Some((0.9f32.to_bits(), 1.0f32.to_bits()));
    assert_eq!(block_ranges(&depth, 5, 3, 2, 0.9f32.to_bits()), [far, None]);
    assert_eq!(block_ranges(&depth, 5, 3, 4, 0.0f32.to_bits()), []);
    // Rows that the buffer does not hold are no reason to merge.
    assert_eq!(block_ranges(&depth[..7], 5, 3, 2, 0.0f32.to_bits()), [far, None]);
}
