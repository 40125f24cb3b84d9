//! The cell grid.

use astraglyph::ascii::cell_grid::{CellGrid, CellGridConfig, CellSample};
use astraglyph::ascii::overlay::Rgb;

/// What a grey scene pixel shows: its brightness and one of fourteen glyphs.
fn sample(level: u8) -> CellSample {
    let v = level as f32 / 255.0;
    let bits = v.to_bits();
    CellSample {
        brightness: bits,
        color: Rgb { r: bits, g: bits, b: bits },
        glyph_index: (v * 13.0) as u32,
    }
}

#[test]
fn grid_creation() {
    let config = CellGridConfig { cols: 10, rows: 8, cell_size: 16 };
    let grid = CellGrid::new(config);
    assert_eq!(grid.cell_count(), 80);
    assert_eq!(grid.pixel_size(), (160, 128));
}

#[test]
fn grid_update_from_pixels() {
    let config = CellGridConfig { cols: 4, rows: 4, cell_size: 8 };
    let mut grid = CellGrid::new(config);
    let pixels: Vec<[u8; 4]> = (0..16)
        .map(|i| {
            let v = (i as f32 / 15.0 * 255.0) as u8;
            [v, v, v, 255]
        })
        .collect();
    let samples: Vec<CellSample> = pixels.iter().map(|p| sample(p[0])).collect();
    grid.update_from_samples(&samples);
    // Brightest cell should have the highest glyph index.
    let cells = grid.cells();
    assert!(cells[0].sample.glyph_index <= cells[15].sample.glyph_index);
    assert_eq!(cells[15].sample, sample(255));
}

#[test]
fn grid_cell_mut_out_of_bounds() {
    let mut grid = CellGrid::new(CellGridConfig::default());
    assert!(grid.cell_mut(100, 100).is_none());
    assert!(grid.cell_mut(0, 0).is_some());
}

#[test]
fn cells_lie_row_by_row_and_start_dark() {
    let grid = CellGrid::new(CellGridConfig { cols: 3, rows: 2, cell_size: 5 });
    assert_eq!((grid.cols(), grid.rows(), grid.config().cell_size), (3, 2, 5));
    let last = grid.cells()[5];
    assert_eq!((last.col, last.row, last.width, last.height), (2, 1, 5, 5));
    assert_eq!(grid.cells()[3].col, 0);
    assert!(grid.cells().iter().all(|c| c.sample == sample(0)));
}

#[test]
fn cells_are_changed_in_place() {
    let mut grid = CellGrid::new(CellGridConfig { cols: 3, rows: 2, cell_size: 5 });
    grid.cell_mut(1, 1).expect("in the grid").sample = sample(51);
    assert_eq!(grid.cells()[4].sample, sample(51));
    for cell in grid.cells_mut() {
        cell.sample = sample(102);
    }
    assert!(grid.cells().iter().all(|c| c.sample == sample(102)));
}
