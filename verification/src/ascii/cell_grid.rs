//! The character grid over the scene: a uniform grid of cells, each with the
//! brightness and colour sampled for it and the glyph it shows.

use vstd::prelude::*;
use crate::ascii::overlay::Rgb;

verus! {

/// A single cell in the grid.
#[derive(Clone, Copy, Debug, PartialEq, Eq, Structural)]
pub struct Cell {
    /// Column (x) in grid units.
    pub col: u32,
    /// Row (y) in grid units.
    pub row: u32,
    /// Width of this cell in pixels.
    pub width: u32,
    /// Height of this cell in pixels.
    pub height: u32,
    /// What was sampled from the scene for this cell.
    pub sample: CellSample,
}

/// What the scene shows in a cell.
#[derive(Clone, Copy, Debug, PartialEq, Eq, Structural)]
pub struct CellSample {
    /// The brightness, as the bit pattern of a single-precision number.
    pub brightness: u32,
    /// The colour.
    pub color: Rgb,
    /// The glyph to render.
    pub glyph_index: u32,
}

/// Configuration for a uniform cell grid.
#[derive(Clone, Copy, Debug, PartialEq, Eq, Structural)]
pub struct CellGridConfig {
    /// Number of columns (horizontal cells).
    pub cols: u32,
    /// Number of rows (vertical cells).
    pub rows: u32,
    /// Cell size in pixels.
    pub cell_size: u32,
}

impl Default for CellGridConfig {
    fn default() -> (r: Self)
        ensures
            r == (CellGridConfig { cols: 80, rows: 48, cell_size: 16 }),
    {
        CellGridConfig { cols: 80, rows: 48, cell_size: 16 }
    }
}

/// Black, without a glyph.
pub open spec fn dark_sample() -> CellSample {
    CellSample { brightness: 0, color: Rgb { r: 0, g: 0, b: 0 }, glyph_index: 0 }
}

/// The cell at position `i` of a grid, with what was sampled for it.
pub open spec fn grid_cell(config: CellGridConfig, i: int, sample: CellSample) -> Cell {
    Cell {
        col: (i % config.cols as int) as u32,
        row: (i / config.cols as int) as u32,
        width: config.cell_size,
        height: config.cell_size,
        sample,
    }
}

/// The cells of a grid, row by row.
#[derive(Clone, Debug)]
pub struct CellGrid {
    config: CellGridConfig,
    cells: Vec<Cell>,
}

impl View for CellGrid {
    type V = Seq<Cell>;

    closed spec fn view(&self) -> Seq<Cell> {
        self.cells@
    }
}

impl CellGrid {
    /// The configuration that the grid was made with.
    pub closed spec fn layout(&self) -> CellGridConfig {
        self.config
    }

    /// One cell for each place of the grid.
    pub open spec fn wf(&self) -> bool {
        &&& self@.len() == self.layout().cols * self.layout().rows
        &&& self.layout().cols * self.layout().rows <= u32::MAX
    }

    /// Create a new uniform grid from the configuration.
    pub fn new(config: CellGridConfig) -> (r: Self)
        requires
            config.cols * config.rows <= u32::MAX,
        ensures
            r.wf(),
            r.layout() == config,
            forall|i: int|
                0 <= i < r@.len() ==> #[trigger] r@[i] == grid_cell(config, i, dark_sample()),
    {
        let mut cells: Vec<Cell> = Vec::new();
        assert(0 <= config.cols * config.rows) by (nonlinear_arith)
            requires
                0 <= config.cols,
                0 <= config.rows,
        ;
        let count: u32 = config.cols * config.rows;
        let mut i: u32 = 0;
        while i < count
            invariant
                i <= count,
                count == config.cols * config.rows,
                cells@.len() == i,
                forall|k: int|
                    0 <= k < i ==> #[trigger] cells@[k] == grid_cell(config, k, dark_sample()),
            decreases count - i,
        {
            assert(config.cols > 0) by (nonlinear_arith)
                requires
                    0 <= i < config.cols * config.rows,
            ;
            cells.push(
                Cell {
                    col: i % config.cols,
                    row: i / config.cols,
                    width: config.cell_size,
                    height: config.cell_size,
                    sample: CellSample {
                        brightness: 0,
                        color: Rgb { r: 0, g: 0, b: 0 },
                        glyph_index: 0,
                    },
                },
            );
            i += 1;
        }
        CellGrid { config, cells }
    }

    /// Total number of cells in the grid.
    pub fn cell_count(&self) -> (r: usize)
        ensures
            r == self@.len(),
    {
        self.cells.len()
    }

    /// All cells, row by row.
    pub fn cells(&self) -> (r: &[Cell])
        ensures
            r@ == self@,
    {
        self.cells.as_slice()
    }

    /// All cells, row by row, to be changed in place.
    pub fn cells_mut(&mut self) -> (r: &mut [Cell])
        ensures
            r@ == old(self)@,
            final(self)@ == final(r)@,
            final(self).layout() == old(self).layout(),
    {
        self.cells.as_mut_slice()
    }

    /// The cell at grid coordinates, to be changed in place.
    pub fn cell_mut(&mut self, col: u32, row: u32) -> (r: Option<&mut Cell>)
        requires
            old(self).wf(),
        ensures
            r is Some <==> col < old(self).layout().cols && row < old(self).layout().rows,
            r is None ==> *final(self) == *old(self),
            r matches Some(cell) ==> {
                let i = row * old(self).layout().cols + col;
                &&& 0 <= i < old(self)@.len()
                &&& *cell == old(self)@[i]
                &&& final(self)@ == old(self)@.update(i, *final(cell))
                &&& final(self).layout() == old(self).layout()
            },
    {
        if col >= self.config.cols || row >= self.config.rows {
            return None;
        }
        assert(0 <= row * self.config.cols && row * self.config.cols + col < self.config.cols
            * self.config.rows) by (nonlinear_arith)
            requires
                0 <= col < self.config.cols,
                0 <= row < self.config.rows,
        ;
        let i: usize = (row * self.config.cols + col) as usize;
        Some(&mut self.cells[i])
    }

    /// Number of columns.
    pub fn cols(&self) -> (r: u32)
        ensures
            r == self.layout().cols,
    {
        self.config.cols
    }

    /// Number of rows.
    pub fn rows(&self) -> (r: u32)
        ensures
            r == self.layout().rows,
    {
        self.config.rows
    }

    /// The configuration.
    pub fn config(&self) -> (r: &CellGridConfig)
        ensures
            *r == self.layout(),
    {
        &self.config
    }

    /// The pixel region covered by this grid (total width and height).
    pub fn pixel_size(&self) -> (r: (u32, u32))
        requires
            self.layout().cols * self.layout().cell_size <= u32::MAX,
            self.layout().rows * self.layout().cell_size <= u32::MAX,
        ensures
            r.0 == self.layout().cols * self.layout().cell_size,
            r.1 == self.layout().rows * self.layout().cell_size,
    {
        (self.config.cols * self.config.cell_size, self.config.rows * self.config.cell_size)
    }

    /// Take over what was sampled for each cell, row by row; there must be one
    /// sample for each.
    pub fn update_from_samples(&mut self, samples: &[CellSample])
        requires
            samples@.len() == old(self)@.len(),
        ensures
            final(self).layout() == old(self).layout(),
            final(self)@.len() == old(self)@.len(),
            forall|i: int|
                0 <= i < final(self)@.len() ==> #[trigger] final(self)@[i] == (Cell {
                    sample: samples@[i],
                    ..old(self)@[i]
                }),
    {
        let ghost before = self@;
        let mut i: usize = 0;
        while i < self.cells.len()
            invariant
                self.config == old(self).config,
                before == old(self)@,
                self.cells@.len() == before.len(),
                samples@.len() == before.len(),
                i <= self.cells@.len(),
                forall|k: int|
                    0 <= k < self.cells@.len() ==> #[trigger] self.cells@[k] == (if k < i {
                        Cell { sample: samples@[k], ..before[k] }
                    } else {
                        before[k]
                    }),
            decreases self.cells.len() - i,
        {
            let mut cell: Cell = self.cells[i];
            assert(samples.len() == samples@.len());
            cell.sample = samples[i];
            self.cells.set(i, cell);
            i += 1;
        }
    }
}

} // verus!
