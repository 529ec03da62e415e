//! The universe: grid state, its neighbour counters and single-cell edits.

use crate::cell::Cell;
use crate::error::EntropySourceError;
use crate::raster::{alive_colour, pixel_index};
use crate::torus::{
    cell_index, lemma_cell_index, lemma_corner_neighbours, lemma_index_cell,
    lemma_live_among_bounds, lemma_live_neighbours_after_write, lemma_touches_among_monotone,
    lemma_touches_symmetric, lemma_wrap_step, live_among, live_neighbours, offset_x, offset_y,
    ring_offset, touches, touches_among,
};
use vstd::prelude::*;

verus! {

/// Largest number of cells, and of pixels, that a universe may have.
pub const MAX_AREA: u32 = 0xFFFF_FFFF;

/// The dimensions that a universe can be built with: all positive, and a
/// framebuffer of `width * cell_size` by `height * cell_size` pixels that a
/// 32-bit index can address.
pub open spec fn valid_dimensions(width: int, height: int, cell_size: int) -> bool {
    &&& 0 < width
    &&& 0 < height
    &&& 0 < cell_size
    &&& width * height * cell_size * cell_size <= MAX_AREA
}

/// A toroidal grid of cells with its framebuffer.
pub struct Universe {
    pub(crate) width: u32,
    pub(crate) height: u32,
    pub(crate) cell_size: u32,
    pub(crate) cells: Vec<Cell>,
    pub(crate) previous_cells: Vec<Cell>,
    pub(crate) tick_count: u32,
    pub(crate) canvas: Vec<u32>,
    pub(crate) colour_canvas: Vec<u32>,
    pub(crate) points: [(u32, u32); 8],
    pub(crate) cell_neighbour_count: Vec<u8>,
    pub(crate) previous_cell_neighbour_count: Vec<u8>,
    pub(crate) entropy_error: Option<EntropySourceError>,
}

/// What a universe is, apart from how it is stored.
pub struct UniverseView {
    /// Number of columns.
    pub width: int,
    /// Number of rows.
    pub height: int,
    /// Side of the square of pixels that shows one cell.
    pub cell_size: int,
    /// The current generation, row by row.
    pub cells: Seq<Cell>,
    /// The framebuffer, row by row from the top left.
    pub pixels: Seq<u32>,
    /// Number of generations computed so far, modulo 2^32.
    pub generation: int,
    /// Set when the entropy source failed at construction.
    pub entropy_error: Option<EntropySourceError>,
}

impl UniverseView {
    /// Dimensions that a universe can have, with a grid and a framebuffer
    /// of the sizes they call for, and a generation count that fits the
    /// counter.
    pub open spec fn valid(self) -> bool {
        &&& valid_dimensions(self.width, self.height, self.cell_size)
        &&& self.cells.len() == self.width * self.height
        &&& self.pixels.len() == self.width * self.height * self.cell_size * self.cell_size
        &&& 0 <= self.generation <= u32::MAX
    }

    /// The state of cell `(x, y)`.
    pub open spec fn cell(self, x: int, y: int) -> Cell {
        self.cells[cell_index(self.width, x, y)]
    }

    /// The number of live cells among the eight neighbours of `(x, y)`.
    pub open spec fn live_neighbours(self, x: int, y: int) -> int {
        live_neighbours(self.cells, self.width, self.height, x, y)
    }

    /// This universe with cell `(x, y)` set to `cell`.
    pub open spec fn with_cell(self, x: int, y: int, cell: Cell) -> UniverseView {
        UniverseView { cells: self.cells.update(cell_index(self.width, x, y), cell), ..self }
    }
}

impl View for Universe {
    type V = UniverseView;

    open(crate) spec fn view(&self) -> UniverseView {
        UniverseView {
            width: self.width as int,
            height: self.height as int,
            cell_size: self.cell_size as int,
            cells: self.cells@,
            pixels: self.canvas@,
            generation: self.tick_count as int,
            entropy_error: self.entropy_error,
        }
    }
}

impl Universe {
    /// The stored neighbour counter of each cell, row by row.
    pub open(crate) spec fn neighbour_counts(&self) -> Seq<u8> {
        self.cell_neighbour_count@
    }

    /// The dimensions are valid, every buffer has the size they call for,
    /// and the table of neighbour offsets is the one for this width and
    /// height.
    pub(crate) open spec fn well_shaped(&self) -> bool {
        &&& valid_dimensions(self.width as int, self.height as int, self.cell_size as int)
        &&& self.cells@.len() == self.width * self.height
        &&& self.previous_cells@.len() == self.width * self.height
        &&& self.cell_neighbour_count@.len() == self.width * self.height
        &&& self.previous_cell_neighbour_count@.len() == self.width * self.height
        &&& self.colour_canvas@.len() == self.width * self.height
        &&& self.canvas@.len() == self.width * self.height * self.cell_size * self.cell_size
        &&& forall|k: int|
            0 <= k < 8 ==> (#[trigger] self.points@[k]).0 == ring_offset(
                offset_x(k),
                self.width as int,
            ) && self.points@[k].1 == ring_offset(offset_y(k), self.height as int)
    }

    /// Every stored neighbour counter equals the number of live cells among
    /// the eight neighbours of its cell in the current grid.
    pub open spec fn counts_consistent(&self) -> bool {
        &&& self.neighbour_counts().len() == self@.cells.len()
        &&& forall|i: int|
            0 <= i < self@.cells.len() ==> (#[trigger] self.neighbour_counts()[i]) as int
                == self@.live_neighbours(i % self@.width, i / self@.width)
    }

    /// The colour map holds, for every cell, the colour in which the cell
    /// is shown when it is alive.
    pub(crate) open spec fn colours_mapped(&self) -> bool {
        forall|x: int, y: int|
            0 <= x < self.width && 0 <= y < self.height ==> self.colour_canvas@[#[trigger] cell_index(
                self.width as int,
                x,
                y,
            )] == alive_colour(self.width as int, self.height as int, x, y)
    }

    /// Every block of the framebuffer has one colour throughout.
    pub open spec fn blocks_uniform(&self) -> bool {
        forall|x: int, y: int, i: int, j: int|
            0 <= x < self@.width && 0 <= y < self@.height && 0 <= i < self@.cell_size && 0 <= j
                < self@.cell_size ==> self@.pixels[#[trigger] pixel_index(
                self@.width,
                self@.cell_size,
                x,
                y,
                i,
                j,
            )] == self@.pixels[pixel_index(self@.width, self@.cell_size, x, y, 0, 0)]
    }

    /// The invariant of a universe between operations: buffers of the right
    /// sizes, neighbour counters that match the grid, and a framebuffer
    /// made of uniform blocks.
    pub open(crate) spec fn wf(&self) -> bool {
        &&& self.well_shaped()
        &&& self.colours_mapped()
        &&& self.counts_consistent()
        &&& self.blocks_uniform()
    }

    /// What the invariant says of the model and of the neighbour counters.
    pub proof fn lemma_wf(&self)
        requires
            self.wf(),
        ensures
            self@.valid(),
            self.counts_consistent(),
            self.blocks_uniform(),
    {
    }

    /// Number of columns.
    pub fn width(&self) -> (width: u32)
        ensures
            width == self@.width,
    {
        self.width
    }

    /// Number of rows.
    pub fn height(&self) -> (height: u32)
        ensures
            height == self@.height,
    {
        self.height
    }

    /// Side, in pixels, of the square that shows one cell.
    pub fn cell_size(&self) -> (cell_size: u32)
        ensures
            cell_size == self@.cell_size,
    {
        self.cell_size
    }

    /// Number of generations computed so far, modulo 2^32.
    pub fn generation(&self) -> (generation: u32)
        ensures
            generation == self@.generation,
    {
        self.tick_count
    }

    /// The failure of the entropy source at construction, if it failed.
    pub fn entropy_error(&self) -> (error: Option<EntropySourceError>)
        ensures
            error == self@.entropy_error,
    {
        self.entropy_error
    }

    /// The index of cell `(x, y)` in the cell buffers.
    pub(crate) fn index(&self, x: u32, y: u32) -> (idx: usize)
        requires
            self.well_shaped(),
            x < self.width,
            y < self.height,
        ensures
            idx == cell_index(self.width as int, x as int, y as int),
            idx < self.width * self.height,
    {
        proof {
            lemma_cell_index(self.width as int, self.height as int, x as int, y as int);
            lemma_area_bounds(self.width as int, self.height as int, self.cell_size as int);
        }
        (y * self.width + x) as usize
    }

    /// Adds one to the counter of each of the eight neighbours of `(x, y)`.
    pub(crate) fn increment_neighbour_counts(&mut self, x: u32, y: u32)
        requires
            old(self).well_shaped(),
            x < old(self).width,
            y < old(self).height,
            forall|j: int|
                0 <= j < old(self).neighbour_counts().len() ==> old(self).neighbour_counts()[j]
                    + touches(
                    old(self).width as int,
                    old(self).height as int,
                    x as int,
                    y as int,
                    j,
                ) <= u8::MAX,
        ensures
            final(self).well_shaped(),
            *final(self) == (Universe {
                cell_neighbour_count: final(self).cell_neighbour_count,
                ..*old(self)
            }),
            final(self).neighbour_counts().len() == old(self).neighbour_counts().len(),
            forall|j: int|
                0 <= j < old(self).neighbour_counts().len() ==> final(self).neighbour_counts()[j]
                    == old(self).neighbour_counts()[j] + touches(
                    old(self).width as int,
                    old(self).height as int,
                    x as int,
                    y as int,
                    j,
                ),
    {
        let ghost w = self.width as int;
        let ghost h = self.height as int;
        for k in 0..8usize
            invariant
                self.well_shaped(),
                w == self.width,
                h == self.height,
                x < w,
                y < h,
                *self == (Universe {
                    cell_neighbour_count: self.cell_neighbour_count,
                    ..*old(self)
                }),
                self.neighbour_counts().len() == old(self).neighbour_counts().len(),
                forall|j: int|
                    0 <= j < old(self).neighbour_counts().len() ==> old(self).neighbour_counts()[j]
                        + touches(w, h, x as int, y as int, j) <= u8::MAX,
                forall|j: int|
                    0 <= j < old(self).neighbour_counts().len() ==> self.neighbour_counts()[j]
                        == old(self).neighbour_counts()[j] + touches_among(
                        w,
                        h,
                        x as int,
                        y as int,
                        j,
                        k as int,
                    ),
        {
            let (d_x, d_y) = self.points[k];
            proof {
                lemma_wrap_step(x as int, offset_x(k as int), w);
                lemma_wrap_step(y as int, offset_y(k as int), h);
            }
            let neighbour_x = ((x as u64 + d_x as u64) % (self.width as u64)) as u32;
            let neighbour_y = ((y as u64 + d_y as u64) % (self.height as u64)) as u32;
            let idx = self.index(neighbour_x, neighbour_y);
            proof {
                lemma_touches_among_monotone(w, h, x as int, y as int, idx as int, k + 1, 8);
            }
            self.cell_neighbour_count[idx] += 1;
        }
    }

    /// Takes one from the counter of each of the eight neighbours of
    /// `(x, y)`.
    pub(crate) fn decrement_neighbour_counts(&mut self, x: u32, y: u32)
        requires
            old(self).well_shaped(),
            x < old(self).width,
            y < old(self).height,
            forall|j: int|
                0 <= j < old(self).neighbour_counts().len() ==> old(self).neighbour_counts()[j]
                    >= touches(
                    old(self).width as int,
                    old(self).height as int,
                    x as int,
                    y as int,
                    j,
                ),
        ensures
            final(self).well_shaped(),
            *final(self) == (Universe {
                cell_neighbour_count: final(self).cell_neighbour_count,
                ..*old(self)
            }),
            final(self).neighbour_counts().len() == old(self).neighbour_counts().len(),
            forall|j: int|
                0 <= j < old(self).neighbour_counts().len() ==> final(self).neighbour_counts()[j]
                    == old(self).neighbour_counts()[j] - touches(
                    old(self).width as int,
                    old(self).height as int,
                    x as int,
                    y as int,
                    j,
                ),
    {
        let ghost w = self.width as int;
        let ghost h = self.height as int;
        for k in 0..8usize
            invariant
                self.well_shaped(),
                w == self.width,
                h == self.height,
                x < w,
                y < h,
                *self == (Universe {
                    cell_neighbour_count: self.cell_neighbour_count,
                    ..*old(self)
                }),
                self.neighbour_counts().len() == old(self).neighbour_counts().len(),
                forall|j: int|
                    0 <= j < old(self).neighbour_counts().len() ==> old(self).neighbour_counts()[j]
                        >= touches(w, h, x as int, y as int, j),
                forall|j: int|
                    0 <= j < old(self).neighbour_counts().len() ==> self.neighbour_counts()[j]
                        == old(self).neighbour_counts()[j] - touches_among(
                        w,
                        h,
                        x as int,
                        y as int,
                        j,
                        k as int,
                    ),
        {
            let (d_x, d_y) = self.points[k];
            proof {
                lemma_wrap_step(x as int, offset_x(k as int), w);
                lemma_wrap_step(y as int, offset_y(k as int), h);
            }
            let neighbour_x = ((x as u64 + d_x as u64) % (self.width as u64)) as u32;
            let neighbour_y = ((y as u64 + d_y as u64) % (self.height as u64)) as u32;
            let idx = self.index(neighbour_x, neighbour_y);
            proof {
                lemma_touches_among_monotone(w, h, x as int, y as int, idx as int, k + 1, 8);
            }
            self.cell_neighbour_count[idx] -= 1;
        }
    }

    /// The state of cell `(x, y)`.
    pub fn get(&self, x: u32, y: u32) -> (cell: Cell)
        requires
            self.wf(),
            x < self@.width,
            y < self@.height,
        ensures
            cell == self@.cell(x as int, y as int),
    {
        self.cells[self.index(x, y)]
    }

    /// The stored neighbour counter of cell `(x, y)`, which is the number
    /// of live cells among its eight neighbours.
    pub fn neighbour_count(&self, x: u32, y: u32) -> (count: u8)
        requires
            self.wf(),
            x < self@.width,
            y < self@.height,
        ensures
            count == self.neighbour_counts()[cell_index(self@.width, x as int, y as int)],
            count == self@.live_neighbours(x as int, y as int),
    {
        proof {
            lemma_cell_index(self.width as int, self.height as int, x as int, y as int);
        }
        self.cell_neighbour_count[self.index(x, y)]
    }

    /// Counts the live cells among the eight neighbours of `(x, y)` by
    /// looking at each of them.
    pub fn alive_neighbour_count(&self, x: u32, y: u32) -> (count: u8)
        requires
            self.wf(),
            x < self@.width,
            y < self@.height,
        ensures
            count == self@.live_neighbours(x as int, y as int),
    {
        let ghost w = self.width as int;
        let ghost h = self.height as int;
        let mut count: u8 = 0;
        for k in 0..8usize
            invariant
                self.wf(),
                w == self.width,
                h == self.height,
                x < w,
                y < h,
                count == live_among(self.cells@, w, h, x as int, y as int, k as int),
        {
            let (d_x, d_y) = self.points[k];
            proof {
                lemma_wrap_step(x as int, offset_x(k as int), w);
                lemma_wrap_step(y as int, offset_y(k as int), h);
                lemma_live_among_bounds(self.cells@, w, h, x as int, y as int, k as int);
            }
            let neighbour_x = ((x as u64 + d_x as u64) % (self.width as u64)) as u32;
            let neighbour_y = ((y as u64 + d_y as u64) % (self.height as u64)) as u32;
            let idx = self.index(neighbour_x, neighbour_y);
            if self.cells[idx] == Cell::Alive {
                count += 1;
            }
        }
        count
    }

    /// Sets cell `(x, y)` to `cell`. Where the cell already has that state
    /// nothing changes; otherwise the counter of each of its eight
    /// neighbours moves by one, up for a birth and down for a death.
    pub fn set(&mut self, x: u32, y: u32, cell: Cell)
        requires
            old(self).wf(),
            x < old(self)@.width,
            y < old(self)@.height,
        ensures
            final(self).wf(),
            final(self)@ == old(self)@.with_cell(x as int, y as int, cell),
            old(self)@.cell(x as int, y as int) == cell ==> *final(self) == *old(self),
            final(self).neighbour_counts().len() == old(self).neighbour_counts().len(),
            forall|j: int|
                0 <= j < old(self).neighbour_counts().len() ==> final(self).neighbour_counts()[j]
                    == old(self).neighbour_counts()[j] + if old(self)@.cell(x as int, y as int)
                    == cell {
                    0
                } else if cell == Cell::Alive {
                    touches(old(self)@.width, old(self)@.height, x as int, y as int, j)
                } else {
                    -touches(old(self)@.width, old(self)@.height, x as int, y as int, j)
                },
    {
        let ghost w = self.width as int;
        let ghost h = self.height as int;
        let idx = self.index(x, y);
        if self.cells[idx] != cell {
            self.cells[idx] = cell;
            proof {
                lemma_cell_index(w, h, x as int, y as int);
                assert forall|j: int| 0 <= j < self.neighbour_counts().len() implies {
                    let t = #[trigger] touches(w, h, x as int, y as int, j);
                    let n = self.neighbour_counts()[j] as int;
                    let m = live_neighbours(self.cells@, w, h, j % w, j / w);
                    &&& 0 <= m <= 8
                    &&& m == if cell == Cell::Alive {
                        n + t
                    } else {
                        n - t
                    }
                } by {
                    lemma_index_cell(w, h, j);
                    lemma_touches_symmetric(w, h, x as int, y as int, j % w, j / w);
                    lemma_live_neighbours_after_write(
                        old(self).cells@,
                        w,
                        h,
                        idx as int,
                        cell,
                        j % w,
                        j / w,
                    );
                    lemma_live_among_bounds(self.cells@, w, h, j % w, j / w, 8);
                }
            }
            if cell == Cell::Alive {
                self.increment_neighbour_counts(x, y);
            } else {
                self.decrement_neighbour_counts(x, y);
            }
        } else {
            assert(self.cells@ =~= self.cells@.update(idx as int, cell));
        }
    }

    /// In a universe that meets its invariant, the stored counter of every
    /// cell is the number of live cells among the eight neighbours of the
    /// cell on the torus.
    pub proof fn lemma_counter_is_live_neighbours(&self, x: int, y: int)
        requires
            self.wf(),
            0 <= x < self@.width,
            0 <= y < self@.height,
        ensures
            self.neighbour_counts()[cell_index(self@.width, x, y)] == self@.live_neighbours(x, y),
    {
        lemma_cell_index(self@.width, self@.height, x, y);
    }

    /// Setting a cell a second time to the same state changes nothing: the
    /// grid and every neighbour counter stay as the first call left them.
    pub proof fn lemma_set_twice(
        before: Universe,
        once: Universe,
        twice: Universe,
        x: int,
        y: int,
        cell: Cell,
    )
        requires
            before.wf(),
            once.wf(),
            twice.wf(),
            0 <= x < before@.width,
            0 <= y < before@.height,
            once@ == before@.with_cell(x, y, cell),
            twice@ == once@.with_cell(x, y, cell),
        ensures
            twice@ == once@,
            twice.neighbour_counts() == once.neighbour_counts(),
    {
        lemma_cell_index(before@.width, before@.height, x, y);
        assert(twice@.cells =~= once@.cells);
        assert(twice.neighbour_counts() =~= once.neighbour_counts());
    }

    /// Bringing the top left cell alive, on a grid at least two cells wide
    /// and two cells high, raises the counter of each of the cells at
    /// `(width - 1, height - 1)`, `(width - 1, 0)`, `(width - 1, 1)`,
    /// `(0, height - 1)`, `(0, 1)`, `(1, height - 1)`, `(1, 0)` and
    /// `(1, 1)`; where the grid is at least three cells each way, by
    /// exactly one.
    pub proof fn lemma_birth_in_corner(before: Universe, after: Universe, x: int, y: int)
        requires
            before.wf(),
            after.wf(),
            2 <= before@.width,
            2 <= before@.height,
            before@.cell(0, 0) == Cell::Dead,
            after@ == before@.with_cell(0, 0, Cell::Alive),
            x == before@.width - 1 || x == 0 || x == 1,
            y == before@.height - 1 || y == 0 || y == 1,
            !(x == 0 && y == 0),
        ensures
            after.neighbour_counts()[cell_index(before@.width, x, y)]
                > before.neighbour_counts()[cell_index(before@.width, x, y)],
            3 <= before@.width && 3 <= before@.height ==> after.neighbour_counts()[cell_index(
                before@.width,
                x,
                y,
            )] == before.neighbour_counts()[cell_index(before@.width, x, y)] + 1,
    {
        let w = before@.width;
        let h = before@.height;
        let target = cell_index(w, x, y);
        lemma_cell_index(w, h, x, y);
        lemma_cell_index(w, h, 0, 0);
        lemma_cell_index(w, h, w - 1, h - 1);
        lemma_cell_index(w, h, w - 1, 0);
        lemma_cell_index(w, h, w - 1, 1);
        lemma_cell_index(w, h, 0, h - 1);
        lemma_cell_index(w, h, 0, 1);
        lemma_cell_index(w, h, 1, h - 1);
        lemma_cell_index(w, h, 1, 0);
        lemma_cell_index(w, h, 1, 1);
        lemma_corner_neighbours(w, h, target);
        lemma_touches_symmetric(w, h, 0, 0, x, y);
        lemma_live_neighbours_after_write(before@.cells, w, h, 0, Cell::Alive, x, y);
    }
}

/// With valid dimensions the number of cells is at most the number of
/// pixels, which fits a 32-bit index.
pub proof fn lemma_area_bounds(width: int, height: int, cell_size: int)
    requires
        valid_dimensions(width, height, cell_size),
    ensures
        0 < width * height <= width * height * cell_size * cell_size <= MAX_AREA,
        width <= width * height,
        height <= width * height,
        cell_size * cell_size <= width * height * cell_size * cell_size,
        width * cell_size <= width * height * cell_size * cell_size,
        height * cell_size <= width * height * cell_size * cell_size,
{
    assert(0 < width * height && width <= width * height && height <= width * height)
        by (nonlinear_arith)
        requires
            0 < width,
            0 < height,
    ;
    assert(0 < cell_size * cell_size && cell_size <= cell_size * cell_size) by (nonlinear_arith)
        requires
            0 < cell_size,
    ;
    let area = width * height;
    let block = cell_size * cell_size;
    assert(area <= area * block && block <= area * block) by (nonlinear_arith)
        requires
            0 < area,
            0 < block,
    ;
    assert(area * block == width * height * cell_size * cell_size) by (nonlinear_arith)
        requires
            area == width * height,
            block == cell_size * cell_size,
    ;
    assert(width * cell_size <= area * block && height * cell_size <= area * block)
        by (nonlinear_arith)
        requires
            area == width * height,
            block == cell_size * cell_size,
            0 < width,
            0 < height,
            0 < cell_size,
    ;
}

} // verus!
