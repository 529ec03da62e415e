//! Construction: checking the dimensions, seeding the grid from random
//! bits, priming the neighbour counters and painting the framebuffer.

use crate::cell::Cell;
use crate::entropy::{error_code, fill_random};
use crate::error::{ConstructionError, EntropySourceError};
use crate::raster::{
    alive_colour, alive_colour_at, cell_colour, lemma_painted_blocks, lemma_pixel_cell,
    lemma_pixel_index, painted, pixel_index, BLANK_COLOUR, DEAD_COLOUR,
};
use crate::step::{lemma_live_neighbours_all_dead, settled};
use crate::torus::{cell_index, lemma_cell_index, lemma_index_cell, live_neighbours};
use crate::universe::{lemma_area_bounds, valid_dimensions, Universe, UniverseView, MAX_AREA};
use vstd::prelude::*;

verus! {

/// Number of seed bytes that a grid takes: one bit per cell, rounded up to
/// whole bytes.
pub open spec fn seed_len(width: int, height: int) -> int {
    (width * height + 7) / 8
}

/// Bit `i` of a seed, counted from the lowest bit of the first byte.
pub open spec fn seed_bit(seed: Seq<u8>, i: int) -> bool {
    (seed[i / 8] >> ((i % 8) as u8)) & 1 == 1
}

/// The grid of `n` cells that a seed gives: cell `i` is alive exactly when
/// bit `i` of the seed is set.
pub open spec fn seeded_cells(seed: Seq<u8>, n: int) -> Seq<Cell> {
    Seq::new(
        n as nat,
        |i: int|
            if seed_bit(seed, i) {
                Cell::Alive
            } else {
                Cell::Dead
            },
    )
}

/// A seed of `n` zero bytes.
pub open spec fn zero_seed(n: int) -> Seq<u8> {
    Seq::new(n as nat, |i: int| 0u8)
}

/// The fault, if any, for which these dimensions are refused.
pub open spec fn dimension_fault(width: int, height: int, cell_size: int) -> Option<
    ConstructionError,
> {
    if width == 0 || height == 0 || cell_size == 0 {
        Some(ConstructionError::ZeroDimension)
    } else if width * height * cell_size * cell_size > MAX_AREA {
        Some(ConstructionError::TooLarge)
    } else {
        None
    }
}

/// The fault, if any, for which these dimensions and a seed of `len` bytes
/// are refused. The dimensions are judged first.
pub open spec fn seed_fault(width: int, height: int, cell_size: int, len: int) -> Option<
    ConstructionError,
> {
    if dimension_fault(width, height, cell_size) is Some {
        dimension_fault(width, height, cell_size)
    } else if len != seed_len(width, height) {
        Some(ConstructionError::SeedLength)
    } else {
        None
    }
}

/// The universe that construction from `seed` gives: generation zero of the
/// seeded grid, with a framebuffer that shows it.
pub open spec fn seeded(
    width: int,
    height: int,
    cell_size: int,
    seed: Seq<u8>,
    entropy_error: Option<EntropySourceError>,
) -> UniverseView {
    UniverseView {
        width,
        height,
        cell_size,
        cells: seeded_cells(seed, width * height),
        pixels: painted(seeded_cells(seed, width * height), width, height, cell_size),
        generation: 0,
        entropy_error,
    }
}

/// A seed of zeros gives a grid without live cells.
pub proof fn lemma_zero_seed_is_dead(len: int, n: int, i: int)
    requires
        0 <= i < n,
        n <= 8 * len,
    ensures
        seeded_cells(zero_seed(len), n)[i] == Cell::Dead,
{
    let k = (i % 8) as u8;
    assert((0u8 >> k) & 1 == 0) by (bit_vector);
}

/// Judges the dimensions.
pub fn check_dimensions(width: u32, height: u32, cell_size: u32) -> (fault: Option<
    ConstructionError,
>)
    ensures
        fault == dimension_fault(width as int, height as int, cell_size as int),
        fault is None <==> valid_dimensions(width as int, height as int, cell_size as int),
{
    if width == 0 || height == 0 || cell_size == 0 {
        return Some(ConstructionError::ZeroDimension);
    }
    let ghost w = width as int;
    let ghost h = height as int;
    let ghost s = cell_size as int;
    assert(0 < w * h <= 0xFFFF_FFFF * 0xFFFF_FFFF) by (nonlinear_arith)
        requires
            0 < w <= 0xFFFF_FFFF,
            0 < h <= 0xFFFF_FFFF,
    ;
    let area = width as u64 * height as u64;
    if area > MAX_AREA as u64 {
        assert(w * h * s * s >= w * h) by (nonlinear_arith)
            requires
                0 < w * h,
                0 < s,
        ;
        return Some(ConstructionError::TooLarge);
    }
    assert(0 < w * h * s <= 0xFFFF_FFFF * 0xFFFF_FFFF) by (nonlinear_arith)
        requires
            0 < w * h <= 0xFFFF_FFFF,
            0 < s <= 0xFFFF_FFFF,
    ;
    let strip = area * cell_size as u64;
    if strip > MAX_AREA as u64 {
        assert(w * h * s * s >= w * h * s) by (nonlinear_arith)
            requires
                0 < w * h * s,
                0 < s,
        ;
        return Some(ConstructionError::TooLarge);
    }
    assert(0 < w * h * s * s <= 0xFFFF_FFFF * 0xFFFF_FFFF) by (nonlinear_arith)
        requires
            0 < w * h * s <= 0xFFFF_FFFF,
            0 < s <= 0xFFFF_FFFF,
    ;
    let pixels = strip * cell_size as u64;
    if pixels > MAX_AREA as u64 {
        return Some(ConstructionError::TooLarge);
    }
    None
}

impl Universe {
    /// The first paint has dealt with the first `k` cells: the colour map
    /// holds their colours and their blocks show them.
    pub(crate) open spec fn first_painting(&self, k: int) -> bool {
        &&& self.well_shaped()
        &&& forall|x: int, y: int|
            0 <= x < self.width && 0 <= y < self.height && cell_index(self.width as int, x, y) < k
                ==> self.colour_canvas@[#[trigger] cell_index(self.width as int, x, y)]
                == alive_colour(self.width as int, self.height as int, x, y)
        &&& forall|x: int, y: int, i: int, j: int|
            0 <= x < self.width && 0 <= y < self.height && 0 <= i < self.cell_size && 0 <= j
                < self.cell_size && cell_index(self.width as int, x, y) < k
                ==> self.canvas@[#[trigger] pixel_index(
                self.width as int,
                self.cell_size as int,
                x,
                y,
                i,
                j,
            )] == cell_colour(
                self.cells@[cell_index(self.width as int, x, y)],
                self.width as int,
                self.height as int,
                x,
                y,
            )
    }

    /// Seeds a blank universe: brings alive the cells whose seed bit is
    /// set, primes the neighbour counters, computes the colour map and
    /// paints every block.
    pub(crate) fn init(&mut self, seed: &[u8])
        requires
            old(self).well_shaped(),
            seed@.len() == seed_len(old(self).width as int, old(self).height as int),
            forall|i: int| 0 <= i < old(self).cells@.len() ==> old(self).cells@[i] == Cell::Dead,
            forall|i: int|
                0 <= i < old(self).neighbour_counts().len() ==> old(self).neighbour_counts()[i]
                    == 0,
        ensures
            final(self).wf(),
            final(self)@ == (UniverseView {
                generation: old(self).tick_count as int,
                entropy_error: old(self).entropy_error,
                ..seeded(
                    old(self).width as int,
                    old(self).height as int,
                    old(self).cell_size as int,
                    seed@,
                    None,
                )
            }),
    {
        let ghost w = self.width as int;
        let ghost h = self.height as int;
        let ghost s = self.cell_size as int;
        let ghost target = seeded_cells(seed@, w * h);
        proof {
            lemma_area_bounds(w, h, s);
            assert forall|j: int| 0 <= j < w * h implies (
            #[trigger] self.cell_neighbour_count@[j]) as int == live_neighbours(
                settled(self.cells@, 0),
                w,
                h,
                j % w,
                j / w,
            ) by {
                lemma_index_cell(w, h, j);
                lemma_live_neighbours_all_dead(settled(self.cells@, 0), w, h, j % w, j / w);
                assert(self.neighbour_counts()[j] == 0);
            }
        }
        let width = self.width;
        let height = self.height;
        let area = width * height;
        let mut i: u32 = 0;
        while i < area
            invariant
                self.well_shaped(),
                *self == (Universe {
                    cells: self.cells,
                    cell_neighbour_count: self.cell_neighbour_count,
                    ..*old(self)
                }),
                w == self.width,
                h == self.height,
                width == self.width,
                height == self.height,
                area == w * h,
                seed@.len() == seed_len(w, h),
                target == seeded_cells(seed@, w * h),
                i <= area,
                self.counts_settled(i as int),
                forall|c: int| 0 <= c < i ==> self.cells@[c] == target[c],
                forall|c: int| i <= c < w * h ==> self.cells@[c] == Cell::Dead,
            decreases area - i,
        {
            proof {
                lemma_index_cell(w, h, i as int);
            }
            let random_bool = (seed[(i / 8) as usize] >> ((i % 8) as u8)) & 1 == 1;
            assert(random_bool == seed_bit(seed@, i as int));
            assert(target[i as int] == if random_bool {
                Cell::Alive
            } else {
                Cell::Dead
            });
            if random_bool {
                self.settle(i % width, i / width, Cell::Alive);
            } else {
                assert(settled(self.cells@, i + 1) =~= settled(self.cells@, i as int));
            }
            i += 1;
        }
        proof {
            assert(settled(self.cells@, w * h) =~= self.cells@);
            assert(self.cells@ =~= target);
        }

        let cell_size = self.cell_size;
        let mut y: u32 = 0;
        while y < height
            invariant
                w == self.width,
                h == self.height,
                s == self.cell_size,
                width == self.width,
                height == self.height,
                *self == (Universe {
                    cells: self.cells,
                    cell_neighbour_count: self.cell_neighbour_count,
                    canvas: self.canvas,
                    colour_canvas: self.colour_canvas,
                    ..*old(self)
                }),
                self.cells@ == target,
                self.counts_settled(w * h),
                y <= height,
                self.first_painting(y * w),
            decreases height - y,
        {
            let mut x: u32 = 0;
            while x < width
                invariant
                    w == self.width,
                    h == self.height,
                    s == self.cell_size,
                    width == self.width,
                    height == self.height,
                    *self == (Universe {
                        cells: self.cells,
                        cell_neighbour_count: self.cell_neighbour_count,
                        canvas: self.canvas,
                        colour_canvas: self.colour_canvas,
                        ..*old(self)
                    }),
                    self.cells@ == target,
                    self.counts_settled(w * h),
                    y < height,
                    x <= width,
                    self.first_painting(y * w + x),
                decreases width - x,
            {
                let idx = self.index(x, y);
                let colour = alive_colour_at(width, height, x, y);
                let ghost prior = *self;
                self.colour_canvas[idx] = colour;
                let alive = self.cells[idx] == Cell::Alive;
                let shown = if alive {
                    colour
                } else {
                    DEAD_COLOUR
                };
                self.fill_block(x, y, shown);
                proof {
                    lemma_cell_index(w, h, x as int, y as int);
                    assert forall|x2: int, y2: int|
                        0 <= x2 < w && 0 <= y2 < h && cell_index(w, x2, y2) < y * w + x
                            + 1 implies self.colour_canvas@[#[trigger] cell_index(w, x2, y2)]
                        == alive_colour(w, h, x2, y2) by {
                        lemma_cell_index(w, h, x2, y2);
                        if !(x2 == x && y2 == y) {
                            assert(prior.colour_canvas@[cell_index(w, x2, y2)] == alive_colour(
                                w,
                                h,
                                x2,
                                y2,
                            ));
                        }
                    }
                    assert forall|x2: int, y2: int, i2: int, j2: int|
                        0 <= x2 < w && 0 <= y2 < h && 0 <= i2 < s && 0 <= j2 < s && cell_index(
                            w,
                            x2,
                            y2,
                        ) < y * w + x + 1 implies self.canvas@[#[trigger] pixel_index(
                        w,
                        s,
                        x2,
                        y2,
                        i2,
                        j2,
                    )] == cell_colour(self.cells@[cell_index(w, x2, y2)], w, h, x2, y2) by {
                        lemma_cell_index(w, h, x2, y2);
                        lemma_pixel_index(w, h, s, x2, y2, i2, j2);
                        if !(x2 == x && y2 == y) {
                            assert(prior.canvas@[pixel_index(w, s, x2, y2, i2, j2)] == cell_colour(
                                prior.cells@[cell_index(w, x2, y2)],
                                w,
                                h,
                                x2,
                                y2,
                            ));
                        }
                    }
                }
                x += 1;
            }
            assert(y * w + w == (y + 1) * w) by (nonlinear_arith);
            y += 1;
        }
        proof {
            assert(height * w == w * h) by (nonlinear_arith)
                requires
                    h == height,
            ;
            let picture = painted(target, w, h, s);
            assert forall|p: int| 0 <= p < self.canvas@.len() implies self.canvas@[p]
                == picture[p] by {
                lemma_pixel_cell(w, h, s, p);
                let col = p % (w * s);
                let row = p / (w * s);
                lemma_cell_index(w, h, col / s, row / s);
                assert(self.canvas@[pixel_index(w, s, col / s, row / s, col % s, row % s)]
                    == cell_colour(
                    self.cells@[cell_index(w, col / s, row / s)],
                    w,
                    h,
                    col / s,
                    row / s,
                ));
            }
            assert(self.canvas@ =~= picture);
            lemma_painted_blocks(target, w, h, s);
            assert forall|x2: int, y2: int| 0 <= x2 < w && 0 <= y2 < h implies self.colour_canvas@[#[trigger] cell_index(
                w,
                x2,
                y2,
            )] == alive_colour(w, h, x2, y2) by {
                lemma_cell_index(w, h, x2, y2);
            }
            assert(self.colours_mapped());
            assert(settled(self.cells@, w * h) =~= self.cells@);
            assert(self.counts_consistent());
            assert(self.blocks_uniform());
        }
    }

    /// Builds the universe for dimensions and a seed that have been judged
    /// sound.
    pub(crate) fn build(
        width: u32,
        height: u32,
        cell_size: u32,
        seed: &[u8],
        entropy_error: Option<EntropySourceError>,
    ) -> (universe: Universe)
        requires
            valid_dimensions(width as int, height as int, cell_size as int),
            seed@.len() == seed_len(width as int, height as int),
        ensures
            universe.wf(),
            universe@ == seeded(
                width as int,
                height as int,
                cell_size as int,
                seed@,
                entropy_error,
            ),
    {
        let ghost w = width as int;
        let ghost h = height as int;
        let ghost s = cell_size as int;
        proof {
            lemma_area_bounds(w, h, s);
            assert(w * h <= w * h * s <= w * h * s * s) by (nonlinear_arith)
                requires
                    0 < w * h,
                    0 < s,
            ;
        }
        let cells = vec![Cell::Dead; (width * height) as usize];
        let previous_cells = vec![Cell::Dead; (width * height) as usize];
        let canvas = vec![BLANK_COLOUR; (width * height * cell_size * cell_size) as usize];
        let colour_canvas = vec![BLANK_COLOUR; (width * height) as usize];

        let points = [
            (width - 1, height - 1),
            (width - 1, 0),
            (width - 1, 1),
            (0, height - 1),
            (0, 1),
            (1, height - 1),
            (1, 0),
            (1, 1),
        ];

        let cell_neighbour_count = vec![0u8; (width * height) as usize];
        let previous_cell_neighbour_count = vec![0u8; (width * height) as usize];

        let mut universe = Universe {
            width,
            height,
            cells,
            previous_cells,
            tick_count: 0,
            cell_size,
            canvas,
            colour_canvas,
            points,
            cell_neighbour_count,
            previous_cell_neighbour_count,
            entropy_error,
        };

        universe.init(seed);

        universe
    }

    /// Builds the universe that `seed` describes: bit `i` of the seed,
    /// counted from the lowest bit of the first byte, says whether cell `i`
    /// is alive. The seed is refused unless it holds one bit per cell,
    /// rounded up to whole bytes.
    pub fn from_seed(width: u32, height: u32, cell_size: u32, seed: &[u8]) -> (built: Result<
        Universe,
        ConstructionError,
    >)
        ensures
            built is Ok <==> seed_fault(
                width as int,
                height as int,
                cell_size as int,
                seed@.len() as int,
            ) is None,
            built matches Ok(universe) ==> universe.wf() && universe@ == seeded(
                width as int,
                height as int,
                cell_size as int,
                seed@,
                None,
            ),
            built matches Err(fault) ==> seed_fault(
                width as int,
                height as int,
                cell_size as int,
                seed@.len() as int,
            ) == Some(fault),
    {
        if let Some(fault) = check_dimensions(width, height, cell_size) {
            return Err(fault);
        }
        proof {
            lemma_area_bounds(width as int, height as int, cell_size as int);
        }
        if seed.len() != seed_bytes(width, height) {
            return Err(ConstructionError::SeedLength);
        }
        Ok(Universe::build(width, height, cell_size, seed, None))
    }

    /// Builds a universe from what the entropy source gave. With bytes it
    /// does as `from_seed` does. With a failure it seeds the grid with
    /// zeros, so that every cell is dead, and keeps the failure on record.
    pub fn with_entropy(
        width: u32,
        height: u32,
        cell_size: u32,
        entropy: Result<Vec<u8>, EntropySourceError>,
    ) -> (built: Result<Universe, ConstructionError>)
        ensures
            entropy matches Ok(bytes) ==> (built is Ok <==> seed_fault(
                width as int,
                height as int,
                cell_size as int,
                bytes@.len() as int,
            ) is None),
            entropy matches Ok(bytes) ==> (built matches Ok(universe) ==> universe.wf()
                && universe@ == seeded(
                width as int,
                height as int,
                cell_size as int,
                bytes@,
                None,
            )),
            entropy matches Ok(bytes) ==> (built matches Err(fault) ==> seed_fault(
                width as int,
                height as int,
                cell_size as int,
                bytes@.len() as int,
            ) == Some(fault)),
            entropy matches Err(failure) ==> (built is Ok <==> dimension_fault(
                width as int,
                height as int,
                cell_size as int,
            ) is None),
            entropy matches Err(failure) ==> (built matches Ok(universe) ==> universe.wf()
                && universe@ == seeded(
                width as int,
                height as int,
                cell_size as int,
                zero_seed(seed_len(width as int, height as int)),
                Some(failure),
            )),
            entropy matches Err(failure) ==> (built matches Err(fault) ==> dimension_fault(
                width as int,
                height as int,
                cell_size as int,
            ) == Some(fault)),
    {
        match entropy {
            Ok(bytes) => Universe::from_seed(width, height, cell_size, bytes.as_slice()),
            Err(failure) => {
                if let Some(fault) = check_dimensions(width, height, cell_size) {
                    return Err(fault);
                }
                proof {
                    lemma_area_bounds(width as int, height as int, cell_size as int);
                }
                let zeros = vec![0u8; seed_bytes(width, height)];
                assert(zeros@ =~= zero_seed(seed_len(width as int, height as int)));
                Ok(Universe::build(width, height, cell_size, zeros.as_slice(), Some(failure)))
            },
        }
    }

    /// Builds a universe with a random grid. The bits come from the
    /// operating system's entropy source; where that fails, every cell
    /// starts dead and the failure is kept on record.
    pub fn new(width: u32, height: u32, cell_size: u32) -> (built: Result<
        Universe,
        ConstructionError,
    >)
        ensures
            built is Ok <==> dimension_fault(width as int, height as int, cell_size as int)
                is None,
            built matches Err(fault) ==> dimension_fault(
                width as int,
                height as int,
                cell_size as int,
            ) == Some(fault),
            built matches Ok(universe) ==> universe.wf() && universe@.width == width
                && universe@.height == height && universe@.cell_size == cell_size
                && universe@.generation == 0,
            built matches Ok(universe) ==> universe@.pixels == painted(
                universe@.cells,
                width as int,
                height as int,
                cell_size as int,
            ),
            built matches Ok(universe) ==> (universe@.entropy_error is Some ==> forall|i: int|
                0 <= i < universe@.cells.len() ==> universe@.cells[i] == Cell::Dead),
    {
        if let Some(fault) = check_dimensions(width, height, cell_size) {
            return Err(fault);
        }
        proof {
            lemma_area_bounds(width as int, height as int, cell_size as int);
        }
        let mut random = vec![0u8; seed_bytes(width, height)];
        let entropy = match fill_random(&mut random) {
            Ok(()) => Ok(random),
            Err(failure) => Err(EntropySourceError { code: error_code(failure) }),
        };
        let built = Universe::with_entropy(width, height, cell_size, entropy);
        proof {
            if built is Ok {
                let universe = built->Ok_0;
                if universe@.entropy_error is Some {
                    let len = seed_len(width as int, height as int);
                    assert forall|i: int| 0 <= i < universe@.cells.len() implies universe@.cells[i]
                        == Cell::Dead by {
                        lemma_zero_seed_is_dead(len, width * height, i);
                    }
                }
            }
        }
        built
    }
}

/// Computes the number of seed bytes that a grid takes.
pub(crate) fn seed_bytes(width: u32, height: u32) -> (len: usize)
    requires
        width * height <= MAX_AREA,
    ensures
        len == seed_len(width as int, height as int),
{
    ((width as u64 * height as u64 + 7) / 8) as usize
}

} // verus!
