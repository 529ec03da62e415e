//! Advancing the universe by one generation.

use crate::cell::{next_state, Cell};
use crate::torus::{
    cell_index, lemma_cell_index, lemma_index_cell, lemma_live_among_bounds,
    lemma_live_neighbours_after_write, lemma_neighbour_in_grid, lemma_touches_symmetric,
    live_among, live_neighbours, touches,
};
use crate::universe::{Universe, UniverseView};
use vstd::prelude::*;

verus! {

/// The generation that follows `cells`: every cell takes the state that the
/// rule gives it for the number of its live neighbours in `cells`.
pub open spec fn next_generation(cells: Seq<Cell>, width: int, height: int) -> Seq<Cell> {
    Seq::new(
        cells.len(),
        |i: int| next_state(cells[i], live_neighbours(cells, width, height, i % width, i / width)),
    )
}

/// The grid `n` generations after `cells`.
pub open spec fn generations(cells: Seq<Cell>, width: int, height: int, n: nat) -> Seq<Cell>
    decreases n,
{
    if n == 0 {
        cells
    } else {
        next_generation(generations(cells, width, height, (n - 1) as nat), width, height)
    }
}

/// The first `k` cells of `cells`, followed by dead cells: the grid that
/// the neighbour counters describe while a pass over the cells has settled
/// `k` of them.
pub open spec fn settled(cells: Seq<Cell>, k: int) -> Seq<Cell> {
    Seq::new(
        cells.len(),
        |i: int|
            if i < k {
                cells[i]
            } else {
                Cell::Dead
            },
    )
}

/// In a grid without live cells no cell has a live neighbour.
pub proof fn lemma_live_neighbours_all_dead(
    cells: Seq<Cell>,
    width: int,
    height: int,
    x: int,
    y: int,
)
    requires
        cells.len() == width * height,
        forall|i: int| 0 <= i < cells.len() ==> cells[i] == Cell::Dead,
        0 <= x < width,
        0 <= y < height,
    ensures
        live_neighbours(cells, width, height, x, y) == 0,
{
    reveal_with_fuel(live_among, 9);
    lemma_neighbour_in_grid(width, height, x, y, 0);
    lemma_neighbour_in_grid(width, height, x, y, 1);
    lemma_neighbour_in_grid(width, height, x, y, 2);
    lemma_neighbour_in_grid(width, height, x, y, 3);
    lemma_neighbour_in_grid(width, height, x, y, 4);
    lemma_neighbour_in_grid(width, height, x, y, 5);
    lemma_neighbour_in_grid(width, height, x, y, 6);
    lemma_neighbour_in_grid(width, height, x, y, 7);
}

impl UniverseView {
    /// This universe one generation later. The framebuffer is not touched.
    pub open spec fn step(self) -> UniverseView {
        UniverseView {
            cells: next_generation(self.cells, self.width, self.height),
            generation: if self.generation == u32::MAX {
                0
            } else {
                self.generation + 1
            },
            ..self
        }
    }
}

impl Universe {
    /// The counters are those of the grid in which the first `k` cells are
    /// settled and the others dead.
    pub(crate) open spec fn counts_settled(&self, k: int) -> bool {
        &&& self.cell_neighbour_count@.len() == self.width * self.height
        &&& forall|j: int|
            0 <= j < self.width * self.height ==> (#[trigger] self.cell_neighbour_count@[j]) as int
                == live_neighbours(
                settled(self.cells@, k),
                self.width as int,
                self.height as int,
                j % (self.width as int),
                j / (self.width as int),
            )
    }

    /// A pass that started from `before` has given the first `k` cells
    /// their next state and has left everything but the current cells and
    /// counters as it found it.
    pub(crate) open spec fn stepping(&self, before: Universe, k: int) -> bool {
        &&& self.well_shaped()
        &&& *self == (Universe {
            cells: self.cells,
            cell_neighbour_count: self.cell_neighbour_count,
            previous_cells: before.cells,
            previous_cell_neighbour_count: before.cell_neighbour_count,
            ..before
        })
        &&& forall|i: int|
            0 <= i < k ==> (#[trigger] self.cells@[i]) == next_generation(
                before.cells@,
                before.width as int,
                before.height as int,
            )[i]
        &&& self.counts_settled(k)
    }

    /// Gives cell `(x, y)` the state `cell` during a pass that has settled
    /// the cells before it, and brings the counters up to date.
    pub(crate) fn settle(&mut self, x: u32, y: u32, cell: Cell)
        requires
            old(self).well_shaped(),
            x < old(self).width,
            y < old(self).height,
            old(self).counts_settled(cell_index(old(self).width as int, x as int, y as int)),
        ensures
            final(self).well_shaped(),
            *final(self) == (Universe {
                cells: final(self).cells,
                cell_neighbour_count: final(self).cell_neighbour_count,
                ..*old(self)
            }),
            final(self).cells@ == old(self).cells@.update(
                cell_index(old(self).width as int, x as int, y as int),
                cell,
            ),
            final(self).counts_settled(cell_index(old(self).width as int, x as int, y as int) + 1),
    {
        let ghost w = self.width as int;
        let ghost h = self.height as int;
        let idx = self.index(x, y);
        self.cells[idx] = cell;
        let ghost partial = settled(old(self).cells@, idx as int);
        proof {
            lemma_cell_index(w, h, x as int, y as int);
            assert(settled(self.cells@, idx + 1) =~= partial.update(idx as int, cell));
            assert forall|j: int| 0 <= j < w * h implies {
                let m = live_neighbours(settled(self.cells@, idx + 1), w, h, j % w, j / w);
                let n = (#[trigger] self.cell_neighbour_count@[j]) as int;
                &&& 0 <= m <= 8
                &&& m == if cell == Cell::Alive {
                    n + touches(w, h, x as int, y as int, j)
                } else {
                    n
                }
            } by {
                lemma_index_cell(w, h, j);
                lemma_touches_symmetric(w, h, x as int, y as int, j % w, j / w);
                lemma_live_neighbours_after_write(partial, w, h, idx as int, cell, j % w, j / w);
                lemma_live_among_bounds(settled(self.cells@, idx + 1), w, h, j % w, j / w, 8);
            }
        }
        if cell == Cell::Alive {
            proof {
                assert forall|j: int|
                    0 <= j < self.neighbour_counts().len() implies self.neighbour_counts()[j]
                    + #[trigger] touches(w, h, x as int, y as int, j) <= u8::MAX by {
                    assert(self.cell_neighbour_count@[j] + touches(w, h, x as int, y as int, j) <= 8);
                }
            }
            self.increment_neighbour_counts(x, y);
        }
    }

    /// Advances the universe by one generation: every cell takes the state
    /// that the rule gives it for its count of live neighbours, and the
    /// generation counter goes up by one. The framebuffer is left as it is.
    pub fn tick(&mut self)
        requires
            old(self).wf(),
        ensures
            final(self).wf(),
            final(self)@ == old(self)@.step(),
    {
        std::mem::swap(&mut self.cells, &mut self.previous_cells);
        std::mem::swap(&mut self.cell_neighbour_count, &mut self.previous_cell_neighbour_count);

        let n = self.cell_neighbour_count.len();
        for i in 0..n
            invariant
                self.well_shaped(),
                n == self.cell_neighbour_count@.len(),
                *self == (Universe {
                    cells: self.cells,
                    cell_neighbour_count: self.cell_neighbour_count,
                    previous_cells: old(self).cells,
                    previous_cell_neighbour_count: old(self).cell_neighbour_count,
                    ..*old(self)
                }),
                forall|j: int| 0 <= j < i ==> self.cell_neighbour_count@[j] == 0,
        {
            self.cell_neighbour_count[i] = 0;
        }

        let ghost w = self.width as int;
        let ghost h = self.height as int;
        let ghost next = next_generation(old(self).cells@, w, h);
        proof {
            assert forall|j: int| 0 <= j < w * h implies (
            #[trigger] self.cell_neighbour_count@[j]) as int == live_neighbours(
                settled(self.cells@, 0),
                w,
                h,
                j % w,
                j / w,
            ) by {
                lemma_index_cell(w, h, j);
                lemma_live_neighbours_all_dead(settled(self.cells@, 0), w, h, j % w, j / w);
            }
        }
        let width = self.width;
        let height = self.height;
        let mut y: u32 = 0;
        while y < height
            invariant
                old(self).wf(),
                width == self.width,
                height == self.height,
                w == width,
                h == height,
                y <= height,
                self.stepping(*old(self), y * w),
            decreases height - y,
        {
            let mut x: u32 = 0;
            while x < width
                invariant
                    old(self).wf(),
                    width == self.width,
                    height == self.height,
                    w == width,
                    h == height,
                    y < height,
                    x <= width,
                    self.stepping(*old(self), y * w + x),
                decreases width - x,
            {
                let idx = self.index(x, y);
                let cell = self.previous_cells[idx];
                let live_neighbours = self.previous_cell_neighbour_count[idx];
                let next_cell = cell.next(live_neighbours);
                proof {
                    lemma_cell_index(w, h, x as int, y as int);
                }
                self.settle(x, y, next_cell);
                x += 1;
            }
            assert(y * w + w == (y + 1) * w) by (nonlinear_arith);
            y += 1;
        }
        proof {
            assert(height * w == w * h) by (nonlinear_arith)
                requires
                    h == height,
            ;
            assert(settled(self.cells@, w * h) =~= self.cells@);
            assert(self.cells@ =~= next);
        }
        self.tick_count = self.tick_count.wrapping_add(1);
    }
}

/// A run of ticks computes what a simulation by brute force computes:
/// where every state of a run is the step of the state before it, the last
/// grid is the first grid taken through as many generations as the run has
/// steps, each found by counting the live neighbours of every cell in the
/// one before.
pub proof fn lemma_run_follows_generations(run: Seq<UniverseView>)
    requires
        run.len() > 0,
        forall|i: int| 1 <= i < run.len() ==> #[trigger] run[i] == run[i - 1].step(),
    ensures
        run.last().width == run[0].width,
        run.last().height == run[0].height,
        run.last().cells == generations(
            run[0].cells,
            run[0].width,
            run[0].height,
            (run.len() - 1) as nat,
        ),
    decreases run.len(),
{
    if run.len() > 1 {
        let earlier = run.drop_last();
        assert forall|i: int| 1 <= i < earlier.len() implies #[trigger] earlier[i] == earlier[i
            - 1].step() by {
            assert(earlier[i] == run[i]);
            assert(earlier[i - 1] == run[i - 1]);
        }
        lemma_run_follows_generations(earlier);
        assert(earlier.last() == run[run.len() - 2]);
        assert(run.last() == run[run.len() - 1]);
        assert(earlier[0] == run[0]);
    }
}

} // verus!
