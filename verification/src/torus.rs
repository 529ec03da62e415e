//! Geometry of the toroidal grid: row-major indexing, the eight wrapped
//! neighbours of a cell, and live-neighbour counts.

use crate::cell::Cell;
use vstd::arithmetic::div_mod::{
    lemma_fundamental_div_mod_converse, lemma_mod_add_multiples_vanish, lemma_small_mod,
};
use vstd::prelude::*;

verus! {

/// Row-major index of cell `(x, y)` in a grid `width` cells wide.
pub open spec fn cell_index(width: int, x: int, y: int) -> int {
    y * width + x
}

/// Horizontal step to the `k`-th neighbour, for `k` in `0..8`.
pub open spec fn offset_x(k: int) -> int {
    if k < 3 {
        -1
    } else if k < 5 {
        0
    } else {
        1
    }
}

/// Vertical step to the `k`-th neighbour, for `k` in `0..8`.
pub open spec fn offset_y(k: int) -> int {
    if k == 0 || k == 3 || k == 5 {
        -1
    } else if k == 1 || k == 6 {
        0
    } else {
        1
    }
}

/// A step of `-1`, `0` or `1` as the non-negative amount that has the same
/// effect on a ring of `n` positions.
pub open spec fn ring_offset(step: int, n: int) -> int {
    if step < 0 {
        n + step
    } else {
        step
    }
}

/// Index of the `k`-th neighbour of `(x, y)`; coordinates wrap around both
/// axes.
pub open spec fn neighbour_index(width: int, height: int, x: int, y: int, k: int) -> int {
    cell_index(width, (x + offset_x(k)) % width, (y + offset_y(k)) % height)
}

/// Number of live cells among the first `k` neighbours of `(x, y)`.
pub open spec fn live_among(cells: Seq<Cell>, width: int, height: int, x: int, y: int, k: int) -> int
    decreases k,
{
    if k <= 0 {
        0
    } else {
        live_among(cells, width, height, x, y, k - 1) + if cells[neighbour_index(
            width,
            height,
            x,
            y,
            k - 1,
        )] == Cell::Alive {
            1int
        } else {
            0int
        }
    }
}

/// Number of live cells among the eight neighbours of `(x, y)`. A cell that
/// is a neighbour several times over, as happens on grids narrower or
/// shorter than three cells, counts once for each time.
pub open spec fn live_neighbours(cells: Seq<Cell>, width: int, height: int, x: int, y: int) -> int {
    live_among(cells, width, height, x, y, 8)
}

/// How many of the first `k` neighbours of `(x, y)` are the cell at index
/// `target`.
pub open spec fn touches_among(width: int, height: int, x: int, y: int, target: int, k: int) -> int
    decreases k,
{
    if k <= 0 {
        0
    } else {
        touches_among(width, height, x, y, target, k - 1) + if neighbour_index(
            width,
            height,
            x,
            y,
            k - 1,
        ) == target {
            1int
        } else {
            0int
        }
    }
}

/// How many of the eight neighbours of `(x, y)` are the cell at index
/// `target`: the amount by which a change of liveness at `(x, y)` moves the
/// neighbour count of `target`.
pub open spec fn touches(width: int, height: int, x: int, y: int, target: int) -> int {
    touches_among(width, height, x, y, target, 8)
}

/// A coordinate moved by at most one step wraps to the opposite edge and is
/// otherwise unchanged.
pub proof fn lemma_wrap_step(a: int, step: int, n: int)
    requires
        0 <= a < n,
        -1 <= step <= 1,
    ensures
        (a + step) % n == if a + step < 0 {
            n - 1
        } else if a + step >= n {
            0
        } else {
            a + step
        },
        (a + ring_offset(step, n)) % n == (a + step) % n,
{
    if a + step < 0 {
        lemma_mod_add_multiples_vanish(-1, n);
        lemma_small_mod((n - 1) as nat, n as nat);
    } else if a + step >= n {
        lemma_mod_add_multiples_vanish(0, n);
        lemma_small_mod(0, n as nat);
    } else {
        lemma_small_mod((a + step) as nat, n as nat);
    }
    if step < 0 {
        lemma_mod_add_multiples_vanish(a + step, n);
    }
}

/// A cell inside the grid has an index inside the cell buffer, and the
/// index determines the cell.
pub proof fn lemma_cell_index(width: int, height: int, x: int, y: int)
    requires
        0 <= x < width,
        0 <= y < height,
    ensures
        0 <= cell_index(width, x, y) < width * height,
        cell_index(width, x, y) % width == x,
        cell_index(width, x, y) / width == y,
{
    assert(0 <= y * width + x < width * height) by (nonlinear_arith)
        requires
            0 <= x < width,
            0 <= y < height,
    ;
    lemma_fundamental_div_mod_converse(cell_index(width, x, y), width, y, x);
}

/// Every index inside the cell buffer is the index of one cell inside the
/// grid.
pub proof fn lemma_index_cell(width: int, height: int, i: int)
    requires
        0 < width,
        0 <= i < width * height,
    ensures
        0 <= i % width < width,
        0 <= i / width < height,
        cell_index(width, i % width, i / width) == i,
{
    assert(0 <= i % width < width && 0 <= i / width < height && (i / width) * width + i % width
        == i) by (nonlinear_arith)
        requires
            0 < width,
            0 <= i < width * height,
    ;
}

/// Each neighbour of a cell inside the grid lies inside the grid.
pub proof fn lemma_neighbour_in_grid(width: int, height: int, x: int, y: int, k: int)
    requires
        0 <= x < width,
        0 <= y < height,
        0 <= k < 8,
    ensures
        0 <= (x + offset_x(k)) % width < width,
        0 <= (y + offset_y(k)) % height < height,
        0 <= neighbour_index(width, height, x, y, k) < width * height,
{
    lemma_wrap_step(x, offset_x(k), width);
    lemma_wrap_step(y, offset_y(k), height);
    lemma_cell_index(width, height, (x + offset_x(k)) % width, (y + offset_y(k)) % height);
}

/// Adjacency is symmetric: the `k`-th neighbour of one cell is a second
/// cell exactly when the opposite neighbour of the second is the first.
pub proof fn lemma_neighbour_opposite(
    width: int,
    height: int,
    ax: int,
    ay: int,
    bx: int,
    by: int,
    k: int,
)
    requires
        0 <= ax < width,
        0 <= ay < height,
        0 <= bx < width,
        0 <= by < height,
        0 <= k < 8,
    ensures
        (neighbour_index(width, height, ax, ay, k) == cell_index(width, bx, by)) == (
        neighbour_index(width, height, bx, by, 7 - k) == cell_index(width, ax, ay)),
{
    lemma_wrap_step(ax, offset_x(k), width);
    lemma_wrap_step(ay, offset_y(k), height);
    lemma_wrap_step(bx, offset_x(7 - k), width);
    lemma_wrap_step(by, offset_y(7 - k), height);
    lemma_cell_index(width, height, ax, ay);
    lemma_cell_index(width, height, bx, by);
    lemma_cell_index(width, height, (ax + offset_x(k)) % width, (ay + offset_y(k)) % height);
    lemma_cell_index(
        width,
        height,
        (bx + offset_x(7 - k)) % width,
        (by + offset_y(7 - k)) % height,
    );
}

/// One cell is a neighbour of a second as many times as the second is a
/// neighbour of the first.
pub proof fn lemma_touches_symmetric(width: int, height: int, ax: int, ay: int, bx: int, by: int)
    requires
        0 <= ax < width,
        0 <= ay < height,
        0 <= bx < width,
        0 <= by < height,
    ensures
        touches(width, height, ax, ay, cell_index(width, bx, by)) == touches(
            width,
            height,
            bx,
            by,
            cell_index(width, ax, ay),
        ),
{
    reveal_with_fuel(touches_among, 9);
    lemma_neighbour_opposite(width, height, ax, ay, bx, by, 0);
    lemma_neighbour_opposite(width, height, ax, ay, bx, by, 1);
    lemma_neighbour_opposite(width, height, ax, ay, bx, by, 2);
    lemma_neighbour_opposite(width, height, ax, ay, bx, by, 3);
    lemma_neighbour_opposite(width, height, ax, ay, bx, by, 4);
    lemma_neighbour_opposite(width, height, ax, ay, bx, by, 5);
    lemma_neighbour_opposite(width, height, ax, ay, bx, by, 6);
    lemma_neighbour_opposite(width, height, ax, ay, bx, by, 7);
}

/// A partial tally of neighbours never exceeds a later one, and counts at
/// most one per neighbour looked at.
pub proof fn lemma_touches_among_monotone(
    width: int,
    height: int,
    x: int,
    y: int,
    target: int,
    k1: int,
    k2: int,
)
    requires
        0 <= k1 <= k2,
    ensures
        0 <= touches_among(width, height, x, y, target, k1) <= touches_among(
            width,
            height,
            x,
            y,
            target,
            k2,
        ) <= k2,
    decreases k2,
{
    if k2 > 0 {
        if k1 < k2 {
            lemma_touches_among_monotone(width, height, x, y, target, k1, k2 - 1);
        } else {
            lemma_touches_among_monotone(width, height, x, y, target, k1 - 1, k2 - 1);
        }
    }
}

/// A live-neighbour count lies between zero and the number of neighbours
/// looked at.
pub proof fn lemma_live_among_bounds(
    cells: Seq<Cell>,
    width: int,
    height: int,
    x: int,
    y: int,
    k: int,
)
    requires
        0 <= k,
    ensures
        0 <= live_among(cells, width, height, x, y, k) <= k,
    decreases k,
{
    if k > 0 {
        lemma_live_among_bounds(cells, width, height, x, y, k - 1);
    }
}

/// Writing one cell moves the live-neighbour count of any cell by the
/// number of times the written cell is its neighbour: up when a dead cell
/// comes alive, down when a live cell dies, not at all otherwise.
pub proof fn lemma_live_neighbours_after_write(
    cells: Seq<Cell>,
    width: int,
    height: int,
    written: int,
    value: Cell,
    x: int,
    y: int,
)
    requires
        cells.len() == width * height,
        0 <= written < cells.len(),
        0 <= x < width,
        0 <= y < height,
    ensures
        live_neighbours(cells.update(written, value), width, height, x, y) == live_neighbours(
            cells,
            width,
            height,
            x,
            y,
        ) + if value == cells[written] {
            0
        } else if value == Cell::Alive {
            touches(width, height, x, y, written)
        } else {
            -touches(width, height, x, y, written)
        },
{
    reveal_with_fuel(live_among, 9);
    reveal_with_fuel(touches_among, 9);
    lemma_neighbour_in_grid(width, height, x, y, 0);
    lemma_neighbour_in_grid(width, height, x, y, 1);
    lemma_neighbour_in_grid(width, height, x, y, 2);
    lemma_neighbour_in_grid(width, height, x, y, 3);
    lemma_neighbour_in_grid(width, height, x, y, 4);
    lemma_neighbour_in_grid(width, height, x, y, 5);
    lemma_neighbour_in_grid(width, height, x, y, 6);
    lemma_neighbour_in_grid(width, height, x, y, 7);
}

/// The neighbours of the cell in the top left corner, on a grid at least
/// two cells wide and two cells high, are the cells at `(width - 1,
/// height - 1)`, `(width - 1, 0)`, `(width - 1, 1)`, `(0, height - 1)`,
/// `(0, 1)`, `(1, height - 1)`, `(1, 0)` and `(1, 1)`: a cell is touched
/// once for each place that it has in that list.
pub proof fn lemma_corner_neighbours(width: int, height: int, target: int)
    requires
        2 <= width,
        2 <= height,
    ensures
        touches(width, height, 0, 0, target) == (if target == cell_index(
            width,
            width - 1,
            height - 1,
        ) {
            1int
        } else {
            0int
        }) + (if target == cell_index(width, width - 1, 0) {
            1int
        } else {
            0int
        }) + (if target == cell_index(width, width - 1, 1) {
            1int
        } else {
            0int
        }) + (if target == cell_index(width, 0, height - 1) {
            1int
        } else {
            0int
        }) + (if target == cell_index(width, 0, 1) {
            1int
        } else {
            0int
        }) + (if target == cell_index(width, 1, height - 1) {
            1int
        } else {
            0int
        }) + (if target == cell_index(width, 1, 0) {
            1int
        } else {
            0int
        }) + (if target == cell_index(width, 1, 1) {
            1int
        } else {
            0int
        }),
{
    reveal_with_fuel(touches_among, 9);
    lemma_wrap_step(0, -1, width);
    lemma_wrap_step(0, 0, width);
    lemma_wrap_step(0, 1, width);
    lemma_wrap_step(0, -1, height);
    lemma_wrap_step(0, 0, height);
    lemma_wrap_step(0, 1, height);
}

} // verus!
