//! The two cell states and the transition rule.

use vstd::prelude::*;

verus! {

/// State of one grid cell.
#[derive(Clone, Copy, Debug, PartialEq, Eq, Structural)]
pub enum Cell {
    Dead,
    Alive,
}

/// The state a cell takes in the next generation, given how many of its
/// eight neighbours are alive now: a live cell survives on two or three,
/// a dead cell is born on exactly three.
pub open spec fn next_state(cell: Cell, live_neighbours: int) -> Cell {
    match cell {
        Cell::Alive => if live_neighbours == 2 || live_neighbours == 3 {
            Cell::Alive
        } else {
            Cell::Dead
        },
        Cell::Dead => if live_neighbours == 3 {
            Cell::Alive
        } else {
            Cell::Dead
        },
    }
}

impl Cell {
    /// Applies the transition rule to one cell.
    pub fn next(self, live_neighbours: u8) -> (next: Cell)
        ensures
            next == next_state(self, live_neighbours as int),
    {
        match (self, live_neighbours) {
            (Cell::Alive, 2) | (Cell::Alive, 3) => Cell::Alive,
            (Cell::Alive, _) => Cell::Dead,
            (Cell::Dead, 3) => Cell::Alive,
            (_, _) => self,
        }
    }
}

} // verus!
