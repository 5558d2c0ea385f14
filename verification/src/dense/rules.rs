use crate::dense::cell::Cell;
use vstd::prelude::*;

verus! {

/// A transition rule: the next state of a cell given its current state and
/// the number of live cells around it.
pub trait RuleSet {
    /// The rule as a mathematical function, total over every state and count.
    spec fn spec_next_state(&self, cell: Cell, live_neighbors: u8) -> Cell;

    /// Computes the rule. The result is a function of the arguments alone.
    fn next_state(&self, cell: Cell, live_neighbors: u8) -> (next: Cell)
        ensures
            next == self.spec_next_state(cell, live_neighbors),
    ;
}

/// Conway's rules: survival on two or three neighbours, birth on three.
pub struct GameOfLife;

impl RuleSet for GameOfLife {
    open spec fn spec_next_state(&self, cell: Cell, live_neighbors: u8) -> Cell {
        if live_neighbors == 3 || (cell == Cell::Alive && live_neighbors == 2) {
            Cell::Alive
        } else {
            Cell::Dead
        }
    }

    fn next_state(&self, cell: Cell, live_neighbors: u8) -> (next: Cell) {
        match cell {
            Cell::Alive => if live_neighbors == 2 || live_neighbors == 3 {
                Cell::Alive
            } else {
                Cell::Dead
            },
            Cell::Dead => if live_neighbors == 3 {
                Cell::Alive
            } else {
                Cell::Dead
            },
        }
    }
}

/// Conway's rules with one more birth count: a dead cell is also born on six.
pub struct HighLife;

impl RuleSet for HighLife {
    open spec fn spec_next_state(&self, cell: Cell, live_neighbors: u8) -> Cell {
        if live_neighbors == 3 || (cell == Cell::Alive && live_neighbors == 2) || (cell
            == Cell::Dead && live_neighbors == 6) {
            Cell::Alive
        } else {
            Cell::Dead
        }
    }

    fn next_state(&self, cell: Cell, live_neighbors: u8) -> (next: Cell) {
        match cell {
            Cell::Alive => if live_neighbors == 2 || live_neighbors == 3 {
                Cell::Alive
            } else {
                Cell::Dead
            },
            Cell::Dead => if live_neighbors == 3 || live_neighbors == 6 {
                Cell::Alive
            } else {
                Cell::Dead
            },
        }
    }
}

/// Under Conway's rules a cell with exactly three live neighbours is alive in
/// the next generation whatever it was; a live cell with fewer than two or
/// more than three live neighbours is dead in the next generation.
pub proof fn lemma_standard_rules(cell: Cell, live_neighbors: u8)
    ensures
        live_neighbors == 3 ==> GameOfLife.spec_next_state(cell, live_neighbors) == Cell::Alive,
        cell == Cell::Alive && live_neighbors <= 1 ==> GameOfLife.spec_next_state(
            cell,
            live_neighbors,
        ) == Cell::Dead,
        cell == Cell::Alive && live_neighbors > 3 ==> GameOfLife.spec_next_state(
            cell,
            live_neighbors,
        ) == Cell::Dead,
{
}

/// The extended rules agree with Conway's everywhere but on a dead cell with
/// six live neighbours, which they bring to life.
pub proof fn lemma_high_life_extends_standard(cell: Cell, live_neighbors: u8)
    ensures
        HighLife.spec_next_state(cell, live_neighbors) == (if cell == Cell::Dead && live_neighbors
            == 6 {
            Cell::Alive
        } else {
            GameOfLife.spec_next_state(cell, live_neighbors)
        }),
{
}

} // verus!
