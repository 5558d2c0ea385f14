use vstd::prelude::*;

verus! {

/// A transition rule: whether a cell lives in the next generation, given
/// whether it lives now and how many live cells surround it.
pub trait RuleSet {
    /// The rule as a mathematical function, total over every state and count.
    spec fn spec_next_state(&self, cell_is_alive: bool, live_neighbors: u8) -> bool;

    /// Computes the rule. The result is a function of the arguments alone.
    fn next_state(&self, cell_is_alive: bool, live_neighbors: u8) -> (next: bool)
        ensures
            next == self.spec_next_state(cell_is_alive, live_neighbors),
    ;
}

/// Conway's rules: survival on two or three neighbours, birth on three.
pub struct GameOfLife;

impl RuleSet for GameOfLife {
    open spec fn spec_next_state(&self, cell_is_alive: bool, live_neighbors: u8) -> bool {
        live_neighbors == 3 || (cell_is_alive && live_neighbors == 2)
    }

    fn next_state(&self, cell_is_alive: bool, live_neighbors: u8) -> (next: bool) {
        if cell_is_alive {
            live_neighbors == 2 || live_neighbors == 3
        } else {
            live_neighbors == 3
        }
    }
}

/// Under Conway's rules a cell with exactly three live neighbours lives in
/// the next generation whatever it was; a live cell with fewer than two or
/// more than three live neighbours does not.
pub proof fn lemma_standard_rules(cell_is_alive: bool, live_neighbors: u8)
    ensures
        live_neighbors == 3 ==> GameOfLife.spec_next_state(cell_is_alive, live_neighbors),
        cell_is_alive && live_neighbors <= 1 ==> !GameOfLife.spec_next_state(
            cell_is_alive,
            live_neighbors,
        ),
        cell_is_alive && live_neighbors > 3 ==> !GameOfLife.spec_next_state(
            cell_is_alive,
            live_neighbors,
        ),
{
}

} // verus!
