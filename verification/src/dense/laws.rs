//! What holds of every dense grid and every generation.

use crate::dense::cell::Cell;
use crate::dense::grid::{lemma_coordinates, lemma_index, GridView};
use crate::dense::rules::RuleSet;
use vstd::prelude::*;

verus! {

/// A coordinate outside the grid holds no cell: asking for it yields
/// nothing, never a state.
pub proof fn lemma_outside_is_absent(grid: GridView, x: int, y: int)
    requires
        !grid.in_bounds(x, y),
    ensures
        grid.cell_at(x, y) is None,
        !grid.alive(x, y),
        grid.population(x, y) == 0,
{
}

/// No cell is alive exactly when no coordinate holds a live cell.
pub proof fn lemma_all_dead_by_coordinates(grid: GridView)
    requires
        grid.wf(),
    ensures
        grid.all_dead() <==> forall|x: int, y: int| !grid.alive(x, y),
{
    let w = grid.width as int;
    let h = grid.height as int;
    if grid.all_dead() {
        assert forall|x: int, y: int| !grid.alive(x, y) by {
            if grid.in_bounds(x, y) {
                lemma_index(w, h, x, y);
            }
        }
    }
    if forall|x: int, y: int| !grid.alive(x, y) {
        assert forall|i: int| 0 <= i < grid.cells.len() implies grid.cells[i] != Cell::Alive by {
            lemma_coordinates(w, h, i);
            assert(!grid.alive(i % w, i / w));
        }
    }
}

/// One generation keeps the dimensions and the number of cells.
pub proof fn lemma_step_keeps_shape<T: RuleSet>(grid: GridView, rules: T)
    requires
        grid.wf(),
    ensures
        grid.step(rules).wf(),
        grid.step(rules).width == grid.width,
        grid.step(rules).height == grid.height,
{
}

/// A grid without a live cell is a fixed point of every rule that leaves a
/// dead cell with no live neighbour dead.
pub proof fn lemma_empty_is_fixed_point<T: RuleSet>(grid: GridView, rules: T)
    requires
        grid.wf(),
        grid.all_dead(),
        rules.spec_next_state(Cell::Dead, 0) == Cell::Dead,
    ensures
        grid.step(rules) == grid,
        grid.step(rules).all_dead(),
{
    let w = grid.width as int;
    let h = grid.height as int;
    lemma_all_dead_by_coordinates(grid);
    assert forall|i: int| 0 <= i < grid.cells.len() implies grid.next_cell(rules, i)
        == grid.cells[i] by {
        assert(grid.live_neighbors(i % w, i / w) == 0);
    }
    assert(grid.step(rules).cells =~= grid.cells);
}

/// A grid without a live cell stays without one through any number of
/// generations, under every rule that leaves a dead cell with no live
/// neighbour dead.
pub proof fn lemma_empty_stays_empty<T: RuleSet>(grid: GridView, rules: T, n: nat)
    requires
        grid.wf(),
        grid.all_dead(),
        rules.spec_next_state(Cell::Dead, 0) == Cell::Dead,
    ensures
        grid.steps(rules, n) == grid,
        grid.steps(rules, n).all_dead(),
    decreases n,
{
    if n > 0 {
        lemma_empty_is_fixed_point(grid, rules);
        lemma_empty_stays_empty(grid, rules, (n - 1) as nat);
    }
}

} // verus!
