//! What holds of every sparse grid and every generation.

use crate::sparse::grid::GridView;
use crate::sparse::rules::RuleSet;
use crate::sparse::torus::lemma_live_among_empty;
use vstd::prelude::*;

verus! {

/// One generation of a well-formed grid is a well-formed grid of the same
/// dimensions.
pub proof fn lemma_step_well_formed<T: RuleSet>(grid: GridView, rules: T)
    requires
        grid.wf(),
    ensures
        grid.step(rules).wf(),
        grid.step(rules).width == grid.width,
        grid.step(rules).height == grid.height,
{
}

/// The cells born and the cells that died in a generation have nothing in
/// common, and together they are the cells in which the generation differs
/// from the one before. Every cell born is alive afterwards; no cell that
/// died is.
pub proof fn lemma_diff_is_symmetric_difference<T: RuleSet>(grid: GridView, rules: T)
    ensures
        grid.step(rules).born.disjoint(grid.step(rules).died),
        grid.step(rules).born.union(grid.step(rules).died) == grid.alive.difference(
            grid.step(rules).alive,
        ).union(grid.step(rules).alive.difference(grid.alive)),
        grid.step(rules).born.subset_of(grid.step(rules).alive),
        grid.step(rules).died.disjoint(grid.step(rules).alive),
{
    let next = grid.step(rules);
    assert(next.born.union(next.died) =~= grid.alive.difference(next.alive).union(
        next.alive.difference(grid.alive),
    ));
}

/// A grid without a live cell has none in the next generation either,
/// whatever the rules.
pub proof fn lemma_empty_is_fixed_point<T: RuleSet>(grid: GridView, rules: T)
    requires
        grid.alive == Set::<(int, int)>::empty(),
    ensures
        grid.step(rules).alive == Set::<(int, int)>::empty(),
        grid.step(rules).born == Set::<(int, int)>::empty(),
        grid.step(rules).died == Set::<(int, int)>::empty(),
{
    let next = grid.step(rules);
    assert forall|p: (int, int)| !next.alive.contains(p) by {
        lemma_live_among_empty(grid.width as int, grid.height as int, p, 8);
    }
    assert(next.alive =~= Set::<(int, int)>::empty());
    assert(next.born =~= Set::<(int, int)>::empty());
    assert(next.died =~= Set::<(int, int)>::empty());
}

/// A grid without a live cell stays without one through any number of
/// generations, whatever the rules and the dimensions.
pub proof fn lemma_empty_stays_empty<T: RuleSet>(grid: GridView, rules: T, n: nat)
    requires
        grid.alive == Set::<(int, int)>::empty(),
    ensures
        grid.steps(rules, n).alive == Set::<(int, int)>::empty(),
    decreases n,
{
    if n > 0 {
        lemma_empty_is_fixed_point(grid, rules);
        lemma_empty_stays_empty(grid.step(rules), rules, (n - 1) as nat);
    }
}

/// A live cell with no live neighbour is dead in the next generation,
/// whatever the rules, and is among the cells that died.
pub proof fn lemma_lonely_cell_dies<T: RuleSet>(grid: GridView, rules: T, p: (int, int))
    requires
        grid.alive.contains(p),
        grid.live_neighbors(p) == 0,
    ensures
        !grid.step(rules).alive.contains(p),
        grid.step(rules).died.contains(p),
{
}

} // verus!
