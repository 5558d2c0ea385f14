use std::collections::hash_map::DefaultHasher;
use std::hash::{Hash, Hasher};

use game_of_life::sparse::grid::{Cell, Grid};
use game_of_life::sparse::patterns::{Blinker, Glider, Pattern};
use game_of_life::sparse::rules::{GameOfLife, RuleSet};

fn sorted(cells: Vec<Cell>) -> Vec<(u32, u32)> {
    let mut pairs: Vec<(u32, u32)> = cells.iter().map(|c| (c.x(), c.y())).collect();
    pairs.sort();
    pairs
}

fn grid_with(width: u32, height: u32, cells: &[(u32, u32)]) -> Grid {
    let mut grid = Grid::new(width, height);
    let cells: Vec<Cell> = cells.iter().map(|&(x, y)| Cell::new(x, y)).collect();
    grid.add_cells(&cells);
    grid
}

struct BornOnOne;

impl RuleSet for BornOnOne {
    fn spec_next_state(&self, _cell_is_alive: bool, live_neighbors: u8) -> bool {
        live_neighbors == 1
    }

    fn next_state(&self, _cell_is_alive: bool, live_neighbors: u8) -> bool {
        live_neighbors == 1
    }
}

struct BornOnNothing;

impl RuleSet for BornOnNothing {
    fn spec_next_state(&self, _cell_is_alive: bool, live_neighbors: u8) -> bool {
        live_neighbors == 0
    }

    fn next_state(&self, _cell_is_alive: bool, live_neighbors: u8) -> bool {
        live_neighbors == 0
    }
}

#[test]
fn cell_keeps_its_coordinates() {
    let cell = Cell::new(7, 11);
    assert_eq!(cell.x(), 7);
    assert_eq!(cell.y(), 11);
    assert_eq!(cell, Cell::new(7, 11));
    assert_ne!(cell, Cell::new(11, 7));
    assert!(Cell::new(1, 9) < Cell::new(2, 0));
    let far = Cell::new(u32::MAX, u32::MAX);
    assert_eq!((far.x(), far.y()), (u32::MAX, u32::MAX));
}

#[test]
fn sparse_new_grid_is_empty() {
    let grid = Grid::new(12, 9);
    assert_eq!(grid.width(), 12);
    assert_eq!(grid.height(), 9);
    assert!(grid.all_dead());
    assert!(grid.alive_cells().is_empty());
    assert!(grid.new_alive_cells().is_empty());
    assert!(grid.new_dead_cells().is_empty());
    assert_eq!(grid.is_alive(&Cell::new(0, 0)), Some(false));
}

#[test]
fn sparse_query_outside_is_absent() {
    let grid = grid_with(4, 4, &[(0, 0), (3, 3)]);
    assert_eq!(grid.is_alive(&Cell::new(0, 0)), Some(true));
    assert_eq!(grid.is_alive(&Cell::new(3, 3)), Some(true));
    assert_eq!(grid.is_alive(&Cell::new(1, 2)), Some(false));
    assert_eq!(grid.is_alive(&Cell::new(4, 4)), None);
    assert_eq!(grid.is_alive(&Cell::new(4, 0)), None);
    assert_eq!(grid.is_alive(&Cell::new(0, 4)), None);
    assert_eq!(grid.is_alive(&Cell::new(u32::MAX, u32::MAX)), None);
}

#[test]
fn sparse_neighbors_in_order() {
    let grid = Grid::new(10, 10);
    let around = grid.neighbors(&Cell::new(4, 5));
    let expected = [(3, 4), (3, 5), (3, 6), (4, 4), (4, 6), (5, 4), (5, 5), (5, 6)];
    for i in 0..8 {
        assert_eq!((around[i].x(), around[i].y()), expected[i]);
    }
}

#[test]
fn sparse_neighbors_wrap_at_the_origin() {
    let grid = Grid::new(4, 5);
    let around = grid.neighbors(&Cell::new(0, 0));
    let expected = [(3, 4), (3, 0), (3, 1), (0, 4), (0, 1), (1, 4), (1, 0), (1, 1)];
    for i in 0..8 {
        assert_eq!((around[i].x(), around[i].y()), expected[i]);
    }
}

#[test]
fn sparse_neighbors_wrap_at_the_far_corner() {
    let grid = Grid::new(4, 5);
    let around = grid.neighbors(&Cell::new(3, 4));
    let expected = [(2, 3), (2, 4), (2, 0), (3, 3), (3, 0), (0, 3), (0, 4), (0, 0)];
    for i in 0..8 {
        assert_eq!((around[i].x(), around[i].y()), expected[i]);
    }
}

#[test]
fn sparse_neighbors_on_the_smallest_grid() {
    let grid = Grid::new(1, 1);
    let around = grid.neighbors(&Cell::new(0, 0));
    for i in 0..8 {
        assert_eq!((around[i].x(), around[i].y()), (0, 0));
    }
}

#[test]
fn sparse_neighbors_of_the_largest_coordinate() {
    let grid = Grid::new(u32::MAX, u32::MAX);
    let around = grid.neighbors(&Cell::new(u32::MAX - 1, u32::MAX - 1));
    assert_eq!((around[0].x(), around[0].y()), (u32::MAX - 2, u32::MAX - 2));
    assert_eq!((around[7].x(), around[7].y()), (0, 0));
}

#[test]
fn sparse_origin_counts_the_far_corner() {
    let grid = grid_with(6, 4, &[(5, 3)]);
    let next = grid.next_generation(&BornOnOne);
    assert_eq!(next.is_alive(&Cell::new(0, 0)), Some(true));
    assert_eq!(
        sorted(next.alive_cells()),
        vec![(0, 0), (0, 2), (0, 3), (4, 0), (4, 2), (4, 3), (5, 0), (5, 2)]
    );
}

#[test]
fn sparse_cells_without_live_neighbors_are_not_asked() {
    let grid = grid_with(5, 5, &[(2, 2)]);
    let next = grid.next_generation(&BornOnNothing);
    assert!(next.all_dead());
    assert_eq!(sorted(next.new_dead_cells()), vec![(2, 2)]);
}

#[test]
fn sparse_blinker_oscillates() {
    let grid = grid_with(5, 5, &[(1, 2), (2, 2), (3, 2)]);
    let first = grid.next_generation(&GameOfLife);
    assert_eq!(sorted(first.alive_cells()), vec![(2, 1), (2, 2), (2, 3)]);
    assert_eq!(sorted(first.new_alive_cells()), vec![(2, 1), (2, 3)]);
    assert_eq!(sorted(first.new_dead_cells()), vec![(1, 2), (3, 2)]);
    let second = first.next_generation(&GameOfLife);
    assert_eq!(sorted(second.alive_cells()), vec![(1, 2), (2, 2), (3, 2)]);
    assert_eq!(sorted(second.new_alive_cells()), vec![(1, 2), (3, 2)]);
    assert_eq!(sorted(second.new_dead_cells()), vec![(2, 1), (2, 3)]);
}

#[test]
fn sparse_blinker_across_the_edge() {
    let grid = grid_with(6, 6, &[(5, 0), (0, 0), (1, 0)]);
    let first = grid.next_generation(&GameOfLife);
    assert_eq!(sorted(first.alive_cells()), vec![(0, 0), (0, 1), (0, 5)]);
    let second = first.next_generation(&GameOfLife);
    assert_eq!(sorted(second.alive_cells()), vec![(0, 0), (1, 0), (5, 0)]);
}

#[test]
fn sparse_row_on_three_by_three_torus() {
    let mut grid = Grid::new(3, 3);
    grid.add_pattern(Blinker, 1, 1);
    assert_eq!(sorted(grid.alive_cells()), vec![(0, 1), (1, 1), (2, 1)]);
    let first = grid.next_generation(&GameOfLife);
    assert_eq!(first.alive_cells().len(), 9);
    assert_eq!(first.new_alive_cells().len(), 6);
    assert!(first.new_dead_cells().is_empty());
    let second = first.next_generation(&GameOfLife);
    assert!(second.all_dead());
    assert_eq!(second.new_dead_cells().len(), 9);
}

#[test]
fn sparse_next_generation_leaves_the_grid_alone() {
    let grid = grid_with(5, 5, &[(1, 2), (2, 2), (3, 2)]);
    let _ = grid.next_generation(&GameOfLife);
    assert_eq!(sorted(grid.alive_cells()), vec![(1, 2), (2, 2), (3, 2)]);
    assert!(grid.new_alive_cells().is_empty());
}

#[test]
fn sparse_diff_is_the_symmetric_difference() {
    let mut grid = Grid::new(8, 8);
    grid.add_pattern(Glider, 1, 1);
    for _ in 0..12 {
        let next = grid.next_generation(&GameOfLife);
        let before = sorted(grid.alive_cells());
        let after = sorted(next.alive_cells());
        let born = sorted(next.new_alive_cells());
        let died = sorted(next.new_dead_cells());
        let expect_born: Vec<(u32, u32)> =
            after.iter().filter(|c| !before.contains(c)).cloned().collect();
        let expect_died: Vec<(u32, u32)> =
            before.iter().filter(|c| !after.contains(c)).cloned().collect();
        assert_eq!(born, expect_born);
        assert_eq!(died, expect_died);
        assert!(born.iter().all(|c| !died.contains(c)));
        grid = next;
    }
}

#[test]
fn sparse_glider_travels() {
    let mut grid = Grid::new(10, 10);
    grid.add_pattern(Glider, 0, 0);
    assert_eq!(sorted(grid.alive_cells()), vec![(0, 2), (1, 0), (1, 2), (2, 1), (2, 2)]);
    for _ in 0..4 {
        grid = grid.next_generation(&GameOfLife);
    }
    assert_eq!(sorted(grid.alive_cells()), vec![(1, 3), (2, 1), (2, 3), (3, 2), (3, 3)]);
}

#[test]
fn sparse_block_is_still() {
    let grid = grid_with(6, 6, &[(2, 2), (3, 2), (2, 3), (3, 3)]);
    let next = grid.next_generation(&GameOfLife);
    assert_eq!(sorted(next.alive_cells()), vec![(2, 2), (2, 3), (3, 2), (3, 3)]);
    assert!(next.new_alive_cells().is_empty());
    assert!(next.new_dead_cells().is_empty());
}

#[test]
fn sparse_empty_grid_stays_empty() {
    let mut grid = Grid::new(7, 3);
    for _ in 0..6 {
        grid = grid.next_generation(&GameOfLife);
        assert!(grid.all_dead());
        assert!(grid.new_alive_cells().is_empty());
        assert!(grid.new_dead_cells().is_empty());
    }
    let mut other = Grid::new(1, 1);
    for _ in 0..3 {
        other = other.next_generation(&BornOnNothing);
        assert!(other.all_dead());
    }
}

#[test]
fn sparse_single_cell_dies() {
    let grid = grid_with(5, 5, &[(2, 2)]);
    let next = grid.next_generation(&GameOfLife);
    assert!(next.all_dead());
    assert_eq!(next.is_alive(&Cell::new(2, 2)), Some(false));
    assert_eq!(sorted(next.new_dead_cells()), vec![(2, 2)]);
    assert!(next.new_alive_cells().is_empty());
}

#[test]
fn sparse_cell_on_one_by_one_torus_is_its_own_neighbor() {
    let grid = grid_with(1, 1, &[(0, 0)]);
    let next = grid.next_generation(&GameOfLife);
    assert!(next.all_dead());
    assert_eq!(sorted(next.new_dead_cells()), vec![(0, 0)]);
}

#[test]
fn sparse_two_wide_torus_counts_a_neighbor_by_each_step() {
    let grid = grid_with(2, 5, &[(0, 2)]);
    let next = grid.next_generation(&BornOnOne);
    assert_eq!(sorted(next.alive_cells()), vec![(0, 1), (0, 3)]);
    let rows = grid_with(2, 5, &[(0, 0), (0, 2)]);
    let after = rows.next_generation(&GameOfLife);
    assert!(after.all_dead());
}

#[test]
fn sparse_add_cells_wraps_and_unites() {
    let mut grid = grid_with(4, 3, &[(1, 1)]);
    grid.add_cells(&vec![Cell::new(1, 1), Cell::new(4, 3), Cell::new(9, 8), Cell::new(3, 2)]);
    assert_eq!(sorted(grid.alive_cells()), vec![(0, 0), (1, 1), (1, 2), (3, 2)]);
    grid.add_cells(&Vec::new());
    assert_eq!(grid.alive_cells().len(), 4);
}

#[test]
fn sparse_add_cells_keeps_the_last_diff() {
    let grid = grid_with(5, 5, &[(1, 2), (2, 2), (3, 2)]);
    let mut next = grid.next_generation(&GameOfLife);
    next.add_cells(&vec![Cell::new(0, 0)]);
    assert_eq!(sorted(next.new_alive_cells()), vec![(2, 1), (2, 3)]);
    assert_eq!(sorted(next.new_dead_cells()), vec![(1, 2), (3, 2)]);
    assert_eq!(next.is_alive(&Cell::new(0, 0)), Some(true));
}

#[test]
fn blinker_pattern_cells() {
    let cells = Blinker.at(4, 9);
    let pairs: Vec<(u32, u32)> = cells.iter().map(|c| (c.x(), c.y())).collect();
    assert_eq!(pairs, vec![(4, 9), (5, 9), (6, 9)]);
    let edge = Blinker.at(u32::MAX - 2, u32::MAX);
    assert_eq!((edge[2].x(), edge[2].y()), (u32::MAX, u32::MAX));
}

#[test]
fn glider_pattern_cells() {
    let cells = Glider.at(10, 20);
    let pairs: Vec<(u32, u32)> = cells.iter().map(|c| (c.x(), c.y())).collect();
    assert_eq!(pairs, vec![(10, 22), (11, 22), (12, 22), (11, 20), (12, 21)]);
}

#[test]
fn sparse_randomize_stays_on_the_grid() {
    let mut grid = Grid::new(7, 3);
    grid.randomize(15);
    let cells = grid.alive_cells();
    assert!(cells.len() <= 15);
    assert!(!cells.is_empty());
    for cell in cells.iter() {
        assert!(cell.x() < 7);
        assert!(cell.y() < 3);
    }
    assert_eq!(grid.width(), 7);
    assert_eq!(grid.height(), 3);
}

#[test]
fn sparse_randomize_replaces_the_live_cells() {
    let mut grid = grid_with(1, 1, &[(0, 0)]);
    grid.randomize(0);
    assert!(grid.all_dead());
    grid.randomize(5);
    assert_eq!(sorted(grid.alive_cells()), vec![(0, 0)]);
}

#[test]
fn sparse_standard_rule_table() {
    let rules = GameOfLife;
    for n in 0..=8u8 {
        assert_eq!(rules.next_state(true, n), n == 2 || n == 3);
        assert_eq!(rules.next_state(false, n), n == 3);
        assert_eq!(rules.next_state(true, n), rules.next_state(true, n));
    }
    assert!(!rules.next_state(true, 200));
}

fn expected_hash(width: u32, height: u32, cells: &[(u32, u32)]) -> u64 {
    let mut hasher = DefaultHasher::new();
    width.hash(&mut hasher);
    height.hash(&mut hasher);
    let mut combined: u64 = 0;
    for cell in cells {
        let mut cell_hasher = DefaultHasher::new();
        cell.0.hash(&mut cell_hasher);
        cell.1.hash(&mut cell_hasher);
        combined ^= cell_hasher.finish();
    }
    combined.hash(&mut hasher);
    hasher.finish()
}

#[test]
fn content_hash_follows_the_content() {
    let one = grid_with(9, 7, &[(1, 2), (3, 4), (8, 6)]);
    let other = grid_with(9, 7, &[(8, 6), (1, 2), (3, 4), (1, 2)]);
    assert_eq!(one.content_hash(), other.content_hash());
    assert_eq!(one.content_hash(), one.content_hash());
    assert_eq!(one.content_hash(), expected_hash(9, 7, &[(1, 2), (3, 4), (8, 6)]));
    assert_eq!(Grid::new(9, 7).content_hash(), expected_hash(9, 7, &[]));
}

#[test]
fn content_hash_tells_grids_apart() {
    let one = grid_with(9, 7, &[(1, 2)]);
    assert_ne!(one.content_hash(), grid_with(9, 7, &[(2, 1)]).content_hash());
    assert_ne!(one.content_hash(), grid_with(7, 9, &[(1, 2)]).content_hash());
    assert_ne!(one.content_hash(), Grid::new(9, 7).content_hash());
}

#[test]
fn content_hash_ignores_the_last_diff() {
    let grid = grid_with(5, 5, &[(1, 2), (2, 2), (3, 2)]);
    let twice = grid.next_generation(&GameOfLife).next_generation(&GameOfLife);
    assert!(!twice.new_alive_cells().is_empty());
    assert_eq!(grid.content_hash(), twice.content_hash());
}

#[test]
fn sparse_query_on_the_edge_of_the_grid() {
    let grid = grid_with(4, 3, &[(3, 2)]);
    assert_eq!(grid.is_alive(&Cell::new(3, 2)), Some(true));
    assert_eq!(grid.is_alive(&Cell::new(0, 0)), Some(false));
    assert_eq!(grid.is_alive(&Cell::new(4, 2)), None);
    assert_eq!(grid.is_alive(&Cell::new(3, 3)), None);
}

#[test]
fn sparse_randomize_draws_at_least_one_cell() {
    for count in 1..6u32 {
        let mut grid = Grid::new(50, 40);
        grid.randomize(count);
        let cells = grid.alive_cells();
        assert!(!cells.is_empty());
        assert!(cells.len() <= count as usize);
        assert!(!grid.all_dead());
    }
    let mut one = Grid::new(9, 9);
    one.randomize(1);
    assert_eq!(one.alive_cells().len(), 1);
}

#[test]
fn sparse_clone_is_a_grid_of_its_own() {
    let grid = grid_with(5, 5, &[(1, 2), (2, 2), (3, 2)]);
    let next = grid.next_generation(&GameOfLife);
    let mut copy = next.clone();
    assert_eq!(copy, next);
    assert_eq!(sorted(copy.alive_cells()), sorted(next.alive_cells()));
    assert_eq!(sorted(copy.new_alive_cells()), vec![(2, 1), (2, 3)]);
    assert_eq!(sorted(copy.new_dead_cells()), vec![(1, 2), (3, 2)]);
    assert_eq!((copy.width(), copy.height()), (5, 5));
    copy.add_cells(&vec![Cell::new(0, 0)]);
    assert_eq!(next.is_alive(&Cell::new(0, 0)), Some(false));
    assert_eq!(copy.is_alive(&Cell::new(0, 0)), Some(true));
}
