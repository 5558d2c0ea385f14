use game_of_life::dense::cell::Cell;
use game_of_life::dense::grid::Grid;
use game_of_life::dense::rules::{GameOfLife, HighLife, RuleSet};

fn alive_positions(grid: &Grid) -> Vec<(u32, u32)> {
    let mut found = Vec::new();
    for y in 0..grid.height() {
        for x in 0..grid.width() {
            if *grid.get_cell(x, y).unwrap() == Cell::Alive {
                found.push((x, y));
            }
        }
    }
    found
}

#[test]
fn test_new_grid() {
    let grid_width = 10;
    let grid_height = 10;

    let grid = Grid::new(grid_width, grid_height);
    for y in 0..grid_height {
        for x in 0..grid_width {
            assert_eq!(*grid.get_cell(x, y).unwrap(), Cell::Dead);
        }
    }
}

#[test]
fn test_set_cell_changes_state() {
    let mut grid = Grid::new(3, 3);

    let x = 1;
    let y = 2;

    grid.set_cell(x, y, Cell::Alive);
    assert_eq!(*grid.get_cell(x, y).unwrap(), Cell::Alive);

    grid.set_cell(x, y, Cell::Dead);
    assert_eq!(*grid.get_cell(x, y).unwrap(), Cell::Dead);
}

#[test]
fn test_oob_get_cell_returns_none() {
    let grid = Grid::new(5, 5);

    assert!(grid.get_cell(5, 5).is_none());
    assert!(grid.get_cell(10, 0).is_none());
}

#[test]
fn dense_dimensions_are_kept() {
    let grid = Grid::new(7, 4);
    assert_eq!(grid.width(), 7);
    assert_eq!(grid.height(), 4);
}

#[test]
fn dense_get_cell_is_absent_on_each_edge() {
    let grid = Grid::new(4, 3);
    assert!(grid.get_cell(3, 2).is_some());
    assert!(grid.get_cell(4, 0).is_none());
    assert!(grid.get_cell(0, 3).is_none());
    assert!(grid.get_cell(u32::MAX, 0).is_none());
    assert!(grid.get_cell(0, u32::MAX).is_none());
}

#[test]
fn dense_set_cell_outside_changes_nothing() {
    let mut grid = Grid::new(3, 2);
    grid.set_cell(3, 0, Cell::Alive);
    grid.set_cell(0, 2, Cell::Alive);
    grid.set_cell(u32::MAX, u32::MAX, Cell::Alive);
    assert!(grid.all_dead());
    assert_eq!(grid, Grid::new(3, 2));
}

#[test]
fn dense_set_cell_writes_one_cell_only() {
    let mut grid = Grid::new(4, 3);
    grid.set_cell(2, 1, Cell::Alive);
    assert_eq!(alive_positions(&grid), vec![(2, 1)]);
}

#[test]
fn dense_all_dead_sees_a_single_live_cell() {
    let mut grid = Grid::new(6, 6);
    assert!(grid.all_dead());
    grid.set_cell(5, 5, Cell::Alive);
    assert!(!grid.all_dead());
    grid.set_cell(5, 5, Cell::Dead);
    assert!(grid.all_dead());
}

#[test]
fn dense_neighbor_count_in_the_middle() {
    let mut grid = Grid::new(3, 3);
    for y in 0..3 {
        for x in 0..3 {
            grid.set_cell(x, y, Cell::Alive);
        }
    }
    assert_eq!(grid.count_live_neighbors(1, 1), 8);
}

#[test]
fn dense_neighbor_count_is_clamped_at_corner_and_edge() {
    let mut grid = Grid::new(3, 3);
    for y in 0..3 {
        for x in 0..3 {
            grid.set_cell(x, y, Cell::Alive);
        }
    }
    assert_eq!(grid.count_live_neighbors(0, 0), 3);
    assert_eq!(grid.count_live_neighbors(2, 2), 3);
    assert_eq!(grid.count_live_neighbors(1, 0), 5);
    assert_eq!(grid.count_live_neighbors(0, 1), 5);
}

#[test]
fn dense_neighbor_count_does_not_wrap() {
    let mut grid = Grid::new(4, 4);
    grid.set_cell(3, 3, Cell::Alive);
    assert_eq!(grid.count_live_neighbors(0, 0), 0);
    assert_eq!(grid.count_live_neighbors(2, 2), 1);
    assert_eq!(grid.count_live_neighbors(3, 3), 0);
}

#[test]
fn dense_neighbor_count_outside_the_grid() {
    let mut grid = Grid::new(2, 2);
    grid.set_cell(1, 1, Cell::Alive);
    assert_eq!(grid.count_live_neighbors(2, 2), 1);
    assert_eq!(grid.count_live_neighbors(3, 3), 0);
    assert_eq!(grid.count_live_neighbors(u32::MAX, u32::MAX), 0);
}

#[test]
fn dense_blinker_oscillates() {
    let mut grid = Grid::new(5, 5);
    grid.set_cell(1, 2, Cell::Alive);
    grid.set_cell(2, 2, Cell::Alive);
    grid.set_cell(3, 2, Cell::Alive);
    let first = grid.next_generation(&GameOfLife);
    assert_eq!(alive_positions(&first), vec![(2, 1), (2, 2), (2, 3)]);
    let second = first.next_generation(&GameOfLife);
    assert_eq!(alive_positions(&second), vec![(1, 2), (2, 2), (3, 2)]);
    assert_eq!(second, grid);
}

#[test]
fn dense_next_generation_leaves_the_grid_alone() {
    let mut grid = Grid::new(5, 5);
    grid.set_cell(1, 2, Cell::Alive);
    grid.set_cell(2, 2, Cell::Alive);
    grid.set_cell(3, 2, Cell::Alive);
    let _ = grid.next_generation(&GameOfLife);
    assert_eq!(alive_positions(&grid), vec![(1, 2), (2, 2), (3, 2)]);
}

#[test]
fn dense_next_generation_gol_is_the_standard_rule() {
    let mut grid = Grid::new(6, 5);
    grid.set_cell(1, 1, Cell::Alive);
    grid.set_cell(2, 1, Cell::Alive);
    grid.set_cell(1, 2, Cell::Alive);
    grid.set_cell(4, 3, Cell::Alive);
    let by_rule = grid.next_generation(&GameOfLife);
    let inline = grid.next_generation_gol();
    assert_eq!(by_rule, inline);
    assert_eq!(alive_positions(&inline), vec![(1, 1), (2, 1), (1, 2), (2, 2)]);
}

#[test]
fn dense_block_is_still() {
    let mut grid = Grid::new(4, 4);
    grid.set_cell(1, 1, Cell::Alive);
    grid.set_cell(2, 1, Cell::Alive);
    grid.set_cell(1, 2, Cell::Alive);
    grid.set_cell(2, 2, Cell::Alive);
    assert_eq!(grid.next_generation(&GameOfLife), grid);
}

#[test]
fn dense_empty_grid_stays_empty() {
    let mut grid = Grid::new(9, 4);
    for _ in 0..5 {
        grid = grid.next_generation(&GameOfLife);
        assert!(grid.all_dead());
    }
    let mut high = Grid::new(1, 1);
    for _ in 0..5 {
        high = high.next_generation(&HighLife);
        assert!(high.all_dead());
    }
}

#[test]
fn dense_single_cell_dies() {
    let mut grid = Grid::new(5, 5);
    grid.set_cell(2, 2, Cell::Alive);
    let next = grid.next_generation(&GameOfLife);
    assert!(next.all_dead());
}

#[test]
fn dense_one_by_one_grid() {
    let mut grid = Grid::new(1, 1);
    grid.set_cell(0, 0, Cell::Alive);
    assert_eq!(grid.count_live_neighbors(0, 0), 0);
    assert!(grid.next_generation(&GameOfLife).all_dead());
}

#[test]
fn dense_high_life_births_on_six() {
    let mut grid = Grid::new(3, 3);
    for (x, y) in [(0, 0), (1, 0), (2, 0), (0, 1), (2, 1), (1, 2)] {
        grid.set_cell(x, y, Cell::Alive);
    }
    assert_eq!(grid.count_live_neighbors(1, 1), 6);
    let high = grid.next_generation(&HighLife);
    assert_eq!(*high.get_cell(1, 1).unwrap(), Cell::Alive);
    let standard = grid.next_generation(&GameOfLife);
    assert_eq!(*standard.get_cell(1, 1).unwrap(), Cell::Dead);
}

#[test]
fn dense_randomize_keeps_the_shape() {
    let mut grid = Grid::new(8, 5);
    grid.randomize();
    assert_eq!(grid.width(), 8);
    assert_eq!(grid.height(), 5);
    for y in 0..5 {
        for x in 0..8 {
            assert!(grid.get_cell(x, y).is_some());
        }
    }
    assert!(grid.get_cell(8, 0).is_none());
}

#[test]
fn dense_standard_rule_table() {
    let rules = GameOfLife;
    for n in 0..=8u8 {
        let alive = rules.next_state(Cell::Alive, n);
        let dead = rules.next_state(Cell::Dead, n);
        assert_eq!(alive, if n == 2 || n == 3 { Cell::Alive } else { Cell::Dead });
        assert_eq!(dead, if n == 3 { Cell::Alive } else { Cell::Dead });
        assert_eq!(rules.next_state(Cell::Alive, n), alive);
        assert_eq!(rules.next_state(Cell::Dead, n), dead);
    }
    assert_eq!(rules.next_state(Cell::Alive, 9), Cell::Dead);
    assert_eq!(rules.next_state(Cell::Dead, 255), Cell::Dead);
}

#[test]
fn dense_high_life_rule_table() {
    let rules = HighLife;
    for n in 0..=8u8 {
        let alive = rules.next_state(Cell::Alive, n);
        let dead = rules.next_state(Cell::Dead, n);
        assert_eq!(alive, if n == 2 || n == 3 { Cell::Alive } else { Cell::Dead });
        assert_eq!(dead, if n == 3 || n == 6 { Cell::Alive } else { Cell::Dead });
        assert_eq!(rules.next_state(Cell::Dead, n), dead);
    }
}

#[test]
fn dense_cell_is_alive() {
    assert!(Cell::Alive.is_alive());
    assert!(!Cell::Dead.is_alive());
}

#[test]
fn dense_blinker_on_three_by_three() {
    let mut grid = Grid::new(3, 3);
    grid.set_cell(0, 1, Cell::Alive);
    grid.set_cell(1, 1, Cell::Alive);
    grid.set_cell(2, 1, Cell::Alive);
    let first = grid.next_generation(&GameOfLife);
    assert_eq!(alive_positions(&first), vec![(1, 0), (1, 1), (1, 2)]);
    let second = first.next_generation(&GameOfLife);
    assert_eq!(second, grid);
}
