use crate::code::{cells_of, code_of, lemma_cells_of_empty, lemma_cells_of_insert, lemma_code_round_trip};
use crate::dense::cell::Cell;
use crate::dense::rules::{GameOfLife, RuleSet};
use crate::random::random_coin;
use crate::snapshot::{Snapshot, SnapshotView};
use std::collections::HashSet;
use vstd::arithmetic::div_mod::lemma_fundamental_div_mod_converse;
use vstd::prelude::*;

verus! {

broadcast use vstd::std_specs::hash::group_hash_axioms;

/// The mathematical content of a dense grid: its dimensions and its cells in
/// row-major order.
pub struct GridView {
    pub width: nat,
    pub height: nat,
    pub cells: Seq<Cell>,
}

impl GridView {
    /// Both dimensions are positive and there is one cell per coordinate.
    pub open spec fn wf(self) -> bool {
        &&& self.width > 0
        &&& self.height > 0
        &&& self.width * self.height <= u32::MAX
        &&& self.cells.len() == self.width * self.height
    }

    pub open spec fn in_bounds(self, x: int, y: int) -> bool {
        0 <= x < self.width && 0 <= y < self.height
    }

    /// Where the cell at `(x, y)` stands in `cells`.
    pub open spec fn index_of(self, x: int, y: int) -> int {
        y * self.width + x
    }

    /// The state at `(x, y)`, absent outside the grid.
    pub open spec fn cell_at(self, x: int, y: int) -> Option<Cell> {
        if self.in_bounds(x, y) {
            Some(self.cells[self.index_of(x, y)])
        } else {
            None
        }
    }

    /// Whether `(x, y)` lies in the grid and holds a live cell.
    pub open spec fn alive(self, x: int, y: int) -> bool {
        self.cell_at(x, y) == Some(Cell::Alive)
    }

    /// One if `(x, y)` holds a live cell, zero otherwise.
    pub open spec fn population(self, x: int, y: int) -> nat {
        if self.alive(x, y) {
            1
        } else {
            0
        }
    }

    /// The number of live cells among the eight positions around `(x, y)`.
    /// Positions outside the grid hold no cell and count for nothing.
    pub open spec fn live_neighbors(self, x: int, y: int) -> nat {
        self.population(x - 1, y - 1) + self.population(x, y - 1) + self.population(x + 1, y - 1)
            + self.population(x - 1, y) + self.population(x + 1, y) + self.population(
            x - 1,
            y + 1,
        ) + self.population(x, y + 1) + self.population(x + 1, y + 1)
    }

    /// The coordinates that hold a live cell.
    pub open spec fn alive_set(self) -> Set<(int, int)> {
        Set::new(|p: (int, int)| self.alive(p.0, p.1))
    }

    /// No cell of the grid is alive.
    pub open spec fn all_dead(self) -> bool {
        forall|i: int| 0 <= i < self.cells.len() ==> self.cells[i] != Cell::Alive
    }

    /// The state that `rules` give to the cell stored at index `i`.
    pub open spec fn next_cell<T: RuleSet>(self, rules: T, i: int) -> Cell {
        rules.spec_next_state(
            self.cells[i],
            self.live_neighbors(i % (self.width as int), i / (self.width as int)) as u8,
        )
    }

    /// The next generation: every cell changes at once under `rules`.
    pub open spec fn step<T: RuleSet>(self, rules: T) -> GridView {
        GridView {
            width: self.width,
            height: self.height,
            cells: Seq::new(self.cells.len(), |i: int| self.next_cell(rules, i)),
        }
    }

    /// The grid after `n` generations under `rules`.
    pub open spec fn steps<T: RuleSet>(self, rules: T, n: nat) -> GridView
        decreases n,
    {
        if n == 0 {
            self
        } else {
            self.step(rules).steps(rules, (n - 1) as nat)
        }
    }
}

/// In a grid of `w` columns and `h` rows the cell `(x, y)` has an index of its
/// own below `w * h`, from which the coordinates can be read back.
pub proof fn lemma_index(w: int, h: int, x: int, y: int)
    requires
        0 <= x < w,
        0 <= y < h,
    ensures
        0 <= y * w + x < w * h,
        (y * w + x) % w == x,
        (y * w + x) / w == y,
{
    assert(0 <= y * w + x < w * h) by (nonlinear_arith)
        requires
            0 <= x < w,
            0 <= y < h,
    ;
    lemma_fundamental_div_mod_converse(y * w + x, w, y, x);
}

/// Every index below `w * h` is the index of a coordinate inside the grid.
pub proof fn lemma_coordinates(w: int, h: int, i: int)
    requires
        0 < w,
        0 <= i < w * h,
    ensures
        0 <= i % w < w,
        0 <= i / w < h,
        (i / w) * w + i % w == i,
{
    vstd::arithmetic::div_mod::lemma_fundamental_div_mod(i, w);
    vstd::arithmetic::div_mod::lemma_mod_bound(i, w);
    let q = i / w;
    let r = i % w;
    assert(w * q == q * w) by (nonlinear_arith);
    assert(0 <= q < h) by (nonlinear_arith)
        requires
            0 < w,
            0 <= r < w,
            0 <= q * w + r < w * h,
    ;
}

/// A dense grid: `width * height` cells, each alive or dead. Positions beyond
/// the edges hold no cell.
#[derive(Clone, Debug, PartialEq, Eq, Hash)]
pub struct Grid {
    width: u32,
    height: u32,
    cells: Vec<Cell>,
}

impl View for Grid {
    type V = GridView;

    closed spec fn view(&self) -> GridView {
        GridView { width: self.width as nat, height: self.height as nat, cells: self.cells@ }
    }
}

impl Grid {
    /// The invariant of the type: see [`GridView::wf`].
    pub open spec fn wf(&self) -> bool {
        self@.wf()
    }

    /// A grid of the given dimensions with every cell dead.
    pub fn new(width: u32, height: u32) -> (grid: Grid)
        requires
            width > 0,
            height > 0,
            width * height <= u32::MAX,
        ensures
            grid.wf(),
            grid@.width == width,
            grid@.height == height,
            grid@.all_dead(),
            forall|i: int| 0 <= i < grid@.cells.len() ==> grid@.cells[i] == Cell::Dead,
    {
        let total: usize = (width as u64 * height as u64) as usize;
        let mut cells: Vec<Cell> = Vec::new();
        let mut i: usize = 0;
        while i < total
            invariant
                i <= total,
                cells@.len() == i,
                forall|j: int| 0 <= j < i ==> cells@[j] == Cell::Dead,
            decreases total - i,
        {
            cells.push(Cell::Dead);
            i = i + 1;
        }
        Grid { width, height, cells }
    }

    /// The number of columns.
    pub fn width(&self) -> (w: u32)
        ensures
            w == self@.width,
    {
        self.width
    }

    /// The number of rows.
    pub fn height(&self) -> (h: u32)
        ensures
            h == self@.height,
    {
        self.height
    }

    /// Sets every cell to alive or dead as a fair coin falls. Whatever the
    /// coins show, the dimensions stay and the grid stays well formed.
    pub fn randomize(&mut self)
        requires
            old(self).wf(),
        ensures
            final(self).wf(),
            final(self)@.width == old(self)@.width,
            final(self)@.height == old(self)@.height,
    {
        let mut x: u32 = 0;
        while x < self.width
            invariant
                self.wf(),
                self@.width == old(self)@.width,
                self@.height == old(self)@.height,
            decreases self.width - x,
        {
            let mut y: u32 = 0;
            while y < self.height
                invariant
                    self.wf(),
                    self@.width == old(self)@.width,
                    self@.height == old(self)@.height,
                decreases self.height - y,
            {
                if random_coin() {
                    self.set_cell(x, y, Cell::Alive);
                } else {
                    self.set_cell(x, y, Cell::Dead);
                }
                y = y + 1;
            }
            x = x + 1;
        }
    }

    /// Whether no cell is alive.
    pub fn all_dead(&self) -> (dead: bool)
        requires
            self.wf(),
        ensures
            dead == self@.all_dead(),
    {
        let mut i: usize = 0;
        while i < self.cells.len()
            invariant
                i <= self.cells@.len(),
                forall|j: int| 0 <= j < i ==> self.cells@[j] != Cell::Alive,
            decreases self.cells@.len() - i,
        {
            if self.cells[i].is_alive() {
                return false;
            }
            i = i + 1;
        }
        true
    }

    /// The cell at `(x, y)`, or `None` where the coordinate lies outside the
    /// grid.
    pub fn get_cell(&self, x: u32, y: u32) -> (cell: Option<&Cell>)
        requires
            self.wf(),
        ensures
            match cell {
                Some(c) => Some(*c) == self@.cell_at(x as int, y as int),
                None => self@.cell_at(x as int, y as int) is None,
            },
            cell is Some <==> x < self@.width && y < self@.height,
    {
        if x < self.width && y < self.height {
            proof {
                lemma_index(self.width as int, self.height as int, x as int, y as int);
            }
            let index: usize = y as usize * self.width as usize + x as usize;
            Some(&self.cells[index])
        } else {
            None
        }
    }

    /// Writes `state` at `(x, y)`. A coordinate outside the grid changes
    /// nothing.
    pub fn set_cell(&mut self, x: u32, y: u32, state: Cell)
        requires
            old(self).wf(),
        ensures
            final(self).wf(),
            final(self)@.width == old(self)@.width,
            final(self)@.height == old(self)@.height,
            old(self)@.in_bounds(x as int, y as int) ==> final(self)@.cells == old(self)@.cells.update(
                old(self)@.index_of(x as int, y as int),
                state,
            ),
            !old(self)@.in_bounds(x as int, y as int) ==> final(self)@ == old(self)@,
    {
        if x < self.width && y < self.height {
            proof {
                lemma_index(self.width as int, self.height as int, x as int, y as int);
            }
            let index: usize = y as usize * self.width as usize + x as usize;
            self.cells.set(index, state);
        }
    }

    /// Whether `(x, y)` lies in the grid and holds a live cell.
    fn alive_at(&self, x: i64, y: i64) -> (alive: bool)
        requires
            self.wf(),
        ensures
            alive == self@.alive(x as int, y as int),
    {
        if 0 <= x && x < self.width as i64 && 0 <= y && y < self.height as i64 {
            proof {
                lemma_index(self.width as int, self.height as int, x as int, y as int);
            }
            let index: usize = y as usize * self.width as usize + x as usize;
            self.cells[index].is_alive()
        } else {
            false
        }
    }

    /// One if `(x, y)` holds a live cell, zero otherwise.
    fn population_at(&self, x: i64, y: i64) -> (n: u8)
        requires
            self.wf(),
        ensures
            n == self@.population(x as int, y as int),
    {
        if self.alive_at(x, y) {
            1
        } else {
            0
        }
    }

    /// Counts the live cells among the eight positions around `(x, y)`,
    /// leaving out those beyond the edges and the cell itself.
    pub fn count_live_neighbors(&self, x: u32, y: u32) -> (count: u8)
        requires
            self.wf(),
        ensures
            count == self@.live_neighbors(x as int, y as int),
            count <= 8,
    {
        let cx: i64 = x as i64;
        let cy: i64 = y as i64;
        let mut count: u8 = 0;
        count = count + self.population_at(cx - 1, cy - 1);
        count = count + self.population_at(cx, cy - 1);
        count = count + self.population_at(cx + 1, cy - 1);
        count = count + self.population_at(cx - 1, cy);
        count = count + self.population_at(cx + 1, cy);
        count = count + self.population_at(cx - 1, cy + 1);
        count = count + self.population_at(cx, cy + 1);
        count = count + self.population_at(cx + 1, cy + 1);
        count
    }

    /// The content of the grid, to be compared with that of other
    /// generations: the dimensions and the coordinates of the live cells.
    pub fn snapshot(&self) -> (snapshot: Snapshot)
        requires
            self.wf(),
        ensures
            snapshot@ == (SnapshotView {
                width: self@.width,
                height: self@.height,
                alive: self@.alive_set(),
            }),
    {
        let mut codes: HashSet<u64> = HashSet::new();
        proof {
            lemma_cells_of_empty();
        }
        let mut y: u32 = 0;
        while y < self.height
            invariant
                self.wf(),
                y <= self.height,
                forall|p: (int, int)| #[trigger]
                    cells_of(codes@).contains(p) <==> self@.alive(p.0, p.1) && p.1 < y,
            decreases self.height - y,
        {
            let mut x: u32 = 0;
            while x < self.width
                invariant
                    self.wf(),
                    y < self.height,
                    x <= self.width,
                    forall|p: (int, int)| #[trigger]
                        cells_of(codes@).contains(p) <==> self@.alive(p.0, p.1) && (p.1 < y || (
                        p.1 == y && p.0 < x)),
                decreases self.width - x,
            {
                if self.alive_at(x as i64, y as i64) {
                    let k = code_of(x, y);
                    proof {
                        lemma_cells_of_insert(codes@, k);
                        lemma_code_round_trip((x as int, y as int), k);
                    }
                    codes.insert(k);
                }
                x = x + 1;
            }
            y = y + 1;
        }
        let snapshot = Snapshot::from_set(self.width, self.height, &codes);
        assert(cells_of(codes@) =~= self@.alive_set());
        snapshot
    }

    /// The next generation under Conway's rules.
    pub fn next_generation_gol(&self) -> (next: Grid)
        requires
            self.wf(),
        ensures
            next.wf(),
            next@ == self@.step(GameOfLife),
    {
        self.next_generation(&GameOfLife)
    }

    /// The next generation under `rules`: a new grid of the same dimensions
    /// in which every cell has the state that `rules` give it from its state
    /// and its count of live neighbours in this grid.
    pub fn next_generation<T: RuleSet>(&self, rules: &T) -> (next: Grid)
        requires
            self.wf(),
        ensures
            next.wf(),
            next@ == self@.step(*rules),
    {
        let ghost target = self@.step(*rules);
        let mut cells: Vec<Cell> = Vec::new();
        let mut y: u32 = 0;
        while y < self.height
            invariant
                self.wf(),
                y <= self.height,
                target == self@.step(*rules),
                cells@.len() == y * self.width,
                forall|j: int| 0 <= j < cells@.len() ==> cells@[j] == target.cells[j],
            decreases self.height - y,
        {
            let mut x: u32 = 0;
            while x < self.width
                invariant
                    self.wf(),
                    y < self.height,
                    x <= self.width,
                    target == self@.step(*rules),
                    cells@.len() == y * self.width + x,
                    forall|j: int| 0 <= j < cells@.len() ==> cells@[j] == target.cells[j],
                decreases self.width - x,
            {
                proof {
                    lemma_index(self.width as int, self.height as int, x as int, y as int);
                }
                let index: usize = y as usize * self.width as usize + x as usize;
                let count = self.count_live_neighbors(x, y);
                let state = rules.next_state(self.cells[index], count);
                cells.push(state);
                x = x + 1;
            }
            assert(y * self.width + self.width == (y + 1) * self.width) by (nonlinear_arith);
            y = y + 1;
        }
        assert(self.height * self.width == self.width * self.height) by (nonlinear_arith);
        let next = Grid { width: self.width, height: self.height, cells };
        assert(next@.cells =~= target.cells);
        next
    }
}

} // verus!
