use crate::code::{
    cells_of, code_of, decode, encode, is_coordinate, lemma_cells_of_empty, lemma_cells_of_insert,
    lemma_cells_of_len, lemma_code_round_trip, lemma_take_to_set, x_of, y_of,
};
use crate::random::random_below;
use crate::sparse::patterns::Pattern;
use crate::snapshot::{Snapshot, SnapshotView};
use crate::sparse::rules::RuleSet;
use crate::sparse::torus::{
    lemma_counts_bounded, lemma_live_among_insert, lemma_live_among_empty, lemma_neighbor_on_torus,
    lemma_steps_symmetric, lemma_wrap_near, live_among, live_neighbors, neighbor, offset, on_torus,
    steps_between, wrap,
};
use std::collections::{HashMap, HashSet};
use vstd::arithmetic::div_mod::{lemma_mod_add_multiples_vanish, lemma_mod_bound};
use vstd::prelude::*;

verus! {

broadcast use vstd::std_specs::hash::group_hash_axioms;

/// A coordinate of a grid.
#[derive(Hash, Eq, Clone, Copy, Debug, PartialEq, Ord, PartialOrd, Structural)]
pub struct Cell(u32, u32);

impl View for Cell {
    type V = (int, int);

    closed spec fn view(&self) -> (int, int) {
        (self.0 as int, self.1 as int)
    }
}

impl Cell {
    pub fn new(x: u32, y: u32) -> (cell: Cell)
        ensures
            cell@ == (x as int, y as int),
    {
        Cell(x, y)
    }

    pub fn x(&self) -> (x: u32)
        ensures
            x == self@.0,
    {
        self.0
    }

    pub fn y(&self) -> (y: u32)
        ensures
            y == self@.1,
    {
        self.1
    }
}

/// A cell is its two coordinates and nothing more: both fit a `u32`, and two
/// cells with the same coordinates are the same cell.
pub proof fn lemma_cell_is_its_view(a: Cell, b: Cell)
    ensures
        is_coordinate(a@),
        a@ == b@ ==> a == b,
{
}

/// The coordinates of a sequence of cells, in order.
pub open spec fn points(cells: Seq<Cell>) -> Seq<(int, int)> {
    cells.map_values(|c: Cell| c@)
}

/// The points that `cells` name on the `w` by `h` torus, each coordinate
/// taken modulo the size of its axis.
pub open spec fn wrapped_points(cells: Seq<Cell>, w: int, h: int) -> Set<(int, int)> {
    Set::new(
        |p: (int, int)|
            exists|i: int|
                0 <= i < cells.len() && p == (
                    wrap((#[trigger] cells[i])@.0, w),
                    wrap(cells[i]@.1, h),
                ),
    )
}

/// Whether `draws` are `count` points of the `w` by `h` torus, in the order
/// in which they were drawn.
pub open spec fn drawn_on(draws: Seq<(int, int)>, w: int, h: int, count: nat) -> bool {
    draws.len() == count && forall|i: int|
        0 <= i < draws.len() ==> on_torus(w, h, #[trigger] draws[i])
}

/// The mathematical content of a sparse grid: its dimensions, the live
/// cells, and the cells that the last generation brought to life and killed.
pub struct GridView {
    pub width: nat,
    pub height: nat,
    pub alive: Set<(int, int)>,
    pub born: Set<(int, int)>,
    pub died: Set<(int, int)>,
}

impl GridView {
    /// Both dimensions are positive, no set holds a point off the grid, and
    /// no cell was both born and killed.
    pub open spec fn wf(self) -> bool {
        &&& 0 < self.width <= u32::MAX
        &&& 0 < self.height <= u32::MAX
        &&& forall|p: (int, int)| #[trigger]
            self.alive.contains(p) ==> on_torus(self.width as int, self.height as int, p)
        &&& forall|p: (int, int)| #[trigger]
            self.born.contains(p) ==> on_torus(self.width as int, self.height as int, p)
        &&& forall|p: (int, int)| #[trigger]
            self.died.contains(p) ==> on_torus(self.width as int, self.height as int, p)
        &&& self.born.disjoint(self.died)
    }

    /// The number of live cells around `p`, counted round the edges.
    pub open spec fn live_neighbors(self, p: (int, int)) -> nat {
        live_neighbors(self.alive, self.width as int, self.height as int, p)
    }

    /// The cells that live in the next generation: those with at least one
    /// live neighbour to which `rules` grant life. A cell with no live
    /// neighbour is dead in the next generation without the rules being
    /// asked.
    pub open spec fn next_alive<T: RuleSet>(self, rules: T) -> Set<(int, int)> {
        Set::new(
            |p: (int, int)|
                on_torus(self.width as int, self.height as int, p) && self.live_neighbors(p) > 0
                    && rules.spec_next_state(self.alive.contains(p), self.live_neighbors(p) as u8),
        )
    }

    /// The next generation under `rules`, with the cells that changed.
    pub open spec fn step<T: RuleSet>(self, rules: T) -> GridView {
        GridView {
            width: self.width,
            height: self.height,
            alive: self.next_alive(rules),
            born: self.next_alive(rules).difference(self.alive),
            died: self.alive.difference(self.next_alive(rules)),
        }
    }

    /// The grid after `n` generations under `rules`.
    pub open spec fn steps<T: RuleSet>(self, rules: T, n: nat) -> GridView
        decreases n,
    {
        if n == 0 {
            self
        } else {
            self.step(rules).steps(rules, (n - 1) as nat)
        }
    }
}

/// A sparse grid on a torus: only the live cells are stored.
#[derive(Eq, Debug, PartialEq)]
pub struct Grid {
    width: u32,
    height: u32,
    alive_cells: HashSet<u64>,
    new_alive_cells: HashSet<u64>,
    new_dead_cells: HashSet<u64>,
}

impl View for Grid {
    type V = GridView;

    closed spec fn view(&self) -> GridView {
        GridView {
            width: self.width as nat,
            height: self.height as nat,
            alive: cells_of(self.alive_cells@),
            born: cells_of(self.new_alive_cells@),
            died: cells_of(self.new_dead_cells@),
        }
    }
}

/// The codes of a set, each once, in the order in which the set hands them
/// out.
fn keys_of(codes: &HashSet<u64>) -> (keys: Vec<u64>)
    ensures
        keys@.no_duplicates(),
        keys@.to_set() == codes@,
{
    let mut keys: Vec<u64> = Vec::new();
    for k in it: codes.iter()
        invariant
            keys@ == it.seq().take(it.index()).unref(),
            it.seq().unref().to_set() == codes@,
            it.seq().no_duplicates(),
    {
        keys.push(*k);
    }
    proof {
        assert(forall|q: Seq<&u64>| q.take(q.len() as int) == q);
    }
    keys
}

/// A set with the same codes.
fn copy_of(codes: &HashSet<u64>) -> (copy: HashSet<u64>)
    ensures
        copy@ == codes@,
{
    let keys = keys_of(codes);
    let mut copy: HashSet<u64> = HashSet::new();
    let mut i: usize = 0;
    while i < keys.len()
        invariant
            i <= keys@.len(),
            copy@ == keys@.take(i as int).to_set(),
        decreases keys@.len() - i,
    {
        proof {
            lemma_take_to_set(keys@, i as int);
        }
        copy.insert(keys[i]);
        i = i + 1;
    }
    proof {
        assert(keys@.take(keys@.len() as int) == keys@);
    }
    copy
}

impl Clone for Grid {
    /// A grid of its own with the same dimensions, live cells and record of
    /// the last generation.
    fn clone(&self) -> (copy: Grid)
        ensures
            copy@ == self@,
    {
        Grid {
            width: self.width,
            height: self.height,
            alive_cells: copy_of(&self.alive_cells),
            new_alive_cells: copy_of(&self.new_alive_cells),
            new_dead_cells: copy_of(&self.new_dead_cells),
        }
    }
}

/// The cells that a set of codes stands for, each once.
fn cells_from(codes: &HashSet<u64>) -> (cells: Vec<Cell>)
    ensures
        points(cells@).no_duplicates(),
        points(cells@).to_set() == cells_of(codes@),
{
    let keys = keys_of(codes);
    let mut cells: Vec<Cell> = Vec::new();
    let mut i: usize = 0;
    while i < keys.len()
        invariant
            i <= keys@.len(),
            cells@.len() == i,
            forall|j: int| 0 <= j < i ==> (#[trigger] cells@[j])@ == decode(keys@[j]),
        decreases keys@.len() - i,
    {
        cells.push(Cell::new(x_of(keys[i]), y_of(keys[i])));
        i = i + 1;
    }
    proof {
        let pts = points(cells@);
        assert forall|a: int, b: int| 0 <= a < pts.len() && 0 <= b < pts.len() && a != b implies pts[a]
            != pts[b] by {
            lemma_code_round_trip((0, 0), keys@[a]);
            lemma_code_round_trip((0, 0), keys@[b]);
            assert(cells@[a]@ == decode(keys@[a]));
            assert(cells@[b]@ == decode(keys@[b]));
        }
        assert forall|p: (int, int)| pts.to_set().contains(p) <==> cells_of(codes@).contains(p) by {
            if pts.contains(p) {
                let j = choose|j: int| 0 <= j < pts.len() && pts[j] == p;
                assert(cells@[j]@ == decode(keys@[j]));
                lemma_code_round_trip(p, keys@[j]);
                assert(keys@.contains(keys@[j]));
            }
            if cells_of(codes@).contains(p) {
                assert(keys@.to_set().contains(encode(p)));
                let j = choose|j: int| 0 <= j < keys@.len() && keys@[j] == encode(p);
                lemma_code_round_trip(p, keys@[j]);
                assert(cells@[j]@ == decode(keys@[j]));
                assert(pts[j] == p);
            }
        }
        assert(pts.to_set() =~= cells_of(codes@));
    }
    cells
}

/// The keys of a map, each once, in the order in which the map hands them
/// out.
fn map_keys(map: &HashMap<u64, u8>) -> (keys: Vec<u64>)
    ensures
        keys@.no_duplicates(),
        keys@.to_set() == map@.dom(),
{
    let mut keys: Vec<u64> = Vec::new();
    for k in it: map.keys()
        invariant
            keys@ == it.seq().take(it.index()).unref(),
            it.seq().unref().to_set() == map@.dom(),
            it.seq().no_duplicates(),
    {
        keys.push(*k);
    }
    proof {
        assert(forall|q: Seq<&u64>| q.take(q.len() as int) == q);
    }
    keys
}

/// The count that `tally` holds for `p`: zero where it has no entry.
spec fn tally_at(tally: Map<u64, u8>, p: (int, int)) -> nat {
    if tally.dom().contains(encode(p)) {
        tally[encode(p)] as nat
    } else {
        0
    }
}

/// `tally` has an entry for a point only where it counted something, and
/// holds for every point of the torus its number of neighbours in `done`,
/// plus one for each of the first `n` steps that lead to it from `from`.
spec fn partial_tally(
    tally: Map<u64, u8>,
    done: Set<(int, int)>,
    w: int,
    h: int,
    from: (int, int),
    n: nat,
) -> bool {
    &&& forall|k: u64| #[trigger]
        tally.dom().contains(k) ==> on_torus(w, h, decode(k)) && tally[k] >= 1
    &&& forall|p: (int, int)| #[trigger]
        on_torus(w, h, p) ==> tally_at(tally, p) == live_among(done, w, h, p, 8) + steps_between(
            w,
            h,
            from,
            p,
            n,
        )
}

/// The cells of `alive` that are not in `next`.
fn casualties(alive: &Vec<u64>, next: &HashSet<u64>) -> (died: HashSet<u64>)
    ensures
        forall|c: u64| #[trigger]
            died@.contains(c) <==> alive@.to_set().contains(c) && !next@.contains(c),
{
    let mut died: HashSet<u64> = HashSet::new();
    let mut i: usize = 0;
    while i < alive.len()
        invariant
            i <= alive@.len(),
            forall|c: u64| #[trigger]
                died@.contains(c) <==> alive@.take(i as int).to_set().contains(c) && !next@.contains(
                    c,
                ),
        decreases alive@.len() - i,
    {
        let c = alive[i];
        proof {
            lemma_take_to_set(alive@, i as int);
        }
        if !next.contains(&c) {
            died.insert(c);
        }
        i = i + 1;
    }
    proof {
        assert(alive@.take(alive@.len() as int) == alive@);
    }
    died
}

impl Grid {
    /// The invariant of the type: see [`GridView::wf`].
    pub open spec fn wf(&self) -> bool {
        self@.wf()
    }

    /// An empty grid of the given dimensions.
    pub fn new(width: u32, height: u32) -> (grid: Grid)
        requires
            width > 0,
            height > 0,
        ensures
            grid.wf(),
            grid@.width == width,
            grid@.height == height,
            grid@.alive == Set::<(int, int)>::empty(),
            grid@.born == Set::<(int, int)>::empty(),
            grid@.died == Set::<(int, int)>::empty(),
    {
        proof {
            lemma_cells_of_empty();
        }
        Grid {
            width,
            height,
            alive_cells: HashSet::new(),
            new_alive_cells: HashSet::new(),
            new_dead_cells: HashSet::new(),
        }
    }

    /// The number of columns.
    pub fn width(&self) -> (w: u32)
        ensures
            w == self@.width,
    {
        self.width
    }

    /// The number of rows.
    pub fn height(&self) -> (h: u32)
        ensures
            h == self@.height,
    {
        self.height
    }

    /// Draws `count` cells inside the grid, one after another.
    fn draw_cells(&self, count: u32) -> (cells: Vec<Cell>)
        requires
            self.wf(),
        ensures
            cells@.len() == count,
            forall|i: int|
                0 <= i < cells@.len() ==> on_torus(
                    self@.width as int,
                    self@.height as int,
                    (#[trigger] cells@[i])@,
                ),
    {
        let mut cells: Vec<Cell> = Vec::new();
        let mut drawn: u32 = 0;
        while drawn < count
            invariant
                self.wf(),
                drawn <= count,
                cells@.len() == drawn,
                forall|i: int|
                    0 <= i < cells@.len() ==> on_torus(
                        self.width as int,
                        self.height as int,
                        (#[trigger] cells@[i])@,
                    ),
            decreases count - drawn,
        {
            let x = random_below(self.width);
            let y = random_below(self.height);
            cells.push(Cell::new(x, y));
            drawn = drawn + 1;
        }
        cells
    }

    /// Replaces the live cells by `cells_to_create` cells drawn at random
    /// inside the grid: whatever was drawn, the live cells afterwards are
    /// exactly the points of that many draws, each on the grid. Draws may
    /// coincide, so at most that many cells live afterwards, and at least
    /// one where any was drawn. The record of the last generation is left as
    /// it was.
    pub fn randomize(&mut self, cells_to_create: u32)
        requires
            old(self).wf(),
        ensures
            final(self).wf(),
            final(self)@.width == old(self)@.width,
            final(self)@.height == old(self)@.height,
            final(self)@.born == old(self)@.born,
            final(self)@.died == old(self)@.died,
            exists|draws: Seq<(int, int)>| #[trigger]
                drawn_on(
                    draws,
                    old(self)@.width as int,
                    old(self)@.height as int,
                    cells_to_create as nat,
                ) && final(self)@.alive == draws.to_set(),
            final(self)@.alive.finite(),
            final(self)@.alive.len() <= cells_to_create,
            cells_to_create > 0 ==> final(self)@.alive.len() >= 1,
    {
        let ghost w = self.width as int;
        let ghost h = self.height as int;
        let cells = self.draw_cells(cells_to_create);
        self.alive_cells.clear();
        proof {
            lemma_cells_of_empty();
        }
        self.add_cells(&cells);
        proof {
            let draws = points(cells@);
            assert forall|i: int| 0 <= i < draws.len() implies on_torus(w, h, #[trigger] draws[i]) by {
                assert(draws[i] == cells@[i]@);
            }
            assert forall|p: (int, int)| wrapped_points(cells@, w, h).contains(p) <==> draws.to_set().contains(
                p,
            ) by {
                if wrapped_points(cells@, w, h).contains(p) {
                    let i = choose|i: int|
                        0 <= i < cells@.len() && p == (
                            wrap((#[trigger] cells@[i])@.0, w),
                            wrap(cells@[i]@.1, h),
                        );
                    lemma_wrap_near(cells@[i]@.0, w);
                    lemma_wrap_near(cells@[i]@.1, h);
                    assert(draws[i] == p);
                }
                if draws.contains(p) {
                    let i = choose|i: int| 0 <= i < draws.len() && draws[i] == p;
                    assert(cells@[i]@ == p);
                    lemma_wrap_near(cells@[i]@.0, w);
                    lemma_wrap_near(cells@[i]@.1, h);
                }
            }
            assert(self@.alive =~= draws.to_set());
            assert(drawn_on(draws, w, h, cells_to_create as nat));
            vstd::seq_lib::seq_to_set_is_finite(draws);
            draws.lemma_cardinality_of_set();
            if cells_to_create > 0 {
                assert(draws.to_set().contains(draws[0]));
                if draws.to_set().len() == 0 {
                    assert(draws.to_set() =~= Set::<(int, int)>::empty());
                }
            }
        }
    }

    /// The point `(nx, ny)` brought onto the torus.
    fn wrapped_cell(&self, nx: i64, ny: i64) -> (cell: Cell)
        requires
            self.wf(),
            -1 <= nx <= u32::MAX + 1,
            -1 <= ny <= u32::MAX + 1,
        ensures
            cell@ == (wrap(nx as int, self@.width as int), wrap(ny as int, self@.height as int)),
    {
        let w: i64 = self.width as i64;
        let h: i64 = self.height as i64;
        let vx: i64 = if nx < 0 {
            nx + w
        } else {
            nx
        };
        let vy: i64 = if ny < 0 {
            ny + h
        } else {
            ny
        };
        proof {
            lemma_mod_add_multiples_vanish(nx as int, w as int);
            lemma_mod_add_multiples_vanish(ny as int, h as int);
            lemma_mod_bound(vx as int, w as int);
            lemma_mod_bound(vy as int, h as int);
        }
        let wx: i64 = vx % w;
        let wy: i64 = vy % h;
        Cell::new(wx as u32, wy as u32)
    }

    /// The eight neighbours of `cell` on the torus, in the order of
    /// [`offset`]. Every cell has exactly eight, some of which coincide on a
    /// grid less than three wide or high.
    pub fn neighbors(&self, cell: &Cell) -> (around: [Cell; 8])
        requires
            self.wf(),
        ensures
            forall|i: int|
                0 <= i < 8 ==> (#[trigger] around[i])@ == neighbor(
                    self@.width as int,
                    self@.height as int,
                    cell@,
                    i,
                ),
    {
        let x: i64 = cell.x() as i64;
        let y: i64 = cell.y() as i64;
        [
            self.wrapped_cell(x - 1, y - 1),
            self.wrapped_cell(x - 1, y),
            self.wrapped_cell(x - 1, y + 1),
            self.wrapped_cell(x, y - 1),
            self.wrapped_cell(x, y + 1),
            self.wrapped_cell(x + 1, y - 1),
            self.wrapped_cell(x + 1, y),
            self.wrapped_cell(x + 1, y + 1),
        ]
    }

    /// Counts, for every point of the grid, the live cells around it: each
    /// live cell adds one to each of its eight neighbours.
    fn tally_neighbors(&self, alive: &Vec<u64>) -> (tally: HashMap<u64, u8>)
        requires
            self.wf(),
            alive@.no_duplicates(),
            alive@.to_set() == self.alive_cells@,
        ensures
            partial_tally(tally@, self@.alive, self.width as int, self.height as int, (0, 0), 0),
    {
        let ghost w = self.width as int;
        let ghost h = self.height as int;
        let mut tally: HashMap<u64, u8> = HashMap::new();
        proof {
            lemma_cells_of_empty();
            assert(alive@.take(0).to_set() =~= Set::<u64>::empty());
            assert forall|p: (int, int)| #[trigger] on_torus(w, h, p) implies tally_at(tally@, p)
                == live_among(Set::<(int, int)>::empty(), w, h, p, 8) + steps_between(
                w,
                h,
                (0, 0),
                p,
                0,
            ) by {
                lemma_live_among_empty(w, h, p, 8);
            }
        }
        let mut i: usize = 0;
        while i < alive.len()
            invariant
                self.wf(),
                w == self.width,
                h == self.height,
                alive@.no_duplicates(),
                alive@.to_set() == self.alive_cells@,
                i <= alive@.len(),
                partial_tally(tally@, cells_of(alive@.take(i as int).to_set()), w, h, (0, 0), 0),
            decreases alive@.len() - i,
        {
            let a = alive[i];
            let cell = Cell::new(x_of(a), y_of(a));
            let ghost pa = decode(a);
            let ghost done = cells_of(alive@.take(i as int).to_set());
            proof {
                lemma_code_round_trip(pa, a);
                lemma_take_to_set(alive@, i as int);
                lemma_cells_of_insert(alive@.take(i as int).to_set(), a);
                assert(alive@.to_set().contains(a));
                assert(self@.alive.contains(pa));
                assert(on_torus(w, h, pa));
            }
            let around = self.neighbors(&cell);
            let mut j: usize = 0;
            while j < 8
                invariant
                    j <= 8,
                    0 < w <= u32::MAX,
                    0 < h <= u32::MAX,
                    on_torus(w, h, pa),
                    forall|n: int| 0 <= n < 8 ==> (#[trigger] around[n])@ == neighbor(w, h, pa, n),
                    partial_tally(tally@, done, w, h, pa, j as nat),
                decreases 8 - j,
            {
                let target = around[j];
                let k = code_of(target.x(), target.y());
                let ghost t = neighbor(w, h, pa, j as int);
                proof {
                    lemma_neighbor_on_torus(w, h, pa, j as int);
                    lemma_code_round_trip(t, k);
                    lemma_counts_bounded(done, w, h, t, t, 8);
                    lemma_counts_bounded(done, w, h, pa, t, j as nat);
                    assert(on_torus(w, h, t));
                }
                let current: u8 = match tally.get(&k) {
                    Some(count) => *count,
                    None => 0,
                };
                let ghost before = tally@;
                assert(current == tally_at(before, t));
                tally.insert(k, current + 1);
                proof {
                    assert forall|p: (int, int)| #[trigger] on_torus(w, h, p) implies tally_at(
                        tally@,
                        p,
                    ) == live_among(done, w, h, p, 8) + steps_between(
                        w,
                        h,
                        pa,
                        p,
                        (j + 1) as nat,
                    ) by {
                        lemma_code_round_trip(p, k);
                        assert(tally_at(before, p) == live_among(done, w, h, p, 8) + steps_between(
                            w,
                            h,
                            pa,
                            p,
                            j as nat,
                        ));
                    }
                    assert forall|c: u64| #[trigger] tally@.dom().contains(c) implies on_torus(
                        w,
                        h,
                        decode(c),
                    ) && tally@[c] >= 1 by {
                        if c != k {
                            assert(before.dom().contains(c));
                        }
                    }
                }
                j = j + 1;
            }
            proof {
                assert forall|p: (int, int)| #[trigger] on_torus(w, h, p) implies tally_at(
                    tally@,
                    p,
                ) == live_among(done.insert(pa), w, h, p, 8) + steps_between(
                    w,
                    h,
                    (0, 0),
                    p,
                    0,
                ) by {
                    lemma_steps_symmetric(w, h, pa, p);
                    lemma_live_among_insert(done, w, h, p, pa, 8);
                }
            }
            i = i + 1;
        }
        proof {
            assert(alive@.take(alive@.len() as int) == alive@);
        }
        tally
    }

    /// The cells that live in the next generation, and those among them
    /// that are not alive now, from the counts in `tally`.
    fn survivors<T: RuleSet>(&self, rules: &T, tally: &HashMap<u64, u8>) -> (result: (
        HashSet<u64>,
        HashSet<u64>,
    ))
        requires
            self.wf(),
            partial_tally(tally@, self@.alive, self.width as int, self.height as int, (0, 0), 0),
        ensures
            cells_of(result.0@) == self@.next_alive(*rules),
            cells_of(result.1@) == self@.next_alive(*rules).difference(self@.alive),
    {
        let ghost w = self.width as int;
        let ghost h = self.height as int;
        let keys = map_keys(tally);
        let mut next: HashSet<u64> = HashSet::new();
        let mut born: HashSet<u64> = HashSet::new();
        let mut i: usize = 0;
        while i < keys.len()
            invariant
                i <= keys@.len(),
                keys@.to_set() == tally@.dom(),
                forall|c: u64| #[trigger]
                    next@.contains(c) <==> keys@.take(i as int).to_set().contains(c)
                        && rules.spec_next_state(self.alive_cells@.contains(c), tally@[c]),
                forall|c: u64| #[trigger]
                    born@.contains(c) <==> next@.contains(c) && !self.alive_cells@.contains(c),
            decreases keys@.len() - i,
        {
            let c = keys[i];
            proof {
                lemma_take_to_set(keys@, i as int);
                assert(keys@.to_set().contains(c));
            }
            let count: u8 = match tally.get(&c) {
                Some(count) => *count,
                None => 0,
            };
            let current = self.alive_cells.contains(&c);
            if rules.next_state(current, count) {
                next.insert(c);
                if !current {
                    born.insert(c);
                }
            }
            i = i + 1;
        }
        proof {
            assert(keys@.take(keys@.len() as int) == keys@);
            assert forall|p: (int, int)|
                cells_of(next@).contains(p) <==> self@.next_alive(*rules).contains(p) by {
                lemma_code_round_trip(p, encode(p));
                lemma_counts_bounded(self@.alive, w, h, p, p, 8);
                if is_coordinate(p) && next@.contains(encode(p)) {
                    assert(tally@.dom().contains(encode(p)));
                    assert(on_torus(w, h, p));
                }
                if on_torus(w, h, p) {
                    assert(tally_at(tally@, p) == live_among(self@.alive, w, h, p, 8));
                }
            }
            assert(cells_of(next@) =~= self@.next_alive(*rules));
            assert forall|p: (int, int)|
                cells_of(born@).contains(p) <==> self@.next_alive(*rules).difference(
                    self@.alive,
                ).contains(p) by {
                lemma_code_round_trip(p, encode(p));
            }
            assert(cells_of(born@) =~= self@.next_alive(*rules).difference(self@.alive));
        }
        (next, born)
    }

    /// The next generation under `rules`: a new grid of the same dimensions
    /// whose live cells are those with a live neighbour to which `rules`
    /// grant life, together with the cells that came to life and the cells
    /// that died. This grid is left as it was.
    pub fn next_generation<T: RuleSet>(&self, rules: &T) -> (next: Grid)
        requires
            self.wf(),
        ensures
            next.wf(),
            next@ == self@.step(*rules),
    {
        let alive = keys_of(&self.alive_cells);
        let tally = self.tally_neighbors(&alive);
        let (next_cells, born) = self.survivors(rules, &tally);
        let died = casualties(&alive, &next_cells);
        let next = Grid {
            width: self.width,
            height: self.height,
            alive_cells: next_cells,
            new_alive_cells: born,
            new_dead_cells: died,
        };
        proof {
            let target = self@.step(*rules);
            assert forall|p: (int, int)| next@.died.contains(p) <==> target.died.contains(p) by {
                lemma_code_round_trip(p, encode(p));
            }
            assert(next@.died =~= target.died);
            assert(next@.alive == target.alive);
            assert(next@.born == target.born);
        }
        next
    }

    /// The content of the grid, to be compared with that of other
    /// generations: the dimensions and the live cells, without the record of
    /// what changed last.
    pub fn snapshot(&self) -> (snapshot: Snapshot)
        ensures
            snapshot@ == (SnapshotView {
                width: self@.width,
                height: self@.height,
                alive: self@.alive,
            }),
    {
        Snapshot::from_set(self.width, self.height, &self.alive_cells)
    }

    /// Whether `cell` is alive, or `None` where it lies outside the grid:
    /// a coordinate that the grid does not have is neither alive nor dead.
    pub fn is_alive(&self, cell: &Cell) -> (state: Option<bool>)
        ensures
            state == if on_torus(self@.width as int, self@.height as int, cell@) {
                Some(self@.alive.contains(cell@))
            } else {
                None
            },
    {
        if cell.x() < self.width && cell.y() < self.height {
            let k = code_of(cell.x(), cell.y());
            Some(self.alive_cells.contains(&k))
        } else {
            None
        }
    }

    /// Whether no cell is alive.
    pub fn all_dead(&self) -> (dead: bool)
        ensures
            dead == (self@.alive == Set::<(int, int)>::empty()),
    {
        proof {
            lemma_cells_of_empty();
            if !self.alive_cells@.is_empty() {
                let k = self.alive_cells@.choose();
                lemma_code_round_trip((0, 0), k);
                assert(cells_of(self.alive_cells@).contains(decode(k)));
            } else {
                assert(self.alive_cells@ =~= Set::<u64>::empty());
            }
        }
        self.alive_cells.is_empty()
    }

    /// The codes of the live cells, each once, in no particular order.
    pub(crate) fn alive_codes(&self) -> (codes: Vec<u64>)
        ensures
            codes@.no_duplicates(),
            cells_of(codes@.to_set()) == self@.alive,
    {
        keys_of(&self.alive_cells)
    }

    /// The live cells, each once, in no particular order.
    pub fn alive_cells(&self) -> (cells: Vec<Cell>)
        ensures
            points(cells@).no_duplicates(),
            points(cells@).to_set() == self@.alive,
    {
        cells_from(&self.alive_cells)
    }

    /// The cells that the last generation brought to life, each once.
    pub fn new_alive_cells(&self) -> (cells: Vec<Cell>)
        ensures
            points(cells@).no_duplicates(),
            points(cells@).to_set() == self@.born,
    {
        cells_from(&self.new_alive_cells)
    }

    /// The cells that the last generation killed, each once.
    pub fn new_dead_cells(&self) -> (cells: Vec<Cell>)
        ensures
            points(cells@).no_duplicates(),
            points(cells@).to_set() == self@.died,
    {
        cells_from(&self.new_dead_cells)
    }

    /// Brings `cells` to life, each taken modulo the size of the grid so
    /// that none falls off it. Cells already alive stay alive; the record of
    /// the last generation is left as it was.
    pub fn add_cells(&mut self, cells: &Vec<Cell>)
        requires
            old(self).wf(),
        ensures
            final(self).wf(),
            final(self)@.width == old(self)@.width,
            final(self)@.height == old(self)@.height,
            final(self)@.born == old(self)@.born,
            final(self)@.died == old(self)@.died,
            final(self)@.alive == old(self)@.alive.union(
                wrapped_points(cells@, old(self)@.width as int, old(self)@.height as int),
            ),
    {
        let ghost w = self.width as int;
        let ghost h = self.height as int;
        let mut i: usize = 0;
        while i < cells.len()
            invariant
                i <= cells@.len(),
                self.wf(),
                w == self.width,
                h == self.height,
                self.width == old(self).width,
                self.height == old(self).height,
                self.new_alive_cells == old(self).new_alive_cells,
                self.new_dead_cells == old(self).new_dead_cells,
                self@.alive == old(self)@.alive.union(wrapped_points(cells@.take(i as int), w, h)),
            decreases cells@.len() - i,
        {
            let x = cells[i].x() % self.width;
            let y = cells[i].y() % self.height;
            let k = code_of(x, y);
            proof {
                let before = cells@.take(i as int);
                let after = cells@.take(i + 1);
                let p = (x as int, y as int);
                lemma_cells_of_insert(self.alive_cells@, k);
                lemma_code_round_trip(p, k);
                assert(after[i as int] == cells@[i as int]);
                assert forall|q: (int, int)|
                    wrapped_points(after, w, h).contains(q) <==> wrapped_points(
                        before,
                        w,
                        h,
                    ).insert(p).contains(q) by {
                    if wrapped_points(after, w, h).contains(q) {
                        let j = choose|j: int|
                            0 <= j < after.len() && q == (
                                wrap((#[trigger] after[j])@.0, w),
                                wrap(after[j]@.1, h),
                            );
                        if j < i {
                            assert(before[j] == after[j]);
                        }
                    }
                    if wrapped_points(before, w, h).contains(q) {
                        let j = choose|j: int|
                            0 <= j < before.len() && q == (
                                wrap((#[trigger] before[j])@.0, w),
                                wrap(before[j]@.1, h),
                            );
                        assert(after[j] == before[j]);
                    }
                }
                assert(wrapped_points(after, w, h) =~= wrapped_points(before, w, h).insert(p));
                assert(old(self)@.alive.union(wrapped_points(before, w, h)).insert(p) =~= old(
                    self,
                )@.alive.union(wrapped_points(after, w, h)));
            }
            self.alive_cells.insert(k);
            i = i + 1;
        }
        proof {
            assert(cells@.take(cells@.len() as int) == cells@);
        }
    }

    /// Stamps `pattern` with its anchor at `(x, y)`: see [`Grid::add_cells`].
    pub fn add_pattern<T: Pattern>(&mut self, pattern: T, x: u32, y: u32)
        requires
            old(self).wf(),
            forall|i: int|
                0 <= i < pattern.offsets().len() ==> 0 <= x + (#[trigger] pattern.offsets()[i]).0
                    <= u32::MAX && 0 <= y + pattern.offsets()[i].1 <= u32::MAX,
        ensures
            final(self).wf(),
            final(self)@.width == old(self)@.width,
            final(self)@.height == old(self)@.height,
            final(self)@.born == old(self)@.born,
            final(self)@.died == old(self)@.died,
            forall|p: (int, int)|
                final(self)@.alive.contains(p) <==> old(self)@.alive.contains(p) || exists|i: int|
                    0 <= i < pattern.offsets().len() && p == (
                        wrap(x + (#[trigger] pattern.offsets()[i]).0, old(self)@.width as int),
                        wrap(y + pattern.offsets()[i].1, old(self)@.height as int),
                    ),
    {
        let cells = pattern.at(x, y);
        self.add_cells(&cells);
        proof {
            let w = old(self)@.width as int;
            let h = old(self)@.height as int;
            assert forall|p: (int, int)|
                wrapped_points(cells@, w, h).contains(p) <==> exists|i: int|
                    0 <= i < pattern.offsets().len() && p == (
                        wrap(x + (#[trigger] pattern.offsets()[i]).0, w),
                        wrap(y + pattern.offsets()[i].1, h),
                    ) by {
                if wrapped_points(cells@, w, h).contains(p) {
                    let j = choose|j: int|
                        0 <= j < cells@.len() && p == (
                            wrap((#[trigger] cells@[j])@.0, w),
                            wrap(cells@[j]@.1, h),
                        );
                    let step = pattern.offsets()[j];
                    assert(cells@[j]@ == (x + step.0, y + step.1));
                }
                if exists|i: int|
                    0 <= i < pattern.offsets().len() && p == (
                        wrap(x + (#[trigger] pattern.offsets()[i]).0, w),
                        wrap(y + pattern.offsets()[i].1, h),
                    ) {
                    let j = choose|j: int|
                        0 <= j < pattern.offsets().len() && p == (
                            wrap(x + (#[trigger] pattern.offsets()[j]).0, w),
                            wrap(y + pattern.offsets()[j].1, h),
                        );
                    assert(cells@[j]@ == (x + pattern.offsets()[j].0, y + pattern.offsets()[j].1));
                }
            }
        }
    }
}

} // verus!
