use crate::sparse::grid::Cell;
use vstd::prelude::*;

verus! {

/// A fixed shape of live cells that can be stamped at an anchor.
pub trait Pattern {
    /// The cells of the shape, each as its distance from the anchor.
    spec fn offsets(&self) -> Seq<(int, int)>;

    /// The cells of the shape placed at `(x, y)`, in the order of
    /// [`Pattern::offsets`]. The shape must not reach past the largest
    /// coordinate.
    fn at(&self, x: u32, y: u32) -> (cells: Vec<Cell>)
        requires
            forall|i: int|
                0 <= i < self.offsets().len() ==> 0 <= x + (#[trigger] self.offsets()[i]).0
                    <= u32::MAX && 0 <= y + self.offsets()[i].1 <= u32::MAX,
        ensures
            cells@.len() == self.offsets().len(),
            forall|i: int|
                0 <= i < cells@.len() ==> (#[trigger] cells@[i])@ == (
                    x + self.offsets()[i].0,
                    y + self.offsets()[i].1,
                ),
    ;
}

/// Three cells in a row: the smallest oscillator.
pub struct Blinker;

impl Pattern for Blinker {
    open spec fn offsets(&self) -> Seq<(int, int)> {
        seq![(0, 0), (1, 0), (2, 0)]
    }

    fn at(&self, x: u32, y: u32) -> (cells: Vec<Cell>) {
        assert(self.offsets()[2] == (2int, 0int));
        let mut cells: Vec<Cell> = Vec::new();
        cells.push(Cell::new(x, y));
        cells.push(Cell::new(x + 1, y));
        cells.push(Cell::new(x + 2, y));
        cells
    }
}

/// Five cells that travel diagonally across the grid.
pub struct Glider;

impl Pattern for Glider {
    open spec fn offsets(&self) -> Seq<(int, int)> {
        seq![(0, 2), (1, 2), (2, 2), (1, 0), (2, 1)]
    }

    fn at(&self, x: u32, y: u32) -> (cells: Vec<Cell>) {
        assert(self.offsets()[2] == (2int, 2int));
        let mut cells: Vec<Cell> = Vec::new();
        cells.push(Cell::new(x, y + 2));
        cells.push(Cell::new(x + 1, y + 2));
        cells.push(Cell::new(x + 2, y + 2));
        cells.push(Cell::new(x + 1, y));
        cells.push(Cell::new(x + 2, y + 1));
        cells
    }
}

} // verus!
