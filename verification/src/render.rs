//! Pixel buffers for a renderer: one `u32` colour per cell, row by row.

use crate::sparse::grid::Cell;
use vstd::prelude::*;

verus! {

/// The number of pixels in a row of the buffer.
pub const WIDTH: usize = 2000;

/// The number of rows of the buffer.
pub const HEIGHT: usize = 2000;

/// The colour of a live cell.
pub const ALIVE_COLOR: u32 = 0x00FFFFFF;

/// The colour of a dead cell.
pub const DEAD_COLOR: u32 = 0x00000000;

/// Where the pixel of the point `p` stands in the buffer.
pub open spec fn pixel_of(p: (int, int)) -> int {
    p.1 * WIDTH + p.0
}

/// Whether the pixel at index `i` belongs to one of `cells`.
pub open spec fn covers(cells: Seq<Cell>, i: int) -> bool {
    exists|j: int| 0 <= j < cells.len() && pixel_of((#[trigger] cells[j])@) == i
}

/// Whether every one of `cells` has its pixel inside a buffer of `len`
/// pixels.
pub open spec fn fits(cells: Seq<Cell>, len: nat) -> bool {
    forall|j: int| 0 <= j < cells.len() ==> pixel_of((#[trigger] cells[j])@) < len
}

/// The index of the pixel of `cell`.
fn pixel_index(cell: &Cell) -> (index: u64)
    ensures
        index == pixel_of(cell@),
{
    let row: u64 = cell.y() as u64;
    let width: u64 = WIDTH as u64;
    assert(row * width <= 0xffff_ffff * 2000) by (nonlinear_arith)
        requires
            0 <= row <= 0xffff_ffff,
            width == 2000,
    ;
    row * width + cell.x() as u64
}

/// Whether `cells` can be drawn into `buffer`: see [`fits`].
pub fn fits_buffer(buffer: &Vec<u32>, cells: &Vec<Cell>) -> (ok: bool)
    ensures
        ok == fits(cells@, buffer@.len()),
{
    let mut j: usize = 0;
    while j < cells.len()
        invariant
            j <= cells@.len(),
            forall|m: int| 0 <= m < j ==> pixel_of((#[trigger] cells@[m])@) < buffer@.len(),
        decreases cells@.len() - j,
    {
        if pixel_index(&cells[j]) >= buffer.len() as u64 {
            return false;
        }
        j = j + 1;
    }
    true
}

/// Gives the pixel of each of `cells` the colour `color`.
fn paint(buffer: &mut Vec<u32>, cells: &Vec<Cell>, color: u32)
    requires
        fits(cells@, old(buffer)@.len()),
    ensures
        final(buffer)@.len() == old(buffer)@.len(),
        forall|i: int|
            0 <= i < final(buffer)@.len() ==> #[trigger] final(buffer)@[i] == if covers(cells@, i) {
                color
            } else {
                old(buffer)@[i]
            },
{
    let mut j: usize = 0;
    while j < cells.len()
        invariant
            j <= cells@.len(),
            fits(cells@, buffer@.len()),
            buffer@.len() == old(buffer)@.len(),
            forall|i: int|
                0 <= i < buffer@.len() ==> #[trigger] buffer@[i] == if covers(
                    cells@.take(j as int),
                    i,
                ) {
                    color
                } else {
                    old(buffer)@[i]
                },
        decreases cells@.len() - j,
    {
        let index = pixel_index(&cells[j]);
        let ghost before = buffer@;
        assert(pixel_of(cells@[j as int]@) < buffer@.len());
        let len = buffer.len();
        assert(index < len);
        let at: usize = index as usize;
        buffer.set(at, color);
        proof {
            let done = cells@.take(j as int);
            let more = cells@.take(j + 1);
            assert(more[j as int] == cells@[j as int]);
            assert(buffer@ == before.update(at as int, color));
            assert forall|i: int| 0 <= i < buffer@.len() implies #[trigger] buffer@[i] == if covers(
                more,
                i,
            ) {
                color
            } else {
                old(buffer)@[i]
            } by {
                if i == at {
                    assert(pixel_of(more[j as int]@) == i);
                    assert(covers(more, i));
                    assert(buffer@[i] == color);
                } else {
                    assert(buffer@[i] == before[i]);
                    if covers(done, i) {
                        let m = choose|m: int|
                            0 <= m < done.len() && pixel_of((#[trigger] done[m])@) == i;
                        assert(more[m] == done[m]);
                        assert(covers(more, i));
                    }
                    if covers(more, i) {
                        let m = choose|m: int|
                            0 <= m < more.len() && pixel_of((#[trigger] more[m])@) == i;
                        assert(m != j);
                        assert(done[m] == more[m]);
                        assert(covers(done, i));
                    }
                }
            }
        }
        j = j + 1;
    }
    proof {
        assert(cells@.take(cells@.len() as int) == cells@);
    }
}

/// Brings a pixel buffer up to date after one generation: the pixels of the
/// cells that came to life turn to [`ALIVE_COLOR`], then those of the cells
/// that died to [`DEAD_COLOR`]; every other pixel stays. Each cell must have
/// its pixel inside the buffer.
pub fn update_buffer(buffer: &mut Vec<u32>, newly_alive_cells: &Vec<Cell>, dead_cells: &Vec<Cell>)
    requires
        fits(newly_alive_cells@, old(buffer)@.len()),
        fits(dead_cells@, old(buffer)@.len()),
    ensures
        final(buffer)@.len() == old(buffer)@.len(),
        forall|i: int|
            0 <= i < final(buffer)@.len() ==> #[trigger] final(buffer)@[i] == if covers(
                dead_cells@,
                i,
            ) {
                DEAD_COLOR
            } else if covers(newly_alive_cells@, i) {
                ALIVE_COLOR
            } else {
                old(buffer)@[i]
            },
{
    paint(buffer, newly_alive_cells, ALIVE_COLOR);
    paint(buffer, dead_cells, DEAD_COLOR);
}

/// A pixel buffer for a whole grid given as one number per cell: a cell
/// that is not zero is alive.
pub fn grid_to_buffer(cells: &Vec<i64>) -> (buffer: Vec<u32>)
    ensures
        buffer@.len() == cells@.len(),
        forall|i: int|
            0 <= i < cells@.len() ==> #[trigger] buffer@[i] == if cells@[i] != 0 {
                ALIVE_COLOR
            } else {
                DEAD_COLOR
            },
{
    let mut buffer: Vec<u32> = Vec::new();
    let mut i: usize = 0;
    while i < cells.len()
        invariant
            i <= cells@.len(),
            buffer@.len() == i,
            forall|m: int|
                0 <= m < i ==> #[trigger] buffer@[m] == if cells@[m] != 0 {
                    ALIVE_COLOR
                } else {
                    DEAD_COLOR
                },
        decreases cells@.len() - i,
    {
        if cells[i] != 0 {
            buffer.push(ALIVE_COLOR);
        } else {
            buffer.push(DEAD_COLOR);
        }
        i = i + 1;
    }
    buffer
}

} // verus!
