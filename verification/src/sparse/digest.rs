//! A hash of the content of a sparse grid: equal for grids of equal
//! dimensions and live cells, however the cells are stored.

use crate::code::{
    cells_of, decode, lemma_cells_of_empty, lemma_cells_of_insert, lemma_cells_of_len,
    lemma_code_round_trip, lemma_take_to_set, x_of, y_of,
};
use crate::sparse::grid::Grid;
use std::collections::hash_map::DefaultHasher;
use std::hash::Hasher;
use vstd::bytes::{spec_u32_to_le_bytes, spec_u64_to_le_bytes, u32_to_le_bytes, u64_to_le_bytes};
use vstd::prelude::*;
use vstd::set::fold::{is_fun_commutative, lemma_fold_empty, lemma_fold_insert};
use vstd::std_specs::hash::DefaultHasherAdditionalSpecFns;

verus! {

/// The hash of one coordinate: what the default hasher of the standard
/// library makes of its two parts, written one after the other.
pub open spec fn cell_digest(p: (int, int)) -> u64 {
    DefaultHasher::spec_finish(
        seq![spec_u32_to_le_bytes(p.0 as u32), spec_u32_to_le_bytes(p.1 as u32)],
    )
}

/// Folds the hash of one more coordinate into a combined hash. The order in
/// which coordinates are folded in does not matter.
pub open spec fn mixer() -> spec_fn(u64, (int, int)) -> u64 {
    |acc: u64, p: (int, int)| acc ^ cell_digest(p)
}

/// The hashes of all live cells combined.
pub open spec fn cells_digest(alive: Set<(int, int)>) -> u64 {
    alive.fold(0u64, mixer())
}

/// The hash of a grid's content: of its width, its height and the combined
/// hash of its live cells.
pub open spec fn content_digest(width: nat, height: nat, alive: Set<(int, int)>) -> u64 {
    DefaultHasher::spec_finish(
        seq![
            spec_u32_to_le_bytes(width as u32),
            spec_u32_to_le_bytes(height as u32),
            spec_u64_to_le_bytes(cells_digest(alive)),
        ],
    )
}

/// Folding in two hashes gives the same whichever comes first.
pub proof fn lemma_mixer_commutes()
    ensures
        is_fun_commutative(mixer()),
{
    assert forall|a1: (int, int), a2: (int, int), b: u64| #[trigger]
        mixer()(mixer()(b, a2), a1) == mixer()(mixer()(b, a1), a2) by {
        let x = cell_digest(a1);
        let y = cell_digest(a2);
        assert((b ^ y) ^ x == (b ^ x) ^ y) by (bit_vector);
    }
}

/// Hashes one coordinate.
fn digest_of_cell(x: u32, y: u32) -> (digest: u64)
    ensures
        digest == cell_digest((x as int, y as int)),
{
    let mut hasher = DefaultHasher::new();
    let first = u32_to_le_bytes(x);
    hasher.write(first.as_slice());
    let second = u32_to_le_bytes(y);
    hasher.write(second.as_slice());
    assert(hasher@ =~= seq![spec_u32_to_le_bytes(x), spec_u32_to_le_bytes(y)]);
    hasher.finish()
}

impl Grid {
    /// A hash of the dimensions and the live cells. Grids of the same
    /// dimensions and live cells have the same hash, whatever the order in
    /// which their cells are stored and whatever changed last.
    pub fn content_hash(&self) -> (hash: u64)
        ensures
            hash == content_digest(self@.width, self@.height, self@.alive),
    {
        let codes = self.alive_codes();
        let mut combined: u64 = 0;
        proof {
            lemma_fold_empty::<(int, int), u64>(0u64, mixer());
            lemma_cells_of_empty();
            lemma_mixer_commutes();
            assert(codes@.take(0).to_set() =~= Set::<u64>::empty());
        }
        let mut i: usize = 0;
        while i < codes.len()
            invariant
                i <= codes@.len(),
                codes@.no_duplicates(),
                is_fun_commutative(mixer()),
                combined == cells_digest(cells_of(codes@.take(i as int).to_set())),
            decreases codes@.len() - i,
        {
            let k = codes[i];
            let digest = digest_of_cell(x_of(k), y_of(k));
            proof {
                let seen = codes@.take(i as int).to_set();
                lemma_take_to_set(codes@, i as int);
                lemma_cells_of_insert(seen, k);
                vstd::seq_lib::seq_to_set_is_finite(codes@.take(i as int));
                lemma_cells_of_len(seen);
                lemma_code_round_trip(decode(k), k);
                lemma_fold_insert(cells_of(seen), 0u64, mixer(), decode(k));
            }
            combined = combined ^ digest;
            i = i + 1;
        }
        proof {
            assert(codes@.take(codes@.len() as int) == codes@);
        }
        let mut hasher = DefaultHasher::new();
        let w = self.width();
        let h = self.height();
        let width = u32_to_le_bytes(w);
        hasher.write(width.as_slice());
        let height = u32_to_le_bytes(h);
        hasher.write(height.as_slice());
        let cells = u64_to_le_bytes(combined);
        hasher.write(cells.as_slice());
        assert(hasher@ =~= seq![
            spec_u32_to_le_bytes(w),
            spec_u32_to_le_bytes(h),
            spec_u64_to_le_bytes(combined),
        ]);
        hasher.finish()
    }
}

} // verus!
