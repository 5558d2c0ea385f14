//! The content of a grid at one generation, in a form that can be compared
//! and kept: the dimensions and the set of live coordinates.

use crate::code::{cells_of, lemma_cells_of_insert, lemma_take_to_set};
use std::collections::{BTreeSet, HashSet};
use vstd::prelude::*;

verus! {

broadcast use {
    vstd::std_specs::hash::group_hash_axioms,
    vstd::std_specs::btree::group_btree_axioms,
};

/// What a snapshot records: nothing but the dimensions and which cells are
/// alive.
pub struct SnapshotView {
    pub width: nat,
    pub height: nat,
    pub alive: Set<(int, int)>,
}

/// The content of a grid at one generation. Two snapshots are equal when
/// their dimensions and their live cells are, however each was built.
pub struct Snapshot {
    key: (u32, u32, BTreeSet<u64>),
}

/// What a key of dimensions and codes stands for.
pub open spec fn view_of_key(key: (u32, u32, Set<u64>)) -> SnapshotView {
    SnapshotView { width: key.0 as nat, height: key.1 as nat, alive: cells_of(key.2) }
}

/// Keys that stand for the same content are the same key.
pub proof fn lemma_view_of_key_injective(a: (u32, u32, Set<u64>), b: (u32, u32, Set<u64>))
    requires
        view_of_key(a) == view_of_key(b),
    ensures
        a == b,
{
    assert forall|k: u64| a.2.contains(k) <==> b.2.contains(k) by {
        lemma_cells_of_insert(a.2, k);
        lemma_cells_of_insert(b.2, k);
    }
    assert(a.2 =~= b.2);
}

impl View for Snapshot {
    type V = SnapshotView;

    closed spec fn view(&self) -> SnapshotView {
        view_of_key(self.spec_key())
    }
}

impl Snapshot {
    /// The key by which the snapshot is compared.
    pub closed spec fn spec_key(&self) -> (u32, u32, Set<u64>) {
        (self.key.0, self.key.1, self.key.2@)
    }

    /// The view is the content that the key stands for.
    pub proof fn lemma_view(&self)
        ensures
            self@ == view_of_key(self.spec_key()),
    {
    }

    /// A snapshot of the given dimensions whose live cells are those coded
    /// in `codes`.
    pub(crate) fn from_set(width: u32, height: u32, codes: &HashSet<u64>) -> (snapshot: Snapshot)
        ensures
            snapshot@ == (SnapshotView {
                width: width as nat,
                height: height as nat,
                alive: cells_of(codes@),
            }),
    {
        let mut ordered: BTreeSet<u64> = BTreeSet::new();
        for k in it: codes.iter()
            invariant
                ordered@ == it.seq().take(it.index()).unref().to_set(),
                it.seq().unref().to_set() == codes@,
        {
            proof {
                let all = it.seq().unref();
                lemma_take_to_set(all, it.index());
                assert(all.take(it.index()) == it.seq().take(it.index()).unref());
                assert(all.take(it.index() + 1) == it.seq().take(it.index() + 1).unref());
            }
            ordered.insert(*k);
        }
        proof {
            assert(forall|q: Seq<&u64>| q.take(q.len() as int) == q);
        }
        Snapshot { key: (width, height, ordered) }
    }

    /// The key, for the cache that holds it.
    pub(crate) fn key(&self) -> (key: &(u32, u32, BTreeSet<u64>))
        ensures
            (key.0, key.1, key.2@) == self.spec_key(),
    {
        &self.key
    }

    /// Gives the key up to the cache that will hold it.
    pub(crate) fn into_key(self) -> (key: (u32, u32, BTreeSet<u64>))
        ensures
            (key.0, key.1, key.2@) == self.spec_key(),
    {
        self.key
    }

    /// The number of columns of the grid that was recorded.
    pub fn width(&self) -> (w: u32)
        ensures
            w == self@.width,
    {
        self.key.0
    }

    /// The number of rows of the grid that was recorded.
    pub fn height(&self) -> (h: u32)
        ensures
            h == self@.height,
    {
        self.key.1
    }
}

} // verus!
