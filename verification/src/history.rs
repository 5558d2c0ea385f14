//! A bounded memory of grid snapshots, for noticing that a simulation has
//! come back to a state it was in before.

use crate::recency::{bounded, inserted, lemma_inserted, lemma_touched, touched};
use crate::snapshot::{lemma_view_of_key_injective, view_of_key, Snapshot, SnapshotView};
use lru::LruCache;
use std::collections::BTreeSet;
use std::num::NonZeroUsize;
use vstd::prelude::*;

verus! {

/// `lru::DefaultHasher`, the hasher that a cache made by `LruCache::new`
/// uses. Nothing is said of it: it is only carried inside the cache.
#[verifier::external_type_specification]
#[verifier::external_body]
pub struct ExLruHasher(lru::DefaultHasher);

/// `lru::LruCache`, a map that holds a limited number of keys and drops the
/// least recently used one to make room. Nothing of its inside is visible:
/// what it holds is named by [`cache_keys`] and [`cache_limit`].
#[verifier::external_type_specification]
#[verifier::external_body]
#[verifier::reject_recursive_types(K)]
#[verifier::reject_recursive_types(V)]
#[verifier::reject_recursive_types(S)]
pub struct ExLruCache<K, V, S>(LruCache<K, V, S>);

/// The keys that a cache holds, from the least recently used to the most
/// recently used, each with its set of codes as a mathematical set.
pub uninterp spec fn cache_keys(cache: LruCache<(u32, u32, BTreeSet<u64>), ()>) -> Seq<
    (u32, u32, Set<u64>),
>;

/// The number of keys that a cache was made to hold.
pub uninterp spec fn cache_limit(cache: LruCache<(u32, u32, BTreeSet<u64>), ()>) -> nat;

/// `LruCache::new`: a cache with no key in it, made to hold `capacity` keys.
/// The capacity must not be zero, of which `NonZeroUsize` has no value.
#[verifier::external_body]
fn cache_new(capacity: usize) -> (cache: LruCache<(u32, u32, BTreeSet<u64>), ()>)
    requires
        capacity > 0,
    ensures
        cache_keys(cache) == Seq::<(u32, u32, Set<u64>)>::empty(),
        cache_limit(cache) == capacity,
{
    LruCache::new(NonZeroUsize::new(capacity).unwrap())
}

/// `LruCache::get`: whether an equal key is held. A key that is held moves
/// to the most recently used place; otherwise nothing changes.
#[verifier::external_body]
fn cache_get(
    cache: &mut LruCache<(u32, u32, BTreeSet<u64>), ()>,
    key: &(u32, u32, BTreeSet<u64>),
) -> (found: bool)
    ensures
        found == cache_keys(*old(cache)).contains((key.0, key.1, key.2@)),
        cache_keys(*final(cache)) == touched(cache_keys(*old(cache)), (key.0, key.1, key.2@)),
        cache_limit(*final(cache)) == cache_limit(*old(cache)),
{
    cache.get(key).is_some()
}

/// `LruCache::put`: the key becomes the most recently used. Where no equal
/// key was held and the cache holds as many keys as it was made for, the
/// least recently used key leaves.
#[verifier::external_body]
fn cache_put(cache: &mut LruCache<(u32, u32, BTreeSet<u64>), ()>, key: (u32, u32, BTreeSet<u64>))
    ensures
        cache_keys(*final(cache)) == inserted(
            cache_keys(*old(cache)),
            (key.0, key.1, key.2@),
            cache_limit(*old(cache)),
        ),
        cache_limit(*final(cache)) == cache_limit(*old(cache)),
{
    cache.put(key, ());
}

/// `LruCache::len`: the number of keys held.
#[verifier::external_body]
fn cache_len(cache: &LruCache<(u32, u32, BTreeSet<u64>), ()>) -> (len: usize)
    ensures
        len == cache_keys(*cache).len(),
{
    cache.len()
}

/// `LruCache::cap`: the number of keys that the cache was made to hold.
#[verifier::external_body]
fn cache_cap(cache: &LruCache<(u32, u32, BTreeSet<u64>), ()>) -> (cap: usize)
    ensures
        cap == cache_limit(*cache),
{
    cache.cap().get()
}

/// What a sequence of keys stands for, key by key.
pub open spec fn views_of(keys: Seq<(u32, u32, Set<u64>)>) -> Seq<SnapshotView> {
    keys.map_values(|key: (u32, u32, Set<u64>)| view_of_key(key))
}

/// Keys and what they stand for go together: the same are distinct, the same
/// are found, and looking up or putting in a key does to the contents what
/// it does to the keys.
proof fn lemma_views_follow_keys(keys: Seq<(u32, u32, Set<u64>)>, key: (u32, u32, Set<u64>), limit: nat)
    requires
        bounded(views_of(keys), limit),
    ensures
        keys.no_duplicates(),
        views_of(keys).contains(view_of_key(key)) <==> keys.contains(key),
        views_of(touched(keys, key)) == touched(views_of(keys), view_of_key(key)),
        views_of(inserted(keys, key, limit)) == inserted(views_of(keys), view_of_key(key), limit),
{
    let views = views_of(keys);
    let target = view_of_key(key);
    assert forall|a: int, b: int| 0 <= a < keys.len() && 0 <= b < keys.len() && a != b implies keys[a]
        != keys[b] by {
        assert(views[a] != views[b]);
    }
    if views.contains(target) {
        let m = choose|m: int| 0 <= m < views.len() && views[m] == target;
        lemma_view_of_key_injective(keys[m], key);
        assert(keys[m] == key);
    }
    if keys.contains(key) {
        let m = choose|m: int| 0 <= m < keys.len() && keys[m] == key;
        assert(views[m] == target);
        let i = keys.index_of(key);
        let vi = views.index_of(target);
        assert(views[i] == target);
        assert(vi == i);
        assert(views_of(keys.remove(i)) =~= views.remove(i));
        assert(views_of(keys.remove(i).push(key)) =~= views.remove(i).push(target));
    } else {
        if keys.len() > 0 {
            assert(views_of(keys.drop_first().push(key)) =~= views.drop_first().push(target));
        }
        assert(views_of(keys.push(key)) =~= views.push(target));
    }
}

/// A memory of the last snapshots put in, at most as many as its capacity.
/// It answers whether a snapshot equal in content is remembered. When it is
/// full, a new snapshot takes the place of the one used longest ago.
pub struct HistoryTracker {
    cache: LruCache<(u32, u32, BTreeSet<u64>), ()>,
}

impl View for HistoryTracker {
    type V = Seq<SnapshotView>;

    /// The snapshots remembered, from the one used longest ago to the one
    /// used last.
    closed spec fn view(&self) -> Seq<SnapshotView> {
        views_of(cache_keys(self.cache))
    }
}

impl HistoryTracker {
    /// The capacity that the tracker was made with.
    pub closed spec fn limit(&self) -> nat {
        cache_limit(self.cache)
    }

    /// The invariant of the type: no snapshot is remembered twice, and no
    /// more are remembered than the capacity, which is positive.
    pub open spec fn wf(&self) -> bool {
        bounded(self@, self.limit())
    }

    /// A tracker that remembers nothing yet and will remember up to
    /// `capacity` snapshots.
    pub fn new(capacity: usize) -> (tracker: HistoryTracker)
        requires
            capacity > 0,
        ensures
            tracker.wf(),
            tracker@ == Seq::<SnapshotView>::empty(),
            tracker.limit() == capacity,
    {
        let tracker = HistoryTracker { cache: cache_new(capacity) };
        assert(tracker@ =~= Seq::<SnapshotView>::empty());
        tracker
    }

    /// Whether a snapshot of the same dimensions and live cells is
    /// remembered. One that is becomes the most recently used; nothing is
    /// added or forgotten.
    pub fn contains(&mut self, snapshot: &Snapshot) -> (found: bool)
        requires
            old(self).wf(),
        ensures
            final(self).wf(),
            found == old(self)@.contains(snapshot@),
            final(self)@ == touched(old(self)@, snapshot@),
            final(self)@.len() == old(self)@.len(),
            final(self).limit() == old(self).limit(),
    {
        proof {
            snapshot.lemma_view();
            lemma_views_follow_keys(cache_keys(self.cache), snapshot.spec_key(), self.limit());
            lemma_touched(self@, snapshot@, self.limit());
        }
        cache_get(&mut self.cache, snapshot.key())
    }

    /// Remembers `snapshot` as the most recently used. If an equal one was
    /// remembered, the number remembered stays; otherwise, at capacity, the
    /// one used longest ago is forgotten.
    pub fn insert(&mut self, snapshot: Snapshot)
        requires
            old(self).wf(),
        ensures
            final(self).wf(),
            final(self)@ == inserted(old(self)@, snapshot@, old(self).limit()),
            final(self)@.contains(snapshot@),
            old(self)@.contains(snapshot@) ==> final(self)@.len() == old(self)@.len(),
            final(self).limit() == old(self).limit(),
    {
        proof {
            snapshot.lemma_view();
            lemma_views_follow_keys(cache_keys(self.cache), snapshot.spec_key(), self.limit());
            lemma_inserted(self@, snapshot@, self.limit());
        }
        cache_put(&mut self.cache, snapshot.into_key());
    }

    /// The number of snapshots remembered.
    pub fn len(&self) -> (len: usize)
        ensures
            len == self@.len(),
    {
        cache_len(&self.cache)
    }

    /// The greatest number of snapshots remembered at a time.
    pub fn capacity(&self) -> (capacity: usize)
        ensures
            capacity == self.limit(),
    {
        cache_cap(&self.cache)
    }
}

} // verus!
