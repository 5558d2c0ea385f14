//! The order of use of a bounded set of keys: the model of a cache that
//! forgets what was used longest ago.
//!
//! A sequence holds the keys from the least recently used, at index zero, to
//! the most recently used, at the end.

use vstd::prelude::*;

verus! {

/// The keys are distinct and no more than the limit, which is positive.
pub open spec fn bounded<A>(keys: Seq<A>, limit: nat) -> bool {
    keys.no_duplicates() && keys.len() <= limit && limit > 0
}

/// The order after `key` was looked up: a key that is there becomes the most
/// recently used, and nothing changes where it is not.
pub open spec fn touched<A>(keys: Seq<A>, key: A) -> Seq<A> {
    if keys.contains(key) {
        keys.remove(keys.index_of(key)).push(key)
    } else {
        keys
    }
}

/// The order after `key` was put in: it becomes the most recently used. A
/// key that was not there takes the place of the least recently used one
/// where the limit is reached.
pub open spec fn inserted<A>(keys: Seq<A>, key: A, limit: nat) -> Seq<A> {
    if keys.contains(key) {
        keys.remove(keys.index_of(key)).push(key)
    } else if keys.len() == limit {
        keys.drop_first().push(key)
    } else {
        keys.push(key)
    }
}

/// The order after the keys of `items` were put in one after another.
pub open spec fn inserted_all<A>(keys: Seq<A>, items: Seq<A>, limit: nat) -> Seq<A>
    decreases items.len(),
{
    if items.len() == 0 {
        keys
    } else {
        inserted(inserted_all(keys, items.drop_last(), limit), items.last(), limit)
    }
}

/// Taking one key out of a sequence of distinct keys leaves the others in
/// their order, distinct, and that key gone.
pub proof fn lemma_remove<A>(keys: Seq<A>, i: int)
    requires
        keys.no_duplicates(),
        0 <= i < keys.len(),
    ensures
        keys.remove(i).no_duplicates(),
        keys.remove(i).len() == keys.len() - 1,
        !keys.remove(i).contains(keys[i]),
        forall|x: A| x != keys[i] ==> (keys.remove(i).contains(x) <==> keys.contains(x)),
        forall|m: int| 0 <= m < i ==> keys.remove(i)[m] == keys[m],
        forall|m: int| i <= m < keys.len() - 1 ==> keys.remove(i)[m] == keys[m + 1],
{
    let r = keys.remove(i);
    assert forall|x: A| x != keys[i] implies (r.contains(x) <==> keys.contains(x)) by {
        if r.contains(x) {
            let m = choose|m: int| 0 <= m < r.len() && r[m] == x;
            if m < i {
                assert(keys[m] == x);
            } else {
                assert(keys[m + 1] == x);
            }
        }
        if keys.contains(x) {
            let m = choose|m: int| 0 <= m < keys.len() && keys[m] == x;
            if m < i {
                assert(r[m] == x);
            } else {
                assert(r[m - 1] == x);
            }
        }
    }
    if r.contains(keys[i]) {
        let m = choose|m: int| 0 <= m < r.len() && r[m] == keys[i];
        if m < i {
            assert(keys[m] == keys[i]);
        } else {
            assert(keys[m + 1] == keys[i]);
        }
    }
}

/// Putting a key in keeps the keys distinct and within the limit, makes the
/// key the most recently used, and adds no other key. A key that was there
/// leaves the number of keys as it was and every key in place; below the
/// limit nothing is lost; at the limit the least recently used key, and it
/// alone, is lost.
pub proof fn lemma_inserted<A>(keys: Seq<A>, key: A, limit: nat)
    requires
        bounded(keys, limit),
    ensures
        bounded(inserted(keys, key, limit), limit),
        inserted(keys, key, limit).last() == key,
        inserted(keys, key, limit).contains(key),
        forall|x: A| x != key && inserted(keys, key, limit).contains(x) ==> keys.contains(x),
        keys.contains(key) ==> inserted(keys, key, limit).len() == keys.len() && forall|x: A|
            keys.contains(x) ==> inserted(keys, key, limit).contains(x),
        !keys.contains(key) && keys.len() < limit ==> inserted(keys, key, limit).len()
            == keys.len() + 1 && forall|x: A|
            keys.contains(x) ==> inserted(keys, key, limit).contains(x),
        !keys.contains(key) && keys.len() == limit ==> inserted(keys, key, limit).len()
            == keys.len() && !inserted(keys, key, limit).contains(keys[0]) && forall|x: A|
            keys.contains(x) && x != keys[0] ==> inserted(keys, key, limit).contains(x),
{
    let r = inserted(keys, key, limit);
    if keys.contains(key) {
        let i = keys.index_of(key);
        lemma_remove(keys, i);
        let base = keys.remove(i);
        lemma_push(base, key);
    } else if keys.len() == limit {
        lemma_remove(keys, 0);
        assert(keys.drop_first() =~= keys.remove(0));
        lemma_push(keys.remove(0), key);
    } else {
        lemma_push(keys, key);
    }
}

/// Looking a key up keeps the keys distinct, their number and which keys
/// there are; a key that is there becomes the most recently used.
pub proof fn lemma_touched<A>(keys: Seq<A>, key: A, limit: nat)
    requires
        bounded(keys, limit),
    ensures
        bounded(touched(keys, key), limit),
        touched(keys, key).len() == keys.len(),
        forall|x: A| touched(keys, key).contains(x) <==> keys.contains(x),
        keys.contains(key) ==> touched(keys, key).last() == key,
{
    if keys.contains(key) {
        let i = keys.index_of(key);
        lemma_remove(keys, i);
        lemma_push(keys.remove(i), key);
    }
}

/// A new key at the end of distinct keys: still distinct, and the keys are
/// the old ones and the new one.
proof fn lemma_push<A>(keys: Seq<A>, key: A)
    requires
        keys.no_duplicates(),
        !keys.contains(key),
    ensures
        keys.push(key).no_duplicates(),
        keys.push(key).last() == key,
        forall|x: A| keys.push(key).contains(x) <==> x == key || keys.contains(x),
{
    let r = keys.push(key);
    assert forall|x: A| r.contains(x) <==> x == key || keys.contains(x) by {
        if r.contains(x) {
            let m = choose|m: int| 0 <= m < r.len() && r[m] == x;
            if m < keys.len() {
                assert(keys[m] == x);
            }
        }
        if keys.contains(x) {
            let m = choose|m: int| 0 <= m < keys.len() && keys[m] == x;
            assert(r[m] == x);
        }
        if x == key {
            assert(r[keys.len() as int] == x);
        }
    }
    assert forall|a: int, b: int| 0 <= a < r.len() && 0 <= b < r.len() && a != b implies r[a]
        != r[b] by {
        if a < keys.len() && b < keys.len() {
        } else if a < keys.len() {
            assert(keys.contains(keys[a]));
        } else {
            assert(keys.contains(keys[b]));
        }
    }
}

/// The keys behind a mark stay keys of the run when one more key of the run
/// is put at the end, whether the line before the mark kept its length
/// (`shift` is zero) or lost a key (`shift` is one).
proof fn lemma_tail_follows<A>(before: Seq<A>, r: Seq<A>, items: Seq<A>, at0: int, shift: int)
    requires
        items.len() >= 2,
        shift == 0 || shift == 1,
        shift <= at0,
        r.len() == before.len() + 1 - shift,
        r.last() == items.last(),
        forall|m: int| at0 - shift < m < r.len() - 1 ==> r[m] == before[m + shift],
        forall|m: int|
            at0 < m < before.len() ==> exists|q: int|
                1 <= q < items.len() - 1 && items[q] == #[trigger] before[m],
    ensures
        forall|m: int|
            at0 - shift < m < r.len() ==> exists|q: int|
                1 <= q < items.len() && items[q] == #[trigger] r[m],
{
    assert forall|m: int| at0 - shift < m < r.len() implies exists|q: int|
        1 <= q < items.len() && items[q] == #[trigger] r[m] by {
        if m == r.len() - 1 {
            assert(items[items.len() - 1] == r[m]);
        } else {
            let q = choose|q: int| 1 <= q < items.len() - 1 && items[q] == before[m + shift];
            assert(items[q] == r[m]);
        }
    }
}

/// Where the first of a run of distinct keys stands after the run was put
/// in: as many places from the end as keys came after it, with only those
/// keys behind it, if it is still there.
proof fn lemma_first_sinks<A>(keys: Seq<A>, items: Seq<A>, limit: nat)
    requires
        bounded(keys, limit),
        items.no_duplicates(),
        items.len() >= 1,
    ensures
        bounded(inserted_all(keys, items, limit), limit),
        inserted_all(keys, items, limit).contains(items[0]) ==> {
            let r = inserted_all(keys, items, limit);
            let at = r.len() - items.len();
            &&& 0 <= at
            &&& r[at] == items[0]
            &&& forall|m: int|
                at < m < r.len() ==> exists|q: int| 1 <= q < items.len() && items[q] == #[trigger] r[m]
        },
    decreases items.len(),
{
    let first = items[0];
    let x = items.last();
    let front = items.drop_last();
    let before = inserted_all(keys, front, limit);
    let r = inserted_all(keys, items, limit);
    assert(r == inserted(before, x, limit));
    if items.len() == 1 {
        assert(before == keys);
        lemma_inserted(keys, x, limit);
    } else {
        assert(front[0] == first);
        assert(front.no_duplicates());
        lemma_first_sinks(keys, front, limit);
        lemma_inserted(before, x, limit);
        assert(x != first);
        if r.contains(first) {
            assert(before.contains(first));
            let at0 = before.len() - front.len();
            assert(before[at0] == first);
            assert forall|m: int| at0 < m < before.len() implies exists|q: int|
                1 <= q < items.len() - 1 && items[q] == #[trigger] before[m] by {
                let q = choose|q: int| 1 <= q < front.len() && front[q] == before[m];
                assert(items[q] == before[m]);
            }
            assert forall|m: int| at0 < m < before.len() implies before[m] != x by {
                let q = choose|q: int| 1 <= q < items.len() - 1 && items[q] == before[m];
            }
            if before.contains(x) {
                let i = before.index_of(x);
                lemma_remove(before, i);
                assert(i < at0);
                let base = before.remove(i);
                assert(r == base.push(x));
                assert(r[at0 - 1] == base[at0 - 1]);
                lemma_tail_follows(before, r, items, at0, 1);
            } else if before.len() == limit {
                lemma_remove(before, 0);
                assert(before.drop_first() =~= before.remove(0));
                let base = before.remove(0);
                assert(r == base.push(x));
                if at0 == 0 {
                    assert(!base.contains(first));
                    lemma_push(base, x);
                    assert(false);
                }
                assert(r[at0 - 1] == base[at0 - 1]);
                lemma_tail_follows(before, r, items, at0, 1);
            } else {
                assert(r == before.push(x));
                assert(r[at0] == before[at0]);
                lemma_tail_follows(before, r, items, at0, 0);
            }
        }
    }
}

/// After one more distinct key than the limit was put in, the first of them
/// is gone: each later key pushed it one place towards the end of the line,
/// and the line is no longer than the limit.
pub proof fn lemma_oldest_is_forgotten<A>(keys: Seq<A>, items: Seq<A>, limit: nat)
    requires
        bounded(keys, limit),
        items.no_duplicates(),
        items.len() == limit + 1,
    ensures
        !inserted_all(keys, items, limit).contains(items[0]),
        bounded(inserted_all(keys, items, limit), limit),
{
    lemma_first_sinks(keys, items, limit);
}

/// Putting in a key that is there does not add a key: the number of keys
/// stays, and so stays within the limit.
pub proof fn lemma_reinsert_does_not_grow<A>(keys: Seq<A>, key: A, limit: nat)
    requires
        bounded(keys, limit),
        keys.contains(key),
    ensures
        inserted(keys, key, limit).len() == keys.len(),
        inserted(keys, key, limit).len() <= limit,
        forall|x: A| inserted(keys, key, limit).contains(x) <==> keys.contains(x),
{
    lemma_inserted(keys, key, limit);
}

} // verus!
