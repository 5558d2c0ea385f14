//! Coordinates on a torus: wrapping, the eight neighbours of a point and the
//! count of live points among them.

use vstd::arithmetic::div_mod::lemma_fundamental_div_mod_converse;
use vstd::prelude::*;

verus! {

/// `v` brought into `0..n` by the mathematical modulo, whose result is never
/// negative.
pub open spec fn wrap(v: int, n: int) -> int {
    v % n
}

/// The eight steps to the neighbours of a point, in a fixed order. Step
/// `7 - i` is the opposite of step `i`.
pub open spec fn offset(i: int) -> (int, int) {
    if i == 0 {
        (-1, -1)
    } else if i == 1 {
        (-1, 0)
    } else if i == 2 {
        (-1, 1)
    } else if i == 3 {
        (0, -1)
    } else if i == 4 {
        (0, 1)
    } else if i == 5 {
        (1, -1)
    } else if i == 6 {
        (1, 0)
    } else {
        (1, 1)
    }
}

/// Whether `p` is a point of the `w` by `h` torus.
pub open spec fn on_torus(w: int, h: int, p: (int, int)) -> bool {
    0 <= p.0 < w && 0 <= p.1 < h
}

/// The `i`-th neighbour of `p` on the `w` by `h` torus.
pub open spec fn neighbor(w: int, h: int, p: (int, int), i: int) -> (int, int) {
    (wrap(p.0 + offset(i).0, w), wrap(p.1 + offset(i).1, h))
}

/// How many of the first `n` neighbours of `p` are in `alive`. A point that
/// is the neighbour of `p` by several steps, as happens on a torus less than
/// three wide or high, counts once for each.
pub open spec fn live_among(alive: Set<(int, int)>, w: int, h: int, p: (int, int), n: nat) -> nat
    decreases n,
{
    if n == 0 {
        0
    } else {
        live_among(alive, w, h, p, (n - 1) as nat) + if alive.contains(
            neighbor(w, h, p, n - 1),
        ) {
            1nat
        } else {
            0nat
        }
    }
}

/// The number of live cells around `p`: one for each of the eight steps that
/// leads to a point of `alive`.
pub open spec fn live_neighbors(alive: Set<(int, int)>, w: int, h: int, p: (int, int)) -> nat {
    live_among(alive, w, h, p, 8)
}

/// By how many of the first `n` steps `to` is reached from `from`.
pub open spec fn steps_between(w: int, h: int, from: (int, int), to: (int, int), n: nat) -> nat
    decreases n,
{
    if n == 0 {
        0
    } else {
        steps_between(w, h, from, to, (n - 1) as nat) + if neighbor(w, h, from, n - 1) == to {
            1nat
        } else {
            0nat
        }
    }
}

/// Close to `0..n` the modulo adds or takes away `n` once.
pub proof fn lemma_wrap_near(v: int, n: int)
    requires
        0 < n,
        -n <= v < 2 * n,
    ensures
        wrap(v, n) == if v < 0 {
            v + n
        } else if v >= n {
            v - n
        } else {
            v
        },
        0 <= wrap(v, n) < n,
{
    if v < 0 {
        lemma_fundamental_div_mod_converse(v, n, -1, v + n);
    } else if v >= n {
        lemma_fundamental_div_mod_converse(v, n, 1, v - n);
    } else {
        lemma_fundamental_div_mod_converse(v, n, 0, v);
    }
}

/// Every neighbour of a point of the torus is a point of the torus.
pub proof fn lemma_neighbor_on_torus(w: int, h: int, p: (int, int), i: int)
    requires
        0 < w,
        0 < h,
        on_torus(w, h, p),
    ensures
        on_torus(w, h, neighbor(w, h, p, i)),
{
    lemma_wrap_near(p.0 + offset(i).0, w);
    lemma_wrap_near(p.1 + offset(i).1, h);
}

/// A step leads from `a` to `c` exactly when the opposite step leads from
/// `c` to `a`.
pub proof fn lemma_neighbor_symmetric(w: int, h: int, a: (int, int), c: (int, int), i: int)
    requires
        0 < w,
        0 < h,
        on_torus(w, h, a),
        on_torus(w, h, c),
        0 <= i < 8,
    ensures
        neighbor(w, h, a, i) == c <==> neighbor(w, h, c, 7 - i) == a,
{
    lemma_wrap_near(a.0 + offset(i).0, w);
    lemma_wrap_near(a.1 + offset(i).1, h);
    lemma_wrap_near(c.0 + offset(7 - i).0, w);
    lemma_wrap_near(c.1 + offset(7 - i).1, h);
}

/// Adjacency on the torus is symmetric, step for step: `c` is reached from
/// `a` as often as `a` from `c`.
pub proof fn lemma_steps_symmetric(w: int, h: int, a: (int, int), c: (int, int))
    requires
        0 < w,
        0 < h,
        on_torus(w, h, a),
        on_torus(w, h, c),
    ensures
        steps_between(w, h, a, c, 8) == steps_between(w, h, c, a, 8),
{
    reveal_with_fuel(steps_between, 9);
    lemma_neighbor_symmetric(w, h, a, c, 0);
    lemma_neighbor_symmetric(w, h, a, c, 1);
    lemma_neighbor_symmetric(w, h, a, c, 2);
    lemma_neighbor_symmetric(w, h, a, c, 3);
    lemma_neighbor_symmetric(w, h, a, c, 4);
    lemma_neighbor_symmetric(w, h, a, c, 5);
    lemma_neighbor_symmetric(w, h, a, c, 6);
    lemma_neighbor_symmetric(w, h, a, c, 7);
}

/// Neither count exceeds the number of steps looked at.
pub proof fn lemma_counts_bounded(
    alive: Set<(int, int)>,
    w: int,
    h: int,
    p: (int, int),
    q: (int, int),
    n: nat,
)
    ensures
        live_among(alive, w, h, p, n) <= n,
        steps_between(w, h, p, q, n) <= n,
    decreases n,
{
    if n > 0 {
        lemma_counts_bounded(alive, w, h, p, q, (n - 1) as nat);
    }
}

/// A point that joins the live set adds to the count around `p` one for each
/// step that leads from `p` to it.
pub proof fn lemma_live_among_insert(
    alive: Set<(int, int)>,
    w: int,
    h: int,
    p: (int, int),
    a: (int, int),
    n: nat,
)
    requires
        !alive.contains(a),
    ensures
        live_among(alive.insert(a), w, h, p, n) == live_among(alive, w, h, p, n) + steps_between(
            w,
            h,
            p,
            a,
            n,
        ),
    decreases n,
{
    if n > 0 {
        lemma_live_among_insert(alive, w, h, p, a, (n - 1) as nat);
    }
}

/// With no live point there is no live neighbour.
pub proof fn lemma_live_among_empty(w: int, h: int, p: (int, int), n: nat)
    ensures
        live_among(Set::<(int, int)>::empty(), w, h, p, n) == 0,
    decreases n,
{
    if n > 0 {
        lemma_live_among_empty(w, h, p, (n - 1) as nat);
    }
}

/// On every torus the origin and the far corner are neighbours: the first
/// step from `(0, 0)` wraps round both edges to `(w - 1, h - 1)`, and a live
/// cell there is counted among the neighbours of the origin.
pub proof fn lemma_origin_touches_far_corner(alive: Set<(int, int)>, w: int, h: int)
    requires
        0 < w,
        0 < h,
    ensures
        neighbor(w, h, (0, 0), 0) == (w - 1, h - 1),
        alive.contains((w - 1, h - 1)) ==> live_neighbors(alive, w, h, (0, 0)) >= 1,
{
    lemma_wrap_near(-1, w);
    lemma_wrap_near(-1, h);
    reveal_with_fuel(live_among, 9);
}

} // verus!
