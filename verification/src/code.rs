//! Coordinates as single integers: a pair of `u32` packed into one `u64`, so
//! that sets of coordinates can be held in the hashed and ordered
//! collections of the standard library.

use vstd::prelude::*;

verus! {

/// Whether both parts of `p` fit a `u32`.
pub open spec fn is_coordinate(p: (int, int)) -> bool {
    0 <= p.0 <= u32::MAX && 0 <= p.1 <= u32::MAX
}

/// The code of the coordinate `p`: `x` in the upper half, `y` in the lower.
pub open spec fn encode(p: (int, int)) -> u64 {
    (p.0 * 0x1_0000_0000 + p.1) as u64
}

/// The coordinate that `k` is the code of.
pub open spec fn decode(k: u64) -> (int, int) {
    (k as int / 0x1_0000_0000, k as int % 0x1_0000_0000)
}

/// The coordinates whose codes are in `codes`.
pub open spec fn cells_of(codes: Set<u64>) -> Set<(int, int)> {
    Set::new(|p: (int, int)| is_coordinate(p) && codes.contains(encode(p)))
}

/// Coding loses nothing: every coordinate comes back from its code, and
/// every `u64` is the code of the coordinate it decodes to.
pub proof fn lemma_code_round_trip(p: (int, int), k: u64)
    ensures
        is_coordinate(p) ==> decode(encode(p)) == p,
        is_coordinate(decode(k)),
        encode(decode(k)) == k,
{
}

/// A code that joins a set adds its coordinate, and nothing else.
pub proof fn lemma_cells_of_insert(codes: Set<u64>, k: u64)
    ensures
        cells_of(codes.insert(k)) == cells_of(codes).insert(decode(k)),
        cells_of(codes).contains(decode(k)) <==> codes.contains(k),
{
    assert forall|p: (int, int)|
        cells_of(codes.insert(k)).contains(p) <==> cells_of(codes).insert(decode(k)).contains(
            p,
        ) by {
        lemma_code_round_trip(p, k);
    }
    assert(cells_of(codes.insert(k)) =~= cells_of(codes).insert(decode(k)));
}

/// No code, no coordinate.
pub proof fn lemma_cells_of_empty()
    ensures
        cells_of(Set::<u64>::empty()) == Set::<(int, int)>::empty(),
{
    assert(cells_of(Set::<u64>::empty()) =~= Set::<(int, int)>::empty());
}

/// A finite set of codes stands for a finite set of coordinates, of the same
/// size.
pub proof fn lemma_cells_of_len(codes: Set<u64>)
    requires
        codes.finite(),
    ensures
        cells_of(codes).finite(),
        cells_of(codes).len() == codes.len(),
    decreases codes.len(),
{
    if codes.is_empty() {
        assert(codes =~= Set::<u64>::empty());
        lemma_cells_of_empty();
    } else {
        let k = codes.choose();
        let rest = codes.remove(k);
        lemma_cells_of_len(rest);
        lemma_cells_of_insert(rest, k);
        assert(rest.insert(k) =~= codes);
    }
}

/// Extending a prefix of a sequence by one element adds that element to the
/// set of the prefix.
pub proof fn lemma_take_to_set<A>(s: Seq<A>, k: int)
    requires
        0 <= k < s.len(),
    ensures
        s.take(k + 1).to_set() == s.take(k).to_set().insert(s[k]),
        s.no_duplicates() ==> !s.take(k).to_set().contains(s[k]),
{
    let a = s.take(k);
    let b = s.take(k + 1);
    assert forall|x: A| b.to_set().contains(x) <==> a.to_set().insert(s[k]).contains(x) by {
        if b.contains(x) {
            let i = choose|i: int| 0 <= i < b.len() && b[i] == x;
            if i < k {
                assert(a[i] == x);
            }
        }
        if a.contains(x) {
            let i = choose|i: int| 0 <= i < a.len() && a[i] == x;
            assert(b[i] == x);
        }
        if x == s[k] {
            assert(b[k] == x);
        }
    }
    assert(b.to_set() =~= a.to_set().insert(s[k]));
    if s.no_duplicates() && a.contains(s[k]) {
        let i = choose|i: int| 0 <= i < a.len() && a[i] == s[k];
        assert(s[i] == s[k]);
    }
}

/// Packs a coordinate into its code.
pub fn code_of(x: u32, y: u32) -> (k: u64)
    ensures
        k == encode((x as int, y as int)),
{
    x as u64 * 0x1_0000_0000 + y as u64
}

/// The first part of the coordinate that `k` stands for.
pub fn x_of(k: u64) -> (x: u32)
    ensures
        x == decode(k).0,
{
    (k / 0x1_0000_0000) as u32
}

/// The second part of the coordinate that `k` stands for.
pub fn y_of(k: u64) -> (y: u32)
    ensures
        y == decode(k).1,
{
    (k % 0x1_0000_0000) as u32
}

} // verus!
