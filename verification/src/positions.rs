//! Positions in a sequence: where a value stands, and what stands at given
//! positions.

use vstd::prelude::*;

verus! {

/// The positions of `s` that hold `v`, in ascending order.
pub open spec fn positions_of<V>(s: Seq<V>, v: V) -> Seq<usize>
    decreases s.len(),
{
    if s.len() == 0 {
        Seq::empty()
    } else {
        let rest = positions_of(s.drop_last(), v);
        if s.last() == v {
            rest.push((s.len() - 1) as usize)
        } else {
            rest
        }
    }
}

/// How often `v` occurs in `s`.
pub open spec fn count_of<V>(s: Seq<V>, v: V) -> nat {
    positions_of(s, v).len()
}

/// The items of `s` at `positions`, in the order of `positions`.
pub open spec fn gather<V>(s: Seq<V>, positions: Seq<usize>) -> Seq<V> {
    Seq::new(positions.len(), |k: int| s[positions[k] as int])
}

/// The items of `s` whose flag is set, in order; `flags` holds one flag per
/// item.
pub open spec fn kept<V>(s: Seq<V>, flags: Seq<bool>) -> Seq<V>
    decreases s.len(),
{
    if s.len() == 0 || flags.len() != s.len() {
        Seq::empty()
    } else if flags.last() {
        kept(s.drop_last(), flags.drop_last()).push(s.last())
    } else {
        kept(s.drop_last(), flags.drop_last())
    }
}

/// Whether every one of `positions` points into a sequence of length `len`.
pub open spec fn in_bounds(positions: Seq<usize>, len: nat) -> bool {
    forall|k: int| 0 <= k < positions.len() ==> (#[trigger] positions[k]) < len
}

/// Whether every one of `positions` points into a sequence of length `len`.
pub fn positions_fit(positions: &[usize], len: usize) -> (b: bool)
    ensures
        b == in_bounds(positions@, len as nat),
{
    let mut k: usize = 0;
    while k < positions.len()
        invariant
            k <= positions@.len(),
            forall|j: int| 0 <= j < k ==> (#[trigger] positions@[j]) < len,
        decreases positions.len() - k,
    {
        if positions[k] >= len {
            return false;
        }
        k = k + 1;
    }
    true
}

/// The positions `0, 1, .., n - 1`.
pub open spec fn all_positions(n: nat) -> Seq<usize> {
    Seq::new(n, |k: int| k as usize)
}

/// `positions_of(s, v)` holds exactly the positions of `s` at which `v`
/// stands, each once, in ascending order.
pub proof fn lemma_positions_of<V>(s: Seq<V>, v: V)
    requires
        s.len() <= usize::MAX,
    ensures
        positions_of(s, v).len() <= s.len(),
        forall|k: int|
            0 <= k < positions_of(s, v).len() ==> (#[trigger] positions_of(s, v)[k]) < s.len()
                && s[positions_of(s, v)[k] as int] == v,
        forall|j: int, k: int|
            0 <= j < k < positions_of(s, v).len() ==> positions_of(s, v)[j] < positions_of(s, v)[k],
        forall|i: int|
            0 <= i < s.len() && s[i] == v ==> positions_of(s, v).contains(i as usize),
    decreases s.len(),
{
    if s.len() > 0 {
        let t = s.drop_last();
        lemma_positions_of(t, v);
        let rest = positions_of(t, v);
        let r = positions_of(s, v);
        let n = (s.len() - 1) as usize;
        assert forall|i: int| 0 <= i < s.len() && s[i] == v implies r.contains(i as usize) by {
            if i < t.len() {
                assert(t[i] == v);
                let k = choose|k: int| 0 <= k < rest.len() && rest[k] == i as usize;
                assert(r[k] == i as usize);
            } else {
                assert(r[rest.len() as int] == n);
            }
        }
    }
}

/// Appending one item appends its position to the positions of that item
/// and leaves those of every other item as they were.
pub proof fn lemma_positions_of_push<V>(s: Seq<V>, x: V, v: V)
    ensures
        positions_of(s.push(x), v) == if x == v {
            positions_of(s, v).push(s.len() as usize)
        } else {
            positions_of(s, v)
        },
{
    assert(s.push(x).drop_last() =~= s);
}

/// An item has no position in a sequence exactly when it does not occur.
pub proof fn lemma_positions_of_absent<V>(s: Seq<V>, v: V)
    requires
        s.len() <= usize::MAX,
    ensures
        positions_of(s, v).len() == 0 <==> !s.contains(v),
{
    lemma_positions_of(s, v);
    if s.contains(v) {
        let i = choose|i: int| 0 <= i < s.len() && s[i] == v;
        assert(positions_of(s, v).contains(i as usize));
    }
    if positions_of(s, v).len() > 0 {
        let p = positions_of(s, v)[0];
        assert(s[p as int] == v);
    }
}

/// Whether `r` lists, in ascending order and each once, exactly the positions
/// of `s` that hold `v`.
pub open spec fn lists_positions<V>(r: Seq<usize>, s: Seq<V>, v: V) -> bool {
    &&& forall|k: int| 0 <= k < r.len() ==> (#[trigger] r[k]) < s.len() && s[r[k] as int] == v
    &&& forall|j: int, k: int| 0 <= j < k < r.len() ==> r[j] < r[k]
    &&& forall|i: int| 0 <= i < s.len() && s[i] == v ==> r.contains(i as usize)
}

/// Only one sequence lists the positions of `v` in `s`: `positions_of(s, v)`.
pub proof fn lemma_positions_of_unique<V>(r: Seq<usize>, s: Seq<V>, v: V)
    requires
        s.len() <= usize::MAX,
        lists_positions(r, s, v),
    ensures
        r == positions_of(s, v),
    decreases s.len(),
{
    if s.len() == 0 {
        if r.len() > 0 {
            assert(r[0] < s.len());
        }
        assert(r =~= positions_of(s, v));
    } else {
        let t = s.drop_last();
        let n = (s.len() - 1) as usize;
        if s.last() == v {
            assert(r.contains(n));
            let q = choose|q: int| 0 <= q < r.len() && r[q] == n;
            if q < r.len() - 1 {
                assert(r[q] < r[r.len() - 1]);
                assert(r[r.len() - 1] < s.len());
            }
            let head = r.drop_last();
            assert forall|i: int| 0 <= i < t.len() && t[i] == v implies head.contains(
                i as usize,
            ) by {
                assert(s[i] == v);
                let k = choose|k: int| 0 <= k < r.len() && r[k] == i as usize;
                assert(head[k] == i as usize);
            }
            assert forall|k: int| 0 <= k < head.len() implies (#[trigger] head[k]) < t.len()
                && t[head[k] as int] == v by {
                assert(r[k] < r[r.len() - 1]);
            }
            lemma_positions_of_unique(head, t, v);
            assert(r =~= head.push(n));
        } else {
            assert forall|k: int| 0 <= k < r.len() implies (#[trigger] r[k]) < t.len() && t[r[k] as int]
                == v by {
                assert(s[r[k] as int] == v);
            }
            assert forall|i: int| 0 <= i < t.len() && t[i] == v implies r.contains(i as usize) by {
                assert(s[i] == v);
            }
            lemma_positions_of_unique(r, t, v);
        }
    }
}

} // verus!
