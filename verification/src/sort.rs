//! Keys put in ascending order.

use vstd::prelude::*;
use crate::indexer::views;
use crate::label::SortKey;

verus! {

/// Whether each item of `s` comes strictly before every later one.
pub open spec fn ascending<G: SortKey>(s: Seq<G::V>) -> bool {
    forall|i: int, j: int| 0 <= i < j < s.len() ==> G::before(s[i], s[j])
}

/// The keys in ascending order. The keys must be distinct: of two equal keys
/// neither comes before the other.
pub fn sort_keys<G: SortKey>(keys: &Vec<G>) -> (r: Vec<G>)
    requires
        views(keys@).no_duplicates(),
    ensures
        ascending::<G>(views(r@)),
        r@.len() == keys@.len(),
        forall|v: G::V| views(r@).contains(v) <==> views(keys@).contains(v),
{
    let mut out: Vec<G> = Vec::with_capacity(keys.len());
    let mut k: usize = 0;
    let ghost kv = views(keys@);
    while k < keys.len()
        invariant
            k <= keys@.len(),
            kv == views(keys@),
            kv.no_duplicates(),
            out@.len() == k,
            ascending::<G>(views(out@)),
            forall|v: G::V| views(out@).contains(v) <==> kv.take(k as int).contains(v),
        decreases keys.len() - k,
    {
        let x = keys[k];
        let ghost ov = views(out@);
        proof {
            G::before_is_strict_total();
            assert(kv[k as int] == x@);
            if ov.contains(x@) {
                let seen = kv.take(k as int);
                let j = choose|j: int| 0 <= j < seen.len() && seen[j] == x@;
                assert(kv[j] == kv[k as int]);
            }
        }
        let mut i: usize = 0;
        let mut found = false;
        while i < out.len() && !found
            invariant
                i <= out@.len(),
                ov == views(out@),
                forall|j: int| 0 <= j < i ==> !G::before(x@, ov[j]),
                found ==> i < out@.len() && G::before(x@, ov[i as int]),
            decreases out.len() - i + (if found { 0int } else { 1int }),
        {
            if x.precedes(&out[i]) {
                found = true;
            } else {
                i = i + 1;
            }
        }
        out.insert(i, x);
        proof {
            let nv = views(out@);
            assert(nv =~= ov.insert(i as int, x@));
            assert forall|a: int, b: int| 0 <= a < b < nv.len() implies G::before(nv[a], nv[b]) by {
                if b < i {
                } else if b == i {
                    assert(ov.contains(ov[a]));
                } else if a < i {
                    assert(ov.contains(ov[a]));
                    assert(G::before(ov[a], x@));
                    if i < b - 1 {
                        assert(G::before(ov[i as int], ov[b - 1]));
                    }
                } else if a == i {
                    if i < b - 1 {
                        assert(G::before(ov[i as int], ov[b - 1]));
                    }
                } else {
                    assert(G::before(ov[a - 1], ov[b - 1]));
                }
            }
            assert(kv.take(k + 1) =~= kv.take(k as int).push(x@));
            assert forall|v: G::V| nv.contains(v) <==> kv.take(k + 1).contains(v) by {
                if nv.contains(v) {
                    let a = choose|a: int| 0 <= a < nv.len() && nv[a] == v;
                    if a < i {
                        assert(ov[a] == v);
                        assert(ov.contains(v));
                    } else if a > i {
                        assert(ov[a - 1] == v);
                        assert(ov.contains(v));
                    }
                    if v != x@ {
                        let seen = kv.take(k as int);
                        let j = choose|j: int| 0 <= j < seen.len() && seen[j] == v;
                        assert(kv.take(k + 1)[j] == v);
                    } else {
                        assert(kv.take(k + 1)[k as int] == v);
                    }
                }
                if kv.take(k + 1).contains(v) {
                    let grown = kv.take(k + 1);
                    let j = choose|j: int| 0 <= j < grown.len() && grown[j] == v;
                    if j < k {
                        assert(kv.take(k as int)[j] == v);
                        assert(ov.contains(v));
                        let a = choose|a: int| 0 <= a < ov.len() && ov[a] == v;
                        if a < i {
                            assert(nv[a] == v);
                        } else {
                            assert(nv[a + 1] == v);
                        }
                    } else {
                        assert(nv[i as int] == v);
                    }
                }
            }
        }
        k = k + 1;
    }
    proof {
        assert(kv.take(keys@.len() as int) =~= kv);
    }
    out
}

} // verus!
