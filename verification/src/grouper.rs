//! Rows sorted into groups by a key per row.

use vstd::prelude::*;
use vstd::slice::slice_to_vec;
use crate::indexer::{is_first_position, views, Indexer};
use crate::label::Label;
use crate::positions::{in_bounds, lemma_positions_of, lemma_positions_of_absent, positions_of};

verus! {

/// Whether `distinct` holds each value of `s` once and nothing else.
pub open spec fn lists_distinct<V>(distinct: Seq<V>, s: Seq<V>) -> bool {
    &&& distinct.no_duplicates()
    &&& forall|v: V| distinct.contains(v) <==> s.contains(v)
}

/// The values of `s`, each once, in the order in which they first occur.
pub open spec fn distinct_of<V>(s: Seq<V>) -> Seq<V>
    decreases s.len(),
{
    if s.len() == 0 {
        Seq::empty()
    } else if s.drop_last().contains(s.last()) {
        distinct_of(s.drop_last())
    } else {
        distinct_of(s.drop_last()).push(s.last())
    }
}

/// `distinct_of(s)` holds each value of `s` once and nothing else.
pub proof fn lemma_distinct_of<V>(s: Seq<V>)
    ensures
        lists_distinct(distinct_of(s), s),
    decreases s.len(),
{
    if s.len() > 0 {
        let head = s.drop_last();
        lemma_distinct_of(head);
        assert(head.push(s.last()) =~= s);
        if head.contains(s.last()) {
            lemma_push_seen(distinct_of(head), head, s.last());
        } else {
            lemma_push_keeps_distinct(distinct_of(head), head, s.last());
        }
    }
}

/// What appending one value to `s` does to `distinct_of(s)`.
pub proof fn lemma_distinct_of_push<V>(s: Seq<V>, v: V)
    ensures
        distinct_of(s.push(v)) == if s.contains(v) {
            distinct_of(s)
        } else {
            distinct_of(s).push(v)
        },
{
    assert(s.push(v).drop_last() =~= s);
}

/// The rows of a source, sorted into groups by a key per row.
///
/// The group of a key is the list of the rows that carry it, in row order;
/// every row is in exactly one group.
#[derive(Debug)]
pub struct HashGrouper<G: Label> {
    rows: Indexer<G>,
    distinct: Vec<G>,
}

impl<G: Label> HashGrouper<G> {
    /// The key of every row, by its view, in row order.
    pub closed spec fn row_keys(&self) -> Seq<G::V> {
        self.rows@
    }

    /// The distinct keys are those of the rows, in the order in which they
    /// first occur.
    pub closed spec fn wf(&self) -> bool {
        &&& self.rows.wf()
        &&& views(self.distinct@) == distinct_of(self.rows@)
    }

    /// Groups the rows `0..keys.len()` by `keys`.
    pub fn groupby(keys: &[G]) -> (r: Self)
        ensures
            r.wf(),
            r.row_keys() == views(keys@),
    {
        let rows = Indexer::new(slice_to_vec(keys));
        let mut distinct: Vec<G> = Vec::new();
        let mut k: usize = 0;
        let ghost kv = views(keys@);
        proof {
            assert(kv.take(0) =~= Seq::<G::V>::empty());
            assert(views(distinct@) =~= distinct_of(kv.take(0)));
        }
        while k < keys.len()
            invariant
                k <= keys@.len(),
                rows.wf(),
                rows@ == kv,
                kv == views(keys@),
                views(distinct@) == distinct_of(kv.take(k as int)),
            decreases keys.len() - k,
        {
            let key = keys[k];
            let ghost listed = views(distinct@);
            let ghost seen = kv.take(k as int);
            let is_new = match rows.get_loc(&key) {
                Ok(p) => p == k,
                Err(_) => false,
            };
            proof {
                assert(kv[k as int] == key@);
                assert(kv.take(k + 1) =~= seen.push(key@));
                lemma_distinct_of_push(seen, key@);
                if is_new {
                    if seen.contains(key@) {
                        let i = choose|i: int| 0 <= i < seen.len() && seen[i] == key@;
                        assert(kv[i] == key@);
                    }
                } else {
                    assert(kv.contains(key@));
                    let p = choose|p: usize| is_first_position(kv, key@, p) && p != k;
                    assert(seen[p as int] == key@);
                }
            }
            if is_new {
                distinct.push(key);
                proof {
                    assert(views(distinct@) =~= listed.push(key@));
                }
            }
            k = k + 1;
        }
        proof {
            assert(kv.take(keys@.len() as int) =~= kv);
        }
        HashGrouper { rows, distinct }
    }

    /// The rows of the group of `key`, in row order; none where no row
    /// carries `key`.
    pub fn members(&self, key: &G) -> (r: Vec<usize>)
        requires
            self.wf(),
        ensures
            r@ == positions_of(self.row_keys(), key@),
            r@.len() > 0 <==> self.row_keys().contains(key@),
            in_bounds(r@, self.row_keys().len()),
    {
        let r = self.rows.get_all_locs(key);
        let n = self.rows.len();
        proof {
            lemma_positions_of_absent(self.rows@, key@);
            lemma_positions_of(self.rows@, key@);
        }
        r
    }

    /// The rows of the group of `key`, in row order; `None` where no row
    /// carries `key`.
    pub fn get(&self, key: &G) -> (r: Option<Vec<usize>>)
        requires
            self.wf(),
        ensures
            match r {
                Some(members) => members@ == positions_of(self.row_keys(), key@)
                    && self.row_keys().contains(key@),
                None => !self.row_keys().contains(key@),
            },
    {
        let members = self.members(key);
        if members.len() == 0 {
            None
        } else {
            Some(members)
        }
    }

    /// Each key once, in the order in which the keys first occur.
    pub fn keys(&self) -> (r: Vec<G>)
        requires
            self.wf(),
        ensures
            views(r@) == distinct_of(self.row_keys()),
    {
        slice_to_vec(self.distinct.as_slice())
    }

    /// The number of groups.
    pub fn len(&self) -> (n: usize)
        requires
            self.wf(),
        ensures
            n == self.row_keys().to_set().len(),
    {
        proof {
            let d = views(self.distinct@);
            lemma_distinct_of(self.rows@);
            d.unique_seq_to_set();
            assert(d.to_set() =~= self.rows@.to_set());
        }
        self.distinct.len()
    }
}

/// A value that is new to `seen` stays listed once when it is appended to
/// both the listing and `seen`.
proof fn lemma_push_keeps_distinct<V>(distinct: Seq<V>, seen: Seq<V>, v: V)
    requires
        lists_distinct(distinct, seen),
        !seen.contains(v),
    ensures
        lists_distinct(distinct.push(v), seen.push(v)),
{
    let d = distinct.push(v);
    let s = seen.push(v);
    assert forall|i: int, j: int| 0 <= i < d.len() && 0 <= j < d.len() && i != j implies d[i]
        != d[j] by {
        if i < distinct.len() {
            assert(distinct.contains(d[i]));
        }
        if j < distinct.len() {
            assert(distinct.contains(d[j]));
        }
    }
    assert forall|w: V| d.contains(w) <==> s.contains(w) by {
        if d.contains(w) {
            let i = choose|i: int| 0 <= i < d.len() && d[i] == w;
            if i < distinct.len() {
                assert(distinct.contains(w));
                let j = choose|j: int| 0 <= j < seen.len() && seen[j] == w;
                assert(s[j] == w);
            } else {
                assert(s[seen.len() as int] == w);
            }
        }
        if s.contains(w) {
            let j = choose|j: int| 0 <= j < s.len() && s[j] == w;
            if j < seen.len() {
                assert(seen.contains(w));
                let i = choose|i: int| 0 <= i < distinct.len() && distinct[i] == w;
                assert(d[i] == w);
            } else {
                assert(d[distinct.len() as int] == w);
            }
        }
    }
}

/// Appending to `seen` a value that it already holds changes no listing.
proof fn lemma_push_seen<V>(distinct: Seq<V>, seen: Seq<V>, v: V)
    requires
        lists_distinct(distinct, seen),
        seen.contains(v),
    ensures
        lists_distinct(distinct, seen.push(v)),
{
    let s = seen.push(v);
    assert forall|w: V| distinct.contains(w) <==> s.contains(w) by {
        if seen.contains(w) {
            let j = choose|j: int| 0 <= j < seen.len() && seen[j] == w;
            assert(s[j] == w);
        }
        if s.contains(w) {
            let j = choose|j: int| 0 <= j < s.len() && s[j] == w;
            if j < seen.len() {
                assert(seen[j] == w);
            }
        }
    }
}

} // verus!
