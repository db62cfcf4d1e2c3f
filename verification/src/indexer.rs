//! Label sequences with a lookup from label to position.

use vstd::prelude::*;
use crate::error::Error;
use crate::label::Label;
use crate::lookup::PositionTable;
use crate::positions::{
    gather, in_bounds, lemma_positions_of, lemma_positions_of_unique, lists_positions,
    positions_fit, positions_of,
};

verus! {

/// The views of a sequence of labels.
pub open spec fn views<U: View>(s: Seq<U>) -> Seq<U::V> {
    s.map_values(|u: U| u@)
}

/// The codes of a sequence of labels.
pub open spec fn codes_of<U: Label>(s: Seq<U>) -> Seq<u64> {
    s.map_values(|u: U| U::code_of(u@))
}

/// Whether `p` is the first position of `s` that holds `v`.
pub open spec fn is_first_position<V>(s: Seq<V>, v: V, p: usize) -> bool {
    &&& p < s.len()
    &&& s[p as int] == v
    &&& forall|j: int| 0 <= j < p ==> s[j] != v
}

/// The first position in `s` of each of `labels`, in their order. It is
/// meant for labels that all occur in `s`.
pub open spec fn first_positions<V>(s: Seq<V>, labels: Seq<V>) -> Seq<usize> {
    Seq::new(labels.len(), |k: int| positions_of(s, labels[k])[0])
}

/// Whether every one of `labels` occurs in `s`.
pub open spec fn all_known<V>(s: Seq<V>, labels: Seq<V>) -> bool {
    forall|k: int| 0 <= k < labels.len() ==> s.contains(#[trigger] labels[k])
}

/// The first position of a value is the first of its positions.
pub proof fn lemma_first_position<V>(s: Seq<V>, v: V, p: usize)
    requires
        s.len() <= usize::MAX,
        is_first_position(s, v, p),
    ensures
        positions_of(s, v).len() > 0,
        positions_of(s, v)[0] == p,
{
    lemma_positions_of(s, v);
    let found = positions_of(s, v);
    assert(found.contains(p));
    let j = choose|j: int| 0 <= j < found.len() && found[j] == p;
    if j > 0 {
        assert(found[0] < found[j]);
        assert(s[found[0] as int] == v);
    }
}

/// An ordered sequence of labels with a table that finds the positions of a
/// label. The same label may stand at several positions; a lookup answers
/// with the first of them.
#[derive(Debug)]
pub struct Indexer<U: Label> {
    values: Vec<U>,
    table: PositionTable,
}

impl<U: Label> View for Indexer<U> {
    type V = Seq<U::V>;

    /// The labels, by their views, in order.
    open spec fn view(&self) -> Seq<U::V> {
        views(self.labels())
    }
}

impl<U: Label> Indexer<U> {
    /// The labels themselves, in order.
    pub closed spec fn labels(&self) -> Seq<U> {
        self.values@
    }

    /// The labels themselves, in order.
    pub fn values(&self) -> (v: &Vec<U>)
        ensures
            v@ == self.labels(),
    {
        &self.values
    }

    /// The table is that of the labels as they stand.
    pub closed spec fn wf(&self) -> bool {
        self.table.tabulates(codes_of(self.values@))
    }

    /// Builds the label sequence and its table in one pass.
    pub fn new(values: Vec<U>) -> (r: Self)
        ensures
            r.wf(),
            r.labels() == values@,
    {
        let mut table = PositionTable::new();
        let n = values.len();
        let mut i: usize = 0;
        assert(codes_of(values@.take(0)) =~= Seq::<u64>::empty());
        while i < n
            invariant
                n == values.len(),
                i <= n,
                table.tabulates(codes_of(values@.take(i as int))),
            decreases n - i,
        {
            let c = values[i].code();
            table.push(c);
            proof {
                assert(codes_of(values@.take(i as int)).push(c) =~= codes_of(
                    values@.take(i + 1),
                ));
            }
            i = i + 1;
        }
        assert(values@.take(n as int) =~= values@);
        Indexer { values, table }
    }

    pub fn len(&self) -> (n: usize)
        ensures
            n == self@.len(),
    {
        self.values.len()
    }

    /// The first position of `label`.
    pub fn get_loc(&self, label: &U) -> (r: Result<usize, Error>)
        requires
            self.wf(),
        ensures
            match r {
                Ok(p) => is_first_position(self@, label@, p),
                Err(e) => e == Error::UnknownLabel && !self@.contains(label@),
            },
    {
        let code = label.code();
        let n = self.values.len();
        let ghost codes = codes_of(self.values@);
        proof {
            assert(codes.len() == n);
            lemma_positions_of(codes, code);
        }
        match self.table.get(code) {
            None => {
                proof {
                    lemma_no_code_no_label(self.values@, *label);
                }
                Err(Error::UnknownLabel)
            },
            Some(bucket) => {
                let mut k: usize = 0;
                while k < bucket.len()
                    invariant
                        k <= bucket.len(),
                        bucket@ == positions_of(codes, code),
                        codes == codes_of(self.values@),
                        codes.len() == self.values@.len(),
                        n == self.values@.len(),
                        code == U::code_of(label@),
                        forall|j: int|
                            0 <= j < bucket@.len() ==> (#[trigger] bucket@[j]) < codes.len(),
                        forall|j: int| 0 <= j < k ==> self.values@[bucket@[j] as int]@ != label@,
                    decreases bucket.len() - k,
                {
                    let p = bucket[k];
                    if self.values[p].same(label) {
                        proof {
                            lemma_bucket_scan(self.values@, *label, k as int);
                            assert(self@[p as int] == label@);
                        }
                        return Ok(p);
                    }
                    k = k + 1;
                }
                proof {
                    lemma_bucket_scan(self.values@, *label, bucket@.len() as int);
                    if self@.contains(label@) {
                        let i = choose|i: int| 0 <= i < self@.len() && self@[i] == label@;
                        assert(self.values@[i]@ == label@);
                    }
                }
                Err(Error::UnknownLabel)
            },
        }
    }

    /// Every position of `label`, ascending; empty where it does not occur.
    pub fn get_all_locs(&self, label: &U) -> (r: Vec<usize>)
        requires
            self.wf(),
        ensures
            r@ == positions_of(self@, label@),
    {
        let code = label.code();
        let n = self.values.len();
        let ghost codes = codes_of(self.values@);
        let mut r: Vec<usize> = Vec::new();
        proof {
            assert(codes.len() == n);
            lemma_positions_of(codes, code);
        }
        match self.table.get(code) {
            None => {
                proof {
                    lemma_no_code_no_label(self.values@, *label);
                }
            },
            Some(bucket) => {
                let mut k: usize = 0;
                while k < bucket.len()
                    invariant
                        k <= bucket.len(),
                        bucket@ == positions_of(codes, code),
                        codes == codes_of(self.values@),
                        n == self.values@.len(),
                        code == U::code_of(label@),
                        forall|j: int|
                            0 <= j < bucket@.len() ==> (#[trigger] bucket@[j]) < codes.len(),
                        forall|i: int, j: int|
                            0 <= i < j < bucket@.len() ==> bucket@[i] < bucket@[j],
                        forall|q: int|
                            0 <= q < r@.len() ==> exists|j: int|
                                0 <= j < k && bucket@[j] == #[trigger] r@[q],
                        forall|q: int|
                            0 <= q < r@.len() ==> self.values@[(#[trigger] r@[q]) as int]@
                                == label@,
                        forall|p: int, q: int| 0 <= p < q < r@.len() ==> r@[p] < r@[q],
                        forall|j: int|
                            0 <= j < k && self.values@[bucket@[j] as int]@ == label@
                                ==> r@.contains(#[trigger] bucket@[j]),
                    decreases bucket.len() - k,
                {
                    let p = bucket[k];
                    if self.values[p].same(label) {
                        let ghost before = r@;
                        r.push(p);
                        proof {
                            assert forall|q: int| 0 <= q < r@.len() implies exists|j: int|
                                0 <= j < k + 1 && bucket@[j] == #[trigger] r@[q] by {
                                if q < before.len() {
                                    let j = choose|j: int| 0 <= j < k && bucket@[j] == before[q];
                                    assert(bucket@[j] == r@[q]);
                                } else {
                                    assert(bucket@[k as int] == r@[q]);
                                }
                            }
                            assert forall|a: int, b: int| 0 <= a < b < r@.len() implies r@[a]
                                < r@[b] by {
                                if b == before.len() {
                                    let j = choose|j: int| 0 <= j < k && bucket@[j] == before[a];
                                    assert(bucket@[j] < bucket@[k as int]);
                                }
                            }
                            assert forall|j: int|
                                0 <= j < k + 1 && self.values@[bucket@[j] as int]@
                                    == label@ implies r@.contains(#[trigger] bucket@[j]) by {
                                if j < k {
                                    let q = choose|q: int|
                                        0 <= q < before.len() && before[q] == bucket@[j];
                                    assert(r@[q] == bucket@[j]);
                                } else {
                                    assert(r@[before.len() as int] == bucket@[j]);
                                }
                            }
                        }
                    }
                    k = k + 1;
                }
            },
        }
        proof {
            assert forall|i: int| 0 <= i < self@.len() && self@[i] == label@ implies r@.contains(
                i as usize,
            ) by {
                assert(codes[i] == code);
                assert(positions_of(codes, code).contains(i as usize));
            }
            assert forall|q: int| 0 <= q < r@.len() implies (#[trigger] r@[q]) < self@.len()
                && self@[r@[q] as int] == label@ by {
                assert(self.values@[r@[q] as int]@ == label@);
            }
            assert(lists_positions(r@, self@, label@));
            lemma_positions_of_unique(r@, self@, label@);
        }
        r
    }

    /// The first position of each of `labels`, in their order.
    pub fn get_locs(&self, labels: &[U]) -> (r: Result<Vec<usize>, Error>)
        requires
            self.wf(),
        ensures
            match r {
                Ok(locs) => {
                    &&& all_known(self@, views(labels@))
                    &&& locs@ == first_positions(self@, views(labels@))
                    &&& in_bounds(locs@, self@.len())
                },
                Err(e) => e == Error::UnknownLabel && !all_known(self@, views(labels@)),
            },
    {
        let mut locs: Vec<usize> = Vec::with_capacity(labels.len());
        let mut k: usize = 0;
        let n = self.values.len();
        let ghost wanted = views(labels@);
        while k < labels.len()
            invariant
                self.wf(),
                n == self@.len(),
                wanted == views(labels@),
                k <= labels@.len(),
                locs@.len() == k,
                forall|j: int| 0 <= j < k ==> self@.contains(#[trigger] wanted[j]),
                forall|j: int|
                    0 <= j < k ==> (#[trigger] locs@[j]) == positions_of(self@, wanted[j])[0]
                        && locs@[j] < self@.len(),
            decreases labels.len() - k,
        {
            match self.get_loc(&labels[k]) {
                Ok(p) => {
                    proof {
                        lemma_first_position(self@, labels@[k as int]@, p);
                        assert(self@[p as int] == wanted[k as int]);
                    }
                    locs.push(p);
                },
                Err(e) => {
                    assert(!self@.contains(wanted[k as int]));
                    return Err(e);
                },
            }
            k = k + 1;
        }
        assert(locs@ =~= first_positions(self@, wanted));
        Ok(locs)
    }

    /// The labels at `positions`, in the order of `positions`; a position may
    /// occur several times.
    pub fn reindex(&self, positions: &[usize]) -> (r: Result<Self, Error>)
        ensures
            match r {
                Ok(out) => {
                    &&& in_bounds(positions@, self@.len())
                    &&& out.wf()
                    &&& out.labels() == gather(self.labels(), positions@)
                    &&& out@ == gather(self@, positions@)
                },
                Err(e) => e == Error::OutOfBounds && !in_bounds(positions@, self@.len()),
            },
    {
        if positions_fit(positions, self.values.len()) {
            Ok(self.take(positions))
        } else {
            Err(Error::OutOfBounds)
        }
    }

    /// The labels at `positions`, which all point into the labels.
    pub fn take(&self, positions: &[usize]) -> (out: Self)
        requires
            in_bounds(positions@, self@.len()),
        ensures
            out.wf(),
            out.labels() == gather(self.labels(), positions@),
            out@ == gather(self@, positions@),
    {
        let mut picked: Vec<U> = Vec::with_capacity(positions.len());
        let mut k: usize = 0;
        while k < positions.len()
            invariant
                k <= positions@.len(),
                in_bounds(positions@, self.values@.len()),
                picked@.len() == k,
                forall|j: int| 0 <= j < k ==> picked@[j] == self.values@[positions@[j] as int],
            decreases positions.len() - k,
        {
            let p = positions[k];
            assert(positions@[k as int] < self.values@.len());
            picked.push(self.values[p]);
            k = k + 1;
        }
        let out = Indexer::new(picked);
        proof {
            assert(out.values@ =~= gather(self.values@, positions@));
            assert(out@ =~= gather(self@, positions@));
        }
        out
    }

    /// The labels of `self` followed by those of `other`.
    pub fn append(&self, other: &Self) -> (out: Self)
        ensures
            out.wf(),
            out.labels() == self.labels() + other.labels(),
            out@ == self@ + other@,
    {
        let mut joined: Vec<U> = Vec::with_capacity(self.values.len());
        let mut k: usize = 0;
        while k < self.values.len()
            invariant
                k <= self.values@.len(),
                joined@ == self.values@.take(k as int),
            decreases self.values.len() - k,
        {
            joined.push(self.values[k]);
            proof {
                assert(self.values@.take(k as int).push(self.values@[k as int])
                    =~= self.values@.take(k + 1));
            }
            k = k + 1;
        }
        assert(self.values@.take(self.values@.len() as int) =~= self.values@);
        let mut j: usize = 0;
        while j < other.values.len()
            invariant
                j <= other.values@.len(),
                joined@ == self.values@ + other.values@.take(j as int),
            decreases other.values.len() - j,
        {
            joined.push(other.values[j]);
            proof {
                assert((self.values@ + other.values@.take(j as int)).push(other.values@[j as int])
                    =~= self.values@ + other.values@.take(j + 1));
            }
            j = j + 1;
        }
        assert(other.values@.take(other.values@.len() as int) =~= other.values@);
        let out = Indexer::new(joined);
        proof {
            assert(out@ =~= self@ + other@);
        }
        out
    }

    /// Appends one label in place.
    pub fn push(&mut self, label: U)
        requires
            old(self).wf(),
            old(self)@.len() < usize::MAX,
        ensures
            final(self).wf(),
            final(self).labels() == old(self).labels().push(label),
            final(self)@ == old(self)@.push(label@),
    {
        let ghost before = self.values@;
        self.table.push(label.code());
        self.values.push(label);
        proof {
            assert(codes_of(before).push(U::code_of(label@)) =~= codes_of(before.push(label)));
            assert(views(before).push(label@) =~= views(before.push(label)));
        }
    }

    /// A copy of the labels.
    pub fn copy_values(&self) -> (r: Vec<U>)
        ensures
            r@ == self.labels(),
    {
        let mut r: Vec<U> = Vec::with_capacity(self.values.len());
        let mut k: usize = 0;
        while k < self.values.len()
            invariant
                k <= self.values@.len(),
                r@ == self.values@.take(k as int),
            decreases self.values.len() - k,
        {
            r.push(self.values[k]);
            proof {
                assert(self.values@.take(k as int).push(self.values@[k as int])
                    =~= self.values@.take(k + 1));
            }
            k = k + 1;
        }
        assert(self.values@.take(self.values@.len() as int) =~= self.values@);
        r
    }

    /// Whether the two hold the same labels in the same order.
    pub fn equals(&self, other: &Self) -> (b: bool)
        ensures
            b == (self@ == other@),
    {
        if self.values.len() != other.values.len() {
            assert(self@.len() != other@.len());
            return false;
        }
        let mut k: usize = 0;
        while k < self.values.len()
            invariant
                k <= self.values@.len(),
                self.values@.len() == other.values@.len(),
                forall|j: int| 0 <= j < k ==> self@[j] == other@[j],
            decreases self.values.len() - k,
        {
            if !self.values[k].same(&other.values[k]) {
                assert(self@[k as int] != other@[k as int]);
                return false;
            }
            k = k + 1;
        }
        assert(self@ =~= other@);
        true
    }
}

impl<U: Label> PartialEq for Indexer<U> {
    /// Whether the two hold the same labels in the same order; the tables
    /// are not compared.
    fn eq(&self, other: &Self) -> (b: bool) {
        self.equals(other)
    }
}

impl<U: Label> vstd::std_specs::cmp::PartialEqSpecImpl for Indexer<U> {
    open spec fn obeys_eq_spec() -> bool {
        true
    }

    open spec fn eq_spec(&self, other: &Self) -> bool {
        self@ == other@
    }
}

impl<U: Label> From<Vec<U>> for Indexer<U> {
    fn from(values: Vec<U>) -> (r: Self)
        ensures
            r.wf(),
            r.labels() == values@,
    {
        Indexer::new(values)
    }
}

impl<U: Label> vstd::std_specs::convert::FromSpecImpl<Vec<U>> for Indexer<U> {
    open spec fn obeys_from_spec() -> bool {
        false
    }

    open spec fn from_spec(values: Vec<U>) -> Self {
        arbitrary()
    }
}

impl<U: Label> Clone for Indexer<U> {
    fn clone(&self) -> (out: Self)
        ensures
            out.labels() == self.labels(),
            out@ == self@,
            self.wf() ==> out.wf(),
    {
        Indexer { values: self.copy_values(), table: self.table.clone() }
    }
}

/// Where no position carries the code of `label`, no position holds `label`.
proof fn lemma_no_code_no_label<U: Label>(values: Seq<U>, label: U)
    requires
        values.len() <= usize::MAX,
        positions_of(codes_of(values), U::code_of(label@)).len() == 0,
    ensures
        !views(values).contains(label@),
{
    lemma_positions_of(codes_of(values), U::code_of(label@));
    if views(values).contains(label@) {
        let i = choose|i: int| 0 <= i < views(values).len() && views(values)[i] == label@;
        assert(codes_of(values)[i] == U::code_of(label@));
        assert(positions_of(codes_of(values), U::code_of(label@)).contains(i as usize));
    }
}

/// Once the first `k` positions of the bucket of `label`'s code are known not
/// to hold `label`, no position before the bucket's `k`-th holds it; with the
/// whole bucket scanned, none does.
proof fn lemma_bucket_scan<U: Label>(values: Seq<U>, label: U, k: int)
    requires
        values.len() <= usize::MAX,
        0 <= k <= positions_of(codes_of(values), U::code_of(label@)).len(),
        forall|j: int|
            0 <= j < k ==> values[positions_of(codes_of(values), U::code_of(label@))[j] as int]@
                != label@,
    ensures
        k < positions_of(codes_of(values), U::code_of(label@)).len() ==> forall|i: int|
            0 <= i < positions_of(codes_of(values), U::code_of(label@))[k] ==> views(values)[i]
                != label@,
        k == positions_of(codes_of(values), U::code_of(label@)).len() ==> forall|i: int|
            0 <= i < values.len() ==> views(values)[i] != label@,
{
    let codes = codes_of(values);
    let code = U::code_of(label@);
    let bucket = positions_of(codes, code);
    lemma_positions_of(codes, code);
    assert forall|i: int|
        0 <= i < values.len() && views(values)[i] == label@ implies exists|j: int|
        k <= j < bucket.len() && bucket[j] == i by {
        assert(codes[i] == code);
        assert(bucket.contains(i as usize));
        let j = choose|j: int| 0 <= j < bucket.len() && bucket[j] == i as usize;
        if j < k {
            assert(values[bucket[j] as int]@ != label@);
        }
    }
    if k < bucket.len() {
        assert forall|i: int| 0 <= i < bucket[k] implies views(values)[i] != label@ by {
            if views(values)[i] == label@ {
                let j = choose|j: int| k <= j < bucket.len() && bucket[j] == i;
                assert(bucket[k] <= bucket[j]);
            }
        }
    }
}

} // verus!
