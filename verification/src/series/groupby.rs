//! A series seen through its groups: one result per group.

use vstd::prelude::*;
use crate::computations::{summable, total};
use crate::error::Error;
use crate::groupby::GroupBy;
use crate::indexer::{views, Indexer};
use crate::label::{Label, SortKey};
use crate::number::Number;
use crate::positions::gather;
use crate::series::Series;
use crate::sort::ascending;
use crate::traits::RowIndex;

verus! {

impl<T: Copy, U: Label> RowIndex for Series<T, U> {
    open spec fn row_count(&self) -> nat {
        self.values@.len()
    }

    open spec fn valid(&self) -> bool {
        self.wf()
    }

    open spec fn holds_rows(&self, locations: Seq<usize>, out: &Self) -> bool {
        &&& out.values@ == gather(self.values@, locations)
        &&& out.index@ == gather(self.index@, locations)
    }

    fn len(&self) -> (n: usize) {
        self.values.len()
    }

    fn rows_at(&self, locations: &[usize]) -> (out: Self) {
        self.take(locations)
    }
}

impl<T: Copy, U: Label> Series<T, U> {
    /// The series seen through `other`, which holds the key of every row.
    pub fn groupby<G: Label>(&self, other: Vec<G>) -> (r: Result<GroupBy<'_, Series<T, U>, G>, Error>)
        requires
            self.wf(),
        ensures
            match r {
                Ok(g) => {
                    &&& other@.len() == self.values@.len()
                    &&& g.wf()
                    &&& g.data == self
                    &&& g.keys() == views(other@)
                },
                Err(e) => e == Error::LengthMismatch && other@.len() != self.values@.len(),
            },
    {
        GroupBy::new(self, other.as_slice())
    }
}

impl<'a, T: Copy, U: Label, G: SortKey> GroupBy<'a, Series<T, U>, G> {
    /// Whether `s` holds the rows of the group of `key`.
    pub open spec fn holds_group(&self, key: G::V, s: Series<T, U>) -> bool {
        &&& self.keys().contains(key)
        &&& s.wf()
        &&& s.values@ == gather(self.data.values@, self.members(key))
        &&& s.index@ == gather(self.data.index@, self.members(key))
    }

    /// Whether `r` has one row per distinct key, under the keys in
    /// ascending order.
    pub open spec fn one_row_per_group<W: Copy>(&self, r: Series<W, G>) -> bool {
        &&& r.wf()
        &&& ascending::<G>(r.index@)
        &&& forall|v: G::V| r.index@.contains(v) <==> self.keys().contains(v)
    }

    /// Whether `w` is what `func` makes of the group of `key`.
    pub open spec fn made_of_group<W: Copy, F: Fn(&Series<T, U>) -> W>(
        &self,
        func: F,
        key: G::V,
        w: W,
    ) -> bool {
        exists|s: Series<T, U>| #[trigger] self.holds_group(key, s) && call_ensures(func, (&s,), w)
    }

    /// What `func` makes of every group: one result per distinct key, under
    /// the keys in ascending order. `func` is called once per group, in that
    /// order.
    pub fn apply<W: Copy, F: Fn(&Series<T, U>) -> W>(&self, func: &F) -> (r: Series<W, G>)
        requires
            self.wf(),
            forall|key: G::V, s: Series<T, U>| #[trigger]
                self.holds_group(key, s) ==> call_requires(*func, (&s,)),
        ensures
            self.one_row_per_group(r),
            forall|i: int|
                0 <= i < r.values@.len() ==> self.made_of_group(
                    *func,
                    r.index@[i],
                    #[trigger] r.values@[i],
                ),
    {
        let groups = self.groups();
        let mut new_values: Vec<W> = Vec::with_capacity(groups.len());
        let mut k: usize = 0;
        let ghost gv = views(groups@);
        while k < groups.len()
            invariant
                k <= groups@.len(),
                self.wf(),
                gv == views(groups@),
                forall|v: G::V| gv.contains(v) <==> self.keys().contains(v),
                forall|key: G::V, s: Series<T, U>| #[trigger]
                    self.holds_group(key, s) ==> call_requires(*func, (&s,)),
                new_values@.len() == k,
                forall|i: int|
                    0 <= i < k ==> self.made_of_group(*func, gv[i], #[trigger] new_values@[i]),
            decreases groups.len() - k,
        {
            assert(gv.contains(gv[k as int]));
            let locations = self.grouper.members(&groups[k]);
            let s = self.data.take(locations.as_slice());
            assert(self.holds_group(gv[k as int], s));
            let w = func(&s);
            assert(self.made_of_group(*func, gv[k as int], w));
            new_values.push(w);
            k = k + 1;
        }
        let index = Indexer::new(groups);
        Series { values: new_values, index }
    }

    /// The sum of every group.
    pub fn sum(&self) -> (r: Series<T, G>) where T: Number
        requires
            self.wf(),
            forall|key: G::V|
                self.keys().contains(key) ==> summable(
                    gather(self.data.values@, #[trigger] self.members(key)),
                ),
        ensures
            self.one_row_per_group(r),
            forall|i: int|
                0 <= i < r.values@.len() ==> (#[trigger] r.values@[i]).value() == total(
                    gather(self.data.values@, self.members(r.index@[i])),
                ),
    {
        let each = |x: &Series<T, U>| -> (s: T)
            requires
                summable(x.values@),
            ensures
                s.value() == total(x.values@),
            { x.sum() };
        assert forall|key: G::V, s: Series<T, U>| #[trigger]
            self.holds_group(key, s) implies call_requires(each, (&s,)) by {
            assert(summable(gather(self.data.values@, self.members(key))));
        }
        let r = self.apply(&each);
        assert forall|i: int| 0 <= i < r.values@.len() implies (#[trigger] r.values@[i]).value()
            == total(gather(self.data.values@, self.members(r.index@[i]))) by {
            assert(self.made_of_group(each, r.index@[i], r.values@[i]));
        }
        r
    }

    /// The number of rows of every group.
    pub fn count(&self) -> (r: Series<usize, G>)
        requires
            self.wf(),
        ensures
            self.one_row_per_group(r),
            forall|i: int|
                0 <= i < r.values@.len() ==> (#[trigger] r.values@[i]) == self.members(
                    r.index@[i],
                ).len(),
    {
        let each = |x: &Series<T, U>| -> (n: usize)
            ensures
                n == x.values@.len(),
            { x.len() };
        let r = self.apply(&each);
        assert forall|i: int| 0 <= i < r.values@.len() implies (#[trigger] r.values@[i])
            == self.members(r.index@[i]).len() by {
            assert(self.made_of_group(each, r.index@[i], r.values@[i]));
        }
        r
    }
}

} // verus!
