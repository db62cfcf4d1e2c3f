//! Series: one column of values under labels.

use vstd::prelude::*;
use crate::error::Error;
use crate::indexer::{all_known, first_positions, is_first_position, views, Indexer};
use crate::label::{Label, Ordinal};
use crate::positions::{
    gather, in_bounds, kept, lemma_positions_of, lemma_positions_of_absent, positions_fit,
};

pub mod aggregation;
pub mod convert;
pub mod groupby;
pub mod ops;

verus! {

/// The labels that number the rows `0..n`.
pub open spec fn ordinals<U: Ordinal>(n: nat) -> Seq<U::V> {
    Seq::new(n, |p: int| U::nth(p as usize))
}

/// A column of values with one label per value.
#[derive(Debug)]
pub struct Series<T: Copy, U: Label> {
    pub values: Vec<T>,
    pub index: Indexer<U>,
}

impl<T: Copy, U: Label> Series<T, U> {
    /// The labels have their table and there is one label per value.
    pub open spec fn wf(&self) -> bool {
        &&& self.index.wf()
        &&& self.values@.len() == self.index@.len()
    }

    /// A series of `values` whose labels number the rows from 0.
    pub fn from_vec(values: Vec<T>) -> (r: Self) where U: Ordinal
        ensures
            r.wf(),
            r.values@ == values@,
            r.index@ == ordinals::<U>(values@.len()),
    {
        let mut labels: Vec<U> = Vec::with_capacity(values.len());
        let mut i: usize = 0;
        while i < values.len()
            invariant
                i <= values@.len(),
                labels@.len() == i,
                forall|p: int| 0 <= p < i ==> (#[trigger] labels@[p])@ == U::nth(p as usize),
            decreases values.len() - i,
        {
            labels.push(U::from_position(i));
            i = i + 1;
        }
        let index = Indexer::new(labels);
        assert(index@ =~= ordinals::<U>(values@.len()));
        Series { values, index }
    }

    /// A series of `values` under the labels `index`, one per value.
    pub fn new(values: Vec<T>, index: Vec<U>) -> (r: Result<Self, Error>)
        ensures
            match r {
                Ok(s) => {
                    &&& values@.len() == index@.len()
                    &&& s.wf()
                    &&& s.values@ == values@
                    &&& s.index@ == views(index@)
                },
                Err(e) => e == Error::LengthMismatch && values@.len() != index@.len(),
            },
    {
        if values.len() != index.len() {
            return Err(Error::LengthMismatch);
        }
        Ok(Series { values, index: Indexer::new(index) })
    }

    /// The number of values.
    pub fn len(&self) -> (n: usize)
        ensures
            n == self.values@.len(),
    {
        self.values.len()
    }

    /// A series with the same values under the same labels.
    pub fn copy(&self) -> (r: Self)
        ensures
            r.values@ == self.values@,
            r.index@ == self.index@,
            self.wf() ==> r.wf(),
    {
        Series { values: copy_of(&self.values), index: self.index.clone() }
    }

    /// The value under `label`; under the first, where several rows carry it.
    pub fn get_by_label(&mut self, label: &U) -> (r: Result<T, Error>)
        requires
            old(self).wf(),
        ensures
            *final(self) == *old(self),
            match r {
                Ok(v) => exists|p: usize|
                    is_first_position(old(self).index@, label@, p) && v == old(self).values@[p as int],
                Err(e) => e == Error::UnknownLabel && !old(self).index@.contains(label@),
            },
    {
        match self.index.get_loc(label) {
            Ok(p) => Ok(self.values[p]),
            Err(e) => Err(e),
        }
    }

    /// The value at `location`.
    pub fn get_by_index(&self, location: &usize) -> (r: Result<T, Error>)
        ensures
            match r {
                Ok(v) => *location < self.values@.len() && v == self.values@[*location as int],
                Err(e) => e == Error::OutOfBounds && *location >= self.values@.len(),
            },
    {
        if *location < self.values.len() {
            Ok(self.values[*location])
        } else {
            Err(Error::OutOfBounds)
        }
    }

    /// The rows under `labels`, in the order of `labels`; of the rows that
    /// carry the same label, the first.
    pub fn slice_by_label(&mut self, labels: &Vec<U>) -> (r: Result<Self, Error>)
        requires
            old(self).wf(),
        ensures
            *final(self) == *old(self),
            match r {
                Ok(out) => {
                    &&& all_known(old(self).index@, views(labels@))
                    &&& out.wf()
                    &&& out.values@ == gather(
                        old(self).values@,
                        first_positions(old(self).index@, views(labels@)),
                    )
                    &&& out.index@ == views(labels@)
                },
                Err(e) => e == Error::UnknownLabel && !all_known(
                    old(self).index@,
                    views(labels@),
                ),
            },
    {
        let locations = match self.index.get_locs(labels.as_slice()) {
            Ok(x) => x,
            Err(e) => {
                return Err(e);
            },
        };
        let r = self.slice_by_index(&locations);
        let rows = self.index.len();
        proof {
            let wanted = views(labels@);
            let found = first_positions(self.index@, wanted);
            assert forall|k: int| 0 <= k < wanted.len() implies gather(self.index@, found)[k]
                == wanted[k] by {
                assert(self.index@.contains(wanted[k]));
                lemma_positions_of_absent(self.index@, wanted[k]);
                lemma_positions_of(self.index@, wanted[k]);
            }
            assert(gather(self.index@, found) =~= wanted);
        }
        r
    }

    /// The rows at `locations`, in that order; a row may be taken several
    /// times.
    pub fn slice_by_index(&self, locations: &Vec<usize>) -> (r: Result<Self, Error>)
        requires
            self.wf(),
        ensures
            match r {
                Ok(out) => {
                    &&& in_bounds(locations@, self.values@.len())
                    &&& out.wf()
                    &&& out.values@ == gather(self.values@, locations@)
                    &&& out.index@ == gather(self.index@, locations@)
                },
                Err(e) => e == Error::OutOfBounds && !in_bounds(locations@, self.values@.len()),
            },
    {
        if positions_fit(locations.as_slice(), self.values.len()) {
            Ok(self.take(locations.as_slice()))
        } else {
            Err(Error::OutOfBounds)
        }
    }

    /// The rows at `locations`, which all point into the rows.
    pub fn take(&self, locations: &[usize]) -> (out: Self)
        requires
            self.wf(),
            in_bounds(locations@, self.values@.len()),
        ensures
            out.wf(),
            out.values@ == gather(self.values@, locations@),
            out.index@ == gather(self.index@, locations@),
    {
        let new_index = self.index.take(locations);
        let mut new_values: Vec<T> = Vec::with_capacity(locations.len());
        let mut k: usize = 0;
        while k < locations.len()
            invariant
                k <= locations@.len(),
                in_bounds(locations@, self.values@.len()),
                new_values@.len() == k,
                forall|j: int|
                    0 <= j < k ==> (#[trigger] new_values@[j]) == self.values@[locations@[j] as int],
            decreases locations.len() - k,
        {
            let loc = locations[k];
            assert(locations@[k as int] < self.values@.len());
            new_values.push(self.values[loc]);
            k = k + 1;
        }
        assert(new_values@ =~= gather(self.values@, locations@));
        Series { values: new_values, index: new_index }
    }

    /// The rows whose flag is set, in order.
    pub fn slice_by_bool(&self, flags: &Vec<bool>) -> (r: Result<Self, Error>)
        requires
            self.wf(),
        ensures
            match r {
                Ok(out) => {
                    &&& flags@.len() == self.values@.len()
                    &&& out.wf()
                    &&& out.values@ == kept(self.values@, flags@)
                    &&& out.index@ == kept(self.index@, flags@)
                },
                Err(e) => e == Error::LengthMismatch && flags@.len() != self.values@.len(),
            },
    {
        if self.values.len() != flags.len() {
            return Err(Error::LengthMismatch);
        }
        let mut new_values: Vec<T> = Vec::new();
        let mut new_index: Vec<U> = Vec::new();
        let labels = self.index.values();
        let mut k: usize = 0;
        proof {
            assert(self.values@.take(0) =~= Seq::<T>::empty());
            assert(self.index@.take(0) =~= Seq::<U::V>::empty());
            assert(flags@.take(0) =~= Seq::<bool>::empty());
            assert(views(new_index@) =~= kept(self.index@.take(0), flags@.take(0)));
        }
        while k < flags.len()
            invariant
                k <= flags@.len(),
                flags@.len() == self.values@.len(),
                labels@ == self.index.labels(),
                labels@.len() == flags@.len(),
                new_values@ == kept(self.values@.take(k as int), flags@.take(k as int)),
                views(new_index@) == kept(self.index@.take(k as int), flags@.take(k as int)),
            decreases flags.len() - k,
        {
            proof {
                assert(self.values@.take(k + 1).drop_last() =~= self.values@.take(k as int));
                assert(self.index@.take(k + 1).drop_last() =~= self.index@.take(k as int));
                assert(flags@.take(k + 1).drop_last() =~= flags@.take(k as int));
            }
            if flags[k] {
                let ghost before = views(new_index@);
                new_values.push(self.values[k]);
                new_index.push(labels[k]);
                assert(views(new_index@) =~= before.push(labels@[k as int]@));
            }
            k = k + 1;
        }
        proof {
            assert(self.values@.take(flags@.len() as int) =~= self.values@);
            assert(self.index@.take(flags@.len() as int) =~= self.index@);
            assert(flags@.take(flags@.len() as int) =~= flags@);
            lemma_kept_len(self.values@, flags@, self.index@);
        }
        Ok(Series { values: new_values, index: Indexer::new(new_index) })
    }

    /// The rows of `self` followed by those of `other`.
    pub fn append(&self, other: &Self) -> (out: Self)
        ensures
            out.values@ == self.values@ + other.values@,
            out.index@ == self.index@ + other.index@,
            self.wf() && other.wf() ==> out.wf(),
    {
        let mut new_values = copy_of(&self.values);
        let mut rest = copy_of(&other.values);
        new_values.append(&mut rest);
        Series { values: new_values, index: self.index.append(&other.index) }
    }

    /// What `func` makes of the values.
    pub fn apply<W: Copy, F: Fn(&Vec<T>) -> W>(&self, func: &F) -> (w: W)
        requires
            call_requires(*func, (&self.values,)),
        ensures
            call_ensures(*func, (&self.values,), w),
    {
        func(&self.values)
    }
}

/// A copy of `v`.
pub fn copy_of<T: Copy>(v: &Vec<T>) -> (r: Vec<T>)
    ensures
        r@ == v@,
{
    vstd::slice::slice_to_vec(v.as_slice())
}

/// Two sequences of one length keep equally many items under the same flags.
proof fn lemma_kept_len<A, B>(a: Seq<A>, flags: Seq<bool>, b: Seq<B>)
    requires
        a.len() == flags.len(),
        b.len() == flags.len(),
    ensures
        kept(a, flags).len() == kept(b, flags).len(),
    decreases flags.len(),
{
    if flags.len() > 0 {
        lemma_kept_len(a.drop_last(), flags.drop_last(), b.drop_last());
    }
}

} // verus!
