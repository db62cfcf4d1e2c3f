//! Series from and to vectors, and equality of series.

use vstd::prelude::*;
use vstd::std_specs::cmp::PartialEqSpec;
use crate::label::Label;
use crate::series::{ordinals, Series};

verus! {

impl<T: Copy> From<Vec<T>> for Series<T, usize> {
    /// A series of `values` whose labels number the rows from 0.
    fn from(values: Vec<T>) -> (r: Self)
        ensures
            r.wf(),
            r.values@ == values@,
            r.index@ == ordinals::<usize>(values@.len()),
    {
        Series::<T, usize>::from_vec(values)
    }
}

impl<T: Copy> vstd::std_specs::convert::FromSpecImpl<Vec<T>> for Series<T, usize> {
    open spec fn obeys_from_spec() -> bool {
        false
    }

    open spec fn from_spec(values: Vec<T>) -> Self {
        arbitrary()
    }
}

impl<T: Copy, U: Label> From<Series<T, U>> for Vec<T> {
    /// The values of the series.
    fn from(series: Series<T, U>) -> (r: Self)
        ensures
            r@ == series.values@,
    {
        series.values
    }
}

impl<T: Copy, U: Label> vstd::std_specs::convert::FromSpecImpl<Series<T, U>> for Vec<T> {
    open spec fn obeys_from_spec() -> bool {
        true
    }

    open spec fn from_spec(series: Series<T, U>) -> Self {
        series.values
    }
}

impl<T: Copy + PartialEq, U: Label> PartialEq for Series<T, U> {
    /// Whether the two have the same labels and, row by row, values that
    /// `==` holds equal.
    fn eq(&self, other: &Self) -> (b: bool) {
        if !self.index.equals(&other.index) {
            return false;
        }
        if self.values.len() != other.values.len() {
            return false;
        }
        let mut k: usize = 0;
        while k < self.values.len()
            invariant
                k <= self.values@.len(),
                self.values@.len() == other.values@.len(),
                T::obeys_eq_spec() ==> forall|j: int|
                    0 <= j < k ==> (#[trigger] self.values@[j]).eq_spec(&other.values@[j]),
            decreases self.values.len() - k,
        {
            if !(self.values[k] == other.values[k]) {
                return false;
            }
            k = k + 1;
        }
        true
    }
}

impl<T: Copy + PartialEq, U: Label> vstd::std_specs::cmp::PartialEqSpecImpl for Series<T, U> {
    open spec fn obeys_eq_spec() -> bool {
        T::obeys_eq_spec()
    }

    open spec fn eq_spec(&self, other: &Self) -> bool {
        &&& self.index@ == other.index@
        &&& self.values@.len() == other.values@.len()
        &&& forall|j: int|
            0 <= j < self.values@.len() ==> (#[trigger] self.values@[j]).eq_spec(&other.values@[j])
    }
}

} // verus!
