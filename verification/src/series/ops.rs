//! Arithmetic on series, against one value and row by row.

use std::ops::{Add, Div, Mul, Rem, Sub};
use vstd::prelude::*;
use vstd::std_specs::ops::{AddSpec, DivSpec, MulSpec, RemSpec, SubSpec};
use crate::label::Label;
use crate::series::Series;

verus! {

/// What `f` makes of every value and `rhs`.
pub fn with_each<T: Copy, W, F: Fn(T, T) -> W>(values: &Vec<T>, rhs: T, f: F) -> (r: Vec<W>)
    requires
        forall|i: int| 0 <= i < values@.len() ==> call_requires(f, (#[trigger] values@[i], rhs)),
    ensures
        r@.len() == values@.len(),
        forall|i: int|
            0 <= i < values@.len() ==> call_ensures(f, (values@[i], rhs), #[trigger] r@[i]),
{
    let mut r: Vec<W> = Vec::with_capacity(values.len());
    let mut i: usize = 0;
    while i < values.len()
        invariant
            i <= values@.len(),
            r@.len() == i,
            forall|j: int| 0 <= j < values@.len() ==> call_requires(f, (#[trigger] values@[j], rhs)),
            forall|j: int| 0 <= j < i ==> call_ensures(f, (values@[j], rhs), #[trigger] r@[j]),
        decreases values.len() - i,
    {
        r.push(f(values[i], rhs));
        i = i + 1;
    }
    r
}

/// What `f` makes of every pair of values at the same row.
pub fn with_pairs<T: Copy, W, F: Fn(T, T) -> W>(left: &Vec<T>, right: &Vec<T>, f: F) -> (r: Vec<W>)
    requires
        left@.len() == right@.len(),
        forall|i: int|
            0 <= i < left@.len() ==> call_requires(f, (#[trigger] left@[i], right@[i])),
    ensures
        r@.len() == left@.len(),
        forall|i: int|
            0 <= i < left@.len() ==> call_ensures(f, (left@[i], right@[i]), #[trigger] r@[i]),
{
    let mut r: Vec<W> = Vec::with_capacity(left.len());
    let mut i: usize = 0;
    while i < left.len()
        invariant
            i <= left@.len(),
            left@.len() == right@.len(),
            r@.len() == i,
            forall|j: int|
                0 <= j < left@.len() ==> call_requires(f, (#[trigger] left@[j], right@[j])),
            forall|j: int|
                0 <= j < i ==> call_ensures(f, (left@[j], right@[j]), #[trigger] r@[j]),
        decreases left.len() - i,
    {
        r.push(f(left[i], right[i]));
        i = i + 1;
    }
    r
}

impl<T: Copy + Add, U: Label> Add<T> for Series<T, U> where T::Output: Copy {
    type Output = Series<T::Output, U>;

    /// Under the same labels, the sum of every value and `rhs`.
    fn add(self, rhs: T) -> (out: Series<T::Output, U>)
        ensures
            out.index == self.index,
            out.values@.len() == self.values@.len(),
            T::obeys_add_spec() ==> forall|i: int|
                0 <= i < out.values@.len() ==> (#[trigger] out.values@[i]) == self.values@[i].add_spec(
                    rhs,
                ),
    {
        let each = |x: T, y: T| -> (z: T::Output)
            requires
                x.add_req(y),
            ensures
                T::obeys_add_spec() ==> z == x.add_spec(y),
            { x.add(y) };
        let values = with_each(&self.values, rhs, each);
        Series { values, index: self.index }
    }
}

impl<T: Copy + Add, U: Label> vstd::std_specs::ops::AddSpecImpl<T> for Series<T, U> where T::Output: Copy {
    open spec fn obeys_add_spec() -> bool {
        false
    }

    /// Every value can take `rhs`.
    open spec fn add_req(self, rhs: T) -> bool {
        forall|i: int| 0 <= i < self.values@.len() ==> (#[trigger] self.values@[i]).add_req(rhs)
    }

    open spec fn add_spec(self, rhs: T) -> Series<T::Output, U> {
        arbitrary()
    }
}

impl<T: Copy + Add, U: Label> Add<Series<T, U>> for Series<T, U> where T::Output: Copy {
    type Output = Series<T::Output, U>;

    /// Under the same labels, the sum of the values of the two at every row.
    fn add(self, rhs: Series<T, U>) -> (out: Series<T::Output, U>)
        ensures
            out.index == self.index,
            out.values@.len() == self.values@.len(),
            T::obeys_add_spec() ==> forall|i: int|
                0 <= i < out.values@.len() ==> (#[trigger] out.values@[i]) == self.values@[i].add_spec(
                    rhs.values@[i],
                ),
    {
        let each = |x: T, y: T| -> (z: T::Output)
            requires
                x.add_req(y),
            ensures
                T::obeys_add_spec() ==> z == x.add_spec(y),
            { x.add(y) };
        let values = with_pairs(&self.values, &rhs.values, each);
        Series { values, index: self.index }
    }
}

impl<T: Copy + Add, U: Label> vstd::std_specs::ops::AddSpecImpl<Series<T, U>> for Series<T, U> where T::Output: Copy {
    open spec fn obeys_add_spec() -> bool {
        false
    }

    /// The two have the same labels and values for the same rows, and at
    /// every row the left value can take the right one.
    open spec fn add_req(self, rhs: Series<T, U>) -> bool {
        &&& self.index@ == rhs.index@
        &&& self.values@.len() == rhs.values@.len()
        &&& forall|i: int|
            0 <= i < self.values@.len() ==> (#[trigger] self.values@[i]).add_req(rhs.values@[i])
    }

    open spec fn add_spec(self, rhs: Series<T, U>) -> Series<T::Output, U> {
        arbitrary()
    }
}

impl<T: Copy + Mul, U: Label> Mul<T> for Series<T, U> where T::Output: Copy {
    type Output = Series<T::Output, U>;

    /// Under the same labels, the product of every value and `rhs`.
    fn mul(self, rhs: T) -> (out: Series<T::Output, U>)
        ensures
            out.index == self.index,
            out.values@.len() == self.values@.len(),
            T::obeys_mul_spec() ==> forall|i: int|
                0 <= i < out.values@.len() ==> (#[trigger] out.values@[i]) == self.values@[i].mul_spec(
                    rhs,
                ),
    {
        let each = |x: T, y: T| -> (z: T::Output)
            requires
                x.mul_req(y),
            ensures
                T::obeys_mul_spec() ==> z == x.mul_spec(y),
            { x.mul(y) };
        let values = with_each(&self.values, rhs, each);
        Series { values, index: self.index }
    }
}

impl<T: Copy + Mul, U: Label> vstd::std_specs::ops::MulSpecImpl<T> for Series<T, U> where T::Output: Copy {
    open spec fn obeys_mul_spec() -> bool {
        false
    }

    /// Every value can take `rhs`.
    open spec fn mul_req(self, rhs: T) -> bool {
        forall|i: int| 0 <= i < self.values@.len() ==> (#[trigger] self.values@[i]).mul_req(rhs)
    }

    open spec fn mul_spec(self, rhs: T) -> Series<T::Output, U> {
        arbitrary()
    }
}

impl<T: Copy + Mul, U: Label> Mul<Series<T, U>> for Series<T, U> where T::Output: Copy {
    type Output = Series<T::Output, U>;

    /// Under the same labels, the product of the values of the two at every row.
    fn mul(self, rhs: Series<T, U>) -> (out: Series<T::Output, U>)
        ensures
            out.index == self.index,
            out.values@.len() == self.values@.len(),
            T::obeys_mul_spec() ==> forall|i: int|
                0 <= i < out.values@.len() ==> (#[trigger] out.values@[i]) == self.values@[i].mul_spec(
                    rhs.values@[i],
                ),
    {
        let each = |x: T, y: T| -> (z: T::Output)
            requires
                x.mul_req(y),
            ensures
                T::obeys_mul_spec() ==> z == x.mul_spec(y),
            { x.mul(y) };
        let values = with_pairs(&self.values, &rhs.values, each);
        Series { values, index: self.index }
    }
}

impl<T: Copy + Mul, U: Label> vstd::std_specs::ops::MulSpecImpl<Series<T, U>> for Series<T, U> where T::Output: Copy {
    open spec fn obeys_mul_spec() -> bool {
        false
    }

    /// The two have the same labels and values for the same rows, and at
    /// every row the left value can take the right one.
    open spec fn mul_req(self, rhs: Series<T, U>) -> bool {
        &&& self.index@ == rhs.index@
        &&& self.values@.len() == rhs.values@.len()
        &&& forall|i: int|
            0 <= i < self.values@.len() ==> (#[trigger] self.values@[i]).mul_req(rhs.values@[i])
    }

    open spec fn mul_spec(self, rhs: Series<T, U>) -> Series<T::Output, U> {
        arbitrary()
    }
}

impl<T: Copy + Sub, U: Label> Sub<T> for Series<T, U> where T::Output: Copy {
    type Output = Series<T::Output, U>;

    /// Under the same labels, the difference of every value and `rhs`.
    fn sub(self, rhs: T) -> (out: Series<T::Output, U>)
        ensures
            out.index == self.index,
            out.values@.len() == self.values@.len(),
            T::obeys_sub_spec() ==> forall|i: int|
                0 <= i < out.values@.len() ==> (#[trigger] out.values@[i]) == self.values@[i].sub_spec(
                    rhs,
                ),
    {
        let each = |x: T, y: T| -> (z: T::Output)
            requires
                x.sub_req(y),
            ensures
                T::obeys_sub_spec() ==> z == x.sub_spec(y),
            { x.sub(y) };
        let values = with_each(&self.values, rhs, each);
        Series { values, index: self.index }
    }
}

impl<T: Copy + Sub, U: Label> vstd::std_specs::ops::SubSpecImpl<T> for Series<T, U> where T::Output: Copy {
    open spec fn obeys_sub_spec() -> bool {
        false
    }

    /// Every value can take `rhs`.
    open spec fn sub_req(self, rhs: T) -> bool {
        forall|i: int| 0 <= i < self.values@.len() ==> (#[trigger] self.values@[i]).sub_req(rhs)
    }

    open spec fn sub_spec(self, rhs: T) -> Series<T::Output, U> {
        arbitrary()
    }
}

impl<T: Copy + Sub, U: Label> Sub<Series<T, U>> for Series<T, U> where T::Output: Copy {
    type Output = Series<T::Output, U>;

    /// Under the same labels, the difference of the values of the two at every row.
    fn sub(self, rhs: Series<T, U>) -> (out: Series<T::Output, U>)
        ensures
            out.index == self.index,
            out.values@.len() == self.values@.len(),
            T::obeys_sub_spec() ==> forall|i: int|
                0 <= i < out.values@.len() ==> (#[trigger] out.values@[i]) == self.values@[i].sub_spec(
                    rhs.values@[i],
                ),
    {
        let each = |x: T, y: T| -> (z: T::Output)
            requires
                x.sub_req(y),
            ensures
                T::obeys_sub_spec() ==> z == x.sub_spec(y),
            { x.sub(y) };
        let values = with_pairs(&self.values, &rhs.values, each);
        Series { values, index: self.index }
    }
}

impl<T: Copy + Sub, U: Label> vstd::std_specs::ops::SubSpecImpl<Series<T, U>> for Series<T, U> where T::Output: Copy {
    open spec fn obeys_sub_spec() -> bool {
        false
    }

    /// The two have the same labels and values for the same rows, and at
    /// every row the left value can take the right one.
    open spec fn sub_req(self, rhs: Series<T, U>) -> bool {
        &&& self.index@ == rhs.index@
        &&& self.values@.len() == rhs.values@.len()
        &&& forall|i: int|
            0 <= i < self.values@.len() ==> (#[trigger] self.values@[i]).sub_req(rhs.values@[i])
    }

    open spec fn sub_spec(self, rhs: Series<T, U>) -> Series<T::Output, U> {
        arbitrary()
    }
}

impl<T: Copy + Div, U: Label> Div<T> for Series<T, U> where T::Output: Copy {
    type Output = Series<T::Output, U>;

    /// Under the same labels, the quotient of every value and `rhs`.
    fn div(self, rhs: T) -> (out: Series<T::Output, U>)
        ensures
            out.index == self.index,
            out.values@.len() == self.values@.len(),
            T::obeys_div_spec() ==> forall|i: int|
                0 <= i < out.values@.len() ==> (#[trigger] out.values@[i]) == self.values@[i].div_spec(
                    rhs,
                ),
    {
        let each = |x: T, y: T| -> (z: T::Output)
            requires
                x.div_req(y),
            ensures
                T::obeys_div_spec() ==> z == x.div_spec(y),
            { x.div(y) };
        let values = with_each(&self.values, rhs, each);
        Series { values, index: self.index }
    }
}

impl<T: Copy + Div, U: Label> vstd::std_specs::ops::DivSpecImpl<T> for Series<T, U> where T::Output: Copy {
    open spec fn obeys_div_spec() -> bool {
        false
    }

    /// Every value can take `rhs`.
    open spec fn div_req(self, rhs: T) -> bool {
        forall|i: int| 0 <= i < self.values@.len() ==> (#[trigger] self.values@[i]).div_req(rhs)
    }

    open spec fn div_spec(self, rhs: T) -> Series<T::Output, U> {
        arbitrary()
    }
}

impl<T: Copy + Div, U: Label> Div<Series<T, U>> for Series<T, U> where T::Output: Copy {
    type Output = Series<T::Output, U>;

    /// Under the same labels, the quotient of the values of the two at every row.
    fn div(self, rhs: Series<T, U>) -> (out: Series<T::Output, U>)
        ensures
            out.index == self.index,
            out.values@.len() == self.values@.len(),
            T::obeys_div_spec() ==> forall|i: int|
                0 <= i < out.values@.len() ==> (#[trigger] out.values@[i]) == self.values@[i].div_spec(
                    rhs.values@[i],
                ),
    {
        let each = |x: T, y: T| -> (z: T::Output)
            requires
                x.div_req(y),
            ensures
                T::obeys_div_spec() ==> z == x.div_spec(y),
            { x.div(y) };
        let values = with_pairs(&self.values, &rhs.values, each);
        Series { values, index: self.index }
    }
}

impl<T: Copy + Div, U: Label> vstd::std_specs::ops::DivSpecImpl<Series<T, U>> for Series<T, U> where T::Output: Copy {
    open spec fn obeys_div_spec() -> bool {
        false
    }

    /// The two have the same labels and values for the same rows, and at
    /// every row the left value can take the right one.
    open spec fn div_req(self, rhs: Series<T, U>) -> bool {
        &&& self.index@ == rhs.index@
        &&& self.values@.len() == rhs.values@.len()
        &&& forall|i: int|
            0 <= i < self.values@.len() ==> (#[trigger] self.values@[i]).div_req(rhs.values@[i])
    }

    open spec fn div_spec(self, rhs: Series<T, U>) -> Series<T::Output, U> {
        arbitrary()
    }
}

impl<T: Copy + Rem, U: Label> Rem<T> for Series<T, U> where T::Output: Copy {
    type Output = Series<T::Output, U>;

    /// Under the same labels, the remainder of every value and `rhs`.
    fn rem(self, rhs: T) -> (out: Series<T::Output, U>)
        ensures
            out.index == self.index,
            out.values@.len() == self.values@.len(),
            T::obeys_rem_spec() ==> forall|i: int|
                0 <= i < out.values@.len() ==> (#[trigger] out.values@[i]) == self.values@[i].rem_spec(
                    rhs,
                ),
    {
        let each = |x: T, y: T| -> (z: T::Output)
            requires
                x.rem_req(y),
            ensures
                T::obeys_rem_spec() ==> z == x.rem_spec(y),
            { x.rem(y) };
        let values = with_each(&self.values, rhs, each);
        Series { values, index: self.index }
    }
}

impl<T: Copy + Rem, U: Label> vstd::std_specs::ops::RemSpecImpl<T> for Series<T, U> where T::Output: Copy {
    open spec fn obeys_rem_spec() -> bool {
        false
    }

    /// Every value can take `rhs`.
    open spec fn rem_req(self, rhs: T) -> bool {
        forall|i: int| 0 <= i < self.values@.len() ==> (#[trigger] self.values@[i]).rem_req(rhs)
    }

    open spec fn rem_spec(self, rhs: T) -> Series<T::Output, U> {
        arbitrary()
    }
}

impl<T: Copy + Rem, U: Label> Rem<Series<T, U>> for Series<T, U> where T::Output: Copy {
    type Output = Series<T::Output, U>;

    /// Under the same labels, the remainder of the values of the two at every row.
    fn rem(self, rhs: Series<T, U>) -> (out: Series<T::Output, U>)
        ensures
            out.index == self.index,
            out.values@.len() == self.values@.len(),
            T::obeys_rem_spec() ==> forall|i: int|
                0 <= i < out.values@.len() ==> (#[trigger] out.values@[i]) == self.values@[i].rem_spec(
                    rhs.values@[i],
                ),
    {
        let each = |x: T, y: T| -> (z: T::Output)
            requires
                x.rem_req(y),
            ensures
                T::obeys_rem_spec() ==> z == x.rem_spec(y),
            { x.rem(y) };
        let values = with_pairs(&self.values, &rhs.values, each);
        Series { values, index: self.index }
    }
}

impl<T: Copy + Rem, U: Label> vstd::std_specs::ops::RemSpecImpl<Series<T, U>> for Series<T, U> where T::Output: Copy {
    open spec fn obeys_rem_spec() -> bool {
        false
    }

    /// The two have the same labels and values for the same rows, and at
    /// every row the left value can take the right one.
    open spec fn rem_req(self, rhs: Series<T, U>) -> bool {
        &&& self.index@ == rhs.index@
        &&& self.values@.len() == rhs.values@.len()
        &&& forall|i: int|
            0 <= i < self.values@.len() ==> (#[trigger] self.values@[i]).rem_req(rhs.values@[i])
    }

    open spec fn rem_spec(self, rhs: Series<T, U>) -> Series<T::Output, U> {
        arbitrary()
    }
}

} // verus!
