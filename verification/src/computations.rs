//! Sum, count, least and greatest of a vector of numbers.

use vstd::prelude::*;
use crate::number::Number;

verus! {

/// The sum of the integers that the items of `s` stand for.
pub open spec fn total<T: Number>(s: Seq<T>) -> int
    decreases s.len(),
{
    if s.len() == 0 {
        0
    } else {
        total(s.drop_last()) + s.last().value()
    }
}

/// Whether the sum of every prefix of `s` is representable, so that the
/// items can be added up one after the other.
pub open spec fn summable<T: Number>(s: Seq<T>) -> bool {
    forall|k: int| 0 <= k <= s.len() ==> T::representable(#[trigger] total(s.take(k)))
}

/// Whether `s[i]` is the first of the least items of `s`.
pub open spec fn is_first_least<T: Number>(s: Seq<T>, i: int) -> bool {
    &&& 0 <= i < s.len()
    &&& forall|j: int| 0 <= j < s.len() ==> s[i].value() <= s[j].value()
    &&& forall|j: int| 0 <= j < i ==> s[i].value() < s[j].value()
}

/// Whether `s[i]` is the last of the greatest items of `s`.
pub open spec fn is_last_greatest<T: Number>(s: Seq<T>, i: int) -> bool {
    &&& 0 <= i < s.len()
    &&& forall|j: int| 0 <= j < s.len() ==> s[j].value() <= s[i].value()
    &&& forall|j: int| i < j < s.len() ==> s[j].value() < s[i].value()
}

/// The sum of the values, added up from the first to the last.
pub fn vec_sum<T: Number>(values: &Vec<T>) -> (r: T)
    requires
        summable(values@),
    ensures
        r.value() == total(values@),
{
    let mut acc = T::zero();
    let mut k: usize = 0;
    assert(values@.take(0) =~= Seq::<T>::empty());
    while k < values.len()
        invariant
            k <= values@.len(),
            summable(values@),
            acc.value() == total(values@.take(k as int)),
        decreases values.len() - k,
    {
        proof {
            assert(values@.take(k + 1).drop_last() =~= values@.take(k as int));
            assert(T::representable(total(values@.take(k + 1))));
        }
        acc = acc.plus(values[k]);
        k = k + 1;
    }
    assert(values@.take(values@.len() as int) =~= values@);
    acc
}

/// The number of values.
pub fn vec_count<T>(values: &Vec<T>) -> (n: usize)
    ensures
        n == values@.len(),
{
    values.len()
}

/// The least of the values; of several that are least, the first.
pub fn vec_min<T: Number>(values: &Vec<T>) -> (r: T)
    requires
        values@.len() > 0,
    ensures
        exists|i: int| is_first_least(values@, i) && r == values@[i],
{
    let mut best: usize = 0;
    let mut k: usize = 1;
    while k < values.len()
        invariant
            1 <= k <= values@.len(),
            best < k,
            forall|j: int| 0 <= j < k ==> values@[best as int].value() <= values@[j].value(),
            forall|j: int| 0 <= j < best ==> values@[best as int].value() < values@[j].value(),
        decreases values.len() - k,
    {
        if values[k].less(&values[best]) {
            best = k;
        }
        k = k + 1;
    }
    assert(is_first_least(values@, best as int));
    values[best]
}

/// The greatest of the values; of several that are greatest, the last.
pub fn vec_max<T: Number>(values: &Vec<T>) -> (r: T)
    requires
        values@.len() > 0,
    ensures
        exists|i: int| is_last_greatest(values@, i) && r == values@[i],
{
    let mut best: usize = 0;
    let mut k: usize = 1;
    while k < values.len()
        invariant
            1 <= k <= values@.len(),
            best < k,
            forall|j: int| 0 <= j < k ==> values@[j].value() <= values@[best as int].value(),
            forall|j: int| best < j < k ==> values@[j].value() < values@[best as int].value(),
        decreases values.len() - k,
    {
        if !values[k].less(&values[best]) {
            best = k;
        }
        k = k + 1;
    }
    assert(is_last_greatest(values@, best as int));
    values[best]
}

} // verus!
