//! Sum, count, least and greatest of a series, and how often each value
//! occurs.

use vstd::prelude::*;
use crate::computations::{
    is_first_least, is_last_greatest, summable, total, vec_count, vec_max, vec_min, vec_sum,
};
use crate::grouper::{distinct_of, lemma_distinct_of, lemma_distinct_of_push};
use crate::indexer::{views, Indexer};
use crate::label::Label;
use crate::multi::{multimap_entries, multimap_get_vec, multimap_insert, multimap_new};
use multimap::MultiMap;
use crate::number::Number;
use crate::positions::{
    count_of, lemma_positions_of, lemma_positions_of_absent, lemma_positions_of_push,
};
use crate::series::Series;

verus! {

impl<T: Number, U: Label> Series<T, U> {
    /// The sum of the values.
    pub fn sum(&self) -> (r: T)
        requires
            summable(self.values@),
        ensures
            r.value() == total(self.values@),
    {
        self.apply(&vec_sum::<T>)
    }

    /// The number of values.
    pub fn count(&self) -> (n: usize)
        ensures
            n == self.values@.len(),
    {
        self.apply(&vec_count::<T>)
    }

    /// The least value; of several that are least, the first.
    pub fn min(&self) -> (r: T)
        requires
            self.values@.len() > 0,
        ensures
            exists|i: int| is_first_least(self.values@, i) && r == self.values@[i],
    {
        self.apply(&vec_min::<T>)
    }

    /// The greatest value; of several that are greatest, the last.
    pub fn max(&self) -> (r: T)
        requires
            self.values@.len() > 0,
        ensures
            exists|i: int| is_last_greatest(self.values@, i) && r == self.values@[i],
    {
        self.apply(&vec_max::<T>)
    }
}

/// Whether `slots` holds, for every distinct value, its slot under its code,
/// and nothing but slots of distinct values under their own codes.
pub open spec fn slots_by_code<T: Label>(slots: Map<u64, Seq<usize>>, distinct: Seq<T>) -> bool {
    &&& forall|k: int|
        0 <= k < distinct.len() ==> slots.contains_key(T::code_of((#[trigger] distinct[k])@))
            && slots[T::code_of(distinct[k]@)].contains(k as usize)
    &&& forall|c: u64, j: int|
        slots.contains_key(c) && 0 <= j < slots[c].len() ==> (#[trigger] slots[c][j])
            < distinct.len() && T::code_of(distinct[slots[c][j] as int]@) == c
}

/// The slot of `value` among the distinct values, if it is one of them.
fn find_slot<T: Label>(slots: &MultiMap<u64, usize>, distinct: &Vec<T>, value: &T) -> (found: Option<
    usize,
>)
    requires
        slots_by_code(multimap_entries(*slots), distinct@),
    ensures
        match found {
            Some(slot) => slot < distinct@.len() && distinct@[slot as int]@ == value@,
            None => !views(distinct@).contains(value@),
        },
{
    let code = value.code();
    let width = distinct.len();
    let ghost entries = multimap_entries(*slots);
    match multimap_get_vec(slots, code) {
        None => {},
        Some(bucket) => {
            let mut j: usize = 0;
            while j < bucket.len()
                invariant
                    j <= bucket@.len(),
                    entries.contains_key(code),
                    bucket@ == entries[code],
                    slots_by_code(entries, distinct@),
                    forall|q: int| 0 <= q < j ==> distinct@[bucket@[q] as int]@ != value@,
                decreases bucket.len() - j,
            {
                let slot = bucket[j];
                assert(entries[code][j as int] < distinct@.len());
                if distinct[slot].same(value) {
                    return Some(slot);
                }
                j = j + 1;
            }
        },
    }
    proof {
        let listed = views(distinct@);
        if listed.contains(value@) {
            let k = choose|k: int| 0 <= k < listed.len() && listed[k] == value@;
            assert(distinct@[k]@ == value@);
            assert(entries.contains_key(code));
            let q = choose|q: int| 0 <= q < entries[code].len() && entries[code][q] == k as usize;
            assert(distinct@[entries[code][q] as int]@ != value@);
        }
    }
    None
}

impl<T: Label, U: Label> Series<T, U> {
    /// How often every value occurs: a series of the counts under the
    /// distinct values, in the order in which the values first occur.
    pub fn value_counts(&self) -> (r: Series<usize, T>)
        ensures
            r.wf(),
            r.index@ == distinct_of(views(self.values@)),
            forall|k: int|
                0 <= k < r.values@.len() ==> (#[trigger] r.values@[k]) == count_of(
                    views(self.values@),
                    r.index@[k],
                ),
    {
        let mut slots = multimap_new();
        let mut distinct: Vec<T> = Vec::new();
        let mut counts: Vec<usize> = Vec::new();
        let ghost all = views(self.values@);
        let n = self.values.len();
        let mut i: usize = 0;
        proof {
            assert(all.take(0) =~= Seq::<T::V>::empty());
            assert(views(distinct@) =~= distinct_of(all.take(0)));
        }
        while i < n
            invariant
                i <= n,
                n == self.values@.len(),
                all == views(self.values@),
                counts@.len() == distinct@.len(),
                views(distinct@) == distinct_of(all.take(i as int)),
                slots_by_code(multimap_entries(slots), distinct@),
                forall|k: int|
                    0 <= k < counts@.len() ==> (#[trigger] counts@[k]) == count_of(
                        all.take(i as int),
                        distinct@[k]@,
                    ),
            decreases n - i,
        {
            let value = self.values[i];
            let ghost seen = all.take(i as int);
            let ghost listed = views(distinct@);
            let ghost old_distinct = distinct@;
            let ghost old_slots = multimap_entries(slots);
            proof {
                assert(all[i as int] == value@);
                assert(all.take(i + 1) =~= seen.push(value@));
                lemma_positions_of(seen, value@);
                lemma_distinct_of(seen);
                lemma_distinct_of_push(seen, value@);
            }
            match find_slot(&slots, &distinct, &value) {
                Some(slot) => {
                    let c = counts[slot];
                    counts.set(slot, c + 1);
                    proof {
                        assert(listed[slot as int] == value@);
                        assert(seen.contains(value@));
                        assert forall|k: int| 0 <= k < counts@.len() implies (#[trigger] counts@[k])
                            == count_of(all.take(i + 1), distinct@[k]@) by {
                            lemma_positions_of_push(seen, value@, distinct@[k]@);
                            if k != slot {
                                assert(listed[k] != listed[slot as int]);
                            }
                        }
                    }
                },
                None => {
                    let slot = distinct.len();
                    let code = value.code();
                    proof {
                        assert(!seen.contains(value@));
                        lemma_positions_of_absent(seen, value@);
                    }
                    distinct.push(value);
                    counts.push(1);
                    multimap_insert(&mut slots, code, slot);
                    proof {
                        let new_slots = multimap_entries(slots);
                        let old_bucket = if old_slots.contains_key(code) {
                            old_slots[code]
                        } else {
                            Seq::<usize>::empty()
                        };
                        assert(new_slots == old_slots.insert(code, old_bucket.push(slot)));
                        assert(views(distinct@) =~= listed.push(value@));
                        assert forall|k: int| 0 <= k < counts@.len() implies (#[trigger] counts@[k])
                            == count_of(all.take(i + 1), distinct@[k]@) by {
                            lemma_positions_of_push(seen, value@, distinct@[k]@);
                            if k < old_distinct.len() {
                                assert(listed.contains(listed[k]));
                            }
                        }
                        assert forall|k: int| 0 <= k < distinct@.len() implies new_slots.contains_key(
                            T::code_of((#[trigger] distinct@[k])@),
                        ) && new_slots[T::code_of(distinct@[k]@)].contains(k as usize) by {
                            let ck = T::code_of(distinct@[k]@);
                            if k < old_distinct.len() {
                                assert(distinct@[k] == old_distinct[k]);
                                let q = choose|q: int|
                                    0 <= q < old_slots[ck].len() && old_slots[ck][q] == k as usize;
                                assert(new_slots[ck][q] == k as usize);
                            } else {
                                assert(new_slots[ck][old_bucket.len() as int] == k as usize);
                            }
                        }
                        assert forall|c: u64, j: int|
                            new_slots.contains_key(c) && 0 <= j < new_slots[c].len() implies (
                        #[trigger] new_slots[c][j]) < distinct@.len() && T::code_of(
                            distinct@[new_slots[c][j] as int]@,
                        ) == c by {
                            if c == code && j == old_bucket.len() {
                            } else {
                                assert(old_slots.contains_key(c));
                                assert(new_slots[c][j] == old_slots[c][j]);
                                assert(distinct@[old_slots[c][j] as int] == old_distinct[old_slots[c][j] as int]);
                            }
                        }
                    }
                },
            }
            i = i + 1;
        }
        proof {
            assert(all.take(n as int) =~= all);
        }
        Series { values: counts, index: Indexer::new(distinct) }
    }
}

} // verus!
