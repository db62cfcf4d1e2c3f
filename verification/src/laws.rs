//! What holds of tables, joins and groups whatever their contents.

use vstd::prelude::*;
use crate::frame::Table;
use crate::join::join_pairs;
use crate::label::SortKey;
use crate::positions::{
    all_positions, count_of, lemma_positions_of, lemma_positions_of_push, positions_of,
};
use crate::sort::ascending;

verus! {

/// The sum, over the labels listed, of the number of times the label occurs
/// in `s` times the weight of the label.
pub open spec fn weighted_counts<V>(labels: Seq<V>, s: Seq<V>, weight: spec_fn(V) -> nat) -> nat
    decreases labels.len(),
{
    if labels.len() == 0 {
        0
    } else {
        weighted_counts(labels.drop_last(), s, weight) + count_of(s, labels.last()) * weight(
            labels.last(),
        )
    }
}

/// The sum of the weights of the items of `s`.
pub open spec fn total_weight<V>(s: Seq<V>, weight: spec_fn(V) -> nat) -> nat
    decreases s.len(),
{
    if s.len() == 0 {
        0
    } else {
        total_weight(s.drop_last(), weight) + weight(s.last())
    }
}

/// The sum over `labels` of the number of occurrences in `a` times the
/// number of occurrences in `b`.
pub open spec fn sum_of_products<V>(labels: Seq<V>, a: Seq<V>, b: Seq<V>) -> nat {
    weighted_counts(labels, a, |v: V| count_of(b, v))
}

/// The sum over `groups` of the size of the group.
pub open spec fn sum_of_sizes<V>(groups: Seq<V>, keys: Seq<V>) -> nat {
    weighted_counts(groups, keys, |v: V| 1nat)
}

/// Appending `x` to `s` adds the weight of `x` once, where `x` is listed.
proof fn lemma_weighted_counts_push<V>(labels: Seq<V>, s: Seq<V>, x: V, weight: spec_fn(V) -> nat)
    requires
        labels.no_duplicates(),
    ensures
        weighted_counts(labels, s.push(x), weight) == weighted_counts(labels, s, weight) + (
        if labels.contains(x) {
            weight(x)
        } else {
            0
        }),
    decreases labels.len(),
{
    if labels.len() > 0 {
        let head = labels.drop_last();
        let l = labels.last();
        lemma_weighted_counts_push(head, s, x, weight);
        lemma_positions_of_push(s, x, l);
        let c = count_of(s, l);
        let w = weight(l);
        if l == x {
            assert(!head.contains(x)) by {
                if head.contains(x) {
                    let i = choose|i: int| 0 <= i < head.len() && head[i] == x;
                    assert(labels[i] == labels[labels.len() - 1]);
                }
            }
            assert(labels.contains(x)) by {
                assert(labels[labels.len() - 1] == x);
            }
            assert((c + 1) * w == c * w + w) by (nonlinear_arith);
        } else {
            assert(labels.contains(x) == head.contains(x)) by {
                if labels.contains(x) {
                    let i = choose|i: int| 0 <= i < labels.len() && labels[i] == x;
                    assert(head[i] == x);
                }
                if head.contains(x) {
                    let i = choose|i: int| 0 <= i < head.len() && head[i] == x;
                    assert(labels[i] == x);
                }
            }
        }
    }
}

/// Where every item of `s` that weighs anything is listed, once, the
/// weights of the items add up to the weighted counts of the labels.
proof fn lemma_total_weight<V>(labels: Seq<V>, s: Seq<V>, weight: spec_fn(V) -> nat)
    requires
        labels.no_duplicates(),
        forall|i: int| 0 <= i < s.len() && weight(#[trigger] s[i]) > 0 ==> labels.contains(s[i]),
    ensures
        total_weight(s, weight) == weighted_counts(labels, s, weight),
    decreases s.len(),
{
    if s.len() == 0 {
        lemma_weighted_counts_empty(labels, s, weight);
    } else {
        let head = s.drop_last();
        assert forall|i: int| 0 <= i < head.len() && weight(#[trigger] head[i]) > 0 implies labels.contains(
            head[i],
        ) by {
            assert(head[i] == s[i]);
        }
        lemma_total_weight(labels, head, weight);
        lemma_weighted_counts_push(labels, head, s.last(), weight);
        assert(head.push(s.last()) =~= s);
        assert(s[s.len() - 1] == s.last());
    }
}

/// Nothing occurs in an empty sequence.
proof fn lemma_weighted_counts_empty<V>(labels: Seq<V>, s: Seq<V>, weight: spec_fn(V) -> nat)
    requires
        s.len() == 0,
    ensures
        weighted_counts(labels, s, weight) == 0,
    decreases labels.len(),
{
    if labels.len() > 0 {
        lemma_weighted_counts_empty(labels.drop_last(), s, weight);
        assert(count_of(s, labels.last()) * weight(labels.last()) == 0) by (nonlinear_arith)
            requires
                count_of(s, labels.last()) == 0,
        ;
    }
}

/// The number of pairs of a join is the sum, over the rows of the left
/// side, of the number of rows of the right side with the same label.
proof fn lemma_join_pairs_len<V>(a: Seq<V>, b: Seq<V>)
    ensures
        join_pairs(a, b).len() == total_weight(a, |v: V| count_of(b, v)),
    decreases a.len(),
{
    if a.len() > 0 {
        lemma_join_pairs_len(a.drop_last(), b);
    }
}

/// The inner join of `a` and `b` has as many rows as the sum, over the
/// labels common to both, of the number of times the label occurs in `a`
/// times the number of times it occurs in `b`. `labels` lists the common
/// labels, each once.
pub proof fn lemma_join_row_count<V>(a: Seq<V>, b: Seq<V>, labels: Seq<V>)
    requires
        a.len() <= usize::MAX,
        b.len() <= usize::MAX,
        labels.no_duplicates(),
        forall|v: V| labels.contains(v) <==> a.contains(v) && b.contains(v),
    ensures
        join_pairs(a, b).len() == sum_of_products(labels, a, b),
{
    let weight = |v: V| count_of(b, v);
    lemma_join_pairs_len(a, b);
    assert forall|i: int| 0 <= i < a.len() && weight(#[trigger] a[i]) > 0 implies labels.contains(
        a[i],
    ) by {
        lemma_positions_of(b, a[i]);
        let p = positions_of(b, a[i])[0];
        assert(b[p as int] == a[i]);
    }
    lemma_total_weight(labels, a, weight);
}

/// The joined table has as many rows as the join has pairs: the sum, over
/// the labels common to both, of the products of their counts.
pub proof fn lemma_joined_table_row_count<R, C>(
    left: Table<R, C>,
    right: Table<R, C>,
    labels: Seq<R>,
)
    requires
        left.index.len() <= usize::MAX,
        right.index.len() <= usize::MAX,
        labels.no_duplicates(),
        forall|v: R| labels.contains(v) <==> left.index.contains(v) && right.index.contains(v),
    ensures
        left.joined(right).index.len() == sum_of_products(labels, left.index, right.index),
{
    lemma_join_row_count(left.index, right.index, labels);
}

/// Keys in ascending order are distinct.
pub proof fn lemma_ascending_distinct<G: SortKey>(groups: Seq<G::V>)
    requires
        ascending::<G>(groups),
    ensures
        groups.no_duplicates(),
{
    G::before_is_strict_total();
    assert forall|i: int, j: int|
        0 <= i < groups.len() && 0 <= j < groups.len() && i != j implies groups[i] != groups[j] by {
        if i < j {
            assert(G::before(groups[i], groups[j]));
        } else {
            assert(G::before(groups[j], groups[i]));
        }
    }
}

/// The groups partition the rows: where `groups` lists the distinct keys in
/// ascending order, each key is listed once and the sizes of the groups add
/// up to the number of rows.
pub proof fn lemma_groups_partition<G: SortKey>(keys: Seq<G::V>, groups: Seq<G::V>)
    requires
        ascending::<G>(groups),
        forall|v: G::V| groups.contains(v) <==> keys.contains(v),
    ensures
        groups.no_duplicates(),
        sum_of_sizes(groups, keys) == keys.len(),
{
    lemma_ascending_distinct::<G>(groups);
    let weight = |v: G::V| 1nat;
    assert forall|i: int| 0 <= i < keys.len() && weight(#[trigger] keys[i]) > 0 implies groups.contains(
        keys[i],
    ) by {
        assert(keys.contains(keys[i]));
    }
    lemma_total_weight(groups, keys, weight);
    lemma_total_weight_ones(keys);
}

/// Items that weigh one each weigh their number together.
proof fn lemma_total_weight_ones<V>(s: Seq<V>)
    ensures
        total_weight(s, |v: V| 1nat) == s.len(),
    decreases s.len(),
{
    if s.len() > 0 {
        lemma_total_weight_ones(s.drop_last());
    }
}

/// Every row is in the group of its key and in no other.
pub proof fn lemma_row_in_one_group<V>(keys: Seq<V>, row: usize, key: V)
    requires
        keys.len() <= usize::MAX,
        row < keys.len(),
    ensures
        positions_of(keys, key).contains(row) <==> keys[row as int] == key,
{
    lemma_positions_of(keys, key);
    if positions_of(keys, key).contains(row) {
        let k = choose|k: int| 0 <= k < positions_of(keys, key).len() && positions_of(keys, key)[k]
            == row;
        assert(keys[positions_of(keys, key)[k] as int] == key);
    }
}

/// Taking every column of a table, in order, gives the table.
pub proof fn lemma_take_all_columns<R, C>(t: Table<R, C>)
    requires
        t.well_formed(),
        t.columns.len() <= usize::MAX,
    ensures
        t.take_columns(all_positions(t.columns.len())) == t,
{
    let all = all_positions(t.columns.len());
    let out = t.take_columns(all);
    assert(out.columns =~= t.columns);
    assert(out.dtypes =~= t.dtypes);
    assert(out.cells =~= t.cells);
    assert(out =~= t);
}

/// Taking rows by position gives one row per position, and in every column
/// row `i` of the result is row `locations[i]` of the source.
pub proof fn lemma_take_rows<R, C>(t: Table<R, C>, locations: Seq<usize>)
    requires
        t.well_formed(),
    ensures
        t.take_rows(locations).well_formed(),
        t.take_rows(locations).index.len() == locations.len(),
        t.take_rows(locations).columns == t.columns,
        forall|i: int|
            0 <= i < locations.len() ==> (#[trigger] t.take_rows(locations).index[i])
                == t.index[locations[i] as int],
        forall|c: int, i: int|
            0 <= c < t.cells.len() && 0 <= i < locations.len() ==> (#[trigger] t.take_rows(
                locations,
            ).cells[c][i]) == t.cells[c][locations[i] as int],
{
}

} // verus!
