//! Rank normalisation: each value of a batch is replaced by its rank among
//! all values, scaled to the unit interval. Tied values share the mean of
//! the ranks they occupy.

use vstd::prelude::*;
use crate::fixed::{lemma_div_monotone, lemma_mul_div_le, SCALE};
use crate::ith_normalize::HALF;
use crate::order::{
    count_equal, count_less, is_ascending, lemma_count_equal_positive, lemma_count_if_permutation,
    lemma_count_less_grows, lemma_sorted, lower_bound, below, same_as, sort_values, sorted,
    upper_bound,
};

verus! {

/// Twice the mean rank of entry `i`: with `l` values below it and `e` equal
/// to it, itself included, the entry shares the ranks `l` to `l + e - 1`.
pub open spec fn doubled_rank(values: Seq<i64>, i: int) -> int
    recommends
        0 <= i < values.len(),
{
    2 * count_less(values, values[i]) + count_equal(values, values[i]) - 1
}

/// The normalised rank of entry `i`: its mean rank divided by the largest
/// rank, in units of `1 / SCALE`; one half in a batch of fewer than two.
pub open spec fn rank_spec(values: Seq<i64>, i: int) -> int
    recommends
        0 <= i < values.len(),
{
    if values.len() <= 1 {
        HALF as int
    } else {
        doubled_rank(values, i) * SCALE / (2 * (values.len() - 1))
    }
}

/// The normalised ranks of a batch.
pub open spec fn ranks_spec(values: Seq<i64>) -> Seq<u64> {
    Seq::new(values.len(), |i: int| rank_spec(values, i) as u64)
}

/// The rank of `value` against a reference batch: the fraction of the
/// reference that lies below it, in units of `1 / SCALE`; one half against
/// an empty reference.
pub open spec fn reference_rank_spec(value: i64, reference: Seq<i64>) -> int {
    if reference.len() == 0 {
        HALF as int
    } else {
        count_less(reference, value) * SCALE / (reference.len() as int)
    }
}

/// A mean rank lies between the smallest and the largest rank.
pub proof fn lemma_doubled_rank_bounds(values: Seq<i64>, i: int)
    requires
        0 <= i < values.len(),
    ensures
        0 <= doubled_rank(values, i) <= 2 * (values.len() - 1),
{
    lemma_count_equal_positive(values, i);
}

/// Every normalised rank lies in the unit interval.
pub proof fn lemma_rank_bounded(values: Seq<i64>, i: int)
    requires
        0 <= i < values.len(),
    ensures
        0 <= rank_spec(values, i) <= SCALE,
{
    if values.len() > 1 {
        lemma_doubled_rank_bounds(values, i);
        lemma_mul_div_le(doubled_rank(values, i), SCALE as int, 2 * (values.len() - 1));
    }
}

/// Ranks keep the order of the values: a smaller value never ranks higher,
/// and equal values rank the same.
pub proof fn lemma_rank_keeps_order(values: Seq<i64>, i: int, j: int)
    requires
        0 <= i < values.len(),
        0 <= j < values.len(),
    ensures
        values[i] < values[j] ==> rank_spec(values, i) <= rank_spec(values, j),
        values[i] == values[j] ==> rank_spec(values, i) == rank_spec(values, j),
{
    if values[i] < values[j] {
        lemma_count_less_grows(values, values[i], values[j]);
        lemma_count_equal_positive(values, j);
        lemma_count_equal_positive(values, i);
        assert(doubled_rank(values, i) <= doubled_rank(values, j));
        assert(doubled_rank(values, i) * SCALE <= doubled_rank(values, j) * SCALE)
            by (nonlinear_arith)
            requires
                doubled_rank(values, i) <= doubled_rank(values, j),
        ;
        if values.len() > 1 {
            lemma_div_monotone(
                doubled_rank(values, i) * SCALE,
                doubled_rank(values, j) * SCALE,
                2 * (values.len() - 1),
            );
        }
    }
}

/// Ranks do not depend on the order of the batch: in two batches with the
/// same entries, equal values rank the same.
pub proof fn lemma_rank_ignores_order(values: Seq<i64>, shuffled: Seq<i64>, i: int, j: int)
    requires
        values.to_multiset() == shuffled.to_multiset(),
        0 <= i < values.len(),
        0 <= j < shuffled.len(),
        values[i] == shuffled[j],
    ensures
        rank_spec(values, i) == rank_spec(shuffled, j),
{
    vstd::seq_lib::to_multiset_len(values);
    vstd::seq_lib::to_multiset_len(shuffled);
    lemma_count_if_permutation(values, shuffled, below(values[i]));
    lemma_count_if_permutation(values, shuffled, same_as(values[i]));
}

/// Replaces every value of the batch by its normalised rank.
pub fn rank_normalize(values: &[i64]) -> (r: Vec<u64>)
    ensures
        r@ == ranks_spec(values@),
        forall|i: int| 0 <= i < r@.len() ==> #[trigger] r@[i] <= SCALE,
{
    let n: usize = values.len();
    let mut ranks: Vec<u64> = Vec::new();
    if n <= 1 {
        if n == 1 {
            ranks.push(HALF);
        }
        assert(ranks@ =~= ranks_spec(values@));
        return ranks;
    }
    let mut ordered: Vec<i64> = Vec::new();
    let mut k: usize = 0;
    while k < n
        invariant
            k <= n,
            n == values@.len(),
            ordered@.len() == k,
            forall|j: int| 0 <= j < k ==> #[trigger] ordered@[j] == values@[j],
        decreases n - k,
    {
        ordered.push(values[k]);
        k = k + 1;
    }
    assert(ordered@ =~= values@);
    sort_values(&mut ordered);
    proof {
        lemma_sorted(values@);
        assert(is_ascending(ordered@));
    }
    let mut i: usize = 0;
    while i < n
        invariant
            i <= n,
            n == values@.len(),
            n > 1,
            ordered@ == sorted(values@),
            is_ascending(ordered@),
            ordered@.to_multiset() == values@.to_multiset(),
            ranks@.len() == i,
            forall|j: int| 0 <= j < i ==> #[trigger] ranks@[j] == rank_spec(values@, j),
            forall|j: int| 0 <= j < i ==> #[trigger] ranks@[j] <= SCALE,
        decreases n - i,
    {
        let v: i64 = values[i];
        let first: usize = lower_bound(ordered.as_slice(), v);
        let after: usize = upper_bound(ordered.as_slice(), v);
        proof {
            lemma_count_if_permutation(values@, ordered@, below(v));
            lemma_count_if_permutation(values@, ordered@, same_as(v));
            lemma_doubled_rank_bounds(values@, i as int);
            lemma_rank_bounded(values@, i as int);
            assert(first + after - 1 == doubled_rank(values@, i as int));
        }
        let doubled: u128 = (first as u128) + (after as u128) - 1;
        assert(doubled * SCALE <= 0x2_0000_0000_0000_0000 * 1_000_000_000) by (nonlinear_arith)
            requires
                0 <= doubled <= 0x2_0000_0000_0000_0000,
                SCALE == 1_000_000_000,
        ;
        let rank: u128 = doubled * (SCALE as u128) / (2 * (n as u128 - 1));
        ranks.push(rank as u64);
        i = i + 1;
    }
    assert(ranks@ =~= ranks_spec(values@));
    ranks
}

/// Ranks `value` against a reference batch in ascending order: the fraction
/// of the reference that lies below it. Against a reference that is not in
/// ascending order the result is some fraction.
pub fn rank_normalize_with_reference(value: i64, reference: &[i64]) -> (r: u64)
    ensures
        r <= SCALE,
        is_ascending(reference@) ==> r == reference_rank_spec(value, reference@),
{
    let n: usize = reference.len();
    if n == 0 {
        return HALF;
    }
    let pos: usize = lower_bound(reference, value);
    proof {
        lemma_mul_div_le(pos as int, SCALE as int, n as int);
    }
    assert(pos * SCALE <= 0x1_0000_0000_0000_0000 * 1_000_000_000) by (nonlinear_arith)
        requires
            0 <= pos <= 0x1_0000_0000_0000_0000,
            SCALE == 1_000_000_000,
    ;
    ((pos as u128) * (SCALE as u128) / (n as u128)) as u64
}

} // verus!
