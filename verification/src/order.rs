//! Ordering a batch of values: sorting, and counting the entries below or
//! equal to a value.

use vstd::prelude::*;
use vstd::relations::{sorted_by, total_ordering};
use vstd::seq_lib::lemma_sorted_unique;

verus! {

/// The order that batches are sorted by: ascending.
pub open spec fn ascending() -> spec_fn(i64, i64) -> bool {
    |a: i64, b: i64| a <= b
}

/// `s` in ascending order.
pub open spec fn sorted(s: Seq<i64>) -> Seq<i64> {
    s.sort_by(ascending())
}

/// The predicate "is less than `v`".
pub open spec fn below(v: i64) -> spec_fn(i64) -> bool {
    |x: i64| x < v
}

/// The predicate "is `v`".
pub open spec fn same_as(v: i64) -> spec_fn(i64) -> bool {
    |x: i64| x == v
}

/// Number of entries of `s` that satisfy `p`.
pub open spec fn count_if(s: Seq<i64>, p: spec_fn(i64) -> bool) -> nat
    decreases s.len(),
{
    if s.len() == 0 {
        0
    } else {
        count_if(s.drop_last(), p) + if p(s.last()) { 1nat } else { 0nat }
    }
}

/// Number of entries of `s` that are less than `v`.
pub open spec fn count_less(s: Seq<i64>, v: i64) -> nat {
    count_if(s, below(v))
}

/// Number of entries of `s` that equal `v`.
pub open spec fn count_equal(s: Seq<i64>, v: i64) -> nat {
    count_if(s, same_as(v))
}

/// Ascending order on integers is a total order.
pub proof fn lemma_ascending_is_total()
    ensures
        total_ordering(ascending()),
{
    let leq = ascending();
    assert(vstd::relations::reflexive(leq));
    assert(vstd::relations::antisymmetric(leq));
    assert(vstd::relations::transitive(leq));
    assert(vstd::relations::strongly_connected(leq));
}

/// What `sorted` returns: the entries of `s`, each as often as in `s`, in
/// ascending order.
pub proof fn lemma_sorted(s: Seq<i64>)
    ensures
        sorted(s).len() == s.len(),
        sorted(s).to_multiset() == s.to_multiset(),
        forall|i: int, j: int| 0 <= i <= j < s.len() ==> sorted(s)[i] <= sorted(s)[j],
        forall|i: int| 0 <= i < s.len() ==> s.contains(#[trigger] sorted(s)[i]),
{
    lemma_ascending_is_total();
    s.lemma_sort_by_ensures(ascending());
    vstd::seq_lib::to_multiset_len(s);
    vstd::seq_lib::to_multiset_len(sorted(s));
    let t = sorted(s);
    assert forall|i: int, j: int| 0 <= i <= j < s.len() implies t[i] <= t[j] by {
        if i < j {
            assert(ascending()(t[i], t[j]));
        }
    }
    assert forall|i: int| 0 <= i < s.len() implies s.contains(#[trigger] t[i]) by {
        assert(t.contains(t[i]));
    }
}

/// Counts do not grow beyond the length.
pub proof fn lemma_count_if_bounded(s: Seq<i64>, p: spec_fn(i64) -> bool)
    ensures
        count_if(s, p) <= s.len(),
    decreases s.len(),
{
    if s.len() > 0 {
        lemma_count_if_bounded(s.drop_last(), p);
    }
}

/// Removing an entry lowers the count by one if the entry satisfies the
/// predicate, and leaves it unchanged if not.
pub proof fn lemma_count_if_remove(s: Seq<i64>, k: int, p: spec_fn(i64) -> bool)
    requires
        0 <= k < s.len(),
    ensures
        count_if(s, p) == count_if(s.remove(k), p) + if p(s[k]) { 1nat } else { 0nat },
    decreases s.len(),
{
    if k == s.len() - 1 {
        assert(s.remove(k) =~= s.drop_last());
    } else {
        assert(s.remove(k).drop_last() =~= s.drop_last().remove(k));
        assert(s.remove(k).last() == s.last());
        lemma_count_if_remove(s.drop_last(), k, p);
    }
}

/// Counts depend on the entries only, not on their order.
pub proof fn lemma_count_if_permutation(s: Seq<i64>, t: Seq<i64>, p: spec_fn(i64) -> bool)
    requires
        s.to_multiset() == t.to_multiset(),
    ensures
        count_if(s, p) == count_if(t, p),
    decreases s.len(),
{
    broadcast use vstd::seq_lib::group_to_multiset_ensures;

    vstd::seq_lib::to_multiset_len(s);
    vstd::seq_lib::to_multiset_len(t);
    if s.len() > 0 {
        let x = s.last();
        let rest = s.drop_last();
        assert(rest.push(x) =~= s);
        vstd::seq_lib::to_multiset_build(rest, x);
        vstd::seq_lib::to_multiset_contains(t, x);
        assert(s.to_multiset().count(x) > 0);
        let k = choose|k: int| 0 <= k < t.len() && t[k] == x;
        vstd::seq_lib::to_multiset_remove(t, k);
        assert(rest.to_multiset() =~= t.remove(k).to_multiset());
        lemma_count_if_permutation(rest, t.remove(k), p);
        lemma_count_if_remove(t, k, p);
    }
}

/// In an ascending sequence the entries below `v` come first: an index holds
/// an entry below `v` exactly when it lies below their number.
pub proof fn lemma_count_less_in_sorted(s: Seq<i64>, v: i64, k: int)
    requires
        forall|i: int, j: int| 0 <= i <= j < s.len() ==> s[i] <= s[j],
        0 <= k < s.len(),
    ensures
        s[k] < v <==> k < count_less(s, v),
        count_less(s, v) <= s.len(),
    decreases s.len(),
{
    let rest = s.drop_last();
    lemma_count_if_bounded(s, below(v));
    lemma_count_if_bounded(rest, below(v));
    if s.len() > 1 {
        let m = s.len() - 2;
        lemma_count_less_in_sorted(rest, v, m);
        if k < s.len() - 1 {
            lemma_count_less_in_sorted(rest, v, k);
        }
        assert(rest[m] == s[m]);
        assert(s[m] <= s.last());
        if s.last() < v {
            assert(count_less(rest, v) == rest.len());
        }
    } else {
        assert(rest.len() == 0);
        assert(count_if(rest, below(v)) == 0);
    }
}

/// In an ascending sequence the entries equal to `v` follow directly on
/// those below it.
pub proof fn lemma_count_equal_in_sorted(s: Seq<i64>, v: i64, k: int)
    requires
        forall|i: int, j: int| 0 <= i <= j < s.len() ==> s[i] <= s[j],
        0 <= k < s.len(),
    ensures
        s[k] == v <==> count_less(s, v) <= k < count_less(s, v) + count_equal(s, v),
        count_less(s, v) + count_equal(s, v) <= s.len(),
    decreases s.len(),
{
    let rest = s.drop_last();
    lemma_count_if_bounded(rest, below(v));
    lemma_count_if_bounded(rest, same_as(v));
    if s.len() > 1 {
        let m = s.len() - 2;
        lemma_count_equal_in_sorted(rest, v, m);
        lemma_count_less_in_sorted(rest, v, m);
        if k < s.len() - 1 {
            lemma_count_equal_in_sorted(rest, v, k);
        }
        assert(rest[m] == s[m]);
        assert(s[m] <= s.last());
    } else {
        assert(rest.len() == 0);
        assert(count_if(rest, below(v)) == 0);
        assert(count_if(rest, same_as(v)) == 0);
    }
}

/// Sorts through the standard library's `sort` on slices. The contract
/// claims what its documentation promises: afterwards the vector is in
/// ascending order and holds the same entries, each as often as before.
#[verifier::external_body]
fn sort_ascending(values: &mut Vec<i64>)
    ensures
        sorted_by(final(values)@, ascending()),
        final(values)@.to_multiset() == old(values)@.to_multiset(),
{
    values.sort();
}

/// Sorts `values` in ascending order.
pub fn sort_values(values: &mut Vec<i64>)
    ensures
        final(values)@ == sorted(old(values)@),
{
    let ghost before = values@;
    sort_ascending(values);
    proof {
        lemma_ascending_is_total();
        before.lemma_sort_by_ensures(ascending());
        lemma_sorted_unique(values@, sorted(before), ascending());
    }
}

/// Ascending order, entry by entry.
pub open spec fn is_ascending(s: Seq<i64>) -> bool {
    forall|i: int, j: int| 0 <= i <= j < s.len() ==> s[i] <= s[j]
}

/// An entry is counted among its equals.
pub proof fn lemma_count_equal_positive(s: Seq<i64>, k: int)
    requires
        0 <= k < s.len(),
    ensures
        count_equal(s, s[k]) >= 1,
        count_less(s, s[k]) + count_equal(s, s[k]) <= s.len(),
    decreases s.len(),
{
    let v = s[k];
    let rest = s.drop_last();
    if k < s.len() - 1 {
        lemma_count_equal_positive(rest, k);
    } else {
        lemma_count_below_or_equal(rest, v);
    }
}

/// No entry is counted both below `v` and equal to it.
pub proof fn lemma_count_below_or_equal(s: Seq<i64>, v: i64)
    ensures
        count_less(s, v) + count_equal(s, v) <= s.len(),
    decreases s.len(),
{
    if s.len() > 0 {
        lemma_count_below_or_equal(s.drop_last(), v);
    }
}

/// Everything below or equal to `v` is below any `w` above `v`.
pub proof fn lemma_count_less_grows(s: Seq<i64>, v: i64, w: i64)
    requires
        v < w,
    ensures
        count_less(s, v) + count_equal(s, v) <= count_less(s, w),
    decreases s.len(),
{
    if s.len() > 0 {
        lemma_count_less_grows(s.drop_last(), v, w);
    }
}

/// Finds, in an ascending slice, the number of entries that are less than
/// `v`. On other slices the result is some index within the slice.
pub fn lower_bound(values: &[i64], v: i64) -> (r: usize)
    ensures
        r <= values@.len(),
        is_ascending(values@) ==> r == count_less(values@, v),
{
    let mut lo: usize = 0;
    let mut hi: usize = values.len();
    proof {
        lemma_count_if_bounded(values@, below(v));
    }
    while lo < hi
        invariant
            lo <= hi <= values@.len(),
            is_ascending(values@) ==> lo <= count_less(values@, v) <= hi,
        decreases hi - lo,
    {
        let mid: usize = lo + (hi - lo) / 2;
        proof {
            if is_ascending(values@) {
                lemma_count_less_in_sorted(values@, v, mid as int);
            }
        }
        if values[mid] < v {
            lo = mid + 1;
        } else {
            hi = mid;
        }
    }
    lo
}

/// Finds, in an ascending slice, the number of entries that are at most
/// `v`. On other slices the result is some index within the slice.
pub fn upper_bound(values: &[i64], v: i64) -> (r: usize)
    ensures
        r <= values@.len(),
        is_ascending(values@) ==> r == count_less(values@, v) + count_equal(values@, v),
{
    let mut lo: usize = 0;
    let mut hi: usize = values.len();
    proof {
        lemma_count_below_or_equal(values@, v);
    }
    while lo < hi
        invariant
            lo <= hi <= values@.len(),
            is_ascending(values@) ==> lo <= count_less(values@, v) + count_equal(values@, v)
                <= hi,
        decreases hi - lo,
    {
        let mid: usize = lo + (hi - lo) / 2;
        proof {
            if is_ascending(values@) {
                lemma_count_less_in_sorted(values@, v, mid as int);
                lemma_count_equal_in_sorted(values@, v, mid as int);
            }
        }
        if values[mid] <= v {
            lo = mid + 1;
        } else {
            hi = mid;
        }
    }
    lo
}

} // verus!
