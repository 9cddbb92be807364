//! Regularity of the gaps between epochs.
//!
//! The first bar always counts as a marker, followed by every bar flagged as
//! an epoch. The statistic is the coefficient of variation of the gaps
//! between consecutive markers: their population standard deviation divided
//! by their mean.

use vstd::prelude::*;
use crate::fixed::{isqrt, is_sqrt_floor, lemma_sqrt_floor, sqrt_floor, SCALE};

verus! {

/// Longest series whose gap statistics fit the arithmetic used here.
pub const MAX_SERIES_LEN: usize = 0xFFFF_FFFF;

/// Position of the last marker among the first `i` bars.
pub open spec fn last_marker(flags: Seq<bool>, i: nat) -> nat
    recommends
        i <= flags.len(),
    decreases i,
{
    if i == 0 {
        0
    } else if flags[i - 1] {
        (i - 1) as nat
    } else {
        last_marker(flags, (i - 1) as nat)
    }
}

/// The gaps between consecutive markers among the first `i` bars, in order.
pub open spec fn epoch_gaps(flags: Seq<bool>, i: nat) -> Seq<nat>
    recommends
        i <= flags.len(),
    decreases i,
{
    if i == 0 {
        Seq::empty()
    } else if flags[i - 1] {
        epoch_gaps(flags, (i - 1) as nat).push(
            (i - 1 - last_marker(flags, (i - 1) as nat)) as nat,
        )
    } else {
        epoch_gaps(flags, (i - 1) as nat)
    }
}

/// Sum of the entries of `s`.
pub open spec fn sum(s: Seq<nat>) -> nat
    decreases s.len(),
{
    if s.len() == 0 {
        0
    } else {
        sum(s.drop_last()) + s.last()
    }
}

/// Sum of the squares of the entries of `s`.
pub open spec fn square_sum(s: Seq<nat>) -> nat
    decreases s.len(),
{
    if s.len() == 0 {
        0
    } else {
        square_sum(s.drop_last()) + s.last() * s.last()
    }
}

/// The coefficient of variation of `gaps` in fixed-point units, rounded
/// down.
///
/// With `k` gaps of sum `t` and square sum `q`, the population variance is
/// `(k * q - t * t) / (k * k)` and the mean is `t / k`, so the coefficient is
/// the square root of `(k * q - t * t) / (t * t)`.
pub open spec fn cv_spec(gaps: Seq<nat>) -> nat {
    let k = gaps.len();
    let t = sum(gaps);
    let d = k * square_sum(gaps) - t * t;
    sqrt_floor((((SCALE * SCALE) * d) / ((t * t) as int)) as nat)
}

/// `c / SCALE` is the largest multiple of `1 / SCALE` that does not exceed
/// the coefficient of variation of `gaps`.
pub open spec fn is_cv_of(gaps: Seq<nat>, c: int) -> bool {
    let k = gaps.len() as int;
    let t = sum(gaps) as int;
    let d = k * square_sum(gaps) - t * t;
    &&& 0 <= c
    &&& (c * t) * (c * t) <= (SCALE * SCALE) * d
    &&& (SCALE * SCALE) * d < ((c + 1) * t) * ((c + 1) * t)
}

/// The regularity statistic of `flags`: undefined when no bar is flagged or
/// when the gaps have mean zero, else their coefficient of variation.
pub open spec fn intervals_cv_spec(flags: Seq<bool>) -> Option<u64> {
    let gaps = epoch_gaps(flags, flags.len());
    if gaps.len() == 0 || sum(gaps) == 0 {
        None
    } else {
        Some(cv_spec(gaps) as u64)
    }
}

proof fn lemma_sum_push(s: Seq<nat>, x: nat)
    ensures
        sum(s.push(x)) == sum(s) + x,
        square_sum(s.push(x)) == square_sum(s) + x * x,
{
    assert(s.push(x).drop_last() =~= s);
}

/// Adding one more gap keeps the square sum below the square of the sum, and
/// keeps the count times the square sum above it.
proof fn lemma_moments_step(k: int, q: int, t: int, x: int)
    by (nonlinear_arith)
    requires
        0 <= k,
        0 <= q,
        0 <= t,
        0 <= x,
        q <= t * t,
        k * q >= t * t,
    ensures
        q + x * x <= (t + x) * (t + x),
        (k + 1) * (q + x * x) >= (t + x) * (t + x),
{
    if k > 0 {
        assert(k * (q + k * x * x - 2 * t * x) >= (t - k * x) * (t - k * x));
        assert(q + k * x * x - 2 * t * x >= 0);
    } else {
        assert(t == 0);
    }
}

/// The square sum of naturals lies between the square of their sum divided
/// by their number and that square.
pub proof fn lemma_moments(s: Seq<nat>)
    ensures
        square_sum(s) <= sum(s) * sum(s),
        s.len() * square_sum(s) >= sum(s) * sum(s),
    decreases s.len(),
{
    if s.len() > 0 {
        let rest = s.drop_last();
        lemma_moments(rest);
        lemma_moments_step(
            rest.len() as int,
            square_sum(rest) as int,
            sum(rest) as int,
            s.last() as int,
        );
    } else {
        assert(0 * 0 == 0) by (nonlinear_arith);
    }
}

/// The gaps add up to the position of the last marker, and there are no
/// more gaps than bars.
pub proof fn lemma_gaps_telescope(flags: Seq<bool>, i: nat)
    requires
        i <= flags.len(),
    ensures
        sum(epoch_gaps(flags, i)) == last_marker(flags, i),
        last_marker(flags, i) <= i,
        i > 0 ==> last_marker(flags, i) < i,
        epoch_gaps(flags, i).len() <= i,
    decreases i,
{
    if i > 0 {
        let j = (i - 1) as nat;
        lemma_gaps_telescope(flags, j);
        if flags[i - 1] {
            lemma_sum_push(epoch_gaps(flags, j), (i - 1 - last_marker(flags, j)) as nat);
        }
    }
}

/// The coefficient of variation is rounded once, at the very end: it is the
/// largest `c` for which `c / SCALE` does not exceed the exact coefficient.
pub proof fn lemma_cv_is_rounded_once(gaps: Seq<nat>)
    requires
        sum(gaps) > 0,
    ensures
        is_cv_of(gaps, cv_spec(gaps) as int),
{
    lemma_moments(gaps);
    let t = sum(gaps) as int;
    let d = gaps.len() * square_sum(gaps) - t * t;
    let s2 = (SCALE * SCALE) as int;
    assert(t * t > 0 && s2 * d >= 0) by (nonlinear_arith)
        requires
            t > 0,
            d >= 0,
            s2 >= 0,
    ;
    crate::fixed::lemma_div_monotone(0, s2 * d, t * t);
    let x = (s2 * d) / (t * t);
    lemma_sqrt_floor(x as nat, 0);
    lemma_cv_from_root(cv_spec(gaps) as int, x, s2, d, t);
}

/// From the quotient `x` of `s2 * d` by `t2` and its integer square root `c`
/// to the two inequalities that define the coefficient of variation.
proof fn lemma_cv_from_root(c: int, x: int, s2: int, d: int, t: int)
    by (nonlinear_arith)
    requires
        t > 0,
        0 <= d,
        0 <= s2,
        x == (s2 * d) / (t * t),
        is_sqrt_floor(x, c),
    ensures
        (c * t) * (c * t) <= s2 * d,
        s2 * d < ((c + 1) * t) * ((c + 1) * t),
{
    let t2 = t * t;
    let w = s2 * d;
    assert(t2 > 0);
    assert(w == t2 * (w / t2) + w % t2 && 0 <= w % t2 < t2) by {
        vstd::arithmetic::div_mod::lemma_fundamental_div_mod(w, t2);
        vstd::arithmetic::div_mod::lemma_mod_bound(w, t2);
    }
    assert((c * t) * (c * t) == (c * c) * t2);
    assert(((c + 1) * t) * ((c + 1) * t) == ((c + 1) * (c + 1)) * t2);
    assert((c * c) * t2 <= x * t2);
    assert((c + 1) * (c + 1) >= x + 1);
    assert(((c + 1) * (c + 1)) * t2 >= (x + 1) * t2);
}

/// Computes the coefficient of variation of the gaps between the markers of
/// `ith_epochs`, or `None` where it is undefined.
pub fn calculate_ith_intervals_cv(ith_epochs: &[bool]) -> (r: Option<u64>)
    requires
        ith_epochs.len() <= MAX_SERIES_LEN,
    ensures
        r == intervals_cv_spec(ith_epochs@),
{
    let n: usize = ith_epochs.len();
    let mut last: usize = 0;
    let mut count: u128 = 0;
    let mut squares: u128 = 0;
    let mut i: usize = 0;
    while i < n
        invariant
            i <= n,
            n == ith_epochs@.len(),
            n <= MAX_SERIES_LEN,
            last == last_marker(ith_epochs@, i as nat),
            count == epoch_gaps(ith_epochs@, i as nat).len(),
            squares == square_sum(epoch_gaps(ith_epochs@, i as nat)),
        decreases n - i,
    {
        proof {
            lemma_gaps_telescope(ith_epochs@, i as nat);
            lemma_gaps_telescope(ith_epochs@, (i + 1) as nat);
            lemma_moments(epoch_gaps(ith_epochs@, i as nat));
        }
        if ith_epochs[i] {
            let gap: u128 = (i - last) as u128;
            proof {
                lemma_sum_push(epoch_gaps(ith_epochs@, i as nat), gap as nat);
                assert(gap * gap <= 0xFFFF_FFFF * 0xFFFF_FFFF) by (nonlinear_arith)
                    requires
                        0 <= gap <= 0xFFFF_FFFF,
                ;
                assert(last * last <= 0xFFFF_FFFF * 0xFFFF_FFFF) by (nonlinear_arith)
                    requires
                        0 <= last <= 0xFFFF_FFFF,
                ;
            }
            squares = squares + gap * gap;
            count = count + 1;
            last = i;
        }
        i = i + 1;
    }
    proof {
        lemma_gaps_telescope(ith_epochs@, n as nat);
        lemma_moments(epoch_gaps(ith_epochs@, n as nat));
    }
    if count < 1 || last == 0 {
        return None;
    }
    let t: u128 = last as u128;
    let ghost gaps = epoch_gaps(ith_epochs@, n as nat);
    assert(t * t <= 0xFFFF_FFFF * 0xFFFF_FFFF && t * t > 0) by (nonlinear_arith)
        requires
            0 < t <= 0xFFFF_FFFF,
    ;
    assert(count * squares <= 0xFFFF_FFFF * (0xFFFF_FFFF * 0xFFFF_FFFF)) by (nonlinear_arith)
        requires
            0 <= count <= 0xFFFF_FFFF,
            0 <= squares <= t * t,
            t * t <= 0xFFFF_FFFF * 0xFFFF_FFFF,
    ;
    let t2: u128 = t * t;
    let d: u128 = count * squares - t2;
    let whole: u128 = d / t2;
    let rest: u128 = d % t2;
    let s2: u128 = (SCALE as u128) * (SCALE as u128);
    proof {
        assert(whole <= count) by {
            assert(count * squares <= count * t2) by (nonlinear_arith)
                requires
                    0 <= count,
                    squares <= t2,
            ;
            crate::fixed::lemma_div_monotone(d as int, count * t2, t2 as int);
            vstd::arithmetic::div_mod::lemma_div_multiples_vanish(count as int, t2 as int);
        }
        assert(s2 * whole <= 1_000_000_000_000_000_000 * 0xFFFF_FFFF) by (nonlinear_arith)
            requires
                s2 == 1_000_000_000_000_000_000,
                0 <= whole <= 0xFFFF_FFFF,
        ;
        assert(s2 * rest <= 1_000_000_000_000_000_000 * (0xFFFF_FFFF * 0xFFFF_FFFF))
            by (nonlinear_arith)
            requires
                s2 == 1_000_000_000_000_000_000,
                0 <= rest < t2,
                t2 <= 0xFFFF_FFFF * 0xFFFF_FFFF,
        ;
    }
    let x: u128 = s2 * whole + (s2 * rest) / t2;
    let c: u64 = isqrt(x);
    proof {
        let sr = (s2 * rest) as int;
        let t2i = t2 as int;
        vstd::arithmetic::div_mod::lemma_fundamental_div_mod(d as int, t2i);
        vstd::arithmetic::div_mod::lemma_fundamental_div_mod(sr, t2i);
        vstd::arithmetic::div_mod::lemma_mod_bound(sr, t2i);
        assert(s2 * d == (s2 * whole + sr / t2i) * t2i + sr % t2i) by (nonlinear_arith)
            requires
                d == t2i * whole + rest,
                sr == s2 * rest,
                sr == t2i * (sr / t2i) + sr % t2i,
        ;
        vstd::arithmetic::div_mod::lemma_fundamental_div_mod_converse(
            s2 * d,
            t2i,
            s2 * whole + sr / t2i,
            sr % t2i,
        );
        assert(s2 == SCALE * SCALE);
        assert(d == gaps.len() * square_sum(gaps) - sum(gaps) * sum(gaps));
        assert(x == ((SCALE * SCALE) * d) / ((t * t) as int));
    }
    Some(c)
}

} // verus!
