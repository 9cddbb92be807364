//! Elementary statistics of a value series: drawdown, runup, returns and the
//! Sharpe ratio.

use vstd::prelude::*;
use crate::fixed::{
    isqrt, lemma_div_monotone, lemma_mul_div_le, lemma_mul_div_nonneg, max_int, min_int, ratio,
    ratio_spec, sqrt_floor, SCALE,
};
use crate::types::FitnessMetrics;

verus! {

/// Highest value among bars `0..=i`.
pub open spec fn running_peak(nav: Seq<u64>, i: int) -> u64
    recommends
        0 <= i < nav.len(),
    decreases i,
{
    if i <= 0 {
        nav[0]
    } else if nav[i] > running_peak(nav, i - 1) {
        nav[i]
    } else {
        running_peak(nav, i - 1)
    }
}

/// Lowest value among bars `0..=i`.
pub open spec fn running_trough(nav: Seq<u64>, i: int) -> u64
    recommends
        0 <= i < nav.len(),
    decreases i,
{
    if i <= 0 {
        nav[0]
    } else if nav[i] < running_trough(nav, i - 1) {
        nav[i]
    } else {
        running_trough(nav, i - 1)
    }
}

/// Fall of bar `i` below the running peak, as a fraction of that peak; zero
/// while the peak is zero.
pub open spec fn drawdown_at(nav: Seq<u64>, i: int) -> int
    recommends
        0 <= i < nav.len(),
{
    let peak = running_peak(nav, i);
    if peak == 0 {
        0
    } else {
        ratio_spec(peak - nav[i], peak as int)
    }
}

/// Rise of bar `i` above the running trough, as a fraction of the bar's own
/// value; zero while the trough or the bar is zero.
pub open spec fn runup_at(nav: Seq<u64>, i: int) -> int
    recommends
        0 <= i < nav.len(),
{
    let trough = running_trough(nav, i);
    if trough == 0 || nav[i] == 0 {
        0
    } else {
        ratio_spec(nav[i] - trough, nav[i] as int)
    }
}

/// Largest drawdown among the first `n` bars.
pub open spec fn max_drawdown_upto(nav: Seq<u64>, n: nat) -> int
    recommends
        n <= nav.len(),
    decreases n,
{
    if n == 0 {
        0
    } else {
        max_int(max_drawdown_upto(nav, (n - 1) as nat), drawdown_at(nav, n - 1))
    }
}

/// Largest runup among the first `n` bars.
pub open spec fn max_runup_upto(nav: Seq<u64>, n: nat) -> int
    recommends
        n <= nav.len(),
    decreases n,
{
    if n == 0 {
        0
    } else {
        max_int(max_runup_upto(nav, (n - 1) as nat), runup_at(nav, n - 1))
    }
}

/// Maximum drawdown of the whole series.
pub open spec fn max_drawdown_spec(nav: Seq<u64>) -> int {
    max_drawdown_upto(nav, nav.len())
}

/// Maximum runup of the whole series.
pub open spec fn max_runup_spec(nav: Seq<u64>) -> int {
    max_runup_upto(nav, nav.len())
}

/// Return from `from` to `to` in fixed-point units, rounded towards zero and
/// capped at the largest `i64`; zero where `from` is zero.
pub open spec fn return_spec(from: u64, to: u64) -> int {
    if from == 0 {
        0
    } else if to >= from {
        min_int(ratio_spec(to - from, from as int), i64::MAX as int)
    } else {
        -ratio_spec(from - to, from as int)
    }
}

/// The running peak is at least every bar up to it, and is one of them.
pub proof fn lemma_running_peak(nav: Seq<u64>, i: int)
    requires
        0 <= i < nav.len(),
    ensures
        forall|j: int| 0 <= j <= i ==> #[trigger] nav[j] <= running_peak(nav, i),
        exists|j: int| 0 <= j <= i && #[trigger] nav[j] == running_peak(nav, i),
    decreases i,
{
    if i > 0 {
        lemma_running_peak(nav, i - 1);
        let w = choose|j: int| 0 <= j <= i - 1 && #[trigger] nav[j] == running_peak(nav, i - 1);
        if nav[i] > running_peak(nav, i - 1) {
            assert(nav[i] == running_peak(nav, i));
        } else {
            assert(nav[w] == running_peak(nav, i));
        }
    } else {
        assert(nav[0] == running_peak(nav, i));
    }
}

/// The running trough is at most every bar up to it, and is one of them.
pub proof fn lemma_running_trough(nav: Seq<u64>, i: int)
    requires
        0 <= i < nav.len(),
    ensures
        forall|j: int| 0 <= j <= i ==> #[trigger] nav[j] >= running_trough(nav, i),
        exists|j: int| 0 <= j <= i && #[trigger] nav[j] == running_trough(nav, i),
    decreases i,
{
    if i > 0 {
        lemma_running_trough(nav, i - 1);
        let w = choose|j: int| 0 <= j <= i - 1 && #[trigger] nav[j] == running_trough(nav, i - 1);
        if nav[i] < running_trough(nav, i - 1) {
            assert(nav[i] == running_trough(nav, i));
        } else {
            assert(nav[w] == running_trough(nav, i));
        }
    } else {
        assert(nav[0] == running_trough(nav, i));
    }
}

/// Every drawdown and every runup is a fraction between zero and one.
pub proof fn lemma_excursions_are_fractions(nav: Seq<u64>, i: int)
    requires
        0 <= i < nav.len(),
    ensures
        0 <= drawdown_at(nav, i) <= SCALE,
        0 <= runup_at(nav, i) <= SCALE,
{
    lemma_running_peak(nav, i);
    lemma_running_trough(nav, i);
    let peak = running_peak(nav, i);
    let trough = running_trough(nav, i);
    if peak != 0 {
        lemma_mul_div_le(peak - nav[i], SCALE as int, peak as int);
    }
    if trough != 0 && nav[i] != 0 {
        lemma_mul_div_le(nav[i] - trough, SCALE as int, nav[i] as int);
    }
}

/// The maximum drawdown is a fraction, bounds the drawdown of every bar, and
/// is the drawdown of some bar unless there is none.
pub proof fn lemma_max_drawdown(nav: Seq<u64>, n: nat)
    requires
        n <= nav.len(),
    ensures
        0 <= max_drawdown_upto(nav, n) <= SCALE,
        forall|i: int| 0 <= i < n ==> #[trigger] drawdown_at(nav, i) <= max_drawdown_upto(nav, n),
        n > 0 ==> exists|i: int|
            0 <= i < n && #[trigger] drawdown_at(nav, i) == max_drawdown_upto(nav, n),
    decreases n,
{
    if n > 0 {
        let m = (n - 1) as nat;
        lemma_max_drawdown(nav, m);
        lemma_excursions_are_fractions(nav, n - 1);
        if m == 0 || drawdown_at(nav, n - 1) >= max_drawdown_upto(nav, m) {
            assert(drawdown_at(nav, n - 1) == max_drawdown_upto(nav, n));
        } else {
            let w = choose|i: int|
                0 <= i < m && #[trigger] drawdown_at(nav, i) == max_drawdown_upto(nav, m);
            assert(drawdown_at(nav, w) == max_drawdown_upto(nav, n));
        }
    }
}

/// The maximum runup is a fraction, bounds the runup of every bar, and is
/// the runup of some bar unless there is none.
pub proof fn lemma_max_runup(nav: Seq<u64>, n: nat)
    requires
        n <= nav.len(),
    ensures
        0 <= max_runup_upto(nav, n) <= SCALE,
        forall|i: int| 0 <= i < n ==> #[trigger] runup_at(nav, i) <= max_runup_upto(nav, n),
        n > 0 ==> exists|i: int|
            0 <= i < n && #[trigger] runup_at(nav, i) == max_runup_upto(nav, n),
    decreases n,
{
    if n > 0 {
        let m = (n - 1) as nat;
        lemma_max_runup(nav, m);
        lemma_excursions_are_fractions(nav, n - 1);
        if m == 0 || runup_at(nav, n - 1) >= max_runup_upto(nav, m) {
            assert(runup_at(nav, n - 1) == max_runup_upto(nav, n));
        } else {
            let w = choose|i: int|
                0 <= i < m && #[trigger] runup_at(nav, i) == max_runup_upto(nav, m);
            assert(runup_at(nav, w) == max_runup_upto(nav, n));
        }
    }
}

/// A series that never falls has no drawdown.
pub proof fn lemma_rising_series_has_no_drawdown(nav: Seq<u64>, n: nat)
    requires
        n <= nav.len(),
        forall|i: int, j: int| 0 <= i <= j < nav.len() ==> nav[i] <= nav[j],
    ensures
        max_drawdown_upto(nav, n) == 0,
    decreases n,
{
    if n > 0 {
        lemma_rising_series_has_no_drawdown(nav, (n - 1) as nat);
        lemma_running_peak(nav, n - 1);
        let peak = running_peak(nav, n - 1);
        assert(peak == nav[n - 1]);
        if peak != 0 {
            assert(0 * SCALE / (peak as int) == 0) by (nonlinear_arith)
                requires
                    peak > 0,
            ;
        }
    }
}

/// A series that never rises has no runup.
pub proof fn lemma_falling_series_has_no_runup(nav: Seq<u64>, n: nat)
    requires
        n <= nav.len(),
        forall|i: int, j: int| 0 <= i <= j < nav.len() ==> nav[i] >= nav[j],
    ensures
        max_runup_upto(nav, n) == 0,
    decreases n,
{
    if n > 0 {
        lemma_falling_series_has_no_runup(nav, (n - 1) as nat);
        lemma_running_trough(nav, n - 1);
        let trough = running_trough(nav, n - 1);
        assert(trough == nav[n - 1]);
        if trough != 0 {
            assert(0 * SCALE / (trough as int) == 0) by (nonlinear_arith)
                requires
                    trough > 0,
            ;
        }
    }
}

/// Computes the maximum drawdown of `nav_values`: the largest fall below a
/// running peak, as a fraction of that peak. An empty series has none.
pub fn max_drawdown(nav_values: &[u64]) -> (r: u64)
    ensures
        r == max_drawdown_spec(nav_values@),
        r <= SCALE,
{
    let n: usize = nav_values.len();
    if n == 0 {
        return 0;
    }
    let mut peak: u64 = nav_values[0];
    let mut worst: u64 = 0;
    let mut i: usize = 0;
    while i < n
        invariant
            i <= n,
            n == nav_values@.len(),
            n > 0,
            i == 0 ==> peak == nav_values@[0],
            i > 0 ==> peak == running_peak(nav_values@, i - 1),
            worst == max_drawdown_upto(nav_values@, i as nat),
            worst <= SCALE,
        decreases n - i,
    {
        let value: u64 = nav_values[i];
        if value > peak {
            peak = value;
        }
        proof {
            lemma_excursions_are_fractions(nav_values@, i as int);
            lemma_running_peak(nav_values@, i as int);
        }
        if peak > 0 {
            let fall: u64 = ratio(peak - value, peak);
            if fall > worst {
                worst = fall;
            }
        }
        i = i + 1;
    }
    worst
}

/// Computes the maximum runup of `nav_values`: the largest rise above a
/// running trough, as a fraction of the risen value. Bars at which the
/// trough or the value is zero contribute nothing.
pub fn max_runup(nav_values: &[u64]) -> (r: u64)
    ensures
        r == max_runup_spec(nav_values@),
        r <= SCALE,
{
    let n: usize = nav_values.len();
    if n == 0 {
        return 0;
    }
    let mut trough: u64 = nav_values[0];
    let mut best: u64 = 0;
    let mut i: usize = 0;
    while i < n
        invariant
            i <= n,
            n == nav_values@.len(),
            n > 0,
            i == 0 ==> trough == nav_values@[0],
            i > 0 ==> trough == running_trough(nav_values@, i - 1),
            best == max_runup_upto(nav_values@, i as nat),
            best <= SCALE,
        decreases n - i,
    {
        let value: u64 = nav_values[i];
        if value < trough {
            trough = value;
        }
        proof {
            lemma_excursions_are_fractions(nav_values@, i as int);
            lemma_running_trough(nav_values@, i as int);
        }
        if value > 0 && trough > 0 {
            let rise: u64 = ratio(value - trough, value);
            if rise > best {
                best = rise;
            }
        }
        i = i + 1;
    }
    best
}

/// Computes the return from `from` to `to`.
pub fn simple_return(from: u64, to: u64) -> (r: i64)
    ensures
        r == return_spec(from, to),
        -(SCALE as int) <= r,
{
    if from == 0 {
        0
    } else if to >= from {
        let up: u64 = ratio(to - from, from);
        proof {
            lemma_mul_div_nonneg(to - from, SCALE as int, from as int);
        }
        if up > i64::MAX as u64 {
            i64::MAX
        } else {
            up as i64
        }
    } else {
        proof {
            lemma_mul_div_le(from - to, SCALE as int, from as int);
        }
        let down: u64 = ratio(from - to, from);
        -(down as i64)
    }
}

/// Computes the return from the first to the last value of the series; zero
/// for fewer than two values or a first value of zero.
pub fn total_return(nav_values: &[u64]) -> (r: i64)
    ensures
        r == if nav_values@.len() < 2 {
            0
        } else {
            return_spec(nav_values@[0], nav_values@[nav_values@.len() - 1])
        },
{
    let n: usize = nav_values.len();
    if n < 2 {
        return 0;
    }
    simple_return(nav_values[0], nav_values[n - 1])
}

/// Computes the bar-to-bar returns of the series. The first entry is zero;
/// a series of fewer than two values gives that single entry.
pub fn pnl_from_nav(nav_values: &[u64]) -> (pnl: Vec<i64>)
    ensures
        pnl@.len() == max_int(nav_values@.len() as int, 1),
        pnl@[0] == 0,
        forall|i: int|
            1 <= i < nav_values@.len() ==> #[trigger] pnl@[i] == return_spec(
                nav_values@[i - 1],
                nav_values@[i],
            ),
{
    let n: usize = nav_values.len();
    let mut pnl: Vec<i64> = Vec::new();
    pnl.push(0);
    let mut i: usize = 1;
    while i < n
        invariant
            1 <= i,
            i <= n || i == 1,
            n == nav_values@.len(),
            pnl@.len() == i,
            pnl@[0] == 0,
            forall|j: int|
                1 <= j < i ==> #[trigger] pnl@[j] == return_spec(
                    nav_values@[j - 1],
                    nav_values@[j],
                ),
        decreases n - i,
    {
        let step: i64 = simple_return(nav_values[i - 1], nav_values[i]);
        pnl.push(step);
        i = i + 1;
    }
    pnl
}

/// Largest magnitude of a return that the Sharpe ratio is computed for.
pub const MAX_RETURN: i64 = 0x8000_0000_0000;

/// Largest number of returns that the Sharpe ratio is computed for.
pub const MAX_RETURNS: usize = 0xFFFF_FFFF;

/// `a / b` rounded towards zero.
pub open spec fn trunc_div(a: int, b: int) -> int
    recommends
        b > 0,
{
    if a >= 0 {
        a / b
    } else {
        -((-a) / b)
    }
}

/// Sum of the entries of `s`.
pub open spec fn series_sum(s: Seq<i64>) -> int
    decreases s.len(),
{
    if s.len() == 0 {
        0
    } else {
        series_sum(s.drop_last()) + s.last()
    }
}

/// Sum of the squared distances of the entries of `s` from `center`.
pub open spec fn squared_deviations(s: Seq<i64>, center: int) -> int
    decreases s.len(),
{
    if s.len() == 0 {
        0
    } else {
        squared_deviations(s.drop_last(), center) + (s.last() - center) * (s.last() - center)
    }
}

/// Every entry of `s` has a magnitude of at most `MAX_RETURN`.
pub open spec fn returns_in_range(s: Seq<i64>) -> bool {
    forall|i: int| 0 <= i < s.len() ==> -MAX_RETURN <= #[trigger] s[i] <= MAX_RETURN
}

/// Mean of the returns, rounded towards zero.
pub open spec fn mean_return(pnl: Seq<i64>) -> int
    recommends
        pnl.len() > 0,
{
    trunc_div(series_sum(pnl), pnl.len() as int)
}

/// Sample standard deviation of the returns about their mean, rounded down.
pub open spec fn sample_deviation(pnl: Seq<i64>) -> nat
    recommends
        pnl.len() > 1,
{
    sqrt_floor(
        (squared_deviations(pnl, mean_return(pnl)) / (pnl.len() - 1)) as nat,
    )
}

/// The annualised Sharpe ratio of `pnl`: the mean return in excess of
/// the risk-free rate, divided by the sample standard deviation and
/// multiplied by the square root of the number of periods in a year; rounded
/// towards zero and capped at the largest `i64`.
///
/// It is undefined for fewer than two returns and for a standard deviation
/// of zero. It is not computed for more than `MAX_RETURNS` returns, nor where
/// a return or the risk-free rate exceeds `MAX_RETURN` in magnitude.
pub open spec fn sharpe_spec(pnl: Seq<i64>, periods_per_year: u32, risk_free_rate: i64) -> Option<
    i64,
> {
    if pnl.len() < 2 || pnl.len() > MAX_RETURNS || !returns_in_range(pnl)
        || risk_free_rate < -MAX_RETURN || risk_free_rate > MAX_RETURN {
        None
    } else {
        let deviation = sample_deviation(pnl) as int;
        let excess = mean_return(pnl) - risk_free_rate;
        let root = sqrt_floor((periods_per_year * (SCALE * SCALE)) as nat) as int;
        if deviation == 0 {
            None
        } else if excess >= 0 {
            Some(min_int(root * excess / deviation, i64::MAX as int) as i64)
        } else {
            Some((-min_int(root * (-excess) / deviation, i64::MAX as int)) as i64)
        }
    }
}

proof fn lemma_mean_within(total: int, n: int, bound: int)
    by (nonlinear_arith)
    requires
        n > 0,
        bound >= 0,
        -(n * bound) <= total <= n * bound,
    ensures
        -bound <= trunc_div(total, n) <= bound,
{
    if total >= 0 {
        assert(total / n <= bound);
    } else {
        assert((-total) / n <= bound);
    }
}

proof fn lemma_square_bound(x: int, bound: int)
    by (nonlinear_arith)
    requires
        -bound <= x <= bound,
    ensures
        0 <= x * x <= bound * bound,
{
}

/// Computes the annualised Sharpe ratio of `pnl`, or `None` where it is
/// undefined or out of range.
pub fn sharpe_ratio(pnl: &[i64], periods_per_year: u32, risk_free_rate: i64) -> (r: Option<
    i64,
>)
    ensures
        r == sharpe_spec(pnl@, periods_per_year, risk_free_rate),
{
    let n: usize = pnl.len();
    if n < 2 || n > MAX_RETURNS || risk_free_rate < -MAX_RETURN || risk_free_rate > MAX_RETURN {
        return None;
    }
    let mut total: i128 = 0;
    let mut i: usize = 0;
    while i < n
        invariant
            i <= n,
            n == pnl@.len(),
            n <= MAX_RETURNS,
            total == series_sum(pnl@.take(i as int)),
            returns_in_range(pnl@.take(i as int)),
            -(i * MAX_RETURN) <= total <= i * MAX_RETURN,
        decreases n - i,
    {
        let x: i64 = pnl[i];
        if x < -MAX_RETURN || x > MAX_RETURN {
            return None;
        }
        proof {
            assert(pnl@.take(i + 1).drop_last() =~= pnl@.take(i as int));
            assert forall|j: int| 0 <= j < i + 1 implies -MAX_RETURN <= #[trigger] pnl@.take(
                i + 1,
            )[j] <= MAX_RETURN by {
                if j < i {
                    assert(pnl@.take(i as int)[j] == pnl@.take(i + 1)[j]);
                }
            }
            assert((i + 1) * MAX_RETURN == i * MAX_RETURN + MAX_RETURN) by (nonlinear_arith);
            assert(0 <= i * MAX_RETURN <= 0xFFFF_FFFF * 0x8000_0000_0000) by (nonlinear_arith)
                requires
                    0 <= i <= 0xFFFF_FFFF,
                    MAX_RETURN == 0x8000_0000_0000,
            ;
        }
        total = total + x as i128;
        i = i + 1;
    }
    proof {
        assert(pnl@.take(n as int) =~= pnl@);
        lemma_mean_within(total as int, n as int, MAX_RETURN as int);
    }
    let mean: i128 = if total >= 0 {
        total / (n as i128)
    } else {
        -((-total) / (n as i128))
    };
    let mut squares: u128 = 0;
    let mut k: usize = 0;
    while k < n
        invariant
            k <= n,
            n == pnl@.len(),
            2 <= n <= MAX_RETURNS,
            returns_in_range(pnl@),
            -MAX_RETURN <= mean <= MAX_RETURN,
            squares == squared_deviations(pnl@.take(k as int), mean as int),
            squares <= k * (0x1_0000_0000_0000 * 0x1_0000_0000_0000),
        decreases n - k,
    {
        let d: i128 = pnl[k] as i128 - mean;
        proof {
            assert(pnl@.take(k + 1).drop_last() =~= pnl@.take(k as int));
            lemma_square_bound(d as int, 0x1_0000_0000_0000);
            assert((k + 1) * (0x1_0000_0000_0000 * 0x1_0000_0000_0000) == k * (0x1_0000_0000_0000
                * 0x1_0000_0000_0000) + 0x1_0000_0000_0000 * 0x1_0000_0000_0000)
                by (nonlinear_arith);
            assert(k * (0x1_0000_0000_0000 * 0x1_0000_0000_0000) <= 0xFFFF_FFFF * (
            0x1_0000_0000_0000 * 0x1_0000_0000_0000)) by (nonlinear_arith)
                requires
                    0 <= k <= 0xFFFF_FFFF,
            ;
        }
        squares = squares + (d * d) as u128;
        k = k + 1;
    }
    proof {
        assert(pnl@.take(n as int) =~= pnl@);
    }
    let variance: u128 = squares / ((n - 1) as u128);
    let deviation: u128 = isqrt(variance) as u128;
    if deviation == 0 {
        return None;
    }
    assert(periods_per_year * (SCALE * SCALE) <= 0xFFFF_FFFF * 1_000_000_000_000_000_000)
        by (nonlinear_arith)
        requires
            0 <= periods_per_year <= 0xFFFF_FFFF,
            SCALE == 1_000_000_000,
    ;
    let unit_squared: u128 = (SCALE as u128) * (SCALE as u128);
    let root: u128 = isqrt((periods_per_year as u128) * unit_squared) as u128;
    let excess: i128 = mean - risk_free_rate as i128;
    let size: u128 = if excess >= 0 { excess as u128 } else { (-excess) as u128 };
    assert(root * size <= 0xFFFF_FFFF_FFFF_FFFF * 0x1_0000_0000_0000 && 0 <= root * size)
        by (nonlinear_arith)
        requires
            0 <= root <= 0xFFFF_FFFF_FFFF_FFFF,
            0 <= size <= 0x1_0000_0000_0000,
    ;
    let quotient: u128 = root * size / deviation;
    proof {
        lemma_div_monotone(0, (root * size) as int, deviation as int);
    }
    let capped: i64 = if quotient > i64::MAX as u128 { i64::MAX } else { quotient as i64 };
    if excess >= 0 {
        Some(capped)
    } else {
        Some(-capped)
    }
}

/// What `calculate_fitness_metrics` reports for a series.
pub open spec fn is_fitness_of(
    m: FitnessMetrics,
    nav: Seq<u64>,
    pnl: Seq<i64>,
    periods: u32,
) -> bool {
    &&& m.sharpe_ratio == sharpe_spec(pnl, periods, 0)
    &&& m.max_drawdown == max_drawdown_spec(nav)
    &&& m.total_return == if nav.len() < 2 {
        0
    } else {
        return_spec(nav[0], nav[nav.len() - 1])
    }
    &&& m.trading_days == nav.len()
}

/// The bar-to-bar returns of a series, as `pnl_from_nav` computes them.
pub open spec fn pnl_spec(nav: Seq<u64>) -> Seq<i64> {
    Seq::new(
        max_int(nav.len() as int, 1) as nat,
        |i: int| if i == 0 { 0i64 } else { return_spec(nav[i - 1], nav[i]) as i64 },
    )
}

/// Computes the summary statistics of a series: the Sharpe ratio of its
/// bar-to-bar returns against a risk-free rate of zero, its maximum
/// drawdown, its total return and its length.
pub fn calculate_fitness_metrics(nav_values: &[u64], periods_per_year: u32) -> (m: FitnessMetrics)
    ensures
        is_fitness_of(m, nav_values@, pnl_spec(nav_values@), periods_per_year),
{
    let pnl = pnl_from_nav(nav_values);
    assert(pnl@ =~= pnl_spec(nav_values@));
    let sr = sharpe_ratio(pnl.as_slice(), periods_per_year, 0);
    let mdd = max_drawdown(nav_values);
    let total_ret = total_return(nav_values);
    FitnessMetrics {
        sharpe_ratio: sr,
        max_drawdown: mdd,
        total_return: total_ret,
        trading_days: nav_values.len(),
    }
}

} // verus!
