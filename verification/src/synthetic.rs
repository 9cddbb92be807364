//! Synthetic value series with market-like properties, for exercising the
//! analysis: multiplicative paths with a floor, geometric trends, and price
//! bars whose high and low enclose their open and close.

use vstd::prelude::*;
use crate::fixed::{mul_div_sat, mul_div_sat_spec, SCALE};

verus! {

/// Lowest price of a synthetic path: one hundredth.
pub const PRICE_FLOOR: u64 = 10_000_000;

/// The factor `1 + step` in units of `1 / SCALE`; zero where `step` is below
/// minus one.
pub open spec fn growth_factor(step: i64) -> int {
    if SCALE + step < 0 {
        0
    } else {
        SCALE + step
    }
}

/// The price after one step of return `step`: the price times `1 + step`,
/// capped at the largest `u64` and floored at `PRICE_FLOOR`.
pub open spec fn next_price(price: u64, step: i64) -> u64 {
    let moved = mul_div_sat_spec(price as int, growth_factor(step), SCALE as int);
    if moved < PRICE_FLOOR {
        PRICE_FLOOR
    } else {
        moved as u64
    }
}

/// The price after the first `k` steps of `steps`, starting from `start`.
pub open spec fn price_after(start: u64, steps: Seq<i64>, k: nat) -> u64
    recommends
        k <= steps.len(),
    decreases k,
{
    if k == 0 {
        start
    } else {
        next_price(price_after(start, steps, (k - 1) as nat), steps[k - 1])
    }
}

/// Entry `k` of the geometric series from `start` with the factor `drift`,
/// given in units of `1 / SCALE`: each entry is the one before it times
/// `drift`, capped at the largest `u64`.
pub open spec fn trend_at(start: u64, drift: u64, k: nat) -> u64
    decreases k,
{
    if k == 0 {
        start
    } else {
        mul_div_sat_spec(
            trend_at(start, drift, (k - 1) as nat) as int,
            drift as int,
            SCALE as int,
        ) as u64
    }
}

/// Every price after the first step is at least `PRICE_FLOOR`.
pub proof fn lemma_prices_floored(start: u64, steps: Seq<i64>, k: nat)
    requires
        1 <= k <= steps.len(),
    ensures
        price_after(start, steps, k) >= PRICE_FLOOR,
{
}

/// A geometric series whose factor is at least one never falls.
pub proof fn lemma_trend_rises(start: u64, drift: u64, k: nat)
    requires
        drift >= SCALE,
    ensures
        trend_at(start, drift, k) <= trend_at(start, drift, k + 1),
{
    let v = trend_at(start, drift, k) as int;
    assert(v * SCALE <= v * drift) by (nonlinear_arith)
        requires
            0 <= v,
            SCALE <= drift,
    ;
    crate::fixed::lemma_div_monotone(v * SCALE, v * drift, SCALE as int);
    vstd::arithmetic::div_mod::lemma_div_multiples_vanish(v, SCALE as int);
}

/// Builds the path of `steps.len() + 1` prices that starts at `start` and
/// follows the returns `steps`, never falling below `PRICE_FLOOR` after the
/// start.
pub fn realistic_prices(start: u64, steps: &[i64]) -> (prices: Vec<u64>)
    ensures
        prices@.len() == steps@.len() + 1,
        forall|k: int|
            0 <= k <= steps@.len() ==> #[trigger] prices@[k] == price_after(
                start,
                steps@,
                k as nat,
            ),
        forall|k: int| 1 <= k <= steps@.len() ==> #[trigger] prices@[k] >= PRICE_FLOOR,
{
    let n: usize = steps.len();
    let mut prices: Vec<u64> = Vec::new();
    prices.push(start);
    let mut price: u64 = start;
    let mut k: usize = 0;
    while k < n
        invariant
            k <= n,
            n == steps@.len(),
            prices@.len() == k + 1,
            price == price_after(start, steps@, k as nat),
            forall|j: int|
                0 <= j <= k ==> #[trigger] prices@[j] == price_after(start, steps@, j as nat),
            forall|j: int| 1 <= j <= k ==> #[trigger] prices@[j] >= PRICE_FLOOR,
        decreases n - k,
    {
        let step: i64 = steps[k];
        let factor: u64 = if step < -(SCALE as i64) {
            0
        } else if step < 0 {
            SCALE - ((-step) as u64)
        } else {
            SCALE + step as u64
        };
        let moved: u64 = mul_div_sat(price, factor, SCALE);
        price = if moved < PRICE_FLOOR { PRICE_FLOOR } else { moved };
        prices.push(price);
        k = k + 1;
    }
    prices
}

/// Builds the geometric series of `n` entries from `start` with the factor
/// `drift`.
pub fn trending_series(start: u64, drift: u64, n: usize) -> (series: Vec<u64>)
    ensures
        series@.len() == n,
        forall|k: int| 0 <= k < n ==> #[trigger] series@[k] == trend_at(start, drift, k as nat),
        drift >= SCALE ==> forall|k: int|
            0 <= k && k + 1 < n ==> #[trigger] series@[k] <= series@[k + 1],
{
    let mut series: Vec<u64> = Vec::new();
    let mut value: u64 = start;
    let mut k: usize = 0;
    while k < n
        invariant
            k <= n,
            series@.len() == k,
            value == trend_at(start, drift, k as nat),
            forall|j: int| 0 <= j < k ==> #[trigger] series@[j] == trend_at(start, drift, j as nat),
        decreases n - k,
    {
        series.push(value);
        proof {
            crate::fixed::lemma_mul_div_nonneg(value as int, drift as int, SCALE as int);
        }
        value = mul_div_sat(value, drift, SCALE);
        k = k + 1;
    }
    proof {
        if drift >= SCALE {
            assert forall|j: int| 0 <= j && j + 1 < n implies #[trigger] series@[j] <= series@[j
                + 1] by {
                lemma_trend_rises(start, drift, j as nat);
            }
        }
    }
    series
}

/// Half the range of a bar around `base` whose range is the fraction
/// `range_pct` of `base`.
pub open spec fn half_range(base: u64, range_pct: u64) -> int {
    mul_div_sat_spec(base as int, range_pct as int, SCALE as int) / 2
}

/// The low of the bar: half the range below `base`, not below zero.
pub open spec fn bar_low(base: u64, range_pct: u64) -> int {
    if half_range(base, range_pct) > base {
        0
    } else {
        base - half_range(base, range_pct)
    }
}

/// The high of the bar: half the range above `base`, capped at the largest
/// `u64`.
pub open spec fn bar_high(base: u64, range_pct: u64) -> int {
    if base + half_range(base, range_pct) > u64::MAX {
        u64::MAX as int
    } else {
        base + half_range(base, range_pct)
    }
}

/// The price that lies the fraction `at` of the way from `low` to `high`; a
/// fraction above one counts as one.
pub open spec fn price_between(low: int, high: int, at: u64) -> int {
    let fraction = if at > SCALE { SCALE as int } else { at as int };
    low + (high - low) * fraction / (SCALE as int)
}

/// Computes the low and the high of a price bar around `base`.
pub fn bar_bounds(base: u64, range_pct: u64) -> (bounds: (u64, u64))
    ensures
        bounds.0 <= base <= bounds.1,
        bounds.0 == bar_low(base, range_pct),
        bounds.1 == bar_high(base, range_pct),
{
    proof {
        crate::fixed::lemma_mul_div_nonneg(base as int, range_pct as int, SCALE as int);
    }
    let half: u64 = mul_div_sat(base, range_pct, SCALE) / 2;
    let low: u64 = if half > base { 0 } else { base - half };
    let high: u64 = if half > u64::MAX - base { u64::MAX } else { base + half };
    (low, high)
}

/// Builds a price bar `(open, high, low, close)` around `base` whose range
/// is the fraction `range_pct` of `base`, with the open and the close at the
/// fractions `open_at` and `close_at` of the way from the low to the high.
/// The high is at least, and the low at most, both the open and the close.
pub fn valid_ohlc(base: u64, range_pct: u64, open_at: u64, close_at: u64) -> (bar: (
    u64,
    u64,
    u64,
    u64,
))
    ensures
        bar.1 == bar_high(base, range_pct),
        bar.2 == bar_low(base, range_pct),
        bar.0 == price_between(bar.2 as int, bar.1 as int, open_at),
        bar.3 == price_between(bar.2 as int, bar.1 as int, close_at),
        bar.2 <= bar.0 <= bar.1,
        bar.2 <= bar.3 <= bar.1,
{
    let (low, high) = bar_bounds(base, range_pct);
    let width: u64 = high - low;
    let open_in: u64 = if open_at > SCALE { SCALE } else { open_at };
    let close_in: u64 = if close_at > SCALE { SCALE } else { close_at };
    proof {
        crate::fixed::lemma_mul_div_le(open_in as int, width as int, SCALE as int);
        crate::fixed::lemma_mul_div_le(close_in as int, width as int, SCALE as int);
        assert(width * open_in == open_in * width && width * close_in == close_in * width)
            by (nonlinear_arith);
    }
    let open: u64 = low + mul_div_sat(width, open_in, SCALE);
    let close: u64 = low + mul_div_sat(width, close_in, SCALE);
    (open, high, low, close)
}

} // verus!
