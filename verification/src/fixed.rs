//! Fixed-point scalars.
//!
//! A ratio `r` is stored as the integer `r * SCALE`. Quotients of naturals
//! are rounded down, signed ratios towards zero. A quotient that does not
//! fit the machine word saturates at the largest representable value; it
//! never wraps.

use vstd::prelude::*;

verus! {

/// Number of fixed-point units that make up the ratio 1.
pub const SCALE: u64 = 1_000_000_000;

/// The smallest positive ratio, used wherever a strictly positive floor is
/// needed.
pub const EPSILON: u64 = 1;

/// The larger of two integers.
pub open spec fn max_int(a: int, b: int) -> int {
    if a >= b { a } else { b }
}

/// The smaller of two integers.
pub open spec fn min_int(a: int, b: int) -> int {
    if a <= b { a } else { b }
}

/// `a * b / c` rounded down and capped at the largest `u64`.
pub open spec fn mul_div_sat_spec(a: int, b: int, c: int) -> int {
    min_int(a * b / c, u64::MAX as int)
}

/// The ratio `num / den` in fixed-point units, capped at the largest `u64`.
pub open spec fn ratio_spec(num: int, den: int) -> int {
    mul_div_sat_spec(num, SCALE as int, den)
}

/// `r` is the integer square root of `x`.
pub open spec fn is_sqrt_floor(x: int, r: int) -> bool {
    0 <= r && r * r <= x < (r + 1) * (r + 1)
}

/// The integer square root of `x`: the largest natural whose square does not
/// exceed `x`.
pub open spec fn sqrt_floor(x: nat) -> nat
    decreases x,
{
    if x == 0 {
        0
    } else {
        let r = sqrt_floor((x - 1) as nat);
        if (r + 1) * (r + 1) <= x {
            r + 1
        } else {
            r
        }
    }
}

/// `sqrt_floor(x)` is the integer square root of `x`, and nothing else is.
pub proof fn lemma_sqrt_floor(x: nat, r: int)
    ensures
        is_sqrt_floor(x as int, sqrt_floor(x) as int),
        is_sqrt_floor(x as int, r) ==> r == sqrt_floor(x),
    decreases x,
{
    let q = sqrt_floor(x) as int;
    if x > 0 {
        lemma_sqrt_floor((x - 1) as nat, r);
        let p = sqrt_floor((x - 1) as nat);
        assert(is_sqrt_floor(x - 1, p as int));
        if (p + 1) * (p + 1) <= x {
            assert(q == p + 1);
            assert(q * q <= x < (q + 1) * (q + 1)) by (nonlinear_arith)
                requires
                    q == p + 1,
                    (p + 1) * (p + 1) <= x,
                    x - 1 < (p + 1) * (p + 1),
            ;
        } else {
            assert(q == p);
        }
    } else {
        assert(q * q == 0 && (q + 1) * (q + 1) == 1) by (nonlinear_arith)
            requires
                q == 0,
        ;
    }
    assert(is_sqrt_floor(x as int, q));
    if is_sqrt_floor(x as int, r) {
        assert(r == q) by (nonlinear_arith)
            requires
                0 <= r,
                0 <= q,
                r * r <= x < (r + 1) * (r + 1),
                q * q <= x < (q + 1) * (q + 1),
        {
            if r < q {
                assert((r + 1) * (r + 1) <= q * q);
            }
            if q < r {
                assert((q + 1) * (q + 1) <= r * r);
            }
        }
    }
}

/// A product of naturals divided by a positive natural is a natural.
pub proof fn lemma_mul_div_nonneg(a: int, b: int, c: int)
    by (nonlinear_arith)
    requires
        0 <= a,
        0 <= b,
        0 < c,
    ensures
        0 <= a * b / c,
{
}

/// Rounded-down quotients grow with the numerator.
pub proof fn lemma_div_monotone(x: int, y: int, c: int)
    by (nonlinear_arith)
    requires
        x <= y,
        0 < c,
    ensures
        x / c <= y / c,
{
}

/// Rounded-down quotients of a natural shrink as the denominator grows.
pub proof fn lemma_div_antitone(x: int, c: int, d: int)
    requires
        0 <= x,
        0 < c <= d,
    ensures
        x / d <= x / c,
{
    vstd::arithmetic::div_mod::lemma_div_is_ordered_by_denominator(x, c, d);
}

/// A part of a whole is at most one: `a <= c` gives `a * b / c <= b`.
pub proof fn lemma_mul_div_le(a: int, b: int, c: int)
    by (nonlinear_arith)
    requires
        0 <= a <= c,
        0 <= b,
        0 < c,
    ensures
        0 <= a * b / c <= b,
{
}

/// Scaling numerator and denominator by the same factor leaves the quotient
/// unchanged.
pub proof fn lemma_div_cancel(x: int, c: int, k: int)
    requires
        0 <= x,
        0 < c,
        0 < k,
    ensures
        (k * x) / (k * c) == x / c,
{
    vstd::arithmetic::div_mod::lemma_div_denominator(k * x, k, c);
    vstd::arithmetic::div_mod::lemma_div_multiples_vanish(x, k);
    assert((k * x) / k == x) by {
        vstd::arithmetic::mul::lemma_mul_is_commutative(k, x);
    }
}

/// Computes `a * b / c`, rounded down, saturating at `u64::MAX`.
pub fn mul_div_sat(a: u64, b: u64, c: u64) -> (r: u64)
    requires
        c > 0,
    ensures
        r == mul_div_sat_spec(a as int, b as int, c as int),
{
    assert(a * b <= u64::MAX * u64::MAX) by (nonlinear_arith)
        requires
            a <= u64::MAX,
            b <= u64::MAX,
    ;
    let wide: u128 = (a as u128) * (b as u128) / (c as u128);
    if wide > u64::MAX as u128 {
        u64::MAX
    } else {
        wide as u64
    }
}

/// Computes the ratio `num / den` in fixed-point units, saturating.
pub fn ratio(num: u64, den: u64) -> (r: u64)
    requires
        den > 0,
    ensures
        r == ratio_spec(num as int, den as int),
{
    mul_div_sat(num, SCALE, den)
}

/// Integer square root: the largest `r` with `r * r <= x`.
pub fn isqrt(x: u128) -> (r: u64)
    ensures
        r == sqrt_floor(x as nat),
        is_sqrt_floor(x as int, r as int),
{
    let mut lo: u128 = 0;
    let mut hi: u128 = 0x1_0000_0000_0000_0000;
    assert(x < hi * hi) by (nonlinear_arith)
        requires
            hi == 0x1_0000_0000_0000_0000,
            x <= u128::MAX,
    ;
    while hi - lo > 1
        invariant
            lo < hi <= 0x1_0000_0000_0000_0000,
            lo * lo <= x < hi * hi,
        decreases hi - lo,
    {
        let mid: u128 = lo + (hi - lo) / 2;
        assert(mid * mid <= u128::MAX) by (nonlinear_arith)
            requires
                0 <= mid < 0x1_0000_0000_0000_0000,
        ;
        if mid * mid <= x {
            lo = mid;
        } else {
            hi = mid;
        }
    }
    proof {
        lemma_sqrt_floor(x as nat, lo as int);
    }
    lo as u64
}

} // verus!
