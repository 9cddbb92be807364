//! Squashing functions in fixed-point arithmetic.
//!
//! Everything rests on one primitive, a decaying exponential computed by
//! repeated squaring: `(1 - z / N)` raised to the power `N`, for `N` a power
//! of two. Each squaring rounds down, which keeps the primitive monotone and
//! within the unit interval by construction, and between `1 - z` and
//! `1 / (1 + z)` as the exponential itself; the logistic curve and the
//! hyperbolic tangent inherit monotonicity and bounds.

use vstd::prelude::*;
use crate::fixed::{lemma_div_antitone, lemma_div_monotone, lemma_mul_div_le, SCALE};

verus! {

/// The value 1 in the finer scale that the exponential works in.
pub const UNIT: u64 = 0x8000_0000_0000_0000;

/// Number of squarings; `N` is two to this power.
pub const DOUBLINGS: u32 = 31;

/// Arguments from here on decay to zero.
pub const CUTOFF: u128 = 2_147_483_648_000_000_000;

/// `x` squared `k` times in the scale of `UNIT`, rounding down each time.
pub open spec fn squared(x: nat, k: nat) -> nat
    decreases k,
{
    if k == 0 {
        x
    } else {
        squared(x * x / (UNIT as nat), (k - 1) as nat)
    }
}

/// The decaying exponential of `z`, a ratio in units of `1 / SCALE`; the
/// result is in units of `1 / UNIT`.
pub open spec fn exp_neg_spec(z: nat) -> nat {
    let step = z * 0x1_0000_0000 / (SCALE as nat);
    if step >= UNIT {
        0
    } else {
        squared((UNIT - step) as nat, DOUBLINGS as nat)
    }
}

/// The absolute value of `z`.
pub open spec fn magnitude(z: int) -> nat {
    if z >= 0 { z as nat } else { (-z) as nat }
}

/// The logistic curve `1 / (1 + exp(-z))` in units of `1 / SCALE`, for `z`
/// in the same units.
pub open spec fn logistic_spec(z: int) -> int {
    let e = exp_neg_spec(magnitude(z)) as int;
    if z >= 0 {
        (SCALE * UNIT) / (UNIT + e)
    } else {
        (SCALE * e) / (UNIT + e)
    }
}

/// The hyperbolic tangent of `y >= 0` in units of `1 / SCALE`, for `y` in the
/// same units.
pub open spec fn tanh_spec(y: nat) -> int {
    let e = exp_neg_spec(2 * y) as int;
    (SCALE * (UNIT - e)) / (UNIT + e)
}

/// The argument that the logistic curve is evaluated at for the input `x`, a
/// curve centred at `center` and the steepness `scale`, all three in units of
/// `1 / SCALE`: `(x - center) * scale`, rounded towards zero.
pub open spec fn logistic_argument(x: int, center: int, scale: nat) -> int {
    if x >= center {
        (x - center) * scale / (SCALE as int)
    } else {
        -((center - x) * scale / (SCALE as int))
    }
}

/// The logistic curve centred at `center` with steepness `scale`, at `x`.
pub open spec fn logistic_sigmoid_spec(x: int, center: int, scale: nat) -> int {
    logistic_spec(logistic_argument(x, center, scale))
}

proof fn lemma_square_monotone(x: nat, y: nat)
    by (nonlinear_arith)
    requires
        x <= y,
    ensures
        x * x <= y * y,
{
}

/// Repeated squaring keeps the order of its arguments, keeps them within the
/// unit interval, and leaves one unchanged.
pub proof fn lemma_squared(x: nat, y: nat, k: nat)
    requires
        x <= y <= UNIT,
    ensures
        squared(x, k) <= squared(y, k) <= UNIT,
        squared(UNIT as nat, k) == UNIT,
    decreases k,
{
    if k > 0 {
        let u = UNIT as nat;
        lemma_square_monotone(x, y);
        lemma_div_monotone((x * x) as int, (y * y) as int, u as int);
        lemma_mul_div_le(y as int, y as int, u as int);
        assert((u * u) / u == u) by (nonlinear_arith)
            requires
                u > 0,
        ;
        lemma_squared(x * x / u, y * y / u, (k - 1) as nat);
        lemma_squared(u, u, (k - 1) as nat);
    }
}

/// The exponential lies in the unit interval and is one at zero.
pub proof fn lemma_exp_neg_bounds(z: nat)
    ensures
        0 <= exp_neg_spec(z) <= UNIT,
        exp_neg_spec(0) == UNIT,
{
    let step = z * 0x1_0000_0000 / (SCALE as nat);
    if step < UNIT {
        lemma_squared((UNIT - step) as nat, (UNIT - step) as nat, DOUBLINGS as nat);
    }
    lemma_squared(UNIT as nat, UNIT as nat, DOUBLINGS as nat);
}

/// The exponential never grows with its argument.
pub proof fn lemma_exp_neg_antitone(a: nat, b: nat)
    requires
        a <= b,
    ensures
        exp_neg_spec(a) >= exp_neg_spec(b),
{
    let sa = a * 0x1_0000_0000 / (SCALE as nat);
    let sb = b * 0x1_0000_0000 / (SCALE as nat);
    lemma_div_monotone((a * 0x1_0000_0000) as int, (b * 0x1_0000_0000) as int, SCALE as int);
    lemma_exp_neg_bounds(a);
    if sb < UNIT {
        lemma_squared((UNIT - sb) as nat, (UNIT - sa) as nat, DOUBLINGS as nat);
    }
}

/// `a` doubled `k` times.
pub open spec fn doubled(a: nat, k: nat) -> nat
    decreases k,
{
    if k == 0 {
        a
    } else {
        doubled(2 * a, (k - 1) as nat)
    }
}

proof fn lemma_square_brackets(x: int, a: int, u: int)
    by (nonlinear_arith)
    requires
        0 < u,
        0 <= a,
        0 <= x <= u,
        x * (u + a) <= u * u,
        x + a >= u,
    ensures
        (x * x / u) * (u + 2 * a) <= u * u,
        x * x / u + 2 * a >= u,
        0 <= x * x / u <= u,
{
    let y = x * x / u;
    assert(0 <= y && y * u <= x * x && x * x < (y + 1) * u);
    assert(y <= u) by {
        assert(x * x <= u * u);
    }
    // Upper bracket.
    assert((u + 2 * a) * u <= (u + a) * (u + a));
    assert((x * (u + a)) * (x * (u + a)) <= (u * u) * (u * u));
    assert((y * u) * ((u + 2 * a) * u) <= (x * x) * ((u + a) * (u + a)));
    assert((x * x) * ((u + a) * (u + a)) == (x * (u + a)) * (x * (u + a)));
    assert((y * (u + 2 * a)) * (u * u) == (y * u) * ((u + 2 * a) * u));
    assert((y * (u + 2 * a)) * (u * u) <= (u * u) * (u * u));
    assert(u * u > 0);
    assert(y * (u + 2 * a) <= u * u);
    // Lower bracket.
    if 2 * a < u {
        assert(0 <= u - a <= x);
        assert((u - a) * (u - a) <= x * x);
        assert((u - 2 * a) * u <= (u - a) * (u - a));
        assert((u - 2 * a) * u < (y + 1) * u);
        assert(u - 2 * a < y + 1);
    }
}

/// Repeated squaring stays within the brackets that the exponential itself
/// lies in: starting from `1 - a`, which is at most `1 / (1 + a)`, the result
/// of `k` squarings is at least `1 - 2^k a` and at most `1 / (1 + 2^k a)`.
pub proof fn lemma_squared_brackets(x: nat, a: nat, k: nat)
    requires
        x <= UNIT,
        x * (UNIT + a) <= UNIT * UNIT,
        x + a >= UNIT,
    ensures
        squared(x, k) * (UNIT + doubled(a, k)) <= UNIT * UNIT,
        squared(x, k) + doubled(a, k) >= UNIT,
    decreases k,
{
    if k > 0 {
        lemma_square_brackets(x as int, a as int, UNIT as int);
        lemma_squared_brackets(x * x / (UNIT as nat), 2 * a, (k - 1) as nat);
    }
}

/// The exponential lies within the brackets `1 - z` and `1 / (1 + z)`, with
/// `z` rounded down to a multiple of two to the power minus 32.
pub proof fn lemma_exp_neg_brackets(z: nat)
    ensures
        exp_neg_spec(z) + 0x8000_0000 * (z * 0x1_0000_0000 / (SCALE as nat)) >= UNIT,
        exp_neg_spec(z) * (UNIT + 0x8000_0000 * (z * 0x1_0000_0000 / (SCALE as nat))) <= UNIT
            * UNIT,
{
    let step = z * 0x1_0000_0000 / (SCALE as nat);
    assert(doubled(step, DOUBLINGS as nat) == 0x8000_0000 * step) by {
        reveal_with_fuel(doubled, 32);
    }
    if step < UNIT {
        let x = (UNIT - step) as nat;
        assert(x * (UNIT + step) <= UNIT * UNIT) by (nonlinear_arith)
            requires
                x == UNIT - step,
                0 <= step,
        ;
        lemma_squared_brackets(x, step, DOUBLINGS as nat);
    } else {
        assert(0 * (UNIT + 0x8000_0000 * step) == 0) by (nonlinear_arith);
        assert(0 <= UNIT * UNIT) by (nonlinear_arith);
    }
}

/// Rounded-down quotients keep the order of the fractions they round.
pub proof fn lemma_fraction_order(a: int, b: int, c: int, d: int)
    by (nonlinear_arith)
    requires
        0 <= a,
        0 <= c,
        0 < b,
        0 < d,
        a * d <= c * b,
    ensures
        a / b <= c / d,
{
    let f = a / b;
    assert(f * b <= a);
    assert(f * b * d <= a * d);
    assert(f * d * b <= c * b);
    assert(f * d <= c);
    if f > c / d {
        assert(f >= c / d + 1);
        assert(f * d >= (c / d + 1) * d);
        assert((c / d + 1) * d > c);
    }
}

/// The logistic curve lies in the unit interval, is one half at zero, at
/// least one half to the right of zero and at most one half to the left.
pub proof fn lemma_logistic_bounds(z: int)
    ensures
        0 <= logistic_spec(z) <= SCALE,
        logistic_spec(0) == SCALE / 2,
        z >= 0 ==> logistic_spec(z) >= SCALE / 2,
        z <= 0 ==> logistic_spec(z) <= SCALE / 2,
{
    let e = exp_neg_spec(magnitude(z)) as int;
    let u = UNIT as int;
    let s = SCALE as int;
    lemma_exp_neg_bounds(magnitude(z));
    lemma_exp_neg_bounds(0);
    assert((s * u) * 2 == s * (u + u) && 0 <= s * u) by (nonlinear_arith)
        requires
            0 < s,
            0 < u,
    ;
    lemma_fraction_order(s * u, u + u, s, 2);
    lemma_fraction_order(s, 2, s * u, u + u);
    if z >= 0 {
        assert(s * (u + e) <= (s * u) * 2 && s * u <= s * (u + e)) by (nonlinear_arith)
            requires
                0 <= e <= u,
                0 < s,
        ;
        lemma_fraction_order(s, 2, s * u, u + e);
        lemma_fraction_order(s * u, u + e, s, 1);
    } else {
        assert((s * e) * 2 <= s * (u + e) && 0 <= s * e) by (nonlinear_arith)
            requires
                0 <= e <= u,
                0 < s,
        ;
        lemma_fraction_order(s * e, u + e, s, 2);
        lemma_fraction_order(0, 1, s * e, u + e);
    }
}

/// The logistic curve never falls as its argument grows.
pub proof fn lemma_logistic_monotone(a: int, b: int)
    requires
        a <= b,
    ensures
        logistic_spec(a) <= logistic_spec(b),
{
    let ea = exp_neg_spec(magnitude(a)) as int;
    let eb = exp_neg_spec(magnitude(b)) as int;
    let u = UNIT as int;
    let s = SCALE as int;
    lemma_exp_neg_bounds(magnitude(a));
    lemma_exp_neg_bounds(magnitude(b));
    lemma_logistic_bounds(a);
    lemma_logistic_bounds(b);
    if a >= 0 {
        lemma_exp_neg_antitone(magnitude(a), magnitude(b));
        assert(0 <= s * u) by (nonlinear_arith)
            requires
                0 < s,
                0 < u,
        ;
        lemma_div_antitone(s * u, u + eb, u + ea);
    } else if b < 0 {
        lemma_exp_neg_antitone(magnitude(b), magnitude(a));
        assert((s * ea) * (u + eb) <= (s * eb) * (u + ea) && 0 <= s * ea && 0 <= s * eb)
            by (nonlinear_arith)
            requires
                0 <= ea <= eb,
                0 < s,
                0 < u,
        ;
        lemma_fraction_order(s * ea, u + ea, s * eb, u + eb);
    }
}

/// The hyperbolic tangent lies in the unit interval, is zero at zero, and
/// never falls as its argument grows.
pub proof fn lemma_tanh(a: nat, b: nat)
    requires
        a <= b,
    ensures
        0 <= tanh_spec(a) <= tanh_spec(b) <= SCALE,
        tanh_spec(0) == 0,
{
    let ea = exp_neg_spec(2 * a) as int;
    let eb = exp_neg_spec(2 * b) as int;
    let u = UNIT as int;
    let s = SCALE as int;
    lemma_exp_neg_bounds(2 * a);
    lemma_exp_neg_bounds(2 * b);
    lemma_exp_neg_antitone(2 * a, 2 * b);
    assert((s * (u - ea)) * (u + eb) <= (s * (u - eb)) * (u + ea) && 0 <= s * (u - ea) && s * (u
        - eb) <= s * (u + eb)) by (nonlinear_arith)
        requires
            0 <= eb <= ea <= u,
            0 < s,
            0 < u,
    ;
    lemma_fraction_order(0, 1, s * (u - ea), u + ea);
    lemma_fraction_order(s * (u - ea), u + ea, s * (u - eb), u + eb);
    lemma_fraction_order(s * (u - eb), u + eb, s, 1);
    assert(s * (u - u) == 0) by (nonlinear_arith);
}

/// The argument of a centred logistic curve never falls as the input grows.
pub proof fn lemma_logistic_argument_monotone(x: int, y: int, center: int, scale: nat)
    requires
        x <= y,
    ensures
        logistic_argument(x, center, scale) <= logistic_argument(y, center, scale),
        x >= center ==> logistic_argument(x, center, scale) >= 0,
        x <= center ==> logistic_argument(x, center, scale) <= 0,
{
    let s = SCALE as int;
    assert(forall|p: int, q: int| 0 <= p <= q ==> 0 <= #[trigger] (p * scale) <= #[trigger] (q
        * scale)) by (nonlinear_arith);
    if x >= center {
        assert(0 <= (x - center) * scale <= (y - center) * scale);
        lemma_div_monotone((x - center) * scale, (y - center) * scale, s);
        lemma_div_monotone(0, (x - center) * scale, s);
    } else if y < center {
        assert(0 <= (center - y) * scale <= (center - x) * scale);
        lemma_div_monotone((center - y) * scale, (center - x) * scale, s);
        lemma_div_monotone(0, (center - y) * scale, s);
    } else {
        assert(0 <= 0 * scale <= (center - x) * scale);
        assert(0 <= 0 * scale <= (y - center) * scale);
        lemma_div_monotone(0, (center - x) * scale, s);
        lemma_div_monotone(0, (y - center) * scale, s);
    }
}

/// A centred logistic curve lies in the unit interval, never falls as the
/// input grows, and is one half at its centre.
pub proof fn lemma_logistic_sigmoid(x: int, y: int, center: int, scale: nat)
    requires
        x <= y,
    ensures
        0 <= logistic_sigmoid_spec(x, center, scale) <= logistic_sigmoid_spec(y, center, scale)
            <= SCALE,
        logistic_sigmoid_spec(center, center, scale) == SCALE / 2,
{
    lemma_logistic_argument_monotone(x, y, center, scale);
    lemma_logistic_monotone(
        logistic_argument(x, center, scale),
        logistic_argument(y, center, scale),
    );
    lemma_logistic_bounds(logistic_argument(x, center, scale));
    lemma_logistic_bounds(logistic_argument(y, center, scale));
    assert(0int * scale / (SCALE as int) == 0) by (nonlinear_arith);
    lemma_logistic_bounds(0);
}

/// Computes the decaying exponential of `z`.
pub fn exp_neg(z: u128) -> (r: u64)
    ensures
        r == exp_neg_spec(z as nat),
        r <= UNIT,
{
    if z >= CUTOFF {
        proof {
            lemma_div_monotone(CUTOFF * 0x1_0000_0000, z * 0x1_0000_0000, SCALE as int);
        }
        return 0;
    }
    let step: u128 = z * 0x1_0000_0000 / (SCALE as u128);
    proof {
        lemma_div_monotone(z * 0x1_0000_0000, (CUTOFF - 1) * 0x1_0000_0000, SCALE as int);
    }
    let mut x: u128 = UNIT as u128 - step;
    let ghost base = x as nat;
    let mut k: u32 = 0;
    while k < DOUBLINGS
        invariant
            k <= DOUBLINGS,
            x <= UNIT,
            squared(x as nat, (DOUBLINGS - k) as nat) == squared(base, DOUBLINGS as nat),
        decreases DOUBLINGS - k,
    {
        proof {
            lemma_mul_div_le(x as int, x as int, UNIT as int);
            assert(x * x <= 0x8000_0000_0000_0000 * 0x8000_0000_0000_0000) by (nonlinear_arith)
                requires
                    0 <= x <= 0x8000_0000_0000_0000,
            ;
        }
        x = x * x / (UNIT as u128);
        k = k + 1;
    }
    x as u64
}

/// Computes the logistic curve at `z`.
pub fn logistic(z: i128) -> (r: u64)
    ensures
        r == logistic_spec(z as int),
        r <= SCALE,
{
    proof {
        lemma_logistic_bounds(z as int);
    }
    let unit: u128 = UNIT as u128;
    let scale: u128 = SCALE as u128;
    if z >= 0 {
        let e: u128 = exp_neg(z as u128) as u128;
        ((scale * unit) / (unit + e)) as u64
    } else {
        let size: u128 = if z == i128::MIN { i128::MAX as u128 + 1 } else { (-z) as u128 };
        let e: u128 = exp_neg(size) as u128;
        assert(scale * e <= 1_000_000_000 * 0x8000_0000_0000_0000) by (nonlinear_arith)
            requires
                scale == 1_000_000_000,
                0 <= e <= 0x8000_0000_0000_0000,
        ;
        ((scale * e) / (unit + e)) as u64
    }
}

/// Computes the hyperbolic tangent of `y`.
pub fn tanh(y: u128) -> (r: u64)
    ensures
        r == tanh_spec(y as nat),
        r <= SCALE,
{
    proof {
        lemma_tanh(y as nat, y as nat);
    }
    let unit: u128 = UNIT as u128;
    let scale: u128 = SCALE as u128;
    let e: u128 = if y >= CUTOFF {
        proof {
            lemma_div_monotone(
                CUTOFF * 0x1_0000_0000,
                ((2 * y) as nat * 0x1_0000_0000) as int,
                SCALE as int,
            );
        }
        0
    } else {
        exp_neg(2 * y) as u128
    };
    assert(scale * (unit - e) <= 1_000_000_000 * 0x8000_0000_0000_0000) by (nonlinear_arith)
        requires
            scale == 1_000_000_000,
            0 <= e <= unit,
            unit == 0x8000_0000_0000_0000,
    ;
    ((scale * (unit - e)) / (unit + e)) as u64
}

/// Computes the logistic curve centred at `center` with steepness `scale`,
/// at `x`.
pub fn logistic_sigmoid(x: u64, center: u64, scale: u64) -> (r: u64)
    ensures
        r == logistic_sigmoid_spec(x as int, center as int, scale as nat),
        r <= SCALE,
{
    let rising: bool = x >= center;
    let distance: u128 = if rising { (x - center) as u128 } else { (center - x) as u128 };
    assert(distance * scale <= u64::MAX * u64::MAX) by (nonlinear_arith)
        requires
            0 <= distance <= u64::MAX,
            0 <= scale <= u64::MAX,
    ;
    let m: u128 = distance * (scale as u128) / (SCALE as u128);
    proof {
        lemma_div_monotone(distance * scale, u64::MAX * u64::MAX, SCALE as int);
        lemma_div_monotone(0, distance * scale, SCALE as int);
    }
    if rising {
        logistic(m as i128)
    } else {
        logistic(-(m as i128))
    }
}

} // verus!
