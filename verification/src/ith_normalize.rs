//! Normalisers that map the raw statistics of an analysis into the unit
//! interval, so that every feature handed on lies between zero and `SCALE`.
//!
//! The rank normaliser and the streaming normalisers live in modules of
//! their own and are re-exported here.

use vstd::prelude::*;
use crate::fixed::{lemma_div_monotone, mul_div_sat, ratio_spec, SCALE};
pub use crate::psquare::PSquareQuantile;
pub use crate::rank::{rank_normalize, rank_normalize_with_reference};
pub use crate::robust::OnlineRobustNormalizer;
use crate::sigmoid::{
    exp_neg_spec, lemma_exp_neg_bounds, lemma_exp_neg_brackets, lemma_fraction_order,
    lemma_logistic_sigmoid, lemma_tanh, logistic_argument, logistic_sigmoid, logistic_sigmoid_spec,
    tanh, tanh_spec, UNIT,
};

verus! {

/// One half.
pub const HALF: u64 = 500_000_000;

/// Steepness of the curve that bounds an epoch density.
pub const DENSITY_STEEPNESS: u64 = 10_000_000_000;

/// Steepness of the curve that bounds a coefficient of variation.
pub const CV_STEEPNESS: u64 = 4_000_000_000;

/// Factor applied to an excess before its hyperbolic tangent is taken.
pub const EXCESS_FACTOR: u64 = 5;

/// The bounded epoch density: the logistic curve centred at one half with
/// steepness ten, at `epochs / lookback`; one half without a window.
pub open spec fn normalize_epochs_spec(epochs: nat, lookback: nat) -> int {
    if lookback == 0 {
        HALF as int
    } else {
        logistic_sigmoid_spec(
            ratio_spec(epochs as int, lookback as int),
            HALF as int,
            DENSITY_STEEPNESS as nat,
        )
    }
}

/// The bounded excess: the hyperbolic tangent of five times the magnitude.
pub open spec fn normalize_excess_spec(value: nat) -> int {
    tanh_spec(EXCESS_FACTOR as nat * value)
}

/// The bounded coefficient of variation: the logistic curve centred at one
/// half with steepness four; an undefined coefficient counts as zero.
pub open spec fn normalize_cv_spec(cv: Option<u64>) -> int {
    let effective = match cv {
        Some(c) => c as int,
        None => 0,
    };
    logistic_sigmoid_spec(effective, HALF as int, CV_STEEPNESS as nat)
}

/// `x` clamped to the unit interval.
pub open spec fn clamp_unit(x: int) -> int {
    if x < 0 {
        0
    } else if x > SCALE {
        SCALE as int
    } else {
        x
    }
}

/// The bounded epoch density lies in the unit interval and never falls as
/// the number of epochs grows.
pub proof fn lemma_normalize_epochs(fewer: nat, more: nat, lookback: nat)
    requires
        fewer <= more,
    ensures
        0 <= normalize_epochs_spec(fewer, lookback) <= normalize_epochs_spec(more, lookback)
            <= SCALE,
{
    if lookback > 0 {
        assert(fewer * SCALE <= more * SCALE) by (nonlinear_arith)
            requires
                fewer <= more,
        ;
        lemma_div_monotone(fewer * SCALE, more * SCALE, lookback as int);
        lemma_logistic_sigmoid(
            ratio_spec(fewer as int, lookback as int),
            ratio_spec(more as int, lookback as int),
            HALF as int,
            DENSITY_STEEPNESS as nat,
        );
    }
}

/// The bounded excess lies in the unit interval, is zero at zero, and never
/// falls as the excess grows.
pub proof fn lemma_normalize_excess(smaller: nat, larger: nat)
    requires
        smaller <= larger,
    ensures
        0 <= normalize_excess_spec(smaller) <= normalize_excess_spec(larger) <= SCALE,
        normalize_excess_spec(0) == 0,
{
    lemma_tanh(EXCESS_FACTOR as nat * smaller, EXCESS_FACTOR as nat * larger);
}

/// The bounded coefficient of variation lies in the unit interval, is one
/// half at one half, at most one half where undefined, and never falls as
/// the coefficient grows.
pub proof fn lemma_normalize_cv(lower: u64, higher: u64)
    requires
        lower <= higher,
    ensures
        0 <= normalize_cv_spec(None) <= normalize_cv_spec(Some(lower)) <= normalize_cv_spec(
            Some(higher),
        ) <= SCALE,
        normalize_cv_spec(Some(HALF)) == SCALE / 2,
        normalize_cv_spec(None) <= SCALE / 2,
{
    lemma_logistic_sigmoid(0, lower as int, HALF as int, CV_STEEPNESS as nat);
    lemma_logistic_sigmoid(lower as int, higher as int, HALF as int, CV_STEEPNESS as nat);
    lemma_logistic_sigmoid(0, HALF as int, HALF as int, CV_STEEPNESS as nat);
}

/// An undefined coefficient of variation can be told from a moderate one: it
/// maps to at most one quarter, so below three tenths, while one half maps to
/// one half, more than two tenths above it.
pub proof fn lemma_undefined_cv_is_distinguishable()
    ensures
        normalize_cv_spec(None) <= SCALE / 4,
        normalize_cv_spec(None) < 300_000_000,
        normalize_cv_spec(Some(HALF)) - normalize_cv_spec(None) > 200_000_000,
{
    lemma_normalize_cv(0, HALF);
    let z: nat = 2_000_000_000;
    assert(logistic_argument(0, HALF as int, CV_STEEPNESS as nat) == -(z as int));
    let e = exp_neg_spec(z) as int;
    let u = UNIT as int;
    let s = SCALE as int;
    lemma_exp_neg_bounds(z);
    lemma_exp_neg_brackets(z);
    assert(z * 0x1_0000_0000 / (SCALE as nat) == 0x2_0000_0000);
    assert(e * (u + 2 * u) <= u * u);
    assert(3 * e <= u) by (nonlinear_arith)
        requires
            e * (u + 2 * u) <= u * u,
            0 < u,
            0 <= e,
    ;
    assert((s * e) * 4 <= s * (u + e) && 0 <= s * e) by (nonlinear_arith)
        requires
            3 * e <= u,
            0 <= e,
            0 < s,
    ;
    lemma_fraction_order(s * e, u + e, s, 4);
}

/// Bounds an epoch count by the logistic curve of its density in the
/// window.
pub fn normalize_epochs(epochs: usize, lookback: usize) -> (r: u64)
    ensures
        r == normalize_epochs_spec(epochs as nat, lookback as nat),
        r <= SCALE,
{
    proof {
        lemma_normalize_epochs(epochs as nat, epochs as nat, lookback as nat);
    }
    if lookback == 0 {
        return HALF;
    }
    let density: u64 = mul_div_sat(epochs as u64, SCALE, lookback as u64);
    logistic_sigmoid(density, HALF, DENSITY_STEEPNESS)
}

/// Bounds the magnitude of an excess gain or loss by a hyperbolic tangent.
pub fn normalize_excess(value: u64) -> (r: u64)
    ensures
        r == normalize_excess_spec(value as nat),
        r <= SCALE,
{
    tanh((EXCESS_FACTOR as u128) * (value as u128))
}

/// Bounds a coefficient of variation by a logistic curve. An undefined
/// coefficient is treated as zero, which gives a low value of its own.
pub fn normalize_cv(cv: Option<u64>) -> (r: u64)
    ensures
        r == normalize_cv_spec(cv),
        r <= SCALE,
{
    let effective: u64 = match cv {
        Some(c) => c,
        None => 0,
    };
    logistic_sigmoid(effective, HALF, CV_STEEPNESS)
}

/// Clamps a drawdown to the unit interval.
pub fn normalize_drawdown(drawdown: i64) -> (r: u64)
    ensures
        r == clamp_unit(drawdown as int),
        r <= SCALE,
{
    if drawdown < 0 {
        0
    } else if drawdown as u64 > SCALE {
        SCALE
    } else {
        drawdown as u64
    }
}

/// Clamps a runup to the unit interval.
pub fn normalize_runup(runup: i64) -> (r: u64)
    ensures
        r == clamp_unit(runup as int),
        r <= SCALE,
{
    if runup < 0 {
        0
    } else if runup as u64 > SCALE {
        SCALE
    } else {
        runup as u64
    }
}

} // verus!
