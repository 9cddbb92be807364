//! A streaming normaliser that needs no history: three quantile estimators
//! track the quartiles of the stream, and each observation is scored by its
//! distance from the median, measured in robust standard deviations and
//! bounded by the logistic curve.

use vstd::prelude::*;
use crate::fixed::SCALE;
use crate::ith_normalize::HALF;
use crate::psquare::{fresh, lemma_update, quantile_spec, update_spec, Markers, PSquareQuantile};
use crate::sigmoid::{logistic, logistic_spec};

verus! {

/// Interquartile range of a normal distribution in standard deviations,
/// times one hundred.
pub const IQR_PER_SIGMA_PERCENT: u64 = 135;

/// The states of the three estimators of a normaliser.
pub struct Quartiles {
    /// State of the estimator of the first quartile.
    pub q1: Markers,
    /// State of the estimator of the median.
    pub median: Markers,
    /// State of the estimator of the third quartile.
    pub q3: Markers,
}

/// The three states after one more observation.
pub open spec fn observe(s: Quartiles, x: i64) -> Quartiles {
    Quartiles {
        q1: update_spec(s.q1, x),
        median: update_spec(s.median, x),
        q3: update_spec(s.q3, x),
    }
}

/// The robust score of `x`: its distance from `median` in units of the
/// robust standard deviation `iqr / 1.35`, as a ratio in units of
/// `1 / SCALE` rounded towards zero. An interquartile range below one counts
/// as one.
pub open spec fn robust_score(x: i64, median: i64, iqr: int) -> int {
    let spread = if iqr < 1 { 1 } else { iqr };
    if x >= median {
        ((x - median) * IQR_PER_SIGMA_PERCENT * SCALE) / (100 * spread)
    } else {
        -(((median - x) * IQR_PER_SIGMA_PERCENT * SCALE) / (100 * spread))
    }
}

/// The interquartile range that the estimators report.
pub open spec fn iqr_spec(s: Quartiles) -> Option<int> {
    match (quantile_spec(s.q3), quantile_spec(s.q1)) {
        (Some(high), Some(low)) => Some(high - low),
        _ => None,
    }
}

/// What `normalize` returns for the observation `x` once the estimators,
/// `x` included, are in the state `s`: one half during warm-up, else the
/// logistic curve at the robust score of `x`.
pub open spec fn normalized_spec(s: Quartiles, x: i64) -> int {
    if s.median.count < 5 {
        HALF as int
    } else {
        logistic_spec(robust_score(x, s.median.heights[2], s.q3.heights[2] - s.q1.heights[2]))
    }
}

/// Streaming normaliser built on the quartiles of the stream.
#[derive(Debug, Clone)]
pub struct OnlineRobustNormalizer {
    q1: PSquareQuantile,
    median: PSquareQuantile,
    q3: PSquareQuantile,
}

impl View for OnlineRobustNormalizer {
    type V = Quartiles;

    closed spec fn view(&self) -> Quartiles {
        Quartiles { q1: self.q1@, median: self.median@, q3: self.q3@ }
    }
}

impl OnlineRobustNormalizer {
    /// The normaliser is in a state that observations can lead to: so is
    /// each estimator, and all three have seen the same number of
    /// observations.
    pub closed spec fn wf(&self) -> bool {
        &&& self.q1.wf()
        &&& self.median.wf()
        &&& self.q3.wf()
        &&& self.q1@.count == self.median@.count
        &&& self.q3@.count == self.median@.count
    }

    /// Creates a normaliser that has seen nothing.
    pub fn new() -> (r: Self)
        ensures
            r.wf(),
            r@ == (Quartiles {
                q1: fresh(250_000_000),
                median: fresh(500_000_000),
                q3: fresh(750_000_000),
            }),
    {
        OnlineRobustNormalizer {
            q1: PSquareQuantile::q1(),
            median: PSquareQuantile::median(),
            q3: PSquareQuantile::q3(),
        }
    }

    /// Takes in the observation `x` and returns its bounded robust score.
    pub fn normalize(&mut self, x: i64) -> (r: u64)
        requires
            old(self).wf(),
            old(self)@.median.count < usize::MAX / 2,
        ensures
            final(self).wf(),
            final(self)@ == observe(old(self)@, x),
            r == normalized_spec(final(self)@, x),
            r <= SCALE,
    {
        proof {
            lemma_update(self.q1@, x, x, x);
            lemma_update(self.median@, x, x, x);
            lemma_update(self.q3@, x, x, x);
        }
        self.q1.update(x);
        self.median.update(x);
        self.q3.update(x);
        if self.median.count() < 5 {
            return HALF;
        }
        let median: i64 = match self.median.quantile() {
            Some(v) => v,
            None => 0,
        };
        let low: i64 = match self.q1.quantile() {
            Some(v) => v,
            None => 0,
        };
        let high: i64 = match self.q3.quantile() {
            Some(v) => v,
            None => 0,
        };
        let iqr: i128 = high as i128 - low as i128;
        let spread: u128 = if iqr < 1 { 1 } else { iqr as u128 };
        let rising: bool = x >= median;
        let distance: u128 = if rising {
            (x as i128 - median as i128) as u128
        } else {
            (median as i128 - x as i128) as u128
        };
        assert(distance * IQR_PER_SIGMA_PERCENT * SCALE <= 0xFFFF_FFFF_FFFF_FFFF * 135
            * 1_000_000_000 && 0 <= distance * IQR_PER_SIGMA_PERCENT * SCALE) by (nonlinear_arith)
            requires
                0 <= distance <= 0xFFFF_FFFF_FFFF_FFFF,
                IQR_PER_SIGMA_PERCENT == 135,
                SCALE == 1_000_000_000,
        ;
        let scaled: u128 = distance * (IQR_PER_SIGMA_PERCENT as u128) * (SCALE as u128);
        let score: u128 = scaled / (100 * spread);
        proof {
            vstd::arithmetic::div_mod::lemma_div_is_ordered_by_denominator(
                scaled as int,
                1,
                100 * spread as int,
            );
            crate::fixed::lemma_div_monotone(0, scaled as int, 100 * spread as int);
        }
        if rising {
            logistic(score as i128)
        } else {
            logistic(-(score as i128))
        }
    }

    /// The current estimate of the median, or `None` before the first
    /// observation.
    pub fn median(&self) -> (r: Option<i64>)
        requires
            self.wf(),
        ensures
            r == quantile_spec(self@.median),
    {
        self.median.quantile()
    }

    /// The current estimate of the interquartile range, or `None` before the
    /// first observation.
    pub fn iqr(&self) -> (r: Option<i128>)
        requires
            self.wf(),
        ensures
            match r {
                Some(v) => iqr_spec(self@) == Some(v as int),
                None => iqr_spec(self@) is None,
            },
    {
        match (self.q3.quantile(), self.q1.quantile()) {
            (Some(high), Some(low)) => Some(high as i128 - low as i128),
            _ => None,
        }
    }

    /// Number of observations seen.
    pub fn count(&self) -> (r: usize)
        ensures
            r == self@.median.count,
    {
        self.median.count()
    }
}

impl Default for OnlineRobustNormalizer {
    fn default() -> (r: Self)
        ensures
            r.wf(),
            r@ == (Quartiles {
                q1: fresh(250_000_000),
                median: fresh(500_000_000),
                q3: fresh(750_000_000),
            }),
    {
        Self::new()
    }
}

} // verus!
