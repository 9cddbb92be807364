//! Records produced by the analysis functions.
//!
//! Every ratio is a fixed-point integer in units of `1 / SCALE`; a value that
//! is undefined for the given input is `None`.

use vstd::prelude::*;

verus! {

/// Per-bar outcome of an epoch-detection sweep over one series.
#[derive(Debug, Clone)]
pub struct ExcessGainLossResult {
    /// Excess gain recorded at each bar.
    pub excess_gains: Vec<u64>,
    /// Excess loss recorded at each bar.
    pub excess_losses: Vec<u64>,
    /// Number of bars flagged as epochs.
    pub num_of_ith_epochs: usize,
    /// Whether each bar is an epoch.
    pub ith_epochs: Vec<bool>,
    /// Coefficient of variation of the gaps between epochs, where defined.
    pub ith_intervals_cv: Option<u64>,
}

/// Outcome of the bull analysis of one series.
#[derive(Debug, Clone)]
pub struct BullIthResult {
    /// Excess gain recorded at each bar.
    pub excess_gains: Vec<u64>,
    /// Excess loss recorded at each bar.
    pub excess_losses: Vec<u64>,
    /// Number of bars flagged as epochs.
    pub num_of_epochs: usize,
    /// Whether each bar is an epoch.
    pub epochs: Vec<bool>,
    /// Coefficient of variation of the gaps between epochs, where defined.
    pub intervals_cv: Option<u64>,
    /// Maximum drawdown of the series.
    pub max_drawdown: u64,
}

/// Outcome of the bear analysis of one series.
#[derive(Debug, Clone)]
pub struct BearIthResult {
    /// Excess gain recorded at each bar.
    pub excess_gains: Vec<u64>,
    /// Excess loss recorded at each bar.
    pub excess_losses: Vec<u64>,
    /// Number of bars flagged as epochs.
    pub num_of_epochs: usize,
    /// Whether each bar is an epoch.
    pub epochs: Vec<bool>,
    /// Coefficient of variation of the gaps between epochs, where defined.
    pub intervals_cv: Option<u64>,
    /// Maximum runup of the series.
    pub max_runup: u64,
}

impl BullIthResult {
    /// The part of the outcome that the sweep produced.
    pub open spec fn sweep(self) -> ExcessGainLossResult {
        ExcessGainLossResult {
            excess_gains: self.excess_gains,
            excess_losses: self.excess_losses,
            num_of_ith_epochs: self.num_of_epochs,
            ith_epochs: self.epochs,
            ith_intervals_cv: self.intervals_cv,
        }
    }
}

impl BearIthResult {
    /// The part of the outcome that the sweep produced.
    pub open spec fn sweep(self) -> ExcessGainLossResult {
        ExcessGainLossResult {
            excess_gains: self.excess_gains,
            excess_losses: self.excess_losses,
            num_of_ith_epochs: self.num_of_epochs,
            ith_epochs: self.epochs,
            ith_intervals_cv: self.intervals_cv,
        }
    }
}

/// One dated observation of a value series.
#[derive(Debug, Clone)]
pub struct NavRecord {
    /// Date of the observation.
    pub date: String,
    /// Net asset value.
    pub nav: u64,
    /// Return of the period, where known.
    pub pnl: Option<i64>,
}

/// Summary statistics of a value series.
#[derive(Debug, Clone)]
pub struct FitnessMetrics {
    /// Annualised Sharpe ratio, where defined.
    pub sharpe_ratio: Option<i64>,
    /// Maximum drawdown.
    pub max_drawdown: u64,
    /// Return from the first to the last value.
    pub total_return: i64,
    /// Number of values.
    pub trading_days: usize,
}

/// Outcome of the analysis of one strategy.
#[derive(Debug, Clone)]
pub struct IthResult {
    /// Identifier of the strategy.
    pub uid: String,
    /// Threshold that the sweep ran with.
    pub tmaeg: u64,
    /// Number of epochs found.
    pub ith_epochs: usize,
    /// Coefficient of variation of the gaps between epochs, where defined.
    pub ith_intervals_cv: Option<u64>,
    /// Whether the strategy qualifies.
    pub qualified: bool,
    /// Summary statistics of the series.
    pub metrics: FitnessMetrics,
}

} // verus!
