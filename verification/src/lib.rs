//! Bounded features of the shape of a net-asset-value series.
//!
//! The library computes, in exact integer arithmetic, the features that
//! describe how a value series rallies and sets back:
//!
//! - [`ith`] sweeps a series once and flags its epochs, the bars at which a
//!   rally decisively outpaces the worst setback since the last epoch;
//!   [`intervals`] measures how regularly the epochs are spaced.
//! - [`ith_rolling`] repeats the analysis on every window of a series, with
//!   thresholds derived from each window's own extremes.
//! - [`psquare`] estimates a quantile of a stream in constant space, and
//!   [`robust`] builds a streaming normaliser on three such estimators.
//! - [`ith_normalize`], [`rank`] and [`sigmoid`] map raw statistics into the
//!   unit interval.
//! - [`metrics`] holds drawdown, runup, returns and the Sharpe ratio;
//!   [`synthetic`] builds market-like series to exercise all of it.
//!
//! Every ratio is a fixed-point integer in units of `1 / SCALE`, see
//! [`fixed`]. A value that is undefined for its input is `None`.

pub mod fixed;
pub mod intervals;
pub mod ith;
pub mod ith_normalize;
pub mod ith_rolling;
pub mod metrics;
pub mod order;
pub mod psquare;
pub mod rank;
pub mod robust;
pub mod sigmoid;
pub mod synthetic;
pub mod types;

pub use ith::{determine_tmaeg, excess_gain_excess_loss};
pub use metrics::{
    calculate_fitness_metrics, max_drawdown, pnl_from_nav, sharpe_ratio, total_return,
};
pub use types::{ExcessGainLossResult, FitnessMetrics, IthResult, NavRecord};
