use trading_fitness::fixed::SCALE;
use trading_fitness::ith::{
    bear_ith, bull_ith, determine_tmaeg, directional_sweep, excess_gain_excess_loss, Direction,
};

fn fx(x: f64) -> u64 {
    (x * SCALE as f64).round() as u64
}

fn series(values: &[f64]) -> Vec<u64> {
    values.iter().map(|v| fx(*v)).collect()
}

#[test]
fn test_flat_nav_no_epochs() {
    let nav: Vec<u64> = vec![fx(1.0); 100];
    let result = excess_gain_excess_loss(&nav, fx(0.05));
    assert_eq!(result.num_of_ith_epochs, 0);
}

#[test]
fn test_uptrend_produces_epochs() {
    let nav: Vec<u64> = (0..100).map(|i| fx(1.02_f64.powi(i))).collect();
    let result = excess_gain_excess_loss(&nav, fx(0.05));
    assert!(result.num_of_ith_epochs > 0);
}

#[test]
fn test_excess_gains_non_negative() {
    let nav: Vec<u64> = (0..100).map(|i| fx(1.0 + 0.01 * i as f64)).collect();
    let result = excess_gain_excess_loss(&nav, fx(0.05));
    assert!(result.excess_gains.iter().all(|&g| g as f64 / SCALE as f64 >= 0.0));
}

#[test]
fn test_different_hurdles() {
    let nav: Vec<u64> = (0..100).map(|i| fx(1.02_f64.powi(i))).collect();
    let result_low = excess_gain_excess_loss(&nav, fx(0.01));
    let result_high = excess_gain_excess_loss(&nav, fx(0.10));
    assert!(result_high.num_of_ith_epochs <= result_low.num_of_ith_epochs);
}

#[test]
fn test_result_lengths_match_input() {
    let nav: Vec<u64> = series(&[1.0, 1.1, 1.2, 1.15, 1.25]);
    let result = excess_gain_excess_loss(&nav, fx(0.05));
    assert_eq!(result.excess_gains.len(), nav.len());
}

#[test]
fn test_determine_tmaeg_mdd() {
    let nav = series(&[1.0, 1.1, 0.9, 1.0]);
    let tmaeg = determine_tmaeg(&nav, "mdd", fx(0.05));
    assert!(tmaeg > fx(0.15));
}

#[test]
fn test_determine_tmaeg_fixed() {
    let nav = series(&[1.0, 1.1, 0.9, 1.0]);
    let tmaeg = determine_tmaeg(&nav, "fixed", fx(0.05));
    assert_eq!(tmaeg, fx(0.05));
}

#[test]
fn determine_tmaeg_unknown_method_falls_back_to_fixed() {
    let nav = series(&[1.0, 1.1, 0.9, 1.0]);
    assert_eq!(determine_tmaeg(&nav, "median", 7), 7);
    assert_eq!(determine_tmaeg(&nav, "", 9), 9);
}

#[test]
fn determine_tmaeg_mdd_exact() {
    let nav = vec![100, 110, 90, 100];
    // (110 - 90) / 110 = 0.181818181...
    assert_eq!(determine_tmaeg(&nav, "mdd", 0), 181_818_181);
}

#[test]
fn sweep_sample_records_exact_values() {
    let nav = vec![1000, 1100, 1200, 1150, 1250];
    let r = excess_gain_excess_loss(&nav, 50_000_000);
    // Bar 1 gains 10% over the crest 1000 and resets; bar 2 gains 9.09% over
    // the crest 1100 and resets; bar 3 stays above the nadir 1100, so no loss
    // is recorded; bar 4 gains 4.16% over 1200, which is below the hurdle.
    assert_eq!(r.excess_gains, vec![0, 100_000_000, 90_909_090, 0, 41_666_666]);
    assert_eq!(r.excess_losses, vec![0, 0, 0, 0, 0]);
    assert_eq!(r.ith_epochs, vec![false, true, true, false, false]);
    assert_eq!(r.num_of_ith_epochs, 2);
    // Gaps 1 and 1: no variation.
    assert_eq!(r.ith_intervals_cv, Some(0));
}

#[test]
fn sweep_of_empty_series_is_empty() {
    let r = excess_gain_excess_loss(&[], 1);
    assert!(r.excess_gains.is_empty());
    assert!(r.excess_losses.is_empty());
    assert!(r.ith_epochs.is_empty());
    assert_eq!(r.num_of_ith_epochs, 0);
    assert_eq!(r.ith_intervals_cv, None);
}

#[test]
fn sweep_of_single_bar_is_neutral() {
    let r = excess_gain_excess_loss(&[5], 1);
    assert_eq!(r.excess_gains, vec![0]);
    assert_eq!(r.excess_losses, vec![0]);
    assert_eq!(r.ith_epochs, vec![false]);
    assert_eq!(r.ith_intervals_cv, None);
}

#[test]
fn sweep_anchored_at_zero_records_no_gain() {
    let r = excess_gain_excess_loss(&[0, 10, 20], 1);
    assert_eq!(r.excess_gains, vec![0, 0, 0]);
    assert_eq!(r.num_of_ith_epochs, 0);
}

#[test]
fn sweep_is_scale_free() {
    let a = excess_gain_excess_loss(&[1000, 1100, 1050, 1300, 900, 1500], 30_000_000);
    let b = excess_gain_excess_loss(&[3000, 3300, 3150, 3900, 2700, 4500], 30_000_000);
    assert_eq!(a.excess_gains, b.excess_gains);
    assert_eq!(a.excess_losses, b.excess_losses);
    assert_eq!(a.ith_epochs, b.ith_epochs);
}

#[test]
fn sweep_gain_saturates() {
    let r = excess_gain_excess_loss(&[1, u64::MAX], 0);
    assert_eq!(r.excess_gains, vec![0, u64::MAX]);
    assert_eq!(r.ith_epochs, vec![false, true]);
}

#[test]
fn bear_sweep_mirrors_bull_sweep() {
    // 1000 -> 800 is a fall of 20% of 1000, a gain of 25% in the mirror.
    let r = directional_sweep(&[1000, 800, 900, 500], 50_000_000, Direction::Bear);
    assert_eq!(r.excess_gains, vec![0, 250_000_000, 0, 600_000_000]);
    assert_eq!(r.excess_losses, vec![0, 0, 0, 0]);
    assert_eq!(r.ith_epochs, vec![false, true, false, true]);
    assert_eq!(r.num_of_ith_epochs, 2);
}

#[test]
fn sweep_records_losses_below_the_nadir() {
    // 1000 -> 900 loses 10% of the crest; 1200 then gains 20% over it.
    let r = excess_gain_excess_loss(&[1000, 900, 1200, 1100], 150_000_000);
    assert_eq!(r.excess_gains, vec![0, 0, 200_000_000, 0]);
    assert_eq!(r.excess_losses, vec![0, 100_000_000, 100_000_000, 0]);
    assert_eq!(r.ith_epochs, vec![false, false, true, false]);
    // Markers at 0 and 2: a single gap, no variation.
    assert_eq!(r.ith_intervals_cv, Some(0));
}

#[test]
fn sweep_gain_must_exceed_the_loss() {
    // The rise of 5% over the crest does not exceed the fall of 10% before it.
    let r = excess_gain_excess_loss(&[1000, 900, 1050], 10_000_000);
    assert_eq!(r.excess_gains, vec![0, 0, 50_000_000]);
    assert_eq!(r.excess_losses, vec![0, 100_000_000, 100_000_000]);
    assert_eq!(r.ith_epochs, vec![false, false, false]);
}

#[test]
fn bear_sweep_records_losses_above_the_nadir() {
    // 1000 -> 1250 is a rise of 20% of 1250 against the shorts.
    let r = directional_sweep(&[1000, 1250, 500], 10_000_000, Direction::Bear);
    assert_eq!(r.excess_losses, vec![0, 200_000_000, 200_000_000]);
    assert_eq!(r.excess_gains, vec![0, 0, 1_000_000_000]);
    assert_eq!(r.ith_epochs, vec![false, false, true]);
}

#[test]
fn bear_sweep_reaching_zero_saturates() {
    let r = directional_sweep(&[10, 0], 5, Direction::Bear);
    assert_eq!(r.excess_gains, vec![0, u64::MAX]);
}

#[test]
fn bull_and_bear_analyses_report_extremes() {
    let nav = vec![1000, 1100, 900, 1000];
    let bull = bull_ith(&nav, 1);
    let bear = bear_ith(&nav, 1);
    assert_eq!(bull.max_drawdown, 181_818_181);
    // 900 -> 1000: (1000 - 900) / 1000.
    assert_eq!(bear.max_runup, 100_000_000);
    assert_eq!(bull.excess_gains.len(), 4);
    assert_eq!(bear.excess_gains.len(), 4);
}

#[test]
fn sweep_is_deterministic() {
    let nav: Vec<u64> = (0..200u64).map(|i| 1000 + (i * 37) % 91).collect();
    let a = excess_gain_excess_loss(&nav, 10_000_000);
    let b = excess_gain_excess_loss(&nav, 10_000_000);
    assert_eq!(a.excess_gains, b.excess_gains);
    assert_eq!(a.excess_losses, b.excess_losses);
    assert_eq!(a.ith_epochs, b.ith_epochs);
    assert_eq!(a.num_of_ith_epochs, b.num_of_ith_epochs);
    assert_eq!(a.ith_intervals_cv, b.ith_intervals_cv);
}
