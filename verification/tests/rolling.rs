use trading_fitness::fixed::SCALE;
use trading_fitness::ith_rolling::{
    compute_max_drawdown, compute_max_runup, compute_rolling_ith, sum_saturating,
    window_features, InvalidArgument, RollingIthFeatures,
};

fn fx(x: f64) -> u64 {
    (x * SCALE as f64).round() as u64
}

fn as_ratio(x: u64) -> f64 {
    x as f64 / SCALE as f64
}

fn as_float(entry: Option<u64>) -> f64 {
    entry.map(as_ratio).unwrap_or(f64::NAN)
}

fn series(values: &[f64]) -> Vec<u64> {
    values.iter().map(|v| fx(*v)).collect()
}

fn generate_trending_nav(n: usize, trend: f64) -> Vec<u64> {
    let mut nav = Vec::with_capacity(n);
    let mut value = 1.0;
    for _ in 0..n {
        nav.push(fx(value));
        value *= 1.0 + trend;
    }
    nav
}

fn generate_volatile_nav(n: usize, seed: u64) -> Vec<u64> {
    let mut state = seed;
    let mut nav = Vec::with_capacity(n);
    let mut value: f64 = 1.0;
    for _ in 0..n {
        nav.push(fx(value));
        state = state.wrapping_mul(6364136223846793005).wrapping_add(1);
        let rand = ((state >> 33) as f64) / (u32::MAX as f64) - 0.5;
        value *= 1.0 + rand * 0.02;
        value = value.max(0.01);
    }
    nav
}

#[test]
fn test_rolling_ith_length() {
    let nav = generate_trending_nav(100, 0.001);
    let features = compute_rolling_ith(&nav, 20).unwrap();

    assert_eq!(features.bull_epoch_density.len(), 100);
    assert_eq!(features.bear_epoch_density.len(), 100);
    assert_eq!(features.bull_excess_gain.len(), 100);
    assert_eq!(features.bear_excess_gain.len(), 100);
    assert_eq!(features.bull_cv.len(), 100);
    assert_eq!(features.bear_cv.len(), 100);
    assert_eq!(features.max_drawdown.len(), 100);
    assert_eq!(features.max_runup.len(), 100);
}

#[test]
fn test_rolling_ith_first_values_nan() {
    let nav = generate_trending_nav(100, 0.001);
    let lookback = 20;
    let features = compute_rolling_ith(&nav, lookback).unwrap();

    for i in 0..(lookback - 1) {
        assert!(
            as_float(features.bull_epoch_density[i]).is_nan(),
            "Expected NaN at index {}",
            i
        );
    }

    assert!(
        !as_float(features.bull_epoch_density[lookback - 1]).is_nan(),
        "Expected valid value at index {}",
        lookback - 1
    );
}

#[test]
fn test_rolling_ith_bounded() {
    let nav = generate_volatile_nav(200, 12345);
    let features = compute_rolling_ith(&nav, 50).unwrap();

    for i in 49..200 {
        let columns = [
            ("bull_epoch_density", features.bull_epoch_density[i]),
            ("bear_epoch_density", features.bear_epoch_density[i]),
            ("bull_excess_gain", features.bull_excess_gain[i]),
            ("bear_excess_gain", features.bear_excess_gain[i]),
            ("bull_cv", features.bull_cv[i]),
            ("bear_cv", features.bear_cv[i]),
            ("max_drawdown", features.max_drawdown[i]),
            ("max_runup", features.max_runup[i]),
        ];
        for (name, entry) in columns {
            let val = as_float(entry);
            if !val.is_nan() {
                assert!(
                    val >= 0.0 && val <= 1.0,
                    "{} at index {} = {} is not bounded",
                    name,
                    i,
                    val
                );
            }
        }
    }
}

#[test]
fn test_rolling_ith_uptrend_characteristics() {
    let nav = generate_trending_nav(100, 0.01);
    let features = compute_rolling_ith(&nav, 20).unwrap();

    for i in 19..100 {
        assert!(
            as_float(features.max_drawdown[i]) < 0.01,
            "Expected low drawdown in uptrend at index {}",
            i
        );
    }
}

#[test]
fn test_rolling_ith_downtrend_characteristics() {
    let nav = generate_trending_nav(100, -0.01);
    let features = compute_rolling_ith(&nav, 20).unwrap();

    for i in 19..100 {
        assert!(
            as_float(features.max_runup[i]) < 0.01,
            "Expected low runup in downtrend at index {}",
            i
        );
    }
}

#[test]
#[should_panic(expected = "lookback must be positive")]
fn test_rolling_ith_zero_lookback() {
    let nav = generate_trending_nav(100, 0.001);
    compute_rolling_ith(&nav, 0).expect("lookback must be positive");
}

#[test]
#[should_panic(expected = "lookback cannot exceed NAV length")]
fn test_rolling_ith_lookback_too_large() {
    let nav = generate_trending_nav(50, 0.001);
    compute_rolling_ith(&nav, 100).expect("lookback cannot exceed NAV length");
}

#[test]
fn test_rolling_ith_minimum_lookback() {
    let nav = series(&[1.0, 1.01, 1.02]);
    let features = compute_rolling_ith(&nav, 1).unwrap();

    assert!(!as_float(features.bull_epoch_density[0]).is_nan());
    assert!(!as_float(features.bull_epoch_density[1]).is_nan());
    assert!(!as_float(features.bull_epoch_density[2]).is_nan());
}

#[test]
fn test_rolling_ith_exact_lookback() {
    let nav = series(&[1.0, 1.01, 1.02, 1.015, 1.03]);
    let features = compute_rolling_ith(&nav, 5).unwrap();

    assert!(as_float(features.bull_epoch_density[0]).is_nan());
    assert!(as_float(features.bull_epoch_density[3]).is_nan());
    assert!(!as_float(features.bull_epoch_density[4]).is_nan());
}

#[test]
fn rolling_rejects_invalid_lookback() {
    let nav = vec![10, 11, 12];
    assert_eq!(
        compute_rolling_ith(&nav, 0).err(),
        Some(InvalidArgument::LookbackZero)
    );
    assert_eq!(
        compute_rolling_ith(&nav, 4).err(),
        Some(InvalidArgument::LookbackExceedsLength)
    );
    assert_eq!(
        compute_rolling_ith(&[], 0).err(),
        Some(InvalidArgument::LookbackZero)
    );
    assert_eq!(
        compute_rolling_ith(&[], 1).err(),
        Some(InvalidArgument::LookbackExceedsLength)
    );
    assert!(compute_rolling_ith(&nav, 3).is_ok());
}

#[test]
fn rolling_sentinels_for_ten_bars_and_five_back() {
    let nav = series(&[1.0, 1.01, 1.02, 1.015, 1.03, 1.025, 1.04, 1.05, 1.045, 1.06]);
    let features = compute_rolling_ith(&nav, 5).unwrap();
    for i in 0..4 {
        assert_eq!(features.bull_epoch_density[i], None);
        assert_eq!(features.bear_epoch_density[i], None);
        assert_eq!(features.bull_excess_gain[i], None);
        assert_eq!(features.bear_excess_gain[i], None);
        assert_eq!(features.bull_cv[i], None);
        assert_eq!(features.bear_cv[i], None);
        assert_eq!(features.max_drawdown[i], None);
        assert_eq!(features.max_runup[i], None);
    }
    for i in 4..10 {
        assert!(features.bull_epoch_density[i].unwrap() <= SCALE);
        assert!(features.max_runup[i].unwrap() <= SCALE);
    }
}

#[test]
fn rolling_skips_windows_that_start_at_zero() {
    let nav = vec![0, 10, 11, 12];
    let features = compute_rolling_ith(&nav, 2).unwrap();
    assert_eq!(features.max_drawdown, vec![None, None, Some(0), Some(0)]);
    assert_eq!(features.bull_cv[1], None);
    assert!(features.bull_cv[2].is_some());
}

#[test]
fn rolling_matches_window_features() {
    let nav: Vec<u64> = (0..40u64).map(|i| 1_000 + (i * 7919) % 101).collect();
    let features = compute_rolling_ith(&nav, 8).unwrap();
    for i in 7..40 {
        let w = window_features(&nav[i - 7..=i]).unwrap();
        assert_eq!(features.bull_epoch_density[i], Some(w.bull_epoch_density));
        assert_eq!(features.bear_epoch_density[i], Some(w.bear_epoch_density));
        assert_eq!(features.bull_excess_gain[i], Some(w.bull_excess_gain));
        assert_eq!(features.bear_excess_gain[i], Some(w.bear_excess_gain));
        assert_eq!(features.bull_cv[i], Some(w.bull_cv));
        assert_eq!(features.bear_cv[i], Some(w.bear_cv));
        assert_eq!(features.max_drawdown[i], Some(w.max_drawdown));
        assert_eq!(features.max_runup[i], Some(w.max_runup));
    }
}

#[test]
fn window_features_exact_values() {
    // Renormalised: 1.0, 1.1, 0.9, 1.2. The maximum drawdown is
    // (1.1 - 0.9) / 1.1, the maximum runup (1.2 - 0.9) / 1.2.
    let w = window_features(&[1000, 1100, 900, 1200]).unwrap();
    assert_eq!(w.max_drawdown, 181_818_181);
    assert_eq!(w.max_runup, 250_000_000);
    // Bull sweep with hurdle 0.1818: bar 1 gains 0.1, bar 3 gains 0.2 over
    // the crest 1.0 against a loss of 0.1: one epoch in four bars. The sum of
    // the recorded gains is 0.1 + 0.1 + 0.2.
    assert!((as_ratio(w.bull_epoch_density) - 0.075_858_180_0).abs() < 3e-9);
    assert!((as_ratio(w.bull_excess_gain) - 0.964_027_580_1).abs() < 3e-9);
    // Markers at 0 and 3: a single gap, no variation: logistic(-2).
    assert!((as_ratio(w.bull_cv) - 0.119_202_922_0).abs() < 3e-9);
    assert!(window_features(&[]).is_none());
    assert!(window_features(&[0, 5]).is_none());
}

#[test]
fn window_features_are_scale_free() {
    let a = window_features(&[1000, 1100, 900, 1200, 1150]).unwrap();
    let b = window_features(&[7000, 7700, 6300, 8400, 8050]).unwrap();
    assert_eq!(a.bull_epoch_density, b.bull_epoch_density);
    assert_eq!(a.bear_epoch_density, b.bear_epoch_density);
    assert_eq!(a.bull_excess_gain, b.bull_excess_gain);
    assert_eq!(a.bear_excess_gain, b.bear_excess_gain);
    assert_eq!(a.bull_cv, b.bull_cv);
    assert_eq!(a.bear_cv, b.bear_cv);
    assert_eq!(a.max_drawdown, b.max_drawdown);
    assert_eq!(a.max_runup, b.max_runup);
}

#[test]
fn thresholds_are_strictly_positive() {
    assert_eq!(compute_max_drawdown(&[]), 1);
    assert_eq!(compute_max_drawdown(&[5]), 1);
    assert_eq!(compute_max_drawdown(&[5, 6, 7]), 1);
    assert_eq!(compute_max_drawdown(&[100, 50]), 500_000_000);
    assert_eq!(compute_max_runup(&[]), 1);
    assert_eq!(compute_max_runup(&[7, 6, 5]), 1);
    assert_eq!(compute_max_runup(&[50, 100]), 500_000_000);
}

#[test]
fn sums_saturate() {
    assert_eq!(sum_saturating(&[]), 0);
    assert_eq!(sum_saturating(&[1, 2, 3]), 6);
    assert_eq!(sum_saturating(&[u64::MAX, 1]), u64::MAX);
    assert_eq!(sum_saturating(&[u64::MAX - 1, 1, 5]), u64::MAX);
}

#[test]
fn rolling_is_deterministic() {
    let nav = generate_volatile_nav(120, 99);
    let a = compute_rolling_ith(&nav, 30).unwrap();
    let b = compute_rolling_ith(&nav, 30).unwrap();
    assert_eq!(a.bull_epoch_density, b.bull_epoch_density);
    assert_eq!(a.bear_epoch_density, b.bear_epoch_density);
    assert_eq!(a.bull_excess_gain, b.bull_excess_gain);
    assert_eq!(a.bear_excess_gain, b.bear_excess_gain);
    assert_eq!(a.bull_cv, b.bull_cv);
    assert_eq!(a.bear_cv, b.bear_cv);
    assert_eq!(a.max_drawdown, b.max_drawdown);
    assert_eq!(a.max_runup, b.max_runup);
}

#[test]
fn fresh_features_hold_no_values() {
    let features = RollingIthFeatures::new(3);
    assert_eq!(features.bull_epoch_density, vec![None; 3]);
    assert_eq!(features.bear_epoch_density, vec![None; 3]);
    assert_eq!(features.bull_excess_gain, vec![None; 3]);
    assert_eq!(features.bear_excess_gain, vec![None; 3]);
    assert_eq!(features.bull_cv, vec![None; 3]);
    assert_eq!(features.bear_cv, vec![None; 3]);
    assert_eq!(features.max_drawdown, vec![None; 3]);
    assert_eq!(features.max_runup, vec![None; 3]);
    assert!(RollingIthFeatures::new(0).max_runup.is_empty());
}

#[test]
fn rolling_with_a_window_as_long_as_the_series() {
    let nav = series(&[1.0, 1.01, 1.02, 1.015, 1.03, 1.025, 1.04, 1.05, 1.045, 1.06]);
    let features = compute_rolling_ith(&nav, 10).unwrap();
    for i in 0..9 {
        assert!(as_float(features.bull_epoch_density[i]).is_nan());
        assert!(as_float(features.max_runup[i]).is_nan());
    }
    let last = as_float(features.bull_epoch_density[9]);
    assert!(last.is_finite() && last >= 0.0 && last <= 1.0);
}
