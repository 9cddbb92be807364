use trading_fitness::fixed::SCALE;
use trading_fitness::metrics::{
    calculate_fitness_metrics, max_drawdown, max_runup, pnl_from_nav, sharpe_ratio, simple_return,
    total_return,
};

fn fx(x: f64) -> u64 {
    (x * SCALE as f64).round() as u64
}

fn as_ratio(x: i64) -> f64 {
    x as f64 / SCALE as f64
}

fn signed(x: f64) -> i64 {
    (x * SCALE as f64).round() as i64
}

fn as_float(x: Option<i64>) -> f64 {
    x.map(as_ratio).unwrap_or(f64::NAN)
}

fn series(values: &[f64]) -> Vec<u64> {
    values.iter().map(|v| fx(*v)).collect()
}

#[test]
fn test_max_drawdown_uptrend() {
    let nav = series(&[1.0, 1.1, 1.2, 1.3, 1.4]);
    let mdd = max_drawdown(&nav);
    assert_eq!(mdd, 0);
}

#[test]
fn test_max_drawdown_downtrend() {
    let nav = series(&[1.0, 0.9, 0.8, 0.7]);
    let mdd = max_drawdown(&nav);
    assert!((mdd as f64 / SCALE as f64 - 0.3).abs() < 0.001);
}

#[test]
fn test_total_return() {
    let nav = series(&[1.0, 1.1, 1.2]);
    let ret = total_return(&nav);
    assert!((as_ratio(ret) - 0.2).abs() < 0.001);
}

#[test]
fn test_pnl_from_nav() {
    let nav = series(&[1.0, 1.1, 1.21]);
    let pnl = pnl_from_nav(&nav);
    assert_eq!(pnl.len(), 3);
    assert_eq!(pnl[0], 0);
    assert!((as_ratio(pnl[1]) - 0.1).abs() < 0.001);
    assert!((as_ratio(pnl[2]) - 0.1).abs() < 0.001);
}

#[test]
fn max_drawdown_exact_values() {
    assert_eq!(max_drawdown(&[]), 0);
    assert_eq!(max_drawdown(&[7]), 0);
    assert_eq!(max_drawdown(&[0, 0, 0]), 0);
    assert_eq!(max_drawdown(&[100, 50]), 500_000_000);
    assert_eq!(max_drawdown(&[100, 0]), SCALE);
    // The peak 300 is followed by 100: two thirds, rounded down.
    assert_eq!(max_drawdown(&[100, 90, 300, 100, 250]), 666_666_666);
    // A zero peak is skipped; the later peak counts.
    assert_eq!(max_drawdown(&[0, 10, 5]), 500_000_000);
}

#[test]
fn max_runup_exact_values() {
    assert_eq!(max_runup(&[]), 0);
    assert_eq!(max_runup(&[7]), 0);
    assert_eq!(max_runup(&[50, 100]), 500_000_000);
    assert_eq!(max_runup(&[100, 90, 300, 100, 250]), 700_000_000);
    // A trough of zero contributes nothing.
    assert_eq!(max_runup(&[0, 10, 20]), 0);
    assert_eq!(max_runup(&[10, 0, 20]), 0);
}

#[test]
fn monotone_series_have_one_sided_excursions() {
    let rising: Vec<u64> = (1..=50u64).map(|i| 1000 + 3 * i).collect();
    let falling: Vec<u64> = rising.iter().rev().copied().collect();
    assert_eq!(max_drawdown(&rising), 0);
    assert!(max_runup(&rising) > 100_000_000);
    assert_eq!(max_runup(&falling), 0);
    assert!(max_drawdown(&falling) > 100_000_000);
}

#[test]
fn returns_exact_values() {
    assert_eq!(simple_return(0, 5), 0);
    assert_eq!(simple_return(100, 100), 0);
    assert_eq!(simple_return(100, 150), 500_000_000);
    assert_eq!(simple_return(300, 200), -333_333_333);
    assert_eq!(simple_return(300, 0), -(SCALE as i64));
    assert_eq!(simple_return(1, u64::MAX), i64::MAX);
    assert_eq!(total_return(&[]), 0);
    assert_eq!(total_return(&[5]), 0);
    assert_eq!(total_return(&[0, 5]), 0);
    assert_eq!(total_return(&[200, 900, 100]), -500_000_000);
}

#[test]
fn pnl_edge_cases() {
    assert_eq!(pnl_from_nav(&[]), vec![0]);
    assert_eq!(pnl_from_nav(&[9]), vec![0]);
    assert_eq!(pnl_from_nav(&[0, 4, 2]), vec![0, 0, -500_000_000]);
}

#[test]
fn test_sharpe_ratio_positive() {
    let returns: Vec<i64> = [0.01, 0.02, 0.01, 0.015, 0.02].iter().map(|r| signed(*r)).collect();
    let sr = as_float(sharpe_ratio(&returns, 252, signed(0.0)));
    assert!(sr > 0.0);
}

#[test]
fn test_sharpe_ratio_negative() {
    let returns: Vec<i64> =
        [-0.01, -0.02, -0.01, -0.015, -0.02].iter().map(|r| signed(*r)).collect();
    let sr = as_float(sharpe_ratio(&returns, 252, signed(0.0)));
    assert!(sr < 0.0);
}

#[test]
fn test_sharpe_ratio_insufficient_data() {
    let returns = vec![signed(0.01)];
    let sr = as_float(sharpe_ratio(&returns, 252, signed(0.0)));
    assert!(sr.is_nan());
}

#[test]
fn sharpe_ratio_exact_values() {
    // Returns 1%, 3%: mean 2%, sample deviation sqrt(2) %, one period a year.
    let sr = sharpe_ratio(&[signed(0.01), signed(0.03)], 1, 0).unwrap();
    assert!((sr as f64 / SCALE as f64 - 1.414_213_562).abs() < 1e-6);
    // Four periods a year double it; a risk-free rate of 2% cancels it.
    let sr4 = sharpe_ratio(&[signed(0.01), signed(0.03)], 4, 0).unwrap();
    assert!((sr4 as f64 / SCALE as f64 - 2.828_427_125).abs() < 1e-6);
    assert_eq!(sharpe_ratio(&[signed(0.01), signed(0.03)], 4, signed(0.02)), Some(0));
    let below = sharpe_ratio(&[signed(0.01), signed(0.03)], 1, signed(0.04)).unwrap();
    assert!((below as f64 / SCALE as f64 + 1.414_213_562).abs() < 1e-6);
    // No variation, no ratio.
    assert_eq!(sharpe_ratio(&[5, 5, 5], 252, 0), None);
    assert_eq!(sharpe_ratio(&[], 252, 0), None);
    // Out of range.
    assert_eq!(sharpe_ratio(&[0, i64::MAX], 252, 0), None);
    assert_eq!(sharpe_ratio(&[0, 10], 252, i64::MIN), None);
    assert!(sharpe_ratio(&[0x8000_0000_0000, -0x8000_0000_0000], u32::MAX, 0).is_some());
    assert_eq!(sharpe_ratio(&[0x8000_0000_0001, 0], 252, 0), None);
}

#[test]
fn fitness_metrics_summarise_the_series() {
    let nav = vec![fx(1.0), fx(1.1), fx(0.99), fx(1.21)];
    let m = calculate_fitness_metrics(&nav, 252);
    assert_eq!(m.trading_days, 4);
    assert_eq!(m.max_drawdown, 100_000_000);
    assert_eq!(m.total_return, 210_000_000);
    assert!(m.sharpe_ratio.unwrap() > 0);
    let flat = calculate_fitness_metrics(&[5, 5, 5], 252);
    assert_eq!(flat.sharpe_ratio, None);
    assert_eq!(flat.max_drawdown, 0);
    assert_eq!(flat.total_return, 0);
    let empty = calculate_fitness_metrics(&[], 252);
    assert_eq!(empty.trading_days, 0);
    assert_eq!(empty.sharpe_ratio, None);
}
