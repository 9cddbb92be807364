use proptest::strategy::{Strategy, ValueTree};
use proptest::test_runner::TestRunner;
use trading_fitness::fixed::SCALE;
use trading_fitness::synthetic::{bar_bounds, realistic_prices, trending_series, valid_ohlc};

fn fx(x: f64) -> u64 {
    (x * SCALE as f64).round() as u64
}

fn signed(x: f64) -> i64 {
    (x * SCALE as f64).round() as i64
}

fn as_ratio(x: u64) -> f64 {
    x as f64 / SCALE as f64
}

#[test]
fn realistic_prices_generates_correct_length() {
    let mut runner = TestRunner::default();
    let strategy = (
        1.0f64..10000.0,
        proptest::collection::vec(-0.15f64..0.15, 99),
    );

    for _ in 0..10 {
        let (start, returns) = strategy.new_tree(&mut runner).unwrap().current();
        let steps: Vec<i64> = returns.iter().map(|r| signed(*r)).collect();
        let prices = realistic_prices(fx(start), &steps);
        assert_eq!(prices.len(), 100);
        assert!(prices.iter().all(|&p| as_ratio(p) >= 0.01));
    }
}

#[test]
fn valid_ohlc_maintains_invariants() {
    let mut runner = TestRunner::default();
    let strategy = (1.0f64..10000.0, 0.001f64..0.10, 0.0f64..=1.0, 0.0f64..=1.0);

    for _ in 0..100 {
        let (base, range_pct, open_at, close_at) =
            strategy.new_tree(&mut runner).unwrap().current();
        let (o, h, l, c) = valid_ohlc(fx(base), fx(range_pct), fx(open_at), fx(close_at));
        assert!(h >= o, "High {} must be >= Open {}", h, o);
        assert!(h >= c, "High {} must be >= Close {}", h, c);
        assert!(l <= o, "Low {} must be <= Open {}", l, o);
        assert!(l <= c, "Low {} must be <= Close {}", l, c);
    }
}

#[test]
fn trending_series_is_monotonic() {
    let mut runner = TestRunner::default();
    let strategy = (1.0f64..1000.0, 1.001f64..1.02f64);

    for _ in 0..10 {
        let (start, drift) = strategy.new_tree(&mut runner).unwrap().current();
        let prices = trending_series(fx(start), fx(drift), 50);
        for window in prices.windows(2) {
            assert!(
                window[1] >= window[0],
                "Trending series should be monotonic"
            );
        }
    }
}

#[test]
fn realistic_prices_exact_values() {
    assert_eq!(realistic_prices(5, &[]), vec![5]);
    // +10%, -50%, then a wipe-out that the floor catches.
    assert_eq!(
        realistic_prices(fx(100.0), &[signed(0.1), signed(-0.5), signed(-1.0), signed(0.5)]),
        vec![fx(100.0), fx(110.0), fx(55.0), fx(0.01), fx(0.015)]
    );
    // A return below -100% counts as -100%.
    assert_eq!(realistic_prices(fx(1.0), &[i64::MIN]), vec![fx(1.0), fx(0.01)]);
    // Growth saturates.
    assert_eq!(
        realistic_prices(u64::MAX, &[signed(1.0)]),
        vec![u64::MAX, u64::MAX]
    );
}

#[test]
fn trending_series_exact_values() {
    assert_eq!(trending_series(7, fx(2.0), 0), Vec::<u64>::new());
    assert_eq!(trending_series(7, fx(2.0), 4), vec![7, 14, 28, 56]);
    assert_eq!(trending_series(1000, fx(0.5), 3), vec![1000, 500, 250]);
    assert_eq!(trending_series(u64::MAX, fx(3.0), 2), vec![u64::MAX, u64::MAX]);
}

#[test]
fn bars_exact_values() {
    // A range of 10% of 1000: 50 to either side.
    assert_eq!(bar_bounds(1000, fx(0.1)), (950, 1050));
    assert_eq!(valid_ohlc(1000, fx(0.1), 0, SCALE), (950, 1050, 950, 1050));
    assert_eq!(valid_ohlc(1000, fx(0.1), fx(0.5), fx(0.25)), (1000, 1050, 950, 975));
    // Fractions above one count as one; a range wider than twice the base
    // stops at zero.
    assert_eq!(valid_ohlc(1000, fx(4.0), u64::MAX, 0), (3000, 3000, 0, 0));
    assert_eq!(bar_bounds(u64::MAX, fx(1.0)), (u64::MAX / 2 + 1, u64::MAX));
}
