use trading_fitness::fixed::SCALE;
use trading_fitness::ith_normalize::{OnlineRobustNormalizer, PSquareQuantile};

fn fx(x: f64) -> i64 {
    (x * SCALE as f64).round() as i64
}

fn as_ratio(x: i64) -> f64 {
    x as f64 / SCALE as f64
}

#[test]
fn test_psquare_median() {
    let mut estimator = PSquareQuantile::median();

    for i in 0..100 {
        estimator.update(fx(i as f64));
    }

    let median = estimator.quantile().map(as_ratio).unwrap_or(f64::NAN);
    assert!(
        median.is_finite(),
        "P-Square median should be finite, got {}",
        median
    );
    assert!(
        median >= 0.0 && median <= 99.0,
        "P-Square median {} should be within data range [0, 99]",
        median
    );
}

#[test]
fn test_online_normalizer_bounded() {
    let mut norm = OnlineRobustNormalizer::new();

    for i in 0..20 {
        norm.normalize(fx(i as f64));
    }

    for &val in &[-100.0, -10.0, 0.0, 10.0, 100.0] {
        let result = norm.normalize(fx(val)) as f64 / SCALE as f64;
        assert!(
            result >= 0.0 && result <= 1.0,
            "OnlineRobustNormalizer({}) = {} not in [0, 1]",
            val,
            result
        );
    }
}

#[test]
fn estimator_without_observations_has_no_estimate() {
    let estimator = PSquareQuantile::new(300_000_000);
    assert_eq!(estimator.count(), 0);
    assert_eq!(estimator.quantile(), None);
}

#[test]
fn estimator_warm_up_returns_order_statistics() {
    let mut estimator = PSquareQuantile::median();
    estimator.update(30);
    assert_eq!(estimator.quantile(), Some(30));
    estimator.update(10);
    // Two values: rank 0.5 rounds up to the larger.
    assert_eq!(estimator.quantile(), Some(30));
    estimator.update(20);
    assert_eq!(estimator.quantile(), Some(20));
    estimator.update(40);
    // Four values: rank 1.5 rounds up to the third.
    assert_eq!(estimator.quantile(), Some(30));
    assert_eq!(estimator.count(), 4);

    let mut low = PSquareQuantile::new(0);
    let mut high = PSquareQuantile::new(u64::MAX);
    for x in [5, -3, 9] {
        low.update(x);
        high.update(x);
    }
    assert_eq!(low.quantile(), Some(-3));
    assert_eq!(high.quantile(), Some(9));
}

#[test]
fn estimator_sorts_the_first_five() {
    let mut estimator = PSquareQuantile::median();
    for x in [50, 10, 40, 20, 30] {
        estimator.update(x);
    }
    assert_eq!(estimator.count(), 5);
    assert_eq!(estimator.quantile(), Some(30));
}

#[test]
fn estimator_follows_a_rising_stream() {
    let mut estimator = PSquareQuantile::median();
    for i in 0..1001i64 {
        estimator.update(i * 1_000);
    }
    let median = estimator.quantile().unwrap();
    // The true median is 500 000.
    assert!(
        (median - 500_000).abs() <= 5_000,
        "median of 0..=1000 estimated as {}",
        median
    );
    let mut q1 = PSquareQuantile::q1();
    let mut q3 = PSquareQuantile::q3();
    for i in 0..1001i64 {
        q1.update(i * 1_000);
        q3.update(i * 1_000);
    }
    assert!((q1.quantile().unwrap() - 250_000).abs() <= 5_000);
    assert!((q3.quantile().unwrap() - 750_000).abs() <= 5_000);
}

#[test]
fn estimator_exact_trace() {
    // After 1..=5 the markers are 1, 2, 3, 4, 5. The observation 6 lands in
    // the top cell; marker 3 has drifted from position 4 to a wanted 4.75 of
    // 6 observations and stays, as does every other marker.
    let mut estimator = PSquareQuantile::median();
    for x in [1, 2, 3, 4, 5, 6] {
        estimator.update(x * 1_000);
    }
    assert_eq!(estimator.quantile(), Some(3_000));
    // With 7 the middle marker is wanted at position 4 but has no room: the
    // marker above it sits at 4. That one is wanted at 5.5 and moves up, by
    // (2 * 3000 / 3 + 2 * 1000 / 1) / 4 = 1000.
    estimator.update(7_000);
    assert_eq!(estimator.quantile(), Some(3_000));
    // With 8 the middle marker is wanted at 4.5 and has room: it moves up by
    // (2 * 2000 / 2 + 1 * 1000 / 1) / 3 = 1000.
    estimator.update(8_000);
    assert_eq!(estimator.quantile(), Some(4_000));
    assert_eq!(estimator.count(), 8);
}

#[test]
fn estimator_of_a_constant_stream_is_the_constant() {
    for &c in &[0i64, 7, -123_456_789, i64::MAX, i64::MIN] {
        let mut estimator = PSquareQuantile::new(900_000_000);
        for n in 1..=200 {
            estimator.update(c);
            assert_eq!(estimator.quantile(), Some(c), "after {} observations", n);
        }
    }
}

#[test]
fn estimator_stays_within_the_observations() {
    let mut state: u64 = 7;
    let mut estimator = PSquareQuantile::new(100_000_000);
    let mut lo = i64::MAX;
    let mut hi = i64::MIN;
    for _ in 0..5_000 {
        state = state.wrapping_mul(6364136223846793005).wrapping_add(1442695040888963407);
        let x = (state >> 16) as i64 - (1i64 << 46);
        lo = lo.min(x);
        hi = hi.max(x);
        estimator.update(x);
        let q = estimator.quantile().unwrap();
        assert!(lo <= q && q <= hi);
    }
}

#[test]
fn estimator_handles_extreme_heights() {
    let mut estimator = PSquareQuantile::median();
    for x in [i64::MIN, i64::MAX, 0, i64::MIN, i64::MAX, 1, -1, i64::MAX, i64::MIN, 5, 6, 7] {
        estimator.update(x);
    }
    assert!(estimator.quantile().is_some());
}

#[test]
fn estimator_is_deterministic() {
    let mut a = PSquareQuantile::q3();
    let mut b = PSquareQuantile::q3();
    for i in 0..500i64 {
        let x = (i * 7919) % 1013 - 500;
        a.update(x);
        b.update(x);
        assert_eq!(a.quantile(), b.quantile());
    }
}

#[test]
fn normalizer_warm_up_is_neutral() {
    let mut norm = OnlineRobustNormalizer::default();
    assert_eq!(norm.count(), 0);
    assert_eq!(norm.median(), None);
    assert_eq!(norm.iqr(), None);
    for x in [10, 20, 30, 40] {
        assert_eq!(norm.normalize(x), 500_000_000);
    }
    assert_eq!(norm.count(), 4);
    assert!(norm.median().is_some());
}

#[test]
fn normalizer_scores_against_median_and_spread() {
    let mut norm = OnlineRobustNormalizer::new();
    for x in [100, 200, 300, 400] {
        norm.normalize(x);
    }
    // The fifth observation completes the warm-up: the markers are
    // 100, 200, 300, 400, 500 for each estimator, so the median is 300 and
    // the quartiles coincide with it. The spread is floored at one, the
    // score of 500 is 200 * 1.35 standard deviations.
    let r = norm.normalize(500);
    assert_eq!(norm.median(), Some(300));
    assert_eq!(norm.iqr(), Some(0));
    assert_eq!(r, 1_000_000_000);
    // An observation at the median scores one half.
    let mut flat = OnlineRobustNormalizer::new();
    for _ in 0..9 {
        flat.normalize(42);
    }
    assert_eq!(flat.normalize(42), 500_000_000);
    // One unit below the median with a spread of one: logistic(-1.35).
    assert_eq!(flat.normalize(41), 205_870_371);
}
