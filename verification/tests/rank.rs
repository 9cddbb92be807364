use trading_fitness::fixed::SCALE;
use trading_fitness::order::{lower_bound, sort_values, upper_bound};
use trading_fitness::ith_normalize::{rank_normalize, rank_normalize_with_reference};

fn fx(x: f64) -> i64 {
    (x * SCALE as f64).round() as i64
}

fn as_ratio(x: u64) -> f64 {
    x as f64 / SCALE as f64
}

fn batch(values: &[f64]) -> Vec<i64> {
    values.iter().map(|v| fx(*v)).collect()
}

#[test]
fn test_rank_normalize_bounded() {
    let values = batch(&[100.0, 1.0, 50.0, 1000000.0, 25.0]);
    let normalized = rank_normalize(&values);

    for (i, &raw) in normalized.iter().enumerate() {
        let v = as_ratio(raw);
        assert!(
            v >= 0.0 && v <= 1.0,
            "rank_normalize[{}] = {} not in [0, 1]",
            i,
            v
        );
    }
}

#[test]
fn test_rank_normalize_preserves_order() {
    let values = batch(&[3.0, 1.0, 4.0, 1.0, 5.0, 9.0, 2.0, 6.0]);
    let normalized = rank_normalize(&values);

    for i in 0..values.len() {
        for j in 0..values.len() {
            if values[i] < values[j] {
                assert!(
                    normalized[i] <= normalized[j],
                    "Order not preserved: values[{}]={} < values[{}]={}, but normalized[{}]={} > normalized[{}]={}",
                    i, values[i], j, values[j], i, normalized[i], j, normalized[j]
                );
            }
        }
    }
}

#[test]
fn test_rank_normalize_handles_ties() {
    let values = batch(&[1.0, 2.0, 2.0, 3.0]);
    let normalized = rank_normalize(&values);

    assert!(
        (as_ratio(normalized[1]) - as_ratio(normalized[2])).abs() < f64::EPSILON,
        "Tied values should have same normalized value"
    );
}

#[test]
fn rank_normalize_exact_values() {
    assert_eq!(rank_normalize(&[]), Vec::<u64>::new());
    assert_eq!(rank_normalize(&[42]), vec![500_000_000]);
    assert_eq!(rank_normalize(&[10, 20]), vec![0, SCALE]);
    assert_eq!(
        rank_normalize(&[100, 1, 50, 1_000_000, 25]),
        vec![750_000_000, 0, 500_000_000, SCALE, 250_000_000]
    );
    // The two 2s share the ranks 1 and 2: mean 1.5 of 3.
    assert_eq!(
        rank_normalize(&[1, 2, 2, 3]),
        vec![0, 500_000_000, 500_000_000, SCALE]
    );
    // All tied: everyone has the mean rank.
    assert_eq!(rank_normalize(&[7, 7, 7]), vec![500_000_000; 3]);
    // Thirds are rounded down.
    assert_eq!(
        rank_normalize(&[-5, 0, 5, i64::MAX]),
        vec![0, 333_333_333, 666_666_666, SCALE]
    );
    assert_eq!(rank_normalize(&[i64::MAX, i64::MIN]), vec![SCALE, 0]);
}

#[test]
fn rank_normalize_ignores_order_of_the_batch() {
    let a = rank_normalize(&[3, 1, 4, 1, 5, 9, 2, 6]);
    let b = rank_normalize(&[9, 6, 5, 4, 3, 2, 1, 1]);
    // 3 is at index 0 in the first batch and at index 4 in the second.
    assert_eq!(a[0], b[4]);
    assert_eq!(a[1], b[6]);
    assert_eq!(a[3], b[7]);
    assert_eq!(a[5], b[0]);
}

#[test]
fn rank_against_reference_exact_values() {
    assert_eq!(rank_normalize_with_reference(5, &[]), 500_000_000);
    let reference = [10, 20, 20, 30];
    assert_eq!(rank_normalize_with_reference(5, &reference), 0);
    assert_eq!(rank_normalize_with_reference(10, &reference), 0);
    assert_eq!(rank_normalize_with_reference(20, &reference), 250_000_000);
    assert_eq!(rank_normalize_with_reference(21, &reference), 750_000_000);
    assert_eq!(rank_normalize_with_reference(31, &reference), SCALE);
    assert_eq!(rank_normalize_with_reference(i64::MAX, &[1, 2, 3]), SCALE);
    assert_eq!(rank_normalize_with_reference(2, &[1, 2, 3]), 333_333_333);
    // An unsorted reference still gives a fraction.
    assert!(rank_normalize_with_reference(2, &[3, 1, 2, 0, 9]) <= SCALE);
}

#[test]
fn sorting_orders_the_values() {
    let mut v = vec![5, -1, 3, 3, i64::MIN, 0, i64::MAX];
    sort_values(&mut v);
    assert_eq!(v, vec![i64::MIN, -1, 0, 3, 3, 5, i64::MAX]);
    let mut empty: Vec<i64> = Vec::new();
    sort_values(&mut empty);
    assert!(empty.is_empty());
}

#[test]
fn bounds_count_the_entries() {
    let v = [1, 3, 3, 3, 8];
    assert_eq!(lower_bound(&v, 0), 0);
    assert_eq!(lower_bound(&v, 3), 1);
    assert_eq!(upper_bound(&v, 3), 4);
    assert_eq!(lower_bound(&v, 4), 4);
    assert_eq!(upper_bound(&v, 8), 5);
    assert_eq!(lower_bound(&v, 9), 5);
    assert_eq!(lower_bound(&[], 9), 0);
    assert_eq!(upper_bound(&[], 9), 0);
}
