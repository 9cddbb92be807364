use trading_fitness::fixed::{isqrt, mul_div_sat, ratio, SCALE};
use trading_fitness::intervals::calculate_ith_intervals_cv;
use trading_fitness::ith::{
    advance, determine_tmaeg, excess_gain_excess_loss, Direction, SweepState,
};

fn flags(n: usize, epochs: &[usize]) -> Vec<bool> {
    let mut v = vec![false; n];
    for &e in epochs {
        v[e] = true;
    }
    v
}

#[test]
fn intervals_cv_is_undefined_without_epochs() {
    assert_eq!(calculate_ith_intervals_cv(&[]), None);
    assert_eq!(calculate_ith_intervals_cv(&[false]), None);
    assert_eq!(calculate_ith_intervals_cv(&flags(50, &[])), None);
}

#[test]
fn intervals_cv_is_undefined_for_a_mean_gap_of_zero() {
    // The only epoch coincides with the marker at bar 0.
    assert_eq!(calculate_ith_intervals_cv(&flags(10, &[0])), None);
}

#[test]
fn intervals_cv_exact_values() {
    // One gap: no variation.
    assert_eq!(calculate_ith_intervals_cv(&flags(10, &[4])), Some(0));
    // Gaps 3, 3, 3.
    assert_eq!(calculate_ith_intervals_cv(&flags(10, &[3, 6, 9])), Some(0));
    // Gaps 1 and 3: mean 2, deviation 1.
    assert_eq!(calculate_ith_intervals_cv(&flags(10, &[1, 4])), Some(500_000_000));
    // Gaps 0 and 4 (an epoch at bar 0): mean 2, deviation 2.
    assert_eq!(calculate_ith_intervals_cv(&flags(10, &[0, 4])), Some(SCALE));
    // Gaps 1, 2, 6: mean 3, variance 14 / 3, coefficient sqrt(14 / 27).
    assert_eq!(calculate_ith_intervals_cv(&flags(10, &[1, 3, 9])), Some(720_082_299));
    // Gaps 1, 1, 1, 97: mean 25, deviation sqrt(1728), coefficient 1.6627...
    assert_eq!(
        calculate_ith_intervals_cv(&flags(101, &[1, 2, 3, 100])),
        Some(1_662_768_775)
    );
}

#[test]
fn intervals_cv_of_a_sweep() {
    // Epochs at bars 1 and 4: gaps 1 and 3.
    let r = excess_gain_excess_loss(&[1000, 1100, 1100, 1100, 1300], 50_000_000);
    assert_eq!(r.ith_epochs, vec![false, true, false, false, true]);
    assert_eq!(r.ith_intervals_cv, Some(500_000_000));
}

#[test]
fn sample_scenario() {
    let nav = [
        SCALE,
        1_100_000_000,
        1_200_000_000,
        1_150_000_000,
        1_250_000_000,
    ];
    let r = excess_gain_excess_loss(&nav, 50_000_000);
    assert_eq!(r.excess_gains.len(), 5);
    assert_eq!(r.excess_losses.len(), 5);
    assert_eq!(r.ith_epochs.len(), 5);
    let threshold = determine_tmaeg(
        &[SCALE, 1_100_000_000, 900_000_000, SCALE],
        "drawdown",
        50_000_000,
    );
    assert!(threshold > 150_000_000);
    assert_eq!(threshold, 181_818_181);
}

#[test]
fn one_bar_at_a_time() {
    let start = SweepState {
        excess_gain: 0,
        excess_loss: 0,
        endorsing_crest: 1000,
        endorsing_nadir: 1000,
        candidate_crest: 1000,
        candidate_nadir: 1000,
    };
    // A fall records a loss and keeps the crest.
    let fall = advance(Direction::Bull, start, 1000, 900, 50_000_000);
    assert_eq!((fall.gain, fall.loss, fall.epoch, fall.reset), (0, 100_000_000, false, false));
    assert_eq!(fall.next.endorsing_crest, 1000);
    assert_eq!(fall.next.candidate_nadir, 900);
    assert_eq!(fall.next.excess_loss, 100_000_000);
    // A rise above the loss and the hurdle re-anchors at the previous bar.
    let rise = advance(Direction::Bull, fall.next, 900, 1300, 50_000_000);
    assert_eq!((rise.gain, rise.loss), (300_000_000, 100_000_000));
    assert_eq!((rise.epoch, rise.reset), (true, true));
    assert_eq!(rise.next.endorsing_crest, 1300);
    assert_eq!(rise.next.endorsing_nadir, 900);
    assert_eq!(rise.next.candidate_nadir, 900);
    assert_eq!((rise.next.excess_gain, rise.next.excess_loss), (0, 0));
    // A gain that equals the hurdle is no epoch.
    let even = advance(Direction::Bull, start, 1000, 1050, 50_000_000);
    assert_eq!((even.gain, even.epoch), (50_000_000, false));
    assert_eq!(even.next.excess_gain, 50_000_000);
    assert_eq!(even.next.candidate_crest, 1050);
    assert_eq!(even.next.endorsing_crest, 1000);
}

#[test]
fn fixed_point_arithmetic() {
    assert_eq!(mul_div_sat(7, 3, 2), 10);
    assert_eq!(mul_div_sat(0, u64::MAX, 1), 0);
    assert_eq!(mul_div_sat(u64::MAX, u64::MAX, u64::MAX), u64::MAX);
    assert_eq!(mul_div_sat(u64::MAX, 2, 1), u64::MAX);
    assert_eq!(mul_div_sat(u64::MAX, 2, 4), u64::MAX / 2);
    assert_eq!(ratio(1, 3), 333_333_333);
    assert_eq!(ratio(2, 3), 666_666_666);
    assert_eq!(ratio(5, 5), SCALE);
    assert_eq!(ratio(u64::MAX, 1), u64::MAX);
}

#[test]
fn integer_square_roots() {
    assert_eq!(isqrt(0), 0);
    assert_eq!(isqrt(1), 1);
    assert_eq!(isqrt(3), 1);
    assert_eq!(isqrt(4), 2);
    assert_eq!(isqrt(99), 9);
    assert_eq!(isqrt(100), 10);
    assert_eq!(isqrt(u128::MAX), u64::MAX);
    assert_eq!(isqrt((u64::MAX as u128) * (u64::MAX as u128) - 1), u64::MAX - 1);
    assert_eq!(isqrt(2_000_000_000_000_000_000), 1_414_213_562);
}
