//! Rolling features: the bull and the bear analysis, run afresh on every
//! window of a series and bounded to the unit interval.
//!
//! Each window is first renormalised so that it starts at one. The bull
//! threshold is then the maximum drawdown of the window, the bear threshold
//! its maximum runup; both are derived from the window alone, and both are
//! kept strictly positive. Positions without a full window, and windows
//! that start at zero, hold no features.

use vstd::prelude::*;
use crate::fixed::{max_int, min_int, ratio, ratio_spec, EPSILON, SCALE};
use crate::intervals::{intervals_cv_spec, MAX_SERIES_LEN};
use crate::ith::{bear_ith, bull_ith, count_true, sweep_epochs, sweep_gains, Direction};
use crate::ith_normalize::{
    clamp_unit, lemma_normalize_cv, lemma_normalize_epochs, lemma_normalize_excess, normalize_cv,
    normalize_cv_spec, normalize_drawdown, normalize_epochs, normalize_epochs_spec,
    normalize_excess, normalize_excess_spec, normalize_runup,
};
use crate::metrics::{
    lemma_falling_series_has_no_runup, lemma_max_drawdown, lemma_max_runup,
    lemma_rising_series_has_no_drawdown, max_drawdown, max_drawdown_spec, max_runup,
    max_runup_spec,
};

verus! {

/// The features of one window, each between zero and `SCALE`.
#[derive(Clone, Copy, Debug)]
pub struct WindowFeatures {
    /// Bounded density of bull epochs.
    pub bull_epoch_density: u64,
    /// Bounded density of bear epochs.
    pub bear_epoch_density: u64,
    /// Bounded sum of the bull excess gains.
    pub bull_excess_gain: u64,
    /// Bounded sum of the bear excess gains.
    pub bear_excess_gain: u64,
    /// Bounded regularity of the bull epochs.
    pub bull_cv: u64,
    /// Bounded regularity of the bear epochs.
    pub bear_cv: u64,
    /// Maximum drawdown of the window.
    pub max_drawdown: u64,
    /// Maximum runup of the window.
    pub max_runup: u64,
}

/// Rolling features of a series: eight columns with one entry per bar. An
/// entry is `None` where the bar has no full window behind it or the window
/// starts at zero.
#[derive(Debug, Clone)]
pub struct RollingIthFeatures {
    /// Bounded density of bull epochs.
    pub bull_epoch_density: Vec<Option<u64>>,
    /// Bounded density of bear epochs.
    pub bear_epoch_density: Vec<Option<u64>>,
    /// Bounded sum of the bull excess gains.
    pub bull_excess_gain: Vec<Option<u64>>,
    /// Bounded sum of the bear excess gains.
    pub bear_excess_gain: Vec<Option<u64>>,
    /// Bounded regularity of the bull epochs.
    pub bull_cv: Vec<Option<u64>>,
    /// Bounded regularity of the bear epochs.
    pub bear_cv: Vec<Option<u64>>,
    /// Maximum drawdown of the window.
    pub max_drawdown: Vec<Option<u64>>,
    /// Maximum runup of the window.
    pub max_runup: Vec<Option<u64>>,
}

/// Why a rolling computation was refused.
#[derive(Clone, Copy, Debug, PartialEq, Eq, Structural)]
pub enum InvalidArgument {
    /// The window length is zero.
    LookbackZero,
    /// The window is longer than the series.
    LookbackExceedsLength,
}

/// The window divided by its first value.
pub open spec fn renormalized(window: Seq<u64>) -> Seq<u64>
    recommends
        window.len() > 0,
        window[0] > 0,
{
    Seq::new(window.len(), |k: int| ratio_spec(window[k] as int, window[0] as int) as u64)
}

/// The bull threshold of a window: its maximum drawdown, at least `EPSILON`.
pub open spec fn drawdown_threshold(window: Seq<u64>) -> u64 {
    max_int(max_drawdown_spec(window), EPSILON as int) as u64
}

/// The bear threshold of a window: its maximum runup, at least `EPSILON`.
pub open spec fn runup_threshold(window: Seq<u64>) -> u64 {
    max_int(max_runup_spec(window), EPSILON as int) as u64
}

/// Sum of the entries of `values`.
pub open spec fn total(values: Seq<u64>) -> nat
    decreases values.len(),
{
    if values.len() == 0 {
        0
    } else {
        total(values.drop_last()) + values.last() as nat
    }
}

/// Sum of the entries of `values`, capped at the largest `u64`.
pub open spec fn total_sat(values: Seq<u64>) -> u64 {
    min_int(total(values) as int, u64::MAX as int) as u64
}

/// The features of one window.
pub open spec fn window_features_spec(window: Seq<u64>) -> Option<WindowFeatures> {
    if window.len() == 0 || window[0] == 0 {
        None
    } else {
        let w = renormalized(window);
        let bull = drawdown_threshold(w);
        let bear = runup_threshold(w);
        let bull_epochs = sweep_epochs(Direction::Bull, w, bull);
        let bear_epochs = sweep_epochs(Direction::Bear, w, bear);
        Some(
            WindowFeatures {
                bull_epoch_density: normalize_epochs_spec(count_true(bull_epochs), w.len()) as u64,
                bear_epoch_density: normalize_epochs_spec(count_true(bear_epochs), w.len()) as u64,
                bull_excess_gain: normalize_excess_spec(
                    total_sat(sweep_gains(Direction::Bull, w, bull)) as nat,
                ) as u64,
                bear_excess_gain: normalize_excess_spec(
                    total_sat(sweep_gains(Direction::Bear, w, bear)) as nat,
                ) as u64,
                bull_cv: normalize_cv_spec(intervals_cv_spec(bull_epochs)) as u64,
                bear_cv: normalize_cv_spec(intervals_cv_spec(bear_epochs)) as u64,
                max_drawdown: clamp_unit(max_drawdown_spec(w)) as u64,
                max_runup: clamp_unit(max_runup_spec(w)) as u64,
            },
        )
    }
}

/// The features at bar `i` of `nav` for windows of `lookback` bars: those of
/// the window that ends at bar `i`, if there is one.
pub open spec fn rolling_entry(nav: Seq<u64>, lookback: nat, i: int) -> Option<WindowFeatures>
    recommends
        0 < lookback,
        0 <= i < nav.len(),
{
    if i + 1 < lookback {
        None
    } else {
        window_features_spec(nav.subrange(i + 1 - lookback, i + 1))
    }
}

/// One column of the rolling features of `nav`: for every bar the feature
/// that `pick` selects, where the bar has features.
pub open spec fn column_of(
    nav: Seq<u64>,
    lookback: nat,
    pick: spec_fn(WindowFeatures) -> u64,
) -> Seq<Option<u64>> {
    Seq::new(
        nav.len(),
        |i: int|
            match rolling_entry(nav, lookback, i) {
                Some(f) => Some(pick(f)),
                None => None,
            },
    )
}

/// `r` holds the rolling features of `nav` for windows of `lookback` bars.
pub open spec fn is_rolling_of(r: RollingIthFeatures, nav: Seq<u64>, lookback: nat) -> bool {
    &&& r.bull_epoch_density@ == column_of(
        nav,
        lookback,
        |f: WindowFeatures| f.bull_epoch_density,
    )
    &&& r.bear_epoch_density@ == column_of(
        nav,
        lookback,
        |f: WindowFeatures| f.bear_epoch_density,
    )
    &&& r.bull_excess_gain@ == column_of(nav, lookback, |f: WindowFeatures| f.bull_excess_gain)
    &&& r.bear_excess_gain@ == column_of(nav, lookback, |f: WindowFeatures| f.bear_excess_gain)
    &&& r.bull_cv@ == column_of(nav, lookback, |f: WindowFeatures| f.bull_cv)
    &&& r.bear_cv@ == column_of(nav, lookback, |f: WindowFeatures| f.bear_cv)
    &&& r.max_drawdown@ == column_of(nav, lookback, |f: WindowFeatures| f.max_drawdown)
    &&& r.max_runup@ == column_of(nav, lookback, |f: WindowFeatures| f.max_runup)
}

/// Every feature lies between zero and `SCALE`.
pub open spec fn features_bounded(f: WindowFeatures) -> bool {
    &&& f.bull_epoch_density <= SCALE
    &&& f.bear_epoch_density <= SCALE
    &&& f.bull_excess_gain <= SCALE
    &&& f.bear_excess_gain <= SCALE
    &&& f.bull_cv <= SCALE
    &&& f.bear_cv <= SCALE
    &&& f.max_drawdown <= SCALE
    &&& f.max_runup <= SCALE
}

/// Every entry of a column lies between zero and `SCALE`.
pub open spec fn column_bounded(column: Seq<Option<u64>>) -> bool {
    forall|i: int| 0 <= i < column.len() ==> (#[trigger] column[i] matches Some(v) ==> v <= SCALE)
}

/// Every entry of every column lies between zero and `SCALE`.
pub open spec fn rolling_bounded(r: RollingIthFeatures) -> bool {
    &&& column_bounded(r.bull_epoch_density@)
    &&& column_bounded(r.bear_epoch_density@)
    &&& column_bounded(r.bull_excess_gain@)
    &&& column_bounded(r.bear_excess_gain@)
    &&& column_bounded(r.bull_cv@)
    &&& column_bounded(r.bear_cv@)
    &&& column_bounded(r.max_drawdown@)
    &&& column_bounded(r.max_runup@)
}

/// Every feature of every window lies in the unit interval.
pub proof fn lemma_window_features_bounded(window: Seq<u64>)
    ensures
        window_features_spec(window) matches Some(f) ==> features_bounded(f),
{
    if window.len() > 0 && window[0] != 0 {
        let w = renormalized(window);
        let bull = drawdown_threshold(w);
        let bear = runup_threshold(w);
        let bull_epochs = sweep_epochs(Direction::Bull, w, bull);
        let bear_epochs = sweep_epochs(Direction::Bear, w, bear);
        lemma_normalize_epochs(count_true(bull_epochs), count_true(bull_epochs), w.len());
        lemma_normalize_epochs(count_true(bear_epochs), count_true(bear_epochs), w.len());
        let bull_total = total_sat(sweep_gains(Direction::Bull, w, bull)) as nat;
        let bear_total = total_sat(sweep_gains(Direction::Bear, w, bear)) as nat;
        lemma_normalize_excess(bull_total, bull_total);
        lemma_normalize_excess(bear_total, bear_total);
        match intervals_cv_spec(bull_epochs) {
            Some(c) => lemma_normalize_cv(c, c),
            None => lemma_normalize_cv(0, 0),
        }
        match intervals_cv_spec(bear_epochs) {
            Some(c) => lemma_normalize_cv(c, c),
            None => lemma_normalize_cv(0, 0),
        }
    }
}

/// Every rolling feature lies in the unit interval.
pub proof fn lemma_rolling_bounded(r: RollingIthFeatures, nav: Seq<u64>, lookback: nat)
    requires
        is_rolling_of(r, nav, lookback),
    ensures
        rolling_bounded(r),
{
    assert forall|i: int| 0 <= i < nav.len() implies ((#[trigger] rolling_entry(
        nav,
        lookback,
        i,
    )) matches Some(f) ==> features_bounded(f)) by {
        if i + 1 >= lookback {
            lemma_window_features_bounded(nav.subrange(i + 1 - lookback, i + 1));
        }
    }
}

/// The positions without a full window behind them hold no features.
pub proof fn lemma_rolling_warm_up(r: RollingIthFeatures, nav: Seq<u64>, lookback: nat, i: int)
    requires
        is_rolling_of(r, nav, lookback),
        0 <= i < nav.len(),
        i + 1 < lookback,
    ensures
        r.bull_epoch_density@[i] is None,
        r.bear_epoch_density@[i] is None,
        r.bull_excess_gain@[i] is None,
        r.bear_excess_gain@[i] is None,
        r.bull_cv@[i] is None,
        r.bear_cv@[i] is None,
        r.max_drawdown@[i] is None,
        r.max_runup@[i] is None,
{
}

/// Two sets of rolling features of the same series and window length agree
/// in every entry.
pub proof fn lemma_rolling_unique(
    r1: RollingIthFeatures,
    r2: RollingIthFeatures,
    nav: Seq<u64>,
    lookback: nat,
)
    requires
        is_rolling_of(r1, nav, lookback),
        is_rolling_of(r2, nav, lookback),
    ensures
        r1.bull_epoch_density@ == r2.bull_epoch_density@,
        r1.bear_epoch_density@ == r2.bear_epoch_density@,
        r1.bull_excess_gain@ == r2.bull_excess_gain@,
        r1.bear_excess_gain@ == r2.bear_excess_gain@,
        r1.bull_cv@ == r2.bull_cv@,
        r1.bear_cv@ == r2.bear_cv@,
        r1.max_drawdown@ == r2.max_drawdown@,
        r1.max_runup@ == r2.max_runup@,
{
}

/// Renormalising keeps the order of the values.
pub proof fn lemma_renormalized_keeps_order(window: Seq<u64>, i: int, j: int)
    requires
        window.len() > 0,
        window[0] > 0,
        0 <= i < window.len(),
        0 <= j < window.len(),
        window[i] <= window[j],
    ensures
        renormalized(window)[i] <= renormalized(window)[j],
{
    let first = window[0] as int;
    assert(window[i] * SCALE <= window[j] * SCALE) by (nonlinear_arith)
        requires
            window[i] <= window[j],
    ;
    crate::fixed::lemma_div_monotone(window[i] * SCALE, window[j] * SCALE, first);
    crate::fixed::lemma_mul_div_nonneg(window[i] as int, SCALE as int, first);
    crate::fixed::lemma_mul_div_nonneg(window[j] as int, SCALE as int, first);
}

/// A window that never falls has a maximum drawdown of zero, a window that
/// never rises a maximum runup of zero.
pub proof fn lemma_monotone_window(window: Seq<u64>)
    requires
        window.len() > 0,
        window[0] > 0,
    ensures
        (forall|i: int, j: int| 0 <= i <= j < window.len() ==> window[i] <= window[j])
            ==> window_features_spec(window)->0.max_drawdown == 0,
        (forall|i: int, j: int| 0 <= i <= j < window.len() ==> window[i] >= window[j])
            ==> window_features_spec(window)->0.max_runup == 0,
{
    let w = renormalized(window);
    if (forall|i: int, j: int| 0 <= i <= j < window.len() ==> window[i] <= window[j]) {
        assert forall|i: int, j: int| 0 <= i <= j < w.len() implies w[i] <= w[j] by {
            lemma_renormalized_keeps_order(window, i, j);
        }
        lemma_rising_series_has_no_drawdown(w, w.len());
    }
    if (forall|i: int, j: int| 0 <= i <= j < window.len() ==> window[i] >= window[j]) {
        assert forall|i: int, j: int| 0 <= i <= j < w.len() implies w[i] >= w[j] by {
            lemma_renormalized_keeps_order(window, j, i);
        }
        lemma_falling_series_has_no_runup(w, w.len());
    }
}

/// Computes the bull threshold of `window`: its maximum drawdown, kept
/// strictly positive.
pub fn compute_max_drawdown(window: &[u64]) -> (r: u64)
    ensures
        r == drawdown_threshold(window@),
        EPSILON <= r <= SCALE,
{
    let worst: u64 = max_drawdown(window);
    if worst < EPSILON {
        EPSILON
    } else {
        worst
    }
}

/// Computes the bear threshold of `window`: its maximum runup, kept strictly
/// positive.
pub fn compute_max_runup(window: &[u64]) -> (r: u64)
    ensures
        r == runup_threshold(window@),
        EPSILON <= r <= SCALE,
{
    let best: u64 = max_runup(window);
    if best < EPSILON {
        EPSILON
    } else {
        best
    }
}

/// Adds up `values`, saturating at the largest `u64`.
pub fn sum_saturating(values: &[u64]) -> (r: u64)
    ensures
        r == total_sat(values@),
{
    let n: usize = values.len();
    let mut acc: u64 = 0;
    let mut k: usize = 0;
    while k < n
        invariant
            k <= n,
            n == values@.len(),
            acc == total_sat(values@.take(k as int)),
        decreases n - k,
    {
        proof {
            assert(values@.take(k + 1).drop_last() =~= values@.take(k as int));
        }
        let v: u64 = values[k];
        acc = if acc > u64::MAX - v { u64::MAX } else { acc + v };
        k = k + 1;
    }
    proof {
        assert(values@.take(n as int) =~= values@);
    }
    acc
}

/// Computes the features of one window: renormalises it, derives both
/// thresholds from it, runs both sweeps and bounds what they report.
pub fn window_features(window: &[u64]) -> (r: Option<WindowFeatures>)
    requires
        window.len() <= MAX_SERIES_LEN,
    ensures
        r == window_features_spec(window@),
        r matches Some(f) ==> features_bounded(f),
{
    let n: usize = window.len();
    if n == 0 {
        return None;
    }
    let first: u64 = window[0];
    if first == 0 {
        return None;
    }
    let mut scaled: Vec<u64> = Vec::new();
    let mut k: usize = 0;
    while k < n
        invariant
            k <= n,
            n == window@.len(),
            first == window@[0],
            first > 0,
            scaled@.len() == k,
            forall|j: int| 0 <= j < k ==> #[trigger] scaled@[j] == renormalized(window@)[j],
        decreases n - k,
    {
        proof {
            crate::fixed::lemma_mul_div_nonneg(
                window@[k as int] as int,
                SCALE as int,
                first as int,
            );
        }
        scaled.push(ratio(window[k], first));
        k = k + 1;
    }
    assert(scaled@ =~= renormalized(window@));
    let bull_tmaeg: u64 = compute_max_drawdown(scaled.as_slice());
    let bear_tmaeg: u64 = compute_max_runup(scaled.as_slice());
    let bull = bull_ith(scaled.as_slice(), bull_tmaeg);
    let bear = bear_ith(scaled.as_slice(), bear_tmaeg);
    let bull_sum: u64 = sum_saturating(bull.excess_gains.as_slice());
    let bear_sum: u64 = sum_saturating(bear.excess_gains.as_slice());
    proof {
        lemma_max_drawdown(scaled@, scaled@.len());
        lemma_max_runup(scaled@, scaled@.len());
    }
    Some(
        WindowFeatures {
            bull_epoch_density: normalize_epochs(bull.num_of_epochs, n),
            bear_epoch_density: normalize_epochs(bear.num_of_epochs, n),
            bull_excess_gain: normalize_excess(bull_sum),
            bear_excess_gain: normalize_excess(bear_sum),
            bull_cv: normalize_cv(bull.intervals_cv),
            bear_cv: normalize_cv(bear.intervals_cv),
            max_drawdown: normalize_drawdown(bull.max_drawdown as i64),
            max_runup: normalize_runup(bear.max_runup as i64),
        },
    )
}

/// A column of `len` entries without a value.
pub open spec fn empty_column(len: nat) -> Seq<Option<u64>> {
    Seq::new(len, |i: int| None::<u64>)
}

fn blank_column(len: usize) -> (column: Vec<Option<u64>>)
    ensures
        column@ == empty_column(len as nat),
{
    let mut column: Vec<Option<u64>> = Vec::new();
    let mut i: usize = 0;
    while i < len
        invariant
            i <= len,
            column@.len() == i,
            forall|j: int| 0 <= j < i ==> #[trigger] column@[j] is None,
        decreases len - i,
    {
        column.push(None);
        i = i + 1;
    }
    assert(column@ =~= empty_column(len as nat));
    column
}

impl RollingIthFeatures {
    /// Creates the features of `len` bars, none of which holds a value yet.
    pub fn new(len: usize) -> (r: Self)
        ensures
            r.bull_epoch_density@ == empty_column(len as nat),
            r.bear_epoch_density@ == empty_column(len as nat),
            r.bull_excess_gain@ == empty_column(len as nat),
            r.bear_excess_gain@ == empty_column(len as nat),
            r.bull_cv@ == empty_column(len as nat),
            r.bear_cv@ == empty_column(len as nat),
            r.max_drawdown@ == empty_column(len as nat),
            r.max_runup@ == empty_column(len as nat),
    {
        RollingIthFeatures {
            bull_epoch_density: blank_column(len),
            bear_epoch_density: blank_column(len),
            bull_excess_gain: blank_column(len),
            bear_excess_gain: blank_column(len),
            bull_cv: blank_column(len),
            bear_cv: blank_column(len),
            max_drawdown: blank_column(len),
            max_runup: blank_column(len),
        }
    }
}

/// The column holds what `pick` selects for every bar before `i`, and
/// nothing from bar `i` on.
pub open spec fn filled_to(
    column: Seq<Option<u64>>,
    nav: Seq<u64>,
    lookback: nat,
    pick: spec_fn(WindowFeatures) -> u64,
    i: int,
) -> bool {
    &&& column.len() == nav.len()
    &&& forall|j: int|
        0 <= j < i && j < nav.len() ==> #[trigger] column[j] == column_of(nav, lookback, pick)[j]
    &&& forall|j: int| i <= j < nav.len() ==> #[trigger] column[j] is None
}

/// Every column is filled for the bars before `i`, and empty from there on.
pub open spec fn all_filled_to(
    r: RollingIthFeatures,
    nav: Seq<u64>,
    lookback: nat,
    i: int,
) -> bool {
    &&& filled_to(r.bull_epoch_density@, nav, lookback, |f: WindowFeatures| f.bull_epoch_density, i)
    &&& filled_to(r.bear_epoch_density@, nav, lookback, |f: WindowFeatures| f.bear_epoch_density, i)
    &&& filled_to(r.bull_excess_gain@, nav, lookback, |f: WindowFeatures| f.bull_excess_gain, i)
    &&& filled_to(r.bear_excess_gain@, nav, lookback, |f: WindowFeatures| f.bear_excess_gain, i)
    &&& filled_to(r.bull_cv@, nav, lookback, |f: WindowFeatures| f.bull_cv, i)
    &&& filled_to(r.bear_cv@, nav, lookback, |f: WindowFeatures| f.bear_cv, i)
    &&& filled_to(r.max_drawdown@, nav, lookback, |f: WindowFeatures| f.max_drawdown, i)
    &&& filled_to(r.max_runup@, nav, lookback, |f: WindowFeatures| f.max_runup, i)
}

/// What `pick` selects from the features of a bar, if the bar has any.
pub open spec fn picked(
    found: Option<WindowFeatures>,
    pick: spec_fn(WindowFeatures) -> u64,
) -> Option<u64> {
    match found {
        Some(f) => Some(pick(f)),
        None => None,
    }
}

proof fn lemma_fill_one(
    before: Seq<Option<u64>>,
    after: Seq<Option<u64>>,
    nav: Seq<u64>,
    lookback: nat,
    pick: spec_fn(WindowFeatures) -> u64,
    i: int,
)
    requires
        0 <= i < nav.len(),
        filled_to(before, nav, lookback, pick, i),
        after == before.update(i, picked(rolling_entry(nav, lookback, i), pick)),
    ensures
        filled_to(after, nav, lookback, pick, i + 1),
{
    assert forall|j: int| 0 <= j < i + 1 && j < nav.len() implies #[trigger] after[j] == column_of(
        nav,
        lookback,
        pick,
    )[j] by {
        if j < i {
            assert(before[j] == column_of(nav, lookback, pick)[j]);
        }
    }
    assert forall|j: int| i + 1 <= j < nav.len() implies #[trigger] after[j] is None by {
        assert(before[j] is None);
    }
}

/// `after` is `before` with what was found for bar `i` stored in every
/// column.
pub open spec fn stored(
    after: RollingIthFeatures,
    before: RollingIthFeatures,
    i: int,
    found: Option<WindowFeatures>,
) -> bool {
    &&& after.bull_epoch_density@ == before.bull_epoch_density@.update(
        i,
        picked(found, |f: WindowFeatures| f.bull_epoch_density),
    )
    &&& after.bear_epoch_density@ == before.bear_epoch_density@.update(
        i,
        picked(found, |f: WindowFeatures| f.bear_epoch_density),
    )
    &&& after.bull_excess_gain@ == before.bull_excess_gain@.update(
        i,
        picked(found, |f: WindowFeatures| f.bull_excess_gain),
    )
    &&& after.bear_excess_gain@ == before.bear_excess_gain@.update(
        i,
        picked(found, |f: WindowFeatures| f.bear_excess_gain),
    )
    &&& after.bull_cv@ == before.bull_cv@.update(
        i,
        picked(found, |f: WindowFeatures| f.bull_cv),
    )
    &&& after.bear_cv@ == before.bear_cv@.update(
        i,
        picked(found, |f: WindowFeatures| f.bear_cv),
    )
    &&& after.max_drawdown@ == before.max_drawdown@.update(
        i,
        picked(found, |f: WindowFeatures| f.max_drawdown),
    )
    &&& after.max_runup@ == before.max_runup@.update(
        i,
        picked(found, |f: WindowFeatures| f.max_runup),
    )
}

proof fn lemma_fill_start(r: RollingIthFeatures, nav: Seq<u64>, lookback: nat)
    requires
        0 < lookback <= nav.len(),
        r.bull_epoch_density@ == empty_column(nav.len()),
        r.bear_epoch_density@ == empty_column(nav.len()),
        r.bull_excess_gain@ == empty_column(nav.len()),
        r.bear_excess_gain@ == empty_column(nav.len()),
        r.bull_cv@ == empty_column(nav.len()),
        r.bear_cv@ == empty_column(nav.len()),
        r.max_drawdown@ == empty_column(nav.len()),
        r.max_runup@ == empty_column(nav.len()),
    ensures
        all_filled_to(r, nav, lookback, lookback - 1),
{
}

proof fn lemma_fill_all(
    before: RollingIthFeatures,
    after: RollingIthFeatures,
    nav: Seq<u64>,
    lookback: nat,
    i: int,
)
    requires
        0 <= i < nav.len(),
        all_filled_to(before, nav, lookback, i),
        stored(after, before, i, rolling_entry(nav, lookback, i)),
    ensures
        all_filled_to(after, nav, lookback, i + 1),
{
    lemma_fill_one(
        before.bull_epoch_density@,
        after.bull_epoch_density@,
        nav,
        lookback,
        |f: WindowFeatures| f.bull_epoch_density,
        i,
    );
    lemma_fill_one(
        before.bear_epoch_density@,
        after.bear_epoch_density@,
        nav,
        lookback,
        |f: WindowFeatures| f.bear_epoch_density,
        i,
    );
    lemma_fill_one(
        before.bull_excess_gain@,
        after.bull_excess_gain@,
        nav,
        lookback,
        |f: WindowFeatures| f.bull_excess_gain,
        i,
    );
    lemma_fill_one(
        before.bear_excess_gain@,
        after.bear_excess_gain@,
        nav,
        lookback,
        |f: WindowFeatures| f.bear_excess_gain,
        i,
    );
    lemma_fill_one(
        before.bull_cv@,
        after.bull_cv@,
        nav,
        lookback,
        |f: WindowFeatures| f.bull_cv,
        i,
    );
    lemma_fill_one(
        before.bear_cv@,
        after.bear_cv@,
        nav,
        lookback,
        |f: WindowFeatures| f.bear_cv,
        i,
    );
    lemma_fill_one(
        before.max_drawdown@,
        after.max_drawdown@,
        nav,
        lookback,
        |f: WindowFeatures| f.max_drawdown,
        i,
    );
    lemma_fill_one(
        before.max_runup@,
        after.max_runup@,
        nav,
        lookback,
        |f: WindowFeatures| f.max_runup,
        i,
    );
}

proof fn lemma_fill_end(r: RollingIthFeatures, nav: Seq<u64>, lookback: nat)
    requires
        all_filled_to(r, nav, lookback, nav.len() as int),
    ensures
        is_rolling_of(r, nav, lookback),
{
    assert(r.bull_epoch_density@ =~= column_of(
        nav,
        lookback,
        |f: WindowFeatures| f.bull_epoch_density,
    ));
    assert(r.bear_epoch_density@ =~= column_of(
        nav,
        lookback,
        |f: WindowFeatures| f.bear_epoch_density,
    ));
    assert(r.bull_excess_gain@ =~= column_of(
        nav,
        lookback,
        |f: WindowFeatures| f.bull_excess_gain,
    ));
    assert(r.bear_excess_gain@ =~= column_of(
        nav,
        lookback,
        |f: WindowFeatures| f.bear_excess_gain,
    ));
    assert(r.bull_cv@ =~= column_of(nav, lookback, |f: WindowFeatures| f.bull_cv));
    assert(r.bear_cv@ =~= column_of(nav, lookback, |f: WindowFeatures| f.bear_cv));
    assert(r.max_drawdown@ =~= column_of(nav, lookback, |f: WindowFeatures| f.max_drawdown));
    assert(r.max_runup@ =~= column_of(nav, lookback, |f: WindowFeatures| f.max_runup));
}

impl RollingIthFeatures {
    /// Every column has `len` entries.
    pub open spec fn spans(self, len: nat) -> bool {
        &&& self.bull_epoch_density@.len() == len
        &&& self.bear_epoch_density@.len() == len
        &&& self.bull_excess_gain@.len() == len
        &&& self.bear_excess_gain@.len() == len
        &&& self.bull_cv@.len() == len
        &&& self.bear_cv@.len() == len
        &&& self.max_drawdown@.len() == len
        &&& self.max_runup@.len() == len
    }

    fn store(&mut self, i: usize, found: Option<WindowFeatures>)
        requires
            exists|len: nat| i < len && old(self).spans(len),
        ensures
            stored(*final(self), *old(self), i as int, found),
    {
        match found {
            Some(f) => {
                self.bull_epoch_density[i] = Some(f.bull_epoch_density);
                self.bear_epoch_density[i] = Some(f.bear_epoch_density);
                self.bull_excess_gain[i] = Some(f.bull_excess_gain);
                self.bear_excess_gain[i] = Some(f.bear_excess_gain);
                self.bull_cv[i] = Some(f.bull_cv);
                self.bear_cv[i] = Some(f.bear_cv);
                self.max_drawdown[i] = Some(f.max_drawdown);
                self.max_runup[i] = Some(f.max_runup);
            },
            None => {
                self.bull_epoch_density[i] = None;
                self.bear_epoch_density[i] = None;
                self.bull_excess_gain[i] = None;
                self.bear_excess_gain[i] = None;
                self.bull_cv[i] = None;
                self.bear_cv[i] = None;
                self.max_drawdown[i] = None;
                self.max_runup[i] = None;
            },
        }
    }
}

/// Computes the rolling features of `nav` for windows of `lookback` bars.
///
/// The computation is refused when `lookback` is zero or exceeds the length
/// of the series. Otherwise every column has one entry per bar; the first
/// `lookback - 1` entries are `None`, and every later entry holds the
/// features of the window that ends at its bar.
pub fn compute_rolling_ith(nav: &[u64], lookback: usize) -> (r: Result<
    RollingIthFeatures,
    InvalidArgument,
>)
    requires
        lookback <= MAX_SERIES_LEN,
    ensures
        match r {
            Ok(features) => {
                &&& 0 < lookback <= nav@.len()
                &&& is_rolling_of(features, nav@, lookback as nat)
                &&& rolling_bounded(features)
            },
            Err(InvalidArgument::LookbackZero) => lookback == 0,
            Err(InvalidArgument::LookbackExceedsLength) => lookback > nav@.len(),
        },
{
    if lookback == 0 {
        return Err(InvalidArgument::LookbackZero);
    }
    let n: usize = nav.len();
    if lookback > n {
        return Err(InvalidArgument::LookbackExceedsLength);
    }
    let mut features = RollingIthFeatures::new(n);
    let ghost back = lookback as nat;
    proof {
        lemma_fill_start(features, nav@, back);
    }
    let mut i: usize = lookback - 1;
    while i < n
        invariant
            lookback - 1 <= i <= n,
            n == nav@.len(),
            0 < lookback <= n,
            lookback <= MAX_SERIES_LEN,
            back == lookback,
            all_filled_to(features, nav@, back, i as int),
        decreases n - i,
    {
        let window_start: usize = i + 1 - lookback;
        let window = &nav[window_start..i + 1];
        let found = window_features(window);
        let ghost before = features;
        assert(features.spans(n as nat));
        features.store(i, found);
        proof {
            lemma_fill_all(before, features, nav@, back, i as int);
        }
        i = i + 1;
    }
    proof {
        lemma_fill_end(features, nav@, back);
        lemma_rolling_bounded(features, nav@, back);
    }
    Ok(features)
}

} // verus!
