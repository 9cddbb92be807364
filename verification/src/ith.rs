//! Epoch detection: a single left-to-right sweep over a value series that
//! records, bar by bar, how far the series has advanced beyond its endorsed
//! crest and how far it has fallen back from it, and flags the bars at which
//! the advance decisively outpaces the setback.
//!
//! The sweep exists in two polarities. The bull sweep looks for upside
//! breakouts. The bear sweep is the same state machine run on the reciprocal
//! of the series, so that troughs take the role of crests; no reciprocal is
//! ever materialised, only the comparisons and ratios are mirrored.

use vstd::prelude::*;
use crate::fixed::{ratio, ratio_spec, SCALE};
use crate::intervals::{calculate_ith_intervals_cv, intervals_cv_spec, MAX_SERIES_LEN};
use crate::metrics::{max_drawdown, max_drawdown_spec, max_runup, max_runup_spec};
use crate::types::{BearIthResult, BullIthResult, ExcessGainLossResult};

verus! {

/// Polarity of a sweep.
#[derive(Clone, Copy, Debug, PartialEq, Eq, Structural)]
pub enum Direction {
    /// Gains are rises of the series.
    Bull,
    /// Gains are falls of the series.
    Bear,
}

/// The running state of a sweep. Crest and nadir are meant in the sweep's own
/// polarity: for a bear sweep the crest is the lowest value.
#[derive(Clone, Copy, Debug)]
pub struct SweepState {
    /// Excess gain accumulated since the last reset.
    pub excess_gain: u64,
    /// Excess loss accumulated since the last reset.
    pub excess_loss: u64,
    /// Crest that the current cycle is measured against.
    pub endorsing_crest: u64,
    /// Nadir of the current cycle.
    pub endorsing_nadir: u64,
    /// Most favourable value seen so far.
    pub candidate_crest: u64,
    /// Least favourable value seen since the last reset.
    pub candidate_nadir: u64,
}

/// What one bar of a sweep records, and the state it leaves behind.
pub struct SweepStep {
    /// Excess gain recorded for the bar.
    pub gain: u64,
    /// Excess loss recorded for the bar.
    pub loss: u64,
    /// Whether the bar is an epoch.
    pub epoch: bool,
    /// Whether the bar re-anchors the state.
    pub reset: bool,
    /// State after the bar.
    pub next: SweepState,
}

/// `a` lies strictly beyond `b` in the direction of gain.
pub open spec fn beyond(dir: Direction, a: u64, b: u64) -> bool {
    match dir {
        Direction::Bull => a > b,
        Direction::Bear => a < b,
    }
}

/// Of two values, the one that lies further in the direction of loss.
pub open spec fn hindmost(dir: Direction, a: u64, b: u64) -> u64 {
    if beyond(dir, a, b) { b } else { a }
}

/// Return from `anchor` to a `value` beyond it, in the sweep's polarity.
/// A bull sweep anchored at zero has no defined return and records none; a
/// bear sweep that reaches zero records the largest representable gain.
pub open spec fn gain_ratio(dir: Direction, anchor: u64, value: u64) -> u64
    recommends
        beyond(dir, value, anchor),
{
    match dir {
        Direction::Bull => if anchor == 0 {
            0
        } else {
            ratio_spec(value - anchor, anchor as int) as u64
        },
        Direction::Bear => if value == 0 {
            u64::MAX
        } else {
            ratio_spec(anchor - value, value as int) as u64
        },
    }
}

/// Setback from `anchor` to a `value` that `anchor` lies beyond, in the
/// sweep's polarity: a fraction between zero and one.
pub open spec fn loss_ratio(dir: Direction, anchor: u64, value: u64) -> u64
    recommends
        beyond(dir, anchor, value),
{
    match dir {
        Direction::Bull => ratio_spec(anchor - value, anchor as int) as u64,
        Direction::Bear => ratio_spec(value - anchor, value as int) as u64,
    }
}

/// The state before the first bar is compared: everything anchored at
/// `first`.
pub open spec fn initial_state(first: u64) -> SweepState {
    SweepState {
        excess_gain: 0,
        excess_loss: 0,
        endorsing_crest: first,
        endorsing_nadir: first,
        candidate_crest: first,
        candidate_nadir: first,
    }
}

/// One bar of the sweep: from the state `s`, the previous value `prev` and
/// the new value `value` to what the bar records and the state after it.
pub open spec fn sweep_step(
    dir: Direction,
    s: SweepState,
    prev: u64,
    value: u64,
    hurdle: u64,
) -> SweepStep {
    let rises = beyond(dir, value, s.candidate_crest);
    let falls = beyond(dir, s.candidate_nadir, value);
    let gain = if rises { gain_ratio(dir, s.endorsing_crest, value) } else { s.excess_gain };
    let loss = if falls { loss_ratio(dir, s.endorsing_crest, value) } else { s.excess_loss };
    let crest = if rises { value } else { s.candidate_crest };
    let nadir = if falls { value } else { s.candidate_nadir };
    let reset = gain > loss && gain > hurdle && !beyond(dir, s.endorsing_crest, crest);
    SweepStep {
        gain,
        loss,
        epoch: gain > loss && gain > hurdle,
        reset,
        next: if reset {
            SweepState {
                excess_gain: 0,
                excess_loss: 0,
                endorsing_crest: crest,
                endorsing_nadir: prev,
                candidate_crest: crest,
                candidate_nadir: prev,
            }
        } else {
            SweepState {
                excess_gain: gain,
                excess_loss: loss,
                endorsing_crest: s.endorsing_crest,
                endorsing_nadir: hindmost(dir, s.endorsing_nadir, prev),
                candidate_crest: crest,
                candidate_nadir: nadir,
            }
        },
    }
}

/// The state after bar `i` of `nav`.
pub open spec fn sweep_state(dir: Direction, nav: Seq<u64>, hurdle: u64, i: nat) -> SweepState
    recommends
        i < nav.len(),
    decreases i,
{
    if i == 0 {
        initial_state(nav[0])
    } else {
        sweep_step(
            dir,
            sweep_state(dir, nav, hurdle, (i - 1) as nat),
            nav[i - 1],
            nav[i as int],
            hurdle,
        ).next
    }
}

/// What bar `i >= 1` of `nav` records.
pub open spec fn sweep_at(dir: Direction, nav: Seq<u64>, hurdle: u64, i: nat) -> SweepStep
    recommends
        1 <= i < nav.len(),
{
    sweep_step(
        dir,
        sweep_state(dir, nav, hurdle, (i - 1) as nat),
        nav[i - 1],
        nav[i as int],
        hurdle,
    )
}

/// Excess gain recorded at bar `i`; the first bar records none.
pub open spec fn recorded_gain(dir: Direction, nav: Seq<u64>, hurdle: u64, i: int) -> u64 {
    if i <= 0 { 0 } else { sweep_at(dir, nav, hurdle, i as nat).gain }
}

/// Excess loss recorded at bar `i`; the first bar records none.
pub open spec fn recorded_loss(dir: Direction, nav: Seq<u64>, hurdle: u64, i: int) -> u64 {
    if i <= 0 { 0 } else { sweep_at(dir, nav, hurdle, i as nat).loss }
}

/// Whether bar `i` is an epoch; the first bar never is.
pub open spec fn recorded_epoch(dir: Direction, nav: Seq<u64>, hurdle: u64, i: int) -> bool {
    if i <= 0 { false } else { sweep_at(dir, nav, hurdle, i as nat).epoch }
}

/// What holds of every state that a sweep reaches, with `last` the value of
/// the bar just processed: the candidate crest is the most favourable value
/// so far, the endorsed crest lies between the candidate nadir and the
/// candidate crest, and the running loss is a fraction.
pub open spec fn state_consistent(dir: Direction, s: SweepState, last: u64) -> bool {
    &&& !beyond(dir, last, s.candidate_crest)
    &&& !beyond(dir, s.endorsing_crest, s.candidate_crest)
    &&& !beyond(dir, s.candidate_nadir, s.endorsing_crest)
    &&& s.excess_loss <= SCALE
}

/// Number of `true` entries of `flags`.
pub open spec fn count_true(flags: Seq<bool>) -> nat
    decreases flags.len(),
{
    if flags.len() == 0 {
        0
    } else {
        count_true(flags.drop_last()) + if flags.last() { 1nat } else { 0nat }
    }
}

/// A sequence holds no more `true` entries than entries.
pub proof fn lemma_count_true_bounded(flags: Seq<bool>)
    ensures
        count_true(flags) <= flags.len(),
    decreases flags.len(),
{
    if flags.len() > 0 {
        lemma_count_true_bounded(flags.drop_last());
    }
}

fn is_beyond(dir: Direction, a: u64, b: u64) -> (r: bool)
    ensures
        r == beyond(dir, a, b),
{
    match dir {
        Direction::Bull => a > b,
        Direction::Bear => a < b,
    }
}

fn gain_of(dir: Direction, anchor: u64, value: u64) -> (r: u64)
    requires
        beyond(dir, value, anchor),
    ensures
        r == gain_ratio(dir, anchor, value),
{
    match dir {
        Direction::Bull => {
            if anchor == 0 {
                0
            } else {
                proof {
                    crate::fixed::lemma_mul_div_nonneg(
                        value - anchor,
                        SCALE as int,
                        anchor as int,
                    );
                }
                ratio(value - anchor, anchor)
            }
        },
        Direction::Bear => {
            if value == 0 {
                u64::MAX
            } else {
                proof {
                    crate::fixed::lemma_mul_div_nonneg(anchor - value, SCALE as int, value as int);
                }
                ratio(anchor - value, value)
            }
        },
    }
}

fn loss_of(dir: Direction, anchor: u64, value: u64) -> (r: u64)
    requires
        beyond(dir, anchor, value),
    ensures
        r == loss_ratio(dir, anchor, value),
        r <= SCALE,
{
    match dir {
        Direction::Bull => {
            proof {
                crate::fixed::lemma_mul_div_le(anchor - value, SCALE as int, anchor as int);
            }
            ratio(anchor - value, anchor)
        },
        Direction::Bear => {
            proof {
                crate::fixed::lemma_mul_div_le(value - anchor, SCALE as int, value as int);
            }
            ratio(value - anchor, value)
        },
    }
}

/// Processes one bar: compares `value` with the candidate crest and nadir
/// of `s`, records the bar's excess gain and loss, and re-anchors the state
/// at `prev` when the gain outpaces both the loss and the hurdle.
pub fn advance(dir: Direction, s: SweepState, prev: u64, value: u64, hurdle: u64) -> (r: SweepStep)
    requires
        state_consistent(dir, s, prev),
    ensures
        r == sweep_step(dir, s, prev, value, hurdle),
        state_consistent(dir, r.next, value),
        r.loss <= SCALE,
        r.epoch == r.reset,
{
    let rises: bool = is_beyond(dir, value, s.candidate_crest);
    let falls: bool = is_beyond(dir, s.candidate_nadir, value);
    let gain: u64 = if rises { gain_of(dir, s.endorsing_crest, value) } else { s.excess_gain };
    let loss: u64 = if falls { loss_of(dir, s.endorsing_crest, value) } else { s.excess_loss };
    let crest: u64 = if rises { value } else { s.candidate_crest };
    let nadir: u64 = if falls { value } else { s.candidate_nadir };
    let epoch: bool = gain > loss && gain > hurdle;
    let reset: bool = epoch && !is_beyond(dir, s.endorsing_crest, crest);
    let next = if reset {
        SweepState {
            excess_gain: 0,
            excess_loss: 0,
            endorsing_crest: crest,
            endorsing_nadir: prev,
            candidate_crest: crest,
            candidate_nadir: prev,
        }
    } else {
        SweepState {
            excess_gain: gain,
            excess_loss: loss,
            endorsing_crest: s.endorsing_crest,
            endorsing_nadir: if is_beyond(dir, s.endorsing_nadir, prev) {
                prev
            } else {
                s.endorsing_nadir
            },
            candidate_crest: crest,
            candidate_nadir: nadir,
        }
    };
    SweepStep { gain, loss, epoch, reset, next }
}

/// The excess gains that the sweep records, one per bar.
pub open spec fn sweep_gains(dir: Direction, nav: Seq<u64>, hurdle: u64) -> Seq<u64> {
    Seq::new(nav.len(), |i: int| recorded_gain(dir, nav, hurdle, i))
}

/// The excess losses that the sweep records, one per bar.
pub open spec fn sweep_losses(dir: Direction, nav: Seq<u64>, hurdle: u64) -> Seq<u64> {
    Seq::new(nav.len(), |i: int| recorded_loss(dir, nav, hurdle, i))
}

/// The epoch flags that the sweep records, one per bar.
pub open spec fn sweep_epochs(dir: Direction, nav: Seq<u64>, hurdle: u64) -> Seq<bool> {
    Seq::new(nav.len(), |i: int| recorded_epoch(dir, nav, hurdle, i))
}

/// `r` is the outcome of the sweep of polarity `dir` over `nav` with the
/// given hurdle: every sequence has one entry per bar, each entry is what the
/// sweep records at that bar, and the two scalars summarise the flags.
pub open spec fn is_sweep_of(
    r: ExcessGainLossResult,
    dir: Direction,
    nav: Seq<u64>,
    hurdle: u64,
) -> bool {
    &&& r.excess_gains@ == sweep_gains(dir, nav, hurdle)
    &&& r.excess_losses@ == sweep_losses(dir, nav, hurdle)
    &&& r.ith_epochs@ == sweep_epochs(dir, nav, hurdle)
    &&& r.num_of_ith_epochs == count_true(sweep_epochs(dir, nav, hurdle))
    &&& r.ith_intervals_cv == intervals_cv_spec(sweep_epochs(dir, nav, hurdle))
}

/// Every state that a sweep reaches is consistent, every recorded loss is a
/// fraction between zero and one, and a bar is an epoch exactly when it
/// re-anchors the state.
pub proof fn lemma_sweep_consistent(dir: Direction, nav: Seq<u64>, hurdle: u64, i: nat)
    requires
        i < nav.len(),
    ensures
        state_consistent(dir, sweep_state(dir, nav, hurdle, i), nav[i as int]),
        recorded_loss(dir, nav, hurdle, i as int) <= SCALE,
        i >= 1 ==> sweep_at(dir, nav, hurdle, i).epoch == sweep_at(dir, nav, hurdle, i).reset,
    decreases i,
{
    if i >= 1 {
        lemma_sweep_consistent(dir, nav, hurdle, (i - 1) as nat);
        let s = sweep_state(dir, nav, hurdle, (i - 1) as nat);
        lemma_step_consistent(dir, s, nav[i - 1], nav[i as int], hurdle);
    }
}

/// One bar keeps a consistent state consistent and records a loss that is a
/// fraction.
pub proof fn lemma_step_consistent(
    dir: Direction,
    s: SweepState,
    prev: u64,
    value: u64,
    hurdle: u64,
)
    requires
        state_consistent(dir, s, prev),
    ensures
        state_consistent(dir, sweep_step(dir, s, prev, value, hurdle).next, value),
        sweep_step(dir, s, prev, value, hurdle).loss <= SCALE,
        sweep_step(dir, s, prev, value, hurdle).epoch == sweep_step(
            dir,
            s,
            prev,
            value,
            hurdle,
        ).reset,
{
    if beyond(dir, s.candidate_nadir, value) {
        match dir {
            Direction::Bull => {
                crate::fixed::lemma_mul_div_le(
                    s.endorsing_crest - value,
                    SCALE as int,
                    s.endorsing_crest as int,
                );
            },
            Direction::Bear => {
                crate::fixed::lemma_mul_div_le(
                    value - s.endorsing_crest,
                    SCALE as int,
                    value as int,
                );
            },
        }
    }
}

/// What a sweep records: as many entries as bars, a neutral first bar,
/// losses that are fractions, and a flag exactly where the gain exceeds
/// both the loss and the hurdle.
pub proof fn lemma_sweep_records(dir: Direction, nav: Seq<u64>, hurdle: u64, i: int)
    requires
        0 <= i < nav.len(),
    ensures
        sweep_gains(dir, nav, hurdle).len() == nav.len(),
        sweep_losses(dir, nav, hurdle).len() == nav.len(),
        sweep_epochs(dir, nav, hurdle).len() == nav.len(),
        sweep_gains(dir, nav, hurdle)[0] == 0,
        sweep_losses(dir, nav, hurdle)[0] == 0,
        !sweep_epochs(dir, nav, hurdle)[0],
        sweep_losses(dir, nav, hurdle)[i] <= SCALE,
        sweep_epochs(dir, nav, hurdle)[i] <==> sweep_gains(dir, nav, hurdle)[i] > sweep_losses(
            dir,
            nav,
            hurdle,
        )[i] && sweep_gains(dir, nav, hurdle)[i] > hurdle,
{
    lemma_sweep_consistent(dir, nav, hurdle, i as nat);
}

/// The state `big` is the state `small` with every value multiplied by `k`.
pub open spec fn scales(big: SweepState, small: SweepState, k: u64) -> bool {
    &&& big.excess_gain == small.excess_gain
    &&& big.excess_loss == small.excess_loss
    &&& big.endorsing_crest == k * small.endorsing_crest
    &&& big.endorsing_nadir == k * small.endorsing_nadir
    &&& big.candidate_crest == k * small.candidate_crest
    &&& big.candidate_nadir == k * small.candidate_nadir
}

proof fn lemma_scaled_order(k: u64, a: u64, b: u64)
    by (nonlinear_arith)
    requires
        k > 0,
    ensures
        a < b <==> k * a < k * b,
        a == 0 <==> k * a == 0,
{
}

proof fn lemma_scaled_ratio(k: u64, num: int, den: u64)
    requires
        k > 0,
        den > 0,
        num >= 0,
    ensures
        ratio_spec(k * num, k * den) == ratio_spec(num, den as int),
{
    crate::fixed::lemma_div_cancel(num * SCALE, den as int, k as int);
    assert(k * (num * SCALE) == (k * num) * SCALE) by (nonlinear_arith);
}

/// One bar records the same gain, loss and flag when the state and both
/// values are multiplied by a common factor, and the states after it differ
/// by that factor again.
pub proof fn lemma_step_scale_free(
    dir: Direction,
    small: SweepState,
    big: SweepState,
    prev: u64,
    value: u64,
    big_prev: u64,
    big_value: u64,
    hurdle: u64,
    k: u64,
)
    requires
        k > 0,
        state_consistent(dir, small, prev),
        scales(big, small, k),
        big_prev == k * prev,
        big_value == k * value,
    ensures
        sweep_step(dir, big, big_prev, big_value, hurdle).gain == sweep_step(
            dir,
            small,
            prev,
            value,
            hurdle,
        ).gain,
        sweep_step(dir, big, big_prev, big_value, hurdle).loss == sweep_step(
            dir,
            small,
            prev,
            value,
            hurdle,
        ).loss,
        sweep_step(dir, big, big_prev, big_value, hurdle).epoch == sweep_step(
            dir,
            small,
            prev,
            value,
            hurdle,
        ).epoch,
        scales(
            sweep_step(dir, big, big_prev, big_value, hurdle).next,
            sweep_step(dir, small, prev, value, hurdle).next,
            k,
        ),
{
    lemma_scaled_order(k, value, small.candidate_crest);
    lemma_scaled_order(k, small.candidate_crest, value);
    lemma_scaled_order(k, value, small.candidate_nadir);
    lemma_scaled_order(k, small.candidate_nadir, value);
    lemma_scaled_order(k, small.endorsing_crest, small.candidate_crest);
    lemma_scaled_order(k, small.candidate_crest, small.endorsing_crest);
    lemma_scaled_order(k, small.endorsing_crest, value);
    lemma_scaled_order(k, value, small.endorsing_crest);
    lemma_scaled_order(k, small.endorsing_nadir, prev);
    lemma_scaled_order(k, prev, small.endorsing_nadir);
    lemma_scaled_order(k, small.endorsing_crest, 0);
    lemma_scaled_order(k, value, 0);
    let anchor = small.endorsing_crest;
    if beyond(dir, value, small.candidate_crest) {
        match dir {
            Direction::Bull => {
                if anchor != 0 {
                    lemma_scaled_ratio(k, value - anchor, anchor);
                    assert(k * (value - anchor) == k * value - k * anchor) by (nonlinear_arith);
                }
            },
            Direction::Bear => {
                if value != 0 {
                    lemma_scaled_ratio(k, anchor - value, value);
                    assert(k * (anchor - value) == k * anchor - k * value) by (nonlinear_arith);
                }
            },
        }
    }
    if beyond(dir, small.candidate_nadir, value) {
        match dir {
            Direction::Bull => {
                lemma_scaled_ratio(k, anchor - value, anchor);
                assert(k * (anchor - value) == k * anchor - k * value) by (nonlinear_arith);
            },
            Direction::Bear => {
                lemma_scaled_ratio(k, value - anchor, value);
                assert(k * (value - anchor) == k * value - k * anchor) by (nonlinear_arith);
            },
        }
    }
}

/// A sweep does not depend on the unit that the series is measured in: a
/// series and any multiple of it record the same gains, losses and flags.
pub proof fn lemma_sweep_scale_free(
    dir: Direction,
    nav: Seq<u64>,
    multiple: Seq<u64>,
    hurdle: u64,
    k: u64,
)
    requires
        k > 0,
        multiple.len() == nav.len(),
        forall|i: int| 0 <= i < nav.len() ==> #[trigger] multiple[i] == k * nav[i],
    ensures
        sweep_gains(dir, multiple, hurdle) == sweep_gains(dir, nav, hurdle),
        sweep_losses(dir, multiple, hurdle) == sweep_losses(dir, nav, hurdle),
        sweep_epochs(dir, multiple, hurdle) == sweep_epochs(dir, nav, hurdle),
{
    assert forall|i: int| 0 <= i < nav.len() implies recorded_gain(dir, multiple, hurdle, i)
        == recorded_gain(dir, nav, hurdle, i) && recorded_loss(dir, multiple, hurdle, i)
        == recorded_loss(dir, nav, hurdle, i) && recorded_epoch(dir, multiple, hurdle, i)
        == recorded_epoch(dir, nav, hurdle, i) by {
        lemma_state_scale_free(dir, nav, multiple, hurdle, k, i as nat);
    }
    assert(sweep_gains(dir, multiple, hurdle) =~= sweep_gains(dir, nav, hurdle));
    assert(sweep_losses(dir, multiple, hurdle) =~= sweep_losses(dir, nav, hurdle));
    assert(sweep_epochs(dir, multiple, hurdle) =~= sweep_epochs(dir, nav, hurdle));
}

proof fn lemma_state_scale_free(
    dir: Direction,
    nav: Seq<u64>,
    multiple: Seq<u64>,
    hurdle: u64,
    k: u64,
    i: nat,
)
    requires
        k > 0,
        multiple.len() == nav.len(),
        forall|j: int| 0 <= j < nav.len() ==> #[trigger] multiple[j] == k * nav[j],
        i < nav.len(),
    ensures
        scales(sweep_state(dir, multiple, hurdle, i), sweep_state(dir, nav, hurdle, i), k),
        recorded_gain(dir, multiple, hurdle, i as int) == recorded_gain(dir, nav, hurdle, i as int),
        recorded_loss(dir, multiple, hurdle, i as int) == recorded_loss(dir, nav, hurdle, i as int),
        recorded_epoch(dir, multiple, hurdle, i as int) == recorded_epoch(
            dir,
            nav,
            hurdle,
            i as int,
        ),
    decreases i,
{
    if i >= 1 {
        let j = (i - 1) as nat;
        lemma_state_scale_free(dir, nav, multiple, hurdle, k, j);
        lemma_sweep_consistent(dir, nav, hurdle, j);
        assert(multiple[i - 1] == k * nav[i - 1]);
        assert(multiple[i as int] == k * nav[i as int]);
        lemma_step_scale_free(
            dir,
            sweep_state(dir, nav, hurdle, j),
            sweep_state(dir, multiple, hurdle, j),
            nav[i - 1],
            nav[i as int],
            multiple[i - 1],
            multiple[i as int],
            hurdle,
            k,
        );
    } else {
        assert(multiple[0] == k * nav[0]);
    }
}

/// Two outcomes of the same sweep agree in every entry and in both scalars.
pub proof fn lemma_sweep_unique(
    r1: ExcessGainLossResult,
    r2: ExcessGainLossResult,
    dir: Direction,
    nav: Seq<u64>,
    hurdle: u64,
)
    requires
        is_sweep_of(r1, dir, nav, hurdle),
        is_sweep_of(r2, dir, nav, hurdle),
    ensures
        r1.excess_gains@ == r2.excess_gains@,
        r1.excess_losses@ == r2.excess_losses@,
        r1.ith_epochs@ == r2.ith_epochs@,
        r1.num_of_ith_epochs == r2.num_of_ith_epochs,
        r1.ith_intervals_cv == r2.ith_intervals_cv,
{
}

/// Sweeps `nav` once from left to right in the polarity `dir`, recording for
/// every bar its excess gain, its excess loss and whether it is an epoch,
/// then counts the epochs and measures the regularity of their spacing.
pub fn directional_sweep(nav: &[u64], hurdle: u64, dir: Direction) -> (r: ExcessGainLossResult)
    requires
        nav.len() <= MAX_SERIES_LEN,
    ensures
        is_sweep_of(r, dir, nav@, hurdle),
{
    let n: usize = nav.len();
    let mut gains: Vec<u64> = Vec::new();
    let mut losses: Vec<u64> = Vec::new();
    let mut epochs: Vec<bool> = Vec::new();
    let mut found: usize = 0;
    if n > 0 {
        gains.push(0);
        losses.push(0);
        epochs.push(false);
        let first: u64 = nav[0];
        let mut state = SweepState {
            excess_gain: 0,
            excess_loss: 0,
            endorsing_crest: first,
            endorsing_nadir: first,
            candidate_crest: first,
            candidate_nadir: first,
        };
        assert(count_true(epochs@) == 0) by {
            assert(epochs@.drop_last() =~= Seq::<bool>::empty());
            assert(count_true(Seq::<bool>::empty()) == 0);
        }
        let mut i: usize = 1;
        while i < n
            invariant
                1 <= i <= n,
                n == nav@.len(),
                state == sweep_state(dir, nav@, hurdle, (i - 1) as nat),
                state_consistent(dir, state, nav@[i - 1]),
                gains@.len() == i,
                losses@.len() == i,
                epochs@.len() == i,
                forall|j: int|
                    0 <= j < i ==> #[trigger] gains@[j] == recorded_gain(dir, nav@, hurdle, j),
                forall|j: int|
                    0 <= j < i ==> #[trigger] losses@[j] == recorded_loss(dir, nav@, hurdle, j),
                forall|j: int|
                    0 <= j < i ==> #[trigger] epochs@[j] == recorded_epoch(dir, nav@, hurdle, j),
                found == count_true(epochs@),
            decreases n - i,
        {
            let step = advance(dir, state, nav[i - 1], nav[i], hurdle);
            let ghost before = epochs@;
            gains.push(step.gain);
            losses.push(step.loss);
            epochs.push(step.epoch);
            proof {
                assert(epochs@.drop_last() =~= before);
                lemma_count_true_bounded(before);
            }
            if step.epoch {
                found = found + 1;
            }
            state = step.next;
            i = i + 1;
        }
    }
    let cv = calculate_ith_intervals_cv(epochs.as_slice());
    proof {
        assert(gains@ =~= sweep_gains(dir, nav@, hurdle));
        assert(losses@ =~= sweep_losses(dir, nav@, hurdle));
        assert(epochs@ =~= sweep_epochs(dir, nav@, hurdle));
    }
    ExcessGainLossResult {
        excess_gains: gains,
        excess_losses: losses,
        num_of_ith_epochs: found,
        ith_epochs: epochs,
        ith_intervals_cv: cv,
    }
}

/// Detects upside epochs in `nav`: the bull sweep with the given hurdle.
pub fn excess_gain_excess_loss(nav: &[u64], hurdle: u64) -> (r: ExcessGainLossResult)
    requires
        nav.len() <= MAX_SERIES_LEN,
    ensures
        is_sweep_of(r, Direction::Bull, nav@, hurdle),
{
    directional_sweep(nav, hurdle, Direction::Bull)
}

/// The threshold that `determine_tmaeg` selects: the maximum drawdown of the
/// series for the methods `"mdd"` and `"drawdown"`, the caller's value for
/// any other.
pub open spec fn tmaeg_spec(nav: Seq<u64>, method: Seq<char>, fixed_value: u64) -> int {
    if method == "mdd"@ || method == "drawdown"@ {
        max_drawdown_spec(nav)
    } else {
        fixed_value as int
    }
}

/// Selects the hurdle for a sweep over `nav`: derived from the data as the
/// maximum drawdown when `method` is `"mdd"` or `"drawdown"`, else
/// `fixed_value`.
pub fn determine_tmaeg(nav: &[u64], method: &str, fixed_value: u64) -> (r: u64)
    ensures
        r == tmaeg_spec(nav@, method@, fixed_value),
{
    let wanted: String = method.to_owned();
    if wanted == "mdd".to_owned() || wanted == "drawdown".to_owned() {
        max_drawdown(nav)
    } else {
        fixed_value
    }
}

/// Bull analysis of `nav`: the bull sweep with threshold `tmaeg`, together
/// with the maximum drawdown of the series.
pub fn bull_ith(nav: &[u64], tmaeg: u64) -> (r: BullIthResult)
    requires
        nav.len() <= MAX_SERIES_LEN,
    ensures
        is_sweep_of(r.sweep(), Direction::Bull, nav@, tmaeg),
        r.max_drawdown == max_drawdown_spec(nav@),
{
    let swept = directional_sweep(nav, tmaeg, Direction::Bull);
    let worst: u64 = max_drawdown(nav);
    BullIthResult {
        excess_gains: swept.excess_gains,
        excess_losses: swept.excess_losses,
        num_of_epochs: swept.num_of_ith_epochs,
        epochs: swept.ith_epochs,
        intervals_cv: swept.ith_intervals_cv,
        max_drawdown: worst,
    }
}

/// Bear analysis of `nav`: the bear sweep with threshold `tmaeg`, together
/// with the maximum runup of the series.
pub fn bear_ith(nav: &[u64], tmaeg: u64) -> (r: BearIthResult)
    requires
        nav.len() <= MAX_SERIES_LEN,
    ensures
        is_sweep_of(r.sweep(), Direction::Bear, nav@, tmaeg),
        r.max_runup == max_runup_spec(nav@),
{
    let swept = directional_sweep(nav, tmaeg, Direction::Bear);
    let best: u64 = max_runup(nav);
    BearIthResult {
        excess_gains: swept.excess_gains,
        excess_losses: swept.excess_losses,
        num_of_epochs: swept.num_of_ith_epochs,
        epochs: swept.ith_epochs,
        intervals_cv: swept.ith_intervals_cv,
        max_runup: best,
    }
}

} // verus!
