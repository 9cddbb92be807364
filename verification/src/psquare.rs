//! A streaming quantile estimator in constant space.
//!
//! The estimator keeps five markers. Each has a height, an estimate of a
//! quantile, and a position, the number of observations at or below it. The
//! outer markers track the smallest and the largest observation, the middle
//! one the target quantile, the other two the quantiles halfway in between.
//! The first five observations are buffered and become the markers once
//! sorted. Every later observation shifts the positions of the markers above
//! it; an inner marker that has drifted a full step from where it should be
//! is moved by one position, and its height follows a parabola through its
//! neighbours, or a straight line where the parabola would leave them.
//!
//! Heights are integers in the unit of the observations. Wanted positions
//! are kept in units of `1 / (2 * SCALE)`, in which they are whole numbers.

use vstd::prelude::*;
use crate::fixed::SCALE;
use crate::order::{lemma_sorted, sort_values, sorted};

verus! {

/// The state of an estimator.
pub struct Markers {
    /// Heights of the five markers; during warm-up, the observations so far.
    pub heights: Seq<i64>,
    /// Positions of the five markers.
    pub positions: Seq<u64>,
    /// Wanted positions of the five markers, in units of `1 / (2 * SCALE)`.
    pub desired: Seq<u128>,
    /// Number of observations seen.
    pub count: nat,
    /// Target percentile in units of `1 / SCALE`.
    pub p: u64,
}

/// By how much the wanted positions grow with each observation, in units of
/// `1 / (2 * SCALE)`: `0`, `p / 2`, `p`, `(1 + p) / 2` and `1`.
pub open spec fn increments(p: u64) -> Seq<u64> {
    seq![0u64, p, (2 * p) as u64, (SCALE + p) as u64, (2 * SCALE) as u64]
}

/// The wanted positions after five observations, in units of
/// `1 / (2 * SCALE)`: `1`, `1 + 2p`, `1 + 4p`, `3 + 2p` and `5`.
pub open spec fn initial_desired(p: u64) -> Seq<u128> {
    seq![
        (2 * SCALE) as u128,
        (2 * SCALE + 4 * p) as u128,
        (2 * SCALE + 8 * p) as u128,
        (6 * SCALE + 4 * p) as u128,
        (10 * SCALE) as u128,
    ]
}

/// The state of an estimator that has seen nothing.
pub open spec fn fresh(p: u64) -> Markers {
    Markers {
        heights: seq![0i64, 0i64, 0i64, 0i64, 0i64],
        positions: seq![1u64, 2u64, 3u64, 4u64, 5u64],
        desired: initial_desired(p),
        count: 0,
        p,
    }
}

/// What holds of the markers whenever heights are adjusted: five of each,
/// heights ascending, positions strictly ascending from at least one.
pub open spec fn steady(m: Markers) -> bool {
    &&& m.heights.len() == 5
    &&& m.positions.len() == 5
    &&& m.desired.len() == 5
    &&& m.heights[0] <= m.heights[1] <= m.heights[2] <= m.heights[3] <= m.heights[4]
    &&& 1 <= m.positions[0] < m.positions[1] < m.positions[2] < m.positions[3] < m.positions[4]
    &&& m.positions[4] <= usize::MAX / 2
}

/// What holds of every state that an estimator reaches.
pub open spec fn well_formed(m: Markers) -> bool {
    &&& m.heights.len() == 5
    &&& m.positions.len() == 5
    &&& m.desired.len() == 5
    &&& m.p <= SCALE
    &&& m.count <= usize::MAX / 2
    &&& m.count < 5 ==> m.positions == fresh(m.p).positions && m.desired == initial_desired(m.p)
    &&& m.count >= 5 ==> {
        &&& steady(m)
        &&& m.positions[0] == 1
        &&& m.positions[4] == m.count
        &&& forall|i: int|
            0 <= i < 5 ==> #[trigger] m.desired[i] == initial_desired(m.p)[i] + (m.count - 5)
                * increments(m.p)[i]
    }
}

/// The cell that `x` falls into: the number of the marker below it, with
/// values outside the markers counted to the outermost cells.
pub open spec fn cell_of(heights: Seq<i64>, x: i64) -> int {
    if x < heights[1] {
        0
    } else if x < heights[2] {
        1
    } else if x < heights[3] {
        2
    } else {
        3
    }
}

/// The state after the observation `x` has been absorbed and before any
/// height is adjusted: the outer markers stretched to `x`, the markers above
/// its cell shifted by one, every wanted position advanced.
pub open spec fn absorb_spec(m: Markers, x: i64) -> Markers {
    let k = cell_of(m.heights, x);
    let low = if x < m.heights[0] { x } else { m.heights[0] };
    let high = if x >= m.heights[4] { x } else { m.heights[4] };
    Markers {
        heights: m.heights.update(0, low).update(4, high),
        positions: Seq::new(
            5,
            |i: int| if i > k { (m.positions[i] + 1) as u64 } else { m.positions[i] },
        ),
        desired: Seq::new(5, |i: int| (m.desired[i] + increments(m.p)[i]) as u128),
        count: m.count + 1,
        p: m.p,
    }
}

/// Distance by which the parabola through marker `i` and its neighbours
/// moves the height when the marker moves one position up or down.
pub open spec fn parabolic_step(m: Markers, i: int, up: bool) -> int {
    let a = m.positions[i] - m.positions[i - 1];
    let b = m.positions[i + 1] - m.positions[i];
    let rise = m.heights[i + 1] - m.heights[i];
    let fall = m.heights[i] - m.heights[i - 1];
    if up {
        ((a + 1) * rise / b + (b - 1) * fall / a) / (a + b)
    } else {
        ((a - 1) * rise / b + (b + 1) * fall / a) / (a + b)
    }
}

/// Distance by which the straight line to the neighbour moves the height
/// when the marker moves one position up or down.
pub open spec fn linear_step(m: Markers, i: int, up: bool) -> int {
    if up {
        (m.heights[i + 1] - m.heights[i]) / (m.positions[i + 1] - m.positions[i])
    } else {
        (m.heights[i] - m.heights[i - 1]) / (m.positions[i] - m.positions[i - 1])
    }
}

/// The height of marker `i` after it has moved one position up or down: the
/// parabolic estimate where that lies strictly between the neighbours, else
/// the linear one.
pub open spec fn moved_height(m: Markers, i: int, up: bool) -> int {
    let candidate = if up {
        m.heights[i] + parabolic_step(m, i, up)
    } else {
        m.heights[i] - parabolic_step(m, i, up)
    };
    if m.heights[i - 1] < candidate < m.heights[i + 1] {
        candidate
    } else if up {
        m.heights[i] + linear_step(m, i, up)
    } else {
        m.heights[i] - linear_step(m, i, up)
    }
}

/// Marker `i` is at least one position below where it should be and has
/// room to move up.
pub open spec fn lags(m: Markers, i: int) -> bool {
    &&& m.desired[i] - 2 * SCALE * m.positions[i] >= 2 * SCALE
    &&& m.positions[i + 1] - m.positions[i] > 1
}

/// Marker `i` is at least one position above where it should be and has
/// room to move down.
pub open spec fn leads(m: Markers, i: int) -> bool {
    &&& m.desired[i] - 2 * SCALE * m.positions[i] <= -2 * SCALE
    &&& m.positions[i] - m.positions[i - 1] > 1
}

/// The state after the inner marker `i` has been adjusted.
pub open spec fn adjust_spec(m: Markers, i: int) -> Markers {
    if lags(m, i) {
        Markers {
            heights: m.heights.update(i, moved_height(m, i, true) as i64),
            positions: m.positions.update(i, (m.positions[i] + 1) as u64),
            ..m
        }
    } else if leads(m, i) {
        Markers {
            heights: m.heights.update(i, moved_height(m, i, false) as i64),
            positions: m.positions.update(i, (m.positions[i] - 1) as u64),
            ..m
        }
    } else {
        m
    }
}

/// The state after one more observation `x`.
pub open spec fn update_spec(m: Markers, x: i64) -> Markers {
    if m.count < 5 {
        let buffered = m.heights.update(m.count as int, x);
        Markers {
            heights: if m.count == 4 { sorted(buffered) } else { buffered },
            count: m.count + 1,
            ..m
        }
    } else {
        adjust_spec(adjust_spec(adjust_spec(absorb_spec(m, x), 1), 2), 3)
    }
}

/// Index of the order statistic nearest to the percentile `p` among `count`
/// buffered observations.
pub open spec fn nearest_rank(count: nat, p: u64) -> int {
    let wanted = ((count - 1) * p * 2 + SCALE) / (2 * SCALE);
    if wanted < count - 1 { wanted } else { count - 1 }
}

/// The estimate: none before the first observation; during warm-up the
/// order statistic nearest to the target percentile; afterwards the height
/// of the middle marker.
pub open spec fn quantile_spec(m: Markers) -> Option<i64> {
    if m.count == 0 {
        None
    } else if m.count < 5 {
        Some(sorted(m.heights.take(m.count as int))[nearest_rank(m.count, m.p)])
    } else {
        Some(m.heights[2])
    }
}

/// The state after the observations `xs`, in their order.
pub open spec fn observed(p: u64, xs: Seq<i64>) -> Markers
    decreases xs.len(),
{
    if xs.len() == 0 {
        fresh(p)
    } else {
        update_spec(observed(p, xs.drop_last()), xs.last())
    }
}

/// Every height that holds an observation or an estimate lies between `lo`
/// and `hi`.
pub open spec fn heights_within(m: Markers, lo: i64, hi: i64) -> bool {
    forall|i: int| 0 <= i < 5 && i < m.count ==> lo <= #[trigger] m.heights[i] <= hi
}

proof fn lemma_quotient_within(x: int, b: int)
    by (nonlinear_arith)
    requires
        0 <= x,
        1 <= b,
    ensures
        0 <= x / b <= x,
{
}

/// Moving an inner marker that has room keeps its height between those of
/// its neighbours.
pub proof fn lemma_moved_height(m: Markers, i: int, up: bool)
    requires
        steady(m),
        1 <= i <= 3,
    ensures
        m.heights[i - 1] <= moved_height(m, i, up) <= m.heights[i + 1],
{
    lemma_quotient_within(
        m.heights[i + 1] - m.heights[i],
        m.positions[i + 1] - m.positions[i],
    );
    lemma_quotient_within(
        m.heights[i] - m.heights[i - 1],
        m.positions[i] - m.positions[i - 1],
    );
}

/// Adjusting an inner marker keeps the markers steady, leaves the outer
/// markers, the wanted positions and the count as they are, and keeps every
/// height within the bounds that held before.
pub proof fn lemma_adjust(m: Markers, i: int, lo: i64, hi: i64)
    requires
        steady(m),
        1 <= i <= 3,
    ensures
        steady(adjust_spec(m, i)),
        adjust_spec(m, i).positions[0] == m.positions[0],
        adjust_spec(m, i).positions[4] == m.positions[4],
        adjust_spec(m, i).heights[0] == m.heights[0],
        adjust_spec(m, i).heights[4] == m.heights[4],
        adjust_spec(m, i).desired == m.desired,
        adjust_spec(m, i).count == m.count,
        adjust_spec(m, i).p == m.p,
        (forall|j: int| 0 <= j < 5 ==> lo <= #[trigger] m.heights[j] <= hi) ==> (forall|j: int|
            0 <= j < 5 ==> lo <= #[trigger] adjust_spec(m, i).heights[j] <= hi),
{
    lemma_moved_height(m, i, true);
    lemma_moved_height(m, i, false);
    let r = adjust_spec(m, i);
    if (forall|j: int| 0 <= j < 5 ==> lo <= #[trigger] m.heights[j] <= hi) {
        assert(lo <= m.heights[i - 1] && m.heights[i + 1] <= hi);
        assert forall|j: int| 0 <= j < 5 implies lo <= #[trigger] r.heights[j] <= hi by {
            if j != i {
                assert(r.heights[j] == m.heights[j]);
            }
        }
    }
}

/// Absorbing an observation after warm-up leaves markers that are steady,
/// whose outer positions are one and the new count, and whose wanted
/// positions have advanced by one increment each.
pub proof fn lemma_absorb(m: Markers, x: i64, lo: i64, hi: i64)
    requires
        well_formed(m),
        5 <= m.count < usize::MAX / 2,
    ensures
        steady(absorb_spec(m, x)),
        absorb_spec(m, x).positions[0] == 1,
        absorb_spec(m, x).positions[4] == m.count + 1,
        forall|i: int|
            0 <= i < 5 ==> #[trigger] absorb_spec(m, x).desired[i] == initial_desired(m.p)[i] + (
            m.count - 4) * increments(m.p)[i],
        heights_within(m, lo, hi) && lo <= x <= hi ==> (forall|j: int|
            0 <= j < 5 ==> lo <= #[trigger] absorb_spec(m, x).heights[j] <= hi),
{
    let r = absorb_spec(m, x);
    assert forall|i: int| 0 <= i < 5 implies #[trigger] r.desired[i] == initial_desired(
        m.p,
    )[i] + (m.count - 4) * increments(m.p)[i] by {
        let inc = increments(m.p)[i] as int;
        let c = m.count as int;
        assert(m.desired[i] == initial_desired(m.p)[i] + (m.count - 5) * increments(m.p)[i]);
        assert((c - 4) * inc == (c - 5) * inc + inc && 0 <= (c - 4) * inc <= 0x8000_0000_0000_0000
            * 0x1_0000_0000) by (nonlinear_arith)
            requires
                0 <= inc <= 0x1_0000_0000,
                5 <= c <= 0x8000_0000_0000_0000,
        ;
    }
    if heights_within(m, lo, hi) && lo <= x <= hi {
        assert forall|j: int| 0 <= j < 5 implies lo <= #[trigger] r.heights[j] <= hi by {
            assert(lo <= m.heights[j] <= hi);
        }
    }
}

/// One more observation keeps the state well formed, and keeps every height
/// within bounds that held before and hold of the observation.
pub proof fn lemma_update(m: Markers, x: i64, lo: i64, hi: i64)
    requires
        well_formed(m),
        m.count < usize::MAX / 2,
    ensures
        well_formed(update_spec(m, x)),
        update_spec(m, x).count == m.count + 1,
        update_spec(m, x).p == m.p,
        heights_within(m, lo, hi) && lo <= x <= hi ==> heights_within(update_spec(m, x), lo, hi),
{
    let r = update_spec(m, x);
    if m.count < 5 {
        let buffered = m.heights.update(m.count as int, x);
        if m.count == 4 {
            lemma_sorted(buffered);
            assert(sorted(buffered)[0] <= sorted(buffered)[1] <= sorted(buffered)[2] <= sorted(
                buffered,
            )[3] <= sorted(buffered)[4]);
            assert forall|i: int| 0 <= i < 5 implies #[trigger] r.desired[i] == initial_desired(
                m.p,
            )[i] + (r.count - 5) * increments(m.p)[i] by {
                assert(0 * increments(m.p)[i] == 0) by (nonlinear_arith);
            }
            if heights_within(m, lo, hi) && lo <= x <= hi {
                assert forall|i: int| 0 <= i < 5 implies lo <= #[trigger] r.heights[i] <= hi by {
                    assert(buffered.contains(sorted(buffered)[i]));
                    let k = choose|k: int| 0 <= k < 5 && buffered[k] == sorted(buffered)[i];
                    if k < 4 {
                        assert(buffered[k] == m.heights[k]);
                    }
                }
            }
        } else {
            if heights_within(m, lo, hi) && lo <= x <= hi {
                assert forall|i: int| 0 <= i < 5 && i < r.count implies lo
                    <= #[trigger] r.heights[i] <= hi by {
                    if i < m.count {
                        assert(buffered[i] == m.heights[i]);
                    }
                }
            }
        }
    } else {
        let m0 = absorb_spec(m, x);
        let m1 = adjust_spec(m0, 1);
        let m2 = adjust_spec(m1, 2);
        lemma_absorb(m, x, lo, hi);
        lemma_adjust(m0, 1, lo, hi);
        lemma_adjust(m1, 2, lo, hi);
        lemma_adjust(m2, 3, lo, hi);
        assert forall|i: int| 0 <= i < 5 implies #[trigger] r.desired[i] == initial_desired(
            m.p,
        )[i] + (r.count - 5) * increments(m.p)[i] by {
            assert(r.desired[i] == m0.desired[i]);
        }
    }
}

/// The estimate lies within every pair of bounds that the heights lie
/// within.
pub proof fn lemma_quantile_within(m: Markers, lo: i64, hi: i64)
    requires
        well_formed(m),
        m.count > 0,
        heights_within(m, lo, hi),
    ensures
        quantile_spec(m) matches Some(v) && lo <= v <= hi,
{
    if m.count < 5 {
        let buffer = m.heights.take(m.count as int);
        let k = nearest_rank(m.count, m.p);
        assert(0 <= k < m.count) by {
            assert(0 <= ((m.count - 1) * m.p * 2 + SCALE) / (2 * SCALE)) by (nonlinear_arith)
                requires
                    m.count >= 1,
                    m.p >= 0,
            ;
        }
        lemma_sorted(buffer);
        assert(buffer.contains(sorted(buffer)[k]));
        let j = choose|j: int| 0 <= j < buffer.len() && buffer[j] == sorted(buffer)[k];
        assert(buffer[j] == m.heights[j]);
    } else {
        assert(lo <= m.heights[2] <= hi);
    }
}

/// Whatever the stream, the state it leads to is well formed, and the
/// estimate lies between the smallest and the largest observation: if every
/// observation lies between `lo` and `hi`, so does the estimate. A constant
/// stream is therefore estimated by its constant.
pub proof fn lemma_estimate_within_observations(p: u64, xs: Seq<i64>, lo: i64, hi: i64)
    requires
        p <= SCALE,
        xs.len() <= usize::MAX / 2,
        forall|i: int| 0 <= i < xs.len() ==> lo <= #[trigger] xs[i] <= hi,
    ensures
        well_formed(observed(p, xs)),
        observed(p, xs).count == xs.len(),
        observed(p, xs).p == p,
        heights_within(observed(p, xs), lo, hi),
        xs.len() > 0 ==> (quantile_spec(observed(p, xs)) matches Some(v) && lo <= v <= hi),
    decreases xs.len(),
{
    if xs.len() > 0 {
        lemma_estimate_within_observations(p, xs.drop_last(), lo, hi);
        lemma_update(observed(p, xs.drop_last()), xs.last(), lo, hi);
        lemma_quantile_within(observed(p, xs), lo, hi);
    }
}

/// Streaming estimator of one quantile.
#[derive(Debug, Clone)]
pub struct PSquareQuantile {
    q: [i64; 5],
    n: [u64; 5],
    n_prime: [u128; 5],
    dn: [u64; 5],
    count: usize,
    p: u64,
}

impl View for PSquareQuantile {
    type V = Markers;

    closed spec fn view(&self) -> Markers {
        Markers {
            heights: self.q@,
            positions: self.n@,
            desired: self.n_prime@,
            count: self.count as nat,
            p: self.p,
        }
    }
}

impl PSquareQuantile {
    /// The stored increments are those of the target percentile.
    pub closed spec fn increments_stored(&self) -> bool {
        self.dn@ == increments(self.p)
    }

    /// The estimator is in a state that observations can lead to.
    pub open spec fn wf(&self) -> bool {
        &&& well_formed(self@)
        &&& self.increments_stored()
    }

    /// Creates an estimator for the percentile `p`, given in units of
    /// `1 / SCALE`; a larger value counts as one.
    pub fn new(p: u64) -> (r: Self)
        ensures
            r.wf(),
            r@ == fresh(if p <= SCALE { p } else { SCALE }),
    {
        let p: u64 = if p <= SCALE { p } else { SCALE };
        let r = PSquareQuantile {
            q: [0, 0, 0, 0, 0],
            n: [1, 2, 3, 4, 5],
            n_prime: [
                2 * SCALE as u128,
                2 * SCALE as u128 + 4 * p as u128,
                2 * SCALE as u128 + 8 * p as u128,
                6 * SCALE as u128 + 4 * p as u128,
                10 * SCALE as u128,
            ],
            dn: [0, p, 2 * p, SCALE + p, 2 * SCALE],
            count: 0,
            p,
        };
        proof {
            assert(r.q@ =~= fresh(p).heights);
            assert(r.n@ =~= fresh(p).positions);
            assert(r.n_prime@ =~= initial_desired(p));
            assert(r.dn@ =~= increments(p));
        }
        r
    }

    /// Creates an estimator of the median.
    pub fn median() -> (r: Self)
        ensures
            r.wf(),
            r@ == fresh(500_000_000),
    {
        Self::new(500_000_000)
    }

    /// Creates an estimator of the first quartile.
    pub fn q1() -> (r: Self)
        ensures
            r.wf(),
            r@ == fresh(250_000_000),
    {
        Self::new(250_000_000)
    }

    /// Creates an estimator of the third quartile.
    pub fn q3() -> (r: Self)
        ensures
            r.wf(),
            r@ == fresh(750_000_000),
    {
        Self::new(750_000_000)
    }

    /// Number of observations seen.
    pub fn count(&self) -> (r: usize)
        ensures
            r == self@.count,
    {
        self.count
    }

    fn parabolic(&self, i: usize, up: bool) -> (r: u128)
        requires
            steady(self@),
            1 <= i <= 3,
        ensures
            r == parabolic_step(self@, i as int, up),
    {
        let a: u128 = (self.n[i] - self.n[i - 1]) as u128;
        let b: u128 = (self.n[i + 1] - self.n[i]) as u128;
        let rise: u128 = (self.q[i + 1] as i128 - self.q[i] as i128) as u128;
        let fall: u128 = (self.q[i] as i128 - self.q[i - 1] as i128) as u128;
        let (left, right): (u128, u128) = if up { (a + 1, b - 1) } else { (a - 1, b + 1) };
        proof {
            assert(left * rise <= 0x7FFF_FFFF_FFFF_FFFF * 0xFFFF_FFFF_FFFF_FFFF && right * fall
                <= 0x7FFF_FFFF_FFFF_FFFF * 0xFFFF_FFFF_FFFF_FFFF) by (nonlinear_arith)
                requires
                    0 <= left <= 0x7FFF_FFFF_FFFF_FFFF,
                    0 <= right <= 0x7FFF_FFFF_FFFF_FFFF,
                    0 <= rise <= 0xFFFF_FFFF_FFFF_FFFF,
                    0 <= fall <= 0xFFFF_FFFF_FFFF_FFFF,
            ;
            lemma_quotient_within((left * rise) as int, b as int);
            lemma_quotient_within((right * fall) as int, a as int);
        }
        (left * rise / b + right * fall / a) / (a + b)
    }

    fn linear(&self, i: usize, up: bool) -> (r: u128)
        requires
            steady(self@),
            1 <= i <= 3,
        ensures
            r == linear_step(self@, i as int, up),
    {
        if up {
            let b: u128 = (self.n[i + 1] - self.n[i]) as u128;
            let rise: u128 = (self.q[i + 1] as i128 - self.q[i] as i128) as u128;
            rise / b
        } else {
            let a: u128 = (self.n[i] - self.n[i - 1]) as u128;
            let fall: u128 = (self.q[i] as i128 - self.q[i - 1] as i128) as u128;
            fall / a
        }
    }

    fn adjust(&mut self, i: usize)
        requires
            steady(old(self)@),
            1 <= i <= 3,
        ensures
            final(self)@ == adjust_spec(old(self)@, i as int),
            final(self).dn == old(self).dn,
    {
        let step: u128 = 2 * (SCALE as u128);
        assert(step * self.n[i as int] <= 2_000_000_000 * 0x7FFF_FFFF_FFFF_FFFF)
            by (nonlinear_arith)
            requires
                step == 2_000_000_000,
                0 <= self.n[i as int] <= 0x7FFF_FFFF_FFFF_FFFF,
        ;
        let at: u128 = step * (self.n[i] as u128);
        let wanted: u128 = self.n_prime[i];
        let up: bool = wanted >= at + step && self.n[i + 1] - self.n[i] > 1;
        let down: bool = at >= step && wanted <= at - step && self.n[i] - self.n[i - 1] > 1;
        proof {
            lemma_moved_height(self@, i as int, true);
            lemma_moved_height(self@, i as int, false);
        }
        if up {
            let rise: u128 = (self.q[i + 1] as i128 - self.q[i] as i128) as u128;
            let between: bool = self.q[i] > self.q[i - 1];
            let bend: u128 = self.parabolic(i, true);
            let by: u128 = if bend < rise && (bend > 0 || between) {
                bend
            } else {
                self.linear(i, true)
            };
            self.q[i] = (self.q[i] as i128 + by as i128) as i64;
            self.n[i] = self.n[i] + 1;
            proof {
                assert(self@.heights =~= adjust_spec(old(self)@, i as int).heights);
                assert(self@.positions =~= adjust_spec(old(self)@, i as int).positions);
            }
        } else if down {
            let fall: u128 = (self.q[i] as i128 - self.q[i - 1] as i128) as u128;
            let between: bool = self.q[i + 1] > self.q[i];
            let bend: u128 = self.parabolic(i, false);
            let by: u128 = if bend < fall && (bend > 0 || between) {
                bend
            } else {
                self.linear(i, false)
            };
            self.q[i] = (self.q[i] as i128 - by as i128) as i64;
            self.n[i] = self.n[i] - 1;
            proof {
                assert(self@.heights =~= adjust_spec(old(self)@, i as int).heights);
                assert(self@.positions =~= adjust_spec(old(self)@, i as int).positions);
            }
        }
    }

    fn absorb(&mut self, x: i64)
        requires
            old(self).wf(),
            5 <= old(self)@.count < usize::MAX / 2,
        ensures
            final(self)@ == absorb_spec(old(self)@, x),
            final(self).dn == old(self).dn,
    {
        proof {
            lemma_absorb(self@, x, x, x);
        }
        let k: usize = if x < self.q[1] {
            0
        } else if x < self.q[2] {
            1
        } else if x < self.q[3] {
            2
        } else {
            3
        };
        if x < self.q[0] {
            self.q[0] = x;
        } else if x >= self.q[4] {
            self.q[4] = x;
        }
        let ghost target = absorb_spec(old(self)@, x);
        let mut i: usize = 0;
        while i < 5
            invariant
                i <= 5,
                k <= 3,
                k == cell_of(old(self)@.heights, x),
                self.q@ == target.heights,
                self.count == old(self).count,
                self.p == old(self).p,
                self.dn == old(self).dn,
                self.dn@ == increments(self.p),
                target == absorb_spec(old(self)@, x),
                old(self).wf(),
                5 <= old(self)@.count < usize::MAX / 2,
                forall|j: int| 0 <= j < i ==> #[trigger] self.n@[j] == target.positions[j],
                forall|j: int| i <= j < 5 ==> #[trigger] self.n@[j] == old(self).n@[j],
                forall|j: int| 0 <= j < i ==> #[trigger] self.n_prime@[j] == target.desired[j],
                forall|j: int| i <= j < 5 ==> #[trigger] self.n_prime@[j] == old(self).n_prime@[j],
            decreases 5 - i,
        {
            proof {
                lemma_absorb(old(self)@, x, x, x);
                let c = old(self)@.count as int;
                let inc = increments(self.p)[i as int] as int;
                assert(0 <= (c - 5) * inc <= 0x8000_0000_0000_0000 * 0x1_0000_0000)
                    by (nonlinear_arith)
                    requires
                        0 <= inc <= 0x1_0000_0000,
                        5 <= c <= 0x8000_0000_0000_0000,
                ;
            }
            if i > k {
                self.n[i] = self.n[i] + 1;
            }
            self.n_prime[i] = self.n_prime[i] + self.dn[i] as u128;
            i = i + 1;
        }
        self.count = self.count + 1;
        proof {
            assert(self@.positions =~= target.positions);
            assert(self@.desired =~= target.desired);
        }
    }

    /// Takes in the observation `x`.
    pub fn update(&mut self, x: i64)
        requires
            old(self).wf(),
            old(self)@.count < usize::MAX / 2,
        ensures
            final(self).wf(),
            final(self)@ == update_spec(old(self)@, x),
    {
        proof {
            lemma_update(self@, x, x, x);
        }
        if self.count < 5 {
            self.q[self.count] = x;
            self.count = self.count + 1;
            if self.count == 5 {
                let mut buffer: Vec<i64> = Vec::new();
                let mut i: usize = 0;
                while i < 5
                    invariant
                        i <= 5,
                        buffer@.len() == i,
                        forall|j: int| 0 <= j < i ==> #[trigger] buffer@[j] == self.q@[j],
                    decreases 5 - i,
                {
                    buffer.push(self.q[i]);
                    i = i + 1;
                }
                assert(buffer@ =~= self.q@);
                sort_values(&mut buffer);
                let ghost unsorted = self.q@;
                proof {
                    lemma_sorted(unsorted);
                }
                let mut j: usize = 0;
                while j < 5
                    invariant
                        j <= 5,
                        buffer@ == sorted(unsorted),
                        buffer@.len() == 5,
                        self.n == old(self).n,
                        self.n_prime == old(self).n_prime,
                        self.dn == old(self).dn,
                        self.p == old(self).p,
                        self.count == 5,
                        forall|l: int| 0 <= l < j ==> #[trigger] self.q@[l] == buffer@[l],
                    decreases 5 - j,
                {
                    self.q[j] = buffer[j];
                    j = j + 1;
                }
                assert(self.q@ =~= sorted(unsorted));
            }
        } else {
            self.absorb(x);
            proof {
                lemma_absorb(old(self)@, x, x, x);
                lemma_adjust(self@, 1, x, x);
            }
            self.adjust(1);
            proof {
                lemma_adjust(self@, 2, x, x);
            }
            self.adjust(2);
            self.adjust(3);
        }
    }

    /// The current estimate, or `None` before the first observation.
    pub fn quantile(&self) -> (r: Option<i64>)
        requires
            self.wf(),
        ensures
            r == quantile_spec(self@),
    {
        if self.count == 0 {
            return None;
        }
        if self.count < 5 {
            let mut buffer: Vec<i64> = Vec::new();
            let mut i: usize = 0;
            while i < self.count
                invariant
                    i <= self.count < 5,
                    buffer@.len() == i,
                    forall|j: int| 0 <= j < i ==> #[trigger] buffer@[j] == self.q@[j],
                decreases self.count - i,
            {
                buffer.push(self.q[i]);
                i = i + 1;
            }
            assert(buffer@ =~= self.q@.take(self.count as int));
            proof {
                lemma_sorted(buffer@);
            }
            sort_values(&mut buffer);
            let below: u128 = (self.count - 1) as u128;
            assert(below * self.p <= 4 * 0xFFFF_FFFF_FFFF_FFFF) by (nonlinear_arith)
                requires
                    0 <= below <= 4,
                    0 <= self.p <= 0xFFFF_FFFF_FFFF_FFFF,
            ;
            let spread: u128 = below * (self.p as u128) * 2 + SCALE as u128;
            let wanted: u128 = spread / (2 * SCALE as u128);
            let last: usize = self.count - 1;
            let idx: usize = if wanted < last as u128 { wanted as usize } else { last };
            return Some(buffer[idx]);
        }
        Some(self.q[2])
    }
}

} // verus!
