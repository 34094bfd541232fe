//! Price trends: a bounded window of (elapsed seconds, price) samples and
//! the exact least-squares trend over it.
use std::collections::VecDeque;
use vstd::prelude::*;
use crate::natural::Natural;
use crate::sums::{abs, lemma_extremes_bounds, lemma_max_take_step, lemma_sum_take_step, lemma_take_full, seq_max, seq_min, seq_sum};

verus! {

/// Direction of a price trend.
#[derive(Debug, Clone, Copy, PartialEq, Eq, Structural)]
pub enum TrendDirection {
    /// Consistently increasing.
    Uptrend,
    /// Consistently decreasing.
    Downtrend,
    /// Moving within a range.
    Sideways,
    /// Not enough data.
    Unknown,
}

/// The exact rational number `num / den`, negated when `negative`; `den`
/// is positive.
#[derive(Debug)]
pub struct Ratio {
    pub negative: bool,
    pub num: Natural,
    pub den: Natural,
}

impl View for Ratio {
    type V = (int, int);

    /// (signed numerator, denominator).
    open spec fn view(&self) -> (int, int) {
        (if self.negative { -(self.num@ as int) } else { self.num@ as int }, self.den@ as int)
    }
}

/// Strength of a trend, between zero and one: the product of its two factors.
#[derive(Debug)]
pub struct TrendStrength {
    /// min(|slope| * 1000, 1), with the slope in dollars per second.
    pub slope_factor: Ratio,
    /// 1 - min(mean deviation from the trend line / price range, 1); one
    /// when all prices are equal.
    pub consistency: Ratio,
}

impl View for TrendStrength {
    type V = ((int, int), (int, int));

    open spec fn view(&self) -> ((int, int), (int, int)) {
        (self.slope_factor@, self.consistency@)
    }
}

/// Result of a trend calculation.
///
/// `price_change` is in micro-dollars, `trend_duration` in seconds and
/// `slope` in micro-dollars per second.
#[derive(Debug)]
pub struct TrendAnalysis {
    pub direction: TrendDirection,
    pub strength: TrendStrength,
    pub price_change: i64,
    pub trend_duration: u64,
    pub slope: Ratio,
}

/// A trend as numbers: each ratio as (signed numerator, denominator).
pub struct TrendModel {
    pub direction: TrendDirection,
    pub strength: ((int, int), (int, int)),
    pub price_change: int,
    pub trend_duration: int,
    pub slope: (int, int),
}

impl View for TrendAnalysis {
    type V = TrendModel;

    open spec fn view(&self) -> TrendModel {
        TrendModel {
            direction: self.direction,
            strength: self.strength@,
            price_change: self.price_change as int,
            trend_duration: self.trend_duration as int,
            slope: self.slope@,
        }
    }
}

// ---------------------------------------------------------------------------
// Mathematical model of the trend calculation over a history of
// (elapsed seconds, price in micro-dollars) samples.
// ---------------------------------------------------------------------------

/// Seconds from the first sample to each sample.
pub open spec fn sample_offsets(h: Seq<(u64, u32)>) -> Seq<int> {
    h.map_values(|e: (u64, u32)| e.0 as int - h[0].0 as int)
}

pub open spec fn sample_prices(h: Seq<(u64, u32)>) -> Seq<int> {
    h.map_values(|e: (u64, u32)| e.1 as int)
}

pub open spec fn sample_products(h: Seq<(u64, u32)>) -> Seq<int> {
    h.map_values(|e: (u64, u32)| (e.0 as int - h[0].0 as int) * e.1 as int)
}

pub open spec fn sample_squares(h: Seq<(u64, u32)>) -> Seq<int> {
    h.map_values(|e: (u64, u32)| (e.0 as int - h[0].0 as int) * (e.0 as int - h[0].0 as int))
}

/// Numerator of the least-squares slope of price over time, with `x` the
/// seconds since the first sample: n·Σxy − Σx·Σy. (The slope does not
/// change when every time is shifted by the same amount.)
pub open spec fn regression_num(h: Seq<(u64, u32)>) -> int {
    h.len() * seq_sum(sample_products(h)) - seq_sum(sample_offsets(h)) * seq_sum(sample_prices(h))
}

/// Denominator of the least-squares slope: n·Σx² − (Σx)².
pub open spec fn regression_den(h: Seq<(u64, u32)>) -> int {
    h.len() * seq_sum(sample_squares(h)) - seq_sum(sample_offsets(h)) * seq_sum(sample_offsets(h))
}

/// The slope, in micro-dollars per second, is `slope_num / slope_den` with a
/// positive denominator; it is zero when the denominator of the regression
/// vanishes (all samples at the same time).
pub open spec fn slope_num(h: Seq<(u64, u32)>) -> int {
    let d = regression_den(h);
    if d == 0 { 0 } else if d > 0 { regression_num(h) } else { -regression_num(h) }
}

pub open spec fn slope_den(h: Seq<(u64, u32)>) -> int {
    let d = regression_den(h);
    if d == 0 { 1 } else if d > 0 { d } else { -d }
}

/// Distance of each sample from the trend line through the first sample,
/// scaled by `slope_den`.
pub open spec fn deviation_terms(h: Seq<(u64, u32)>) -> Seq<int> {
    let nn = slope_num(h);
    let dd = slope_den(h);
    let p0 = h[0].1 as int;
    let t0 = h[0].0 as int;
    h.map_values(|e: (u64, u32)| abs((e.1 as int - p0) * dd - nn * (e.0 as int - t0)))
}

pub open spec fn price_range(h: Seq<(u64, u32)>) -> int {
    seq_max(sample_prices(h)) - seq_min(sample_prices(h))
}

/// min(|slope in dollars per second| · 1000, 1) is `factor_num / factor_den`.
pub open spec fn factor_num(h: Seq<(u64, u32)>) -> int {
    let nn = abs(slope_num(h));
    let cap = 1000 * slope_den(h);
    if nn < cap { nn } else { cap }
}

pub open spec fn factor_den(h: Seq<(u64, u32)>) -> int {
    1000 * slope_den(h)
}

/// 1 − min(mean deviation / price range, 1) is `consistency_num /
/// consistency_den`; it is one when all prices are equal.
pub open spec fn consistency_den(h: Seq<(u64, u32)>) -> int {
    let r = price_range(h);
    if r > 0 { slope_den(h) * h.len() * r } else { 1 }
}

pub open spec fn consistency_num(h: Seq<(u64, u32)>) -> int {
    let r = price_range(h);
    if r > 0 {
        let e = consistency_den(h);
        let s = seq_sum(deviation_terms(h));
        e - (if s < e { s } else { e })
    } else {
        1
    }
}

pub open spec fn strength_of(h: Seq<(u64, u32)>) -> ((int, int), (int, int)) {
    ((factor_num(h), factor_den(h)), (consistency_num(h), consistency_den(h)))
}

/// The strength `s` is at least `min_strength` millionths.
pub open spec fn strength_reaches(s: ((int, int), (int, int)), min_strength: u32) -> bool {
    1_000_000 * (s.0.0 * s.1.0) >= min_strength * (s.0.1 * s.1.1)
}

pub open spec fn price_change_of(h: Seq<(u64, u32)>) -> int {
    h.last().1 as int - h[0].1 as int
}

/// Uptrend: slope above 0.0001 dollars per second and a rise of more than a
/// cent; downtrend symmetrically; otherwise sideways.
pub open spec fn direction_of(h: Seq<(u64, u32)>) -> TrendDirection {
    let nn = slope_num(h);
    let dd = slope_den(h);
    let c = price_change_of(h);
    if nn > 100 * dd && c > 10_000 {
        TrendDirection::Uptrend
    } else if nn < -100 * dd && c < -10_000 {
        TrendDirection::Downtrend
    } else {
        TrendDirection::Sideways
    }
}

pub open spec fn duration_of(h: Seq<(u64, u32)>) -> int {
    if h.len() > 1 { h.last().0 as int - h[0].0 as int } else { 0 }
}

pub open spec fn unknown_trend() -> TrendModel {
    TrendModel {
        direction: TrendDirection::Unknown,
        strength: ((0, 1), (0, 1)),
        price_change: 0,
        trend_duration: 0,
        slope: (0, 1),
    }
}

/// The trend of a history, given the fewest samples needed for a verdict.
pub open spec fn trend_of(h: Seq<(u64, u32)>, min_samples: nat) -> TrendModel {
    if h.len() < min_samples {
        unknown_trend()
    } else {
        TrendModel {
            direction: direction_of(h),
            strength: strength_of(h),
            price_change: price_change_of(h),
            trend_duration: duration_of(h),
            slope: (slope_num(h), slope_den(h)),
        }
    }
}

/// No sample is earlier than the first one.
pub open spec fn times_from_first(h: Seq<(u64, u32)>) -> bool {
    forall|i: int| 0 <= i < h.len() ==> #[trigger] h[i].0 >= h[0].0
}

/// The trend of `h` can be computed with `min_samples`: either there are too
/// few samples, or there is at least one and none is earlier than the first.
pub open spec fn trend_defined(h: Seq<(u64, u32)>, min_samples: nat) -> bool {
    h.len() >= min_samples ==> (h.len() > 0 && times_from_first(h))
}

/// The last `max` elements of `s` (all of them when there are fewer).
pub open spec fn window(s: Seq<(u64, u32)>, max: nat) -> Seq<(u64, u32)> {
    if s.len() > max { s.skip(s.len() - max) } else { s }
}

/// Tracks price history for trend analysis.
#[derive(Debug)]
pub struct PriceTrendTracker {
    price_history: VecDeque<(u64, u32)>,
    max_history_size: usize,
}

impl Clone for PriceTrendTracker {
    fn clone(&self) -> (r: Self)
        ensures
            r.history() == self.history(),
            r.max_size() == self.max_size(),
    {
        let mut copy: VecDeque<(u64, u32)> = VecDeque::new();
        let n = self.price_history.len();
        let mut i: usize = 0;
        while i < n
            invariant
                n == self.price_history@.len(),
                i <= n,
                copy@ == self.price_history@.take(i as int),
            decreases n - i,
        {
            copy.push_back(self.price_history[i]);
            i = i + 1;
            proof {
                assert(copy@ =~= self.price_history@.take(i as int));
            }
        }
        proof {
            assert(copy@ =~= self.price_history@);
        }
        PriceTrendTracker { price_history: copy, max_history_size: self.max_history_size }
    }
}

proof fn lemma_mul_bound(a: int, b: int, x: int, y: int)
    requires
        0 <= a <= x,
        0 <= b <= y,
    ensures
        0 <= a * b <= x * y,
{
    assert(0 <= a * b <= x * y) by (nonlinear_arith)
        requires
            0 <= a <= x,
            0 <= b <= y,
    ;
}

proof fn lemma_sum_nonneg(xs: Seq<int>)
    requires
        forall|i: int| 0 <= i < xs.len() ==> xs[i] >= 0,
    ensures
        seq_sum(xs) >= 0,
    decreases xs.len(),
{
    if xs.len() > 0 {
        lemma_sum_nonneg(xs.drop_last());
    }
}

/// The two factors of the strength of any history lie between zero and
/// one, with positive denominators.
pub proof fn lemma_strength_bounds(h: Seq<(u64, u32)>)
    ensures
        0 <= factor_num(h) <= factor_den(h),
        1000 <= factor_den(h),
        0 <= consistency_num(h) <= consistency_den(h),
        1 <= consistency_den(h),
        0 <= seq_sum(deviation_terms(h)),
{
    let devs = deviation_terms(h);
    assert forall|i: int| 0 <= i < devs.len() implies devs[i] >= 0 by {}
    lemma_sum_nonneg(devs);
    let r = price_range(h);
    if r > 0 {
        let sd = slope_den(h);
        let n = h.len() as int;
        if n == 0 {
            assert(sample_prices(h).len() == 0);
        }
        assert(sd * n * r >= 1) by (nonlinear_arith)
            requires
                sd >= 1,
                n >= 1,
                r >= 1,
        ;
    }
}

/// The signed product of a magnitude and a natural number.
proof fn lemma_signed_mul(neg: bool, m: int, k: int)
    ensures
        (if neg { -m } else { m }) * k == (if neg { -(m * k) } else { m * k }),
{
    if neg {
        assert((-m) * k == -(m * k)) by (nonlinear_arith);
    }
}

impl PriceTrendTracker {
    /// The samples, oldest first.
    pub closed spec fn history(&self) -> Seq<(u64, u32)> {
        self.price_history@
    }

    /// The most samples kept.
    pub closed spec fn max_size(&self) -> nat {
        self.max_history_size as nat
    }

    pub closed spec fn wf(&self) -> bool {
        self.price_history@.len() <= self.max_history_size
    }

    pub fn new(max_history_size: usize) -> (r: Self)
        ensures
            r.wf(),
            r.history() == Seq::<(u64, u32)>::empty(),
            r.max_size() == max_history_size,
    {
        PriceTrendTracker { price_history: VecDeque::new(), max_history_size }
    }

    /// Adds a price snapshot, dropping the oldest ones so that at most
    /// `max_size` remain (a tracker of size zero keeps none).
    pub fn add_price(&mut self, time_elapsed_seconds: u64, price: u32)
        requires
            old(self).wf(),
        ensures
            final(self).wf(),
            final(self).max_size() == old(self).max_size(),
            final(self).history() == window(
                old(self).history().push((time_elapsed_seconds, price)),
                old(self).max_size(),
            ),
    {
        let ghost h0 = self.price_history@;
        let ghost max = self.max_history_size as int;
        while self.price_history.len() > 0 && self.price_history.len() >= self.max_history_size
            invariant
                self.max_history_size == max,
                h0.len() <= max,
                self.price_history@ == h0.skip(h0.len() - self.price_history@.len()),
                self.price_history@.len() <= h0.len(),
                h0.len() < max ==> self.price_history@.len() == h0.len(),
                h0.len() >= max && max > 0 ==> self.price_history@.len() >= max - 1,
            decreases self.price_history@.len(),
        {
            let ghost before = self.price_history@;
            self.price_history.pop_front();
            proof {
                assert(h0.skip(h0.len() - self.price_history@.len()) =~= before.subrange(
                    1,
                    before.len() as int,
                ));
            }
        }
        let ghost s = h0.push((time_elapsed_seconds, price));
        if self.max_history_size > 0 {
            self.price_history.push_back((time_elapsed_seconds, price));
            proof {
                if h0.len() >= max {
                    assert(s.skip(s.len() - max) =~= self.price_history@);
                } else {
                    assert(h0.skip(0) =~= h0);
                    assert(s =~= self.price_history@);
                }
            }
        } else {
            proof {
                assert(s.skip(s.len() - max) =~= self.price_history@);
            }
        }
    }

    /// Calculates the current trend by least-squares regression and the
    /// deviation of the samples from the fitted line, exactly.
    pub fn calculate_trend(&self, min_samples: usize) -> (r: TrendAnalysis)
        requires
            self.wf(),
            trend_defined(self.history(), min_samples as nat),
        ensures
            r@ == trend_of(self.history(), min_samples as nat),
            r.strength.slope_factor.negative == false,
            r.strength.consistency.negative == false,
    {
        let n = self.price_history.len();
        if n < min_samples {
            return TrendAnalysis {
                direction: TrendDirection::Unknown,
                strength: TrendStrength {
                    slope_factor: Ratio { negative: false, num: Natural::zero(), den: Natural::from_u64(1) },
                    consistency: Ratio { negative: false, num: Natural::zero(), den: Natural::from_u64(1) },
                },
                price_change: 0,
                trend_duration: 0,
                slope: Ratio { negative: false, num: Natural::zero(), den: Natural::from_u64(1) },
            };
        }
        let ghost h = self.price_history@;
        let ghost xs = sample_offsets(h);
        let ghost ys = sample_prices(h);
        let ghost xys = sample_products(h);
        let ghost xxs = sample_squares(h);
        proof {
            assert(xs.take(0) =~= Seq::<int>::empty());
            assert(ys.take(0) =~= Seq::<int>::empty());
            assert(xys.take(0) =~= Seq::<int>::empty());
            assert(xxs.take(0) =~= Seq::<int>::empty());
            lemma_sum_take_step(xs, 0);
            lemma_sum_take_step(ys, 0);
            lemma_sum_take_step(xys, 0);
            lemma_sum_take_step(xxs, 0);
        }
        let first = self.price_history[0];
        let t0: u64 = first.0;
        let p0: u32 = first.1;
        let mut sum_x = Natural::zero();
        let mut sum_y = Natural::from_u64(p0 as u64);
        let mut sum_xy = Natural::zero();
        let mut sum_xx = Natural::zero();
        let mut max_p: u32 = p0;
        let mut min_p: u32 = p0;
        let mut i: usize = 1;
        while i < n
            invariant
                n == h.len(),
                h == self.price_history@,
                1 <= n,
                times_from_first(h),
                t0 == h[0].0,
                1 <= i <= n,
                xs == sample_offsets(h),
                ys == sample_prices(h),
                xys == sample_products(h),
                xxs == sample_squares(h),
                sum_x@ == seq_sum(xs.take(i as int)),
                sum_y@ == seq_sum(ys.take(i as int)),
                sum_xy@ == seq_sum(xys.take(i as int)),
                sum_xx@ == seq_sum(xxs.take(i as int)),
                max_p == seq_max(ys.take(i as int)),
                min_p == seq_min(ys.take(i as int)),
            decreases n - i,
        {
            let e = self.price_history[i];
            proof {
                assert(h[i as int].0 >= h[0].0);
            }
            let x: u64 = e.0 - t0;
            let y: u32 = e.1;
            proof {
                lemma_mul_bound(x as int, y as int, 0xFFFF_FFFF_FFFF_FFFF, 0xFFFF_FFFF);
                lemma_mul_bound(x as int, x as int, 0xFFFF_FFFF_FFFF_FFFF, 0xFFFF_FFFF_FFFF_FFFF);
                lemma_sum_take_step(xs, i as int);
                lemma_sum_take_step(ys, i as int);
                lemma_sum_take_step(xys, i as int);
                lemma_sum_take_step(xxs, i as int);
                lemma_max_take_step(ys, i as int);
            }
            sum_x = sum_x.add(&Natural::from_u64(x));
            sum_y = sum_y.add(&Natural::from_u64(y as u64));
            sum_xy = sum_xy.add(&Natural::from_u128(x as u128 * y as u128));
            sum_xx = sum_xx.add(&Natural::from_u128(x as u128 * x as u128));
            if y > max_p {
                max_p = y;
            }
            if y < min_p {
                min_p = y;
            }
            i = i + 1;
        }
        proof {
            lemma_take_full(xs);
            lemma_take_full(ys);
            lemma_take_full(xys);
            lemma_take_full(xxs);
        }
        let count = Natural::from_u64(n as u64);
        let a = count.mul(&sum_xy);
        let b = sum_x.mul(&sum_y);
        let num_negative = a.lt(&b);
        let num_size = a.abs_diff(&b);
        let c = count.mul(&sum_xx);
        let d = sum_x.mul(&sum_x);
        let den_negative = c.lt(&d);
        let den_size = c.abs_diff(&d);
        proof {
            assert(regression_num(h) == a@ - b@);
            assert(regression_den(h) == c@ - d@);
        }
        let (snum_negative, snum, sden) = if den_size.is_zero() {
            (false, Natural::zero(), Natural::from_u64(1))
        } else {
            (num_negative != den_negative, num_size, den_size)
        };
        let ghost nn: int = if snum_negative { -(snum@ as int) } else { snum@ as int };
        assert(nn == slope_num(h) && sden@ == slope_den(h) && snum@ == abs(slope_num(h)));
        let ghost devs = deviation_terms(h);
        proof {
            assert(devs.take(0) =~= Seq::<int>::empty());
        }
        let mut dev_sum = Natural::zero();
        let mut j: usize = 0;
        while j < n
            invariant
                n == h.len(),
                h == self.price_history@,
                1 <= n,
                times_from_first(h),
                0 <= j <= n,
                devs == deviation_terms(h),
                nn == slope_num(h),
                nn == (if snum_negative { -(snum@ as int) } else { snum@ as int }),
                sden@ == slope_den(h),
                t0 == h[0].0,
                p0 == h[0].1,
                dev_sum@ == seq_sum(devs.take(j as int)),
            decreases n - j,
        {
            let e = self.price_history[j];
            proof {
                assert(h[j as int].0 >= h[0].0);
            }
            let dx: u64 = e.0 - t0;
            let (dy_negative, dy): (bool, u32) = if e.1 >= p0 { (false, e.1 - p0) } else { (true, p0 - e.1) };
            let xs_term = Natural::from_u64(dy as u64).mul(&sden);
            let ys_term = snum.mul(&Natural::from_u64(dx));
            let term = if dy_negative != snum_negative { xs_term.add(&ys_term) } else { xs_term.abs_diff(&ys_term) };
            proof {
                lemma_sum_take_step(devs, j as int);
                lemma_signed_mul(dy_negative, dy as int, sden@ as int);
                lemma_signed_mul(snum_negative, snum@ as int, dx as int);
                assert(e.1 as int - p0 as int == (if dy_negative { -(dy as int) } else { dy as int }));
                assert(devs[j as int] == abs((e.1 as int - p0 as int) * (sden@ as int) - nn * (e.0 as int - t0 as int)));
            }
            dev_sum = dev_sum.add(&term);
            j = j + 1;
        }
        proof {
            lemma_take_full(devs);
            lemma_extremes_bounds(ys, 0, 0xFFFF_FFFF);
        }
        let range: u32 = max_p - min_p;
        assert(range == price_range(h));
        let cap = Natural::from_u64(1000).mul(&sden);
        let factor_n = snum.min(&cap);
        let consistency = if range > 0 {
            let e = sden.mul(&count).mul(&Natural::from_u64(range as u64));
            let m = dev_sum.min(&e);
            proof {
                lemma_strength_bounds(h);
            }
            Ratio { negative: false, num: e.sub(&m), den: e }
        } else {
            Ratio { negative: false, num: Natural::from_u64(1), den: Natural::from_u64(1) }
        };
        let last = self.price_history[n - 1];
        let change: i64 = last.1 as i64 - p0 as i64;
        let hundred = Natural::from_u64(100).mul(&sden);
        let steep = hundred.lt(&snum);
        let direction = if !snum_negative && steep && change > 10_000 {
            TrendDirection::Uptrend
        } else if snum_negative && steep && change < -10_000 {
            TrendDirection::Downtrend
        } else {
            TrendDirection::Sideways
        };
        let duration: u64 = if n > 1 { last.0 - t0 } else { 0 };
        proof {
            assert(h[n - 1] == last);
            assert(h[n - 1].0 >= h[0].0);
        }
        TrendAnalysis {
            direction,
            strength: TrendStrength { slope_factor: Ratio { negative: false, num: factor_n, den: cap }, consistency },
            price_change: change,
            trend_duration: duration,
            slope: Ratio { negative: snum_negative, num: snum, den: sden },
        }
    }

    /// True when the trend is up with a strength of at least `min_strength`
    /// millionths.
    pub fn is_uptrending(&self, min_strength: u32, min_samples: usize) -> (r: bool)
        requires
            self.wf(),
            trend_defined(self.history(), min_samples as nat),
        ensures
            r == (trend_of(self.history(), min_samples as nat).direction == TrendDirection::Uptrend
                && strength_reaches(trend_of(self.history(), min_samples as nat).strength, min_strength)),
            r == ({
                let t = trend_of(self.history(), min_samples as nat);
                &&& t.direction == TrendDirection::Uptrend
                &&& 1_000_000 * (t.strength.0.0 * t.strength.1.0) >= min_strength * (t.strength.0.1
                    * t.strength.1.1)
            }),
    {
        let trend = self.calculate_trend(min_samples);
        if !matches!(trend.direction, TrendDirection::Uptrend) {
            return false;
        }
        let f = &trend.strength.slope_factor;
        let c = &trend.strength.consistency;
        let lhs = Natural::from_u64(1_000_000).mul(&f.num).mul(&c.num);
        let rhs = Natural::from_u64(min_strength as u64).mul(&f.den).mul(&c.den);
        proof {
            let (fnum, cnum, fden, cden) = (f.num@ as int, c.num@ as int, f.den@ as int, c.den@ as int);
            assert((1_000_000 * fnum) * cnum == 1_000_000 * (fnum * cnum)) by (nonlinear_arith);
            assert((min_strength as int * fden) * cden == min_strength as int * (fden * cden)) by (nonlinear_arith);
        }
        rhs.le(&lhs)
    }

    /// The trend summarized for hedge decisions: (is up, strength, slope).
    pub fn get_trend_for_hedge(&self, min_samples: usize) -> (r: (bool, TrendStrength, Ratio))
        requires
            self.wf(),
            trend_defined(self.history(), min_samples as nat),
        ensures
            r.0 == (trend_of(self.history(), min_samples as nat).direction
                == TrendDirection::Uptrend),
            r.1@ == trend_of(self.history(), min_samples as nat).strength,
            r.2@ == trend_of(self.history(), min_samples as nat).slope,
    {
        let trend = self.calculate_trend(min_samples);
        let is_uptrend = matches!(trend.direction, TrendDirection::Uptrend);
        (is_uptrend, trend.strength, trend.slope)
    }

    /// The number of samples currently tracked.
    pub fn sample_count(&self) -> (r: usize)
        ensures
            r == self.history().len(),
    {
        self.price_history.len()
    }

    /// Clears all samples.
    pub fn clear(&mut self)
        requires
            old(self).wf(),
        ensures
            final(self).wf(),
            final(self).history() == Seq::<(u64, u32)>::empty(),
            final(self).max_size() == old(self).max_size(),
    {
        self.price_history.clear();
    }

    /// Whether `calculate_trend(min_samples)` may be called: too few
    /// samples, or at least one and none earlier than the first.
    pub fn can_calculate_trend(&self, min_samples: usize) -> (r: bool)
        ensures
            r == trend_defined(self.history(), min_samples as nat),
    {
        let n = self.price_history.len();
        if n < min_samples {
            return true;
        }
        if n == 0 {
            return false;
        }
        let t0 = self.price_history[0].0;
        let mut i: usize = 0;
        while i < n
            invariant
                n == self.price_history@.len(),
                n > 0,
                n >= min_samples,
                t0 == self.price_history@[0].0,
                i <= n,
                forall|j: int| 0 <= j < i ==> #[trigger] self.price_history@[j].0 >= t0,
            decreases n - i,
        {
            if self.price_history[i].0 < t0 {
                assert(!times_from_first(self.price_history@)) by {
                    assert(self.price_history@[i as int].0 < self.price_history@[0].0);
                }
                return false;
            }
            i = i + 1;
        }
        true
    }
}

} // verus!
