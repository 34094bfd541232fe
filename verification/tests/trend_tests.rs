use simtrack::natural::Natural;
use simtrack::trend::{PriceTrendTracker, Ratio, TrendDirection, TrendStrength};

fn tracker_with(max: usize, samples: &[(u64, u32)]) -> PriceTrendTracker {
    let mut t = PriceTrendTracker::new(max);
    for (time, price) in samples {
        t.add_price(*time, *price);
    }
    t
}

/// The value of a natural number that fits 128 bits.
fn value(n: &Natural) -> i128 {
    let mut v: u128 = 0;
    for d in n.digits().iter().rev() {
        v = v.checked_mul(1 << 32).unwrap() + *d as u128;
    }
    i128::try_from(v).unwrap()
}

/// (signed numerator, denominator) of a ratio.
fn parts(r: &Ratio) -> (i128, i128) {
    let n = value(&r.num);
    (if r.negative { -n } else { n }, value(&r.den))
}

/// `f` equals `num / den` exactly.
fn equals(f: &Ratio, num: i128, den: i128) -> bool {
    let (n, d) = parts(f);
    d > 0 && n * den == num * d
}

/// The strength `s` equals `num / den` exactly.
fn strength_equals(s: &TrendStrength, num: i128, den: i128) -> bool {
    let (fnum, fden) = parts(&s.slope_factor);
    let (cnum, cden) = parts(&s.consistency);
    fden > 0 && cden > 0 && fnum * cnum * den == num * fden * cden
}

#[test]
fn too_few_samples_is_unknown() {
    let t = tracker_with(10, &[(0, 500_000), (10, 510_000)]);
    let a = t.calculate_trend(3);
    assert_eq!(a.direction, TrendDirection::Unknown);
    assert!(strength_equals(&a.strength, 0, 1));
    assert_eq!(a.price_change, 0);
    assert_eq!(a.trend_duration, 0);
    assert!(equals(&a.slope, 0, 1));
}

#[test]
fn steady_rise_is_a_full_strength_uptrend() {
    let t = tracker_with(10, &[(0, 500_000), (10, 510_000), (20, 520_000), (30, 530_000)]);
    let a = t.calculate_trend(3);
    assert_eq!(a.direction, TrendDirection::Uptrend);
    assert!(strength_equals(&a.strength, 1, 1));
    assert_eq!(a.price_change, 30_000);
    assert_eq!(a.trend_duration, 30);
    // 0.001 dollars per second = 1000 micro-dollars per second.
    assert!(equals(&a.slope, 1000, 1));
    assert!(t.is_uptrending(900_000, 3));
    assert!(t.is_uptrending(1_000_000, 3));
    let (up, strength, slope) = t.get_trend_for_hedge(3);
    assert!(up);
    assert!(strength_equals(&strength, 1, 1));
    assert!(equals(&slope, 1000, 1));
}

#[test]
fn deviation_from_the_line_lowers_strength() {
    // Deviations from the fitted line: 0, 0.01, 0 dollars; range 0.02:
    // consistency 1 - (0.01/3)/0.02 = 5/6.
    let t = tracker_with(10, &[(0, 500_000), (10, 500_000), (20, 520_000)]);
    let a = t.calculate_trend(3);
    assert_eq!(a.direction, TrendDirection::Uptrend);
    assert!(equals(&a.strength.slope_factor, 1, 1));
    assert!(equals(&a.strength.consistency, 5, 6));
    assert!(strength_equals(&a.strength, 5, 6));
    assert_eq!(a.price_change, 20_000);
    assert!(equals(&a.slope, 1000, 1));
    // 5/6 = 0.8333..., so 833_333 millionths are reached and 833_334 are not.
    assert!(t.is_uptrending(833_333, 3));
    assert!(!t.is_uptrending(833_334, 3));
}

#[test]
fn steady_fall_is_a_downtrend() {
    let t = tracker_with(10, &[(0, 530_000), (10, 520_000), (20, 510_000), (30, 500_000)]);
    let a = t.calculate_trend(2);
    assert_eq!(a.direction, TrendDirection::Downtrend);
    assert_eq!(a.price_change, -30_000);
    assert!(equals(&a.slope, -1000, 1));
    assert!(strength_equals(&a.strength, 1, 1));
    assert!(!t.is_uptrending(0, 2));
    assert_eq!(t.get_trend_for_hedge(2).0, false);
}

#[test]
fn small_move_is_sideways() {
    // A rise of half a cent stays under the one-cent threshold.
    let t = tracker_with(10, &[(0, 500_000), (10, 502_500), (20, 505_000)]);
    let a = t.calculate_trend(3);
    assert_eq!(a.direction, TrendDirection::Sideways);
    assert_eq!(a.price_change, 5_000);
    // slope 250 micro-dollars per second; factor 0.25, consistency 1.
    assert!(equals(&a.slope, 250, 1));
    assert!(equals(&a.strength.slope_factor, 1, 4));
    assert!(equals(&a.strength.consistency, 1, 1));
    assert!(strength_equals(&a.strength, 1, 4));
}

#[test]
fn equal_times_give_zero_slope() {
    let t = tracker_with(10, &[(5, 500_000), (5, 600_000)]);
    let a = t.calculate_trend(2);
    assert!(equals(&a.slope, 0, 1));
    assert_eq!(a.direction, TrendDirection::Sideways);
    assert_eq!(a.trend_duration, 0);
    assert_eq!(a.price_change, 100_000);
    // Deviations 0 and 0.1 against a range of 0.1: consistency 1/2, but no slope.
    assert!(equals(&a.strength.consistency, 1, 2));
    assert!(strength_equals(&a.strength, 0, 1));
}

#[test]
fn slope_is_exact() {
    // One micro-dollar over three seconds: a third of a micro-dollar per second.
    let t = tracker_with(10, &[(0, 0), (3, 1)]);
    let a = t.calculate_trend(2);
    assert!(equals(&a.slope, 1, 3));
    assert!(!equals(&a.slope, 333_333, 1_000_000));
    assert_eq!(a.direction, TrendDirection::Sideways);
}

#[test]
fn direction_agrees_with_reported_slope() {
    // Slope 104857601 / 1048576 micro-dollars per second, just above the
    // threshold of 100.
    let t = tracker_with(10, &[(0, 0), (1_048_576, 104_857_601)]);
    let a = t.calculate_trend(2);
    assert_eq!(a.direction, TrendDirection::Uptrend);
    assert!(equals(&a.slope, 104_857_601, 1_048_576));
    let (n, d) = parts(&a.slope);
    assert!(n > 100 * d);
}

#[test]
fn times_count_from_the_first_sample() {
    // Shifting every time by the same amount changes nothing but the
    // times themselves.
    let base = tracker_with(10, &[(0, 500_000), (10, 500_000), (20, 520_000)]);
    let later = tracker_with(10, &[(4_000_000_000_000, 500_000), (4_000_000_000_010, 500_000), (4_000_000_000_020, 520_000)]);
    let a = base.calculate_trend(3);
    let b = later.calculate_trend(3);
    let (an, ad) = parts(&a.slope);
    assert!(equals(&b.slope, an, ad));
    let (fn_, fd) = parts(&a.strength.slope_factor);
    let (cn, cd) = parts(&a.strength.consistency);
    assert!(strength_equals(&b.strength, fn_ * cn, fd * cd));
    assert_eq!(a.direction, b.direction);
    assert_eq!(b.trend_duration, 20);
}

#[test]
fn history_keeps_only_the_newest_samples() {
    let mut t = PriceTrendTracker::new(3);
    for i in 0..5u64 {
        t.add_price(i, 500_000 + i as u32);
        assert!(t.sample_count() <= 3);
    }
    assert_eq!(t.sample_count(), 3);
    // The oldest kept sample is the third one added.
    let a = t.calculate_trend(3);
    assert_eq!(a.trend_duration, 2);
    assert_eq!(a.price_change, 2);
    t.clear();
    assert_eq!(t.sample_count(), 0);
    assert_eq!(t.calculate_trend(1).direction, TrendDirection::Unknown);
}

#[test]
fn a_tracker_of_size_zero_keeps_nothing() {
    let mut t = PriceTrendTracker::new(0);
    t.add_price(1, 500_000);
    t.add_price(2, 510_000);
    assert_eq!(t.sample_count(), 0);
    assert_eq!(t.calculate_trend(1).direction, TrendDirection::Unknown);
    assert!(!t.can_calculate_trend(0));
}

#[test]
fn trend_needs_samples_not_before_the_first() {
    let t = tracker_with(10, &[(10, 500_000), (5, 510_000)]);
    assert!(!t.can_calculate_trend(2));
    assert!(t.can_calculate_trend(3));
    let empty = PriceTrendTracker::new(4);
    assert!(!empty.can_calculate_trend(0));
    assert!(empty.can_calculate_trend(1));
}

#[test]
fn long_spans_and_large_times_are_exact() {
    // Times far apart and near the top of u64: the slope is still exact.
    let t = tracker_with(10, &[(u64::MAX - 3_000_000_000, 0), (u64::MAX, 3_000_000)]);
    assert!(t.can_calculate_trend(2));
    let a = t.calculate_trend(2);
    assert!(equals(&a.slope, 1, 1000));
    assert_eq!(a.trend_duration, 3_000_000_000);
    assert_eq!(a.direction, TrendDirection::Sideways);
    // Many samples on a line: a full-strength uptrend.
    let mut big = PriceTrendTracker::new(100_000);
    for i in 0..40_000u64 {
        big.add_price(i * 1_000, 100_000 + i as u32);
    }
    let b = big.calculate_trend(2);
    assert_eq!(b.direction, TrendDirection::Sideways);
    assert!(equals(&b.slope, 1, 1000));
    assert!(equals(&b.strength.consistency, 1, 1));
    assert!(strength_equals(&b.strength, 1, 1_000_000));
}
