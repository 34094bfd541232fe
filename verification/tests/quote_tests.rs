use rust_decimal::Decimal;
use simtrack::quotes::{decimal_to_micro, micro_from_parts, quote_from_decimals};

#[test]
fn decimal_prices_become_micro_dollars() {
    assert_eq!(decimal_to_micro(&Decimal::new(455, 3)), 455_000);
    assert_eq!(decimal_to_micro(&Decimal::new(1, 0)), 1_000_000);
    assert_eq!(decimal_to_micro(&Decimal::new(4_555_555, 7)), 455_556);
    assert_eq!(decimal_to_micro(&Decimal::new(4_555_554, 7)), 455_555);
    assert_eq!(decimal_to_micro(&Decimal::new(-5, 1)), 0);
    assert_eq!(decimal_to_micro(&Decimal::new(5_000, 0)), u32::MAX);
}

#[test]
fn parts_round_half_up_and_clamp() {
    assert_eq!(micro_from_parts(5, 7), 1);
    assert_eq!(micro_from_parts(4, 7), 0);
    assert_eq!(micro_from_parts(-1, 7), 0);
    assert_eq!(micro_from_parts(12, 0), 12_000_000);
    assert_eq!(micro_from_parts(1, 40), 0);
    assert_eq!(micro_from_parts(4_294_967_295, 6), u32::MAX);
    assert_eq!(micro_from_parts(4_294_967_296, 6), u32::MAX);
}

#[test]
fn quotes_keep_missing_sides() {
    let q = quote_from_decimals(Some(Decimal::new(49, 2)), None);
    assert_eq!(q.bid, Some(490_000));
    assert_eq!(q.ask, None);
}
