use simtrack::market::{PriceBook, TokenPrice};
use simtrack::natural::Natural;
use simtrack::model::{FillOutcome, MarketStatus, MarketToken, PendingStatus};
use simtrack::token::TokenType;
use simtrack::tracker::{make_order_key, winning_token, SimulationTracker};
use simtrack::units::{amount, AMOUNT_PER_DOLLAR, ONE_DOLLAR, ONE_SHARE};

const TOKEN_A: &str = "11111111111111111111111111111111111111";
const TOKEN_B: &str = "22222222222222222222222222222222222222";
const MARKET: &str = "0xmarket-condition-identifier-0001";

fn s(x: &str) -> String {
    x.to_string()
}

fn book(entries: &[(&str, Option<u32>, Option<u32>)]) -> PriceBook {
    let mut b = PriceBook::new();
    for (token, bid, ask) in entries {
        b.insert(s(token), TokenPrice { bid: *bid, ask: *ask });
    }
    b
}

fn buy_order(t: &mut SimulationTracker, token: &str, tt: TokenType, price: u32, size: u64) -> (usize, usize) {
    t.add_limit_order(s(token), tt, s(MARKET), price, size, s("BUY"), 1_700_000_000)
}

#[test]
fn amounts_are_exact_products() {
    assert_eq!(amount(10 * ONE_SHARE, 450_000), 2 * 10 * 450_000 * 1_000_000);
    assert_eq!(amount(ONE_SHARE, ONE_DOLLAR), AMOUNT_PER_DOLLAR);
    assert_eq!(amount(0, ONE_DOLLAR), 0);
}

#[test]
fn token_labels() {
    assert!(TokenType::BtcUp.is_up());
    assert!(!TokenType::XrpDown.is_up());
    assert_eq!(TokenType::SolanaUp.market_name(), "SOL");
    assert_eq!(TokenType::EthDown.direction_label(), "Down");
    assert_eq!(TokenType::BtcUp.display_name(), "BTC Up");
    assert_eq!(TokenType::XrpDown.display_name(), "XRP Down");
}

#[test]
fn price_book_replaces_and_finds() {
    let mut b = PriceBook::new();
    assert!(b.is_empty());
    b.insert(s(TOKEN_A), TokenPrice { bid: Some(1), ask: Some(3) });
    b.insert(s(TOKEN_A), TokenPrice { bid: Some(400_000), ask: Some(410_000) });
    assert_eq!(b.len(), 1);
    let p = b.get(&s(TOKEN_A)).unwrap();
    assert_eq!(p.bid, Some(400_000));
    assert_eq!(p.mid_price_halves(), Some(810_000));
    assert!(b.get(&s(TOKEN_B)).is_none());
    assert_eq!(TokenPrice { bid: Some(1), ask: Some(2) }.mid_price_halves(), Some(3));
    assert_eq!(TokenPrice { bid: None, ask: Some(2) }.mid_price_halves(), None);
}

#[test]
fn order_key_joins_token_and_side() {
    assert_eq!(make_order_key("abc", "BUY"), "abc_BUY");
}

#[test]
fn adding_orders_counts_and_replaces() {
    let mut t = SimulationTracker::new(100 * ONE_DOLLAR as u64);
    assert_eq!(buy_order(&mut t, TOKEN_A, TokenType::BtcUp, 450_000, 10 * ONE_SHARE), (1, 1));
    assert_eq!(buy_order(&mut t, TOKEN_B, TokenType::BtcDown, 500_000, ONE_SHARE), (2, 2));
    // Same token and side: replaced, not added.
    assert_eq!(buy_order(&mut t, TOKEN_A, TokenType::BtcUp, 460_000, 10 * ONE_SHARE), (2, 2));
    let r = t.add_limit_order(s(TOKEN_A), TokenType::BtcUp, s(MARKET), 600_000, ONE_SHARE, s("SELL"), 1);
    assert_eq!(r, (3, 3));
    assert_eq!(t.get_pending_order_count(), 3);
    assert_eq!(t.get_pending_order_token_ids(), vec![s(TOKEN_A), s(TOKEN_B), s(TOKEN_A)]);
}

#[test]
fn cancel_removes_only_that_order() {
    let mut t = SimulationTracker::new(0);
    buy_order(&mut t, TOKEN_A, TokenType::EthUp, 450_000, ONE_SHARE);
    buy_order(&mut t, TOKEN_B, TokenType::EthDown, 450_000, ONE_SHARE);
    assert_eq!(t.cancel_limit_order(TOKEN_A, "SELL"), (false, 2));
    assert_eq!(t.cancel_limit_order(TOKEN_A, "BUY"), (true, 1));
    assert_eq!(t.cancel_limit_order(TOKEN_A, "BUY"), (false, 1));
    assert_eq!(t.get_pending_order_token_ids(), vec![s(TOKEN_B)]);
}

#[test]
fn cancel_after_add_restores_the_book() {
    let mut t = SimulationTracker::new(0);
    buy_order(&mut t, TOKEN_B, TokenType::EthDown, 450_000, ONE_SHARE);
    buy_order(&mut t, TOKEN_A, TokenType::EthUp, 300_000, ONE_SHARE);
    t.cancel_limit_order(TOKEN_A, "BUY");
    assert_eq!(t.get_pending_order_count(), 1);
    assert_eq!(t.get_pending_order_token_ids(), vec![s(TOKEN_B)]);
}

#[test]
fn market_buy_opens_a_position() {
    let mut t = SimulationTracker::new(100 * ONE_DOLLAR as u64);
    let cost = t.add_market_buy_position(s(TOKEN_A), TokenType::SolanaUp, s(MARKET), 400_000, 5 * ONE_SHARE, 7);
    assert_eq!(cost, 2 * AMOUNT_PER_DOLLAR);
    assert!(t.has_position(TOKEN_A));
    assert!(!t.has_position(TOKEN_B));
    assert_eq!(t.get_total_spending_and_earnings(), (2 * AMOUNT_PER_DOLLAR, 2 * AMOUNT_PER_DOLLAR, 0));
    let all = t.get_all_positions();
    assert_eq!(all.len(), 1);
    assert_eq!(all[0].purchase_price, 400_000);
    assert_eq!(all[0].investment_amount, 2 * AMOUNT_PER_DOLLAR);
    assert_eq!(all[0].sell_price, None);
    t.set_position_sell_price(TOKEN_A, 600_000);
    assert_eq!(t.get_all_positions()[0].sell_price, Some(600_000));
    assert_eq!(t.get_position_token_ids(), vec![s(TOKEN_A)]);
}

#[test]
fn no_prices_means_no_check() {
    let mut t = SimulationTracker::new(0);
    buy_order(&mut t, TOKEN_A, TokenType::BtcUp, 450_000, ONE_SHARE);
    let r = t.check_limit_orders(&PriceBook::new());
    assert_eq!(r.skipped, Some(1));
    assert!(r.checks.is_empty() && r.fills.is_empty());
    assert_eq!(t.get_pending_order_count(), 1);
}

#[test]
fn buy_fills_at_the_ask_when_it_reaches_the_limit() {
    let mut t = SimulationTracker::new(100 * ONE_DOLLAR as u64);
    buy_order(&mut t, TOKEN_A, TokenType::BtcUp, 450_000, 10 * ONE_SHARE);
    buy_order(&mut t, TOKEN_B, TokenType::BtcDown, 450_000, 10 * ONE_SHARE);
    let prices = book(&[(TOKEN_A, Some(430_000), Some(440_000)), (TOKEN_B, Some(460_000), Some(470_000))]);
    let r = t.check_limit_orders(&prices);
    assert_eq!(r.skipped, None);
    assert_eq!(r.checks.len(), 2);
    assert!(r.checks[0].fill);
    assert!(!r.checks[1].fill);
    assert_eq!(r.fills.len(), 1);
    match &r.fills[0] {
        FillOutcome::Bought { order, fill_price, investment, open_positions, total_invested, total_realized } => {
            assert_eq!(order.token_id, TOKEN_A);
            assert!(order.filled);
            assert_eq!(*fill_price, 440_000);
            assert_eq!(*investment, 44 * AMOUNT_PER_DOLLAR / 10);
            assert_eq!(*open_positions, 1);
            assert_eq!(*total_invested, 44 * AMOUNT_PER_DOLLAR / 10);
            assert_eq!(*total_realized, 0);
        },
        _ => panic!("expected a buy fill"),
    }
    assert_eq!(t.get_pending_order_count(), 1);
    assert_eq!(t.get_pending_order_token_ids(), vec![s(TOKEN_B)]);
    // Checking again fills nothing more.
    let again = t.check_limit_orders(&prices);
    assert_eq!(again.fills.len(), 0);
}

#[test]
fn zero_ask_or_missing_quote_does_not_fill() {
    let mut t = SimulationTracker::new(0);
    buy_order(&mut t, TOKEN_A, TokenType::BtcUp, 450_000, ONE_SHARE);
    t.add_limit_order(s(TOKEN_B), TokenType::BtcDown, s(MARKET), 100_000, ONE_SHARE, s("SELL"), 1);
    let prices = book(&[(TOKEN_A, Some(1), Some(0)), (TOKEN_B, None, Some(900_000))]);
    let r = t.check_limit_orders(&prices);
    assert_eq!(r.checks.len(), 2);
    assert!(r.fills.is_empty());
    assert_eq!(t.get_pending_order_count(), 2);
}

#[test]
fn sell_fill_closes_the_position_and_realizes_profit() {
    let mut t = SimulationTracker::new(100 * ONE_DOLLAR as u64);
    t.add_market_buy_position(s(TOKEN_A), TokenType::EthUp, s(MARKET), 400_000, 10 * ONE_SHARE, 1);
    t.add_limit_order(s(TOKEN_A), TokenType::EthUp, s(MARKET), 500_000, 10 * ONE_SHARE, s("SELL"), 1);
    let r = t.check_limit_orders(&book(&[(TOKEN_A, Some(550_000), Some(560_000))]));
    assert_eq!(r.fills.len(), 1);
    match &r.fills[0] {
        FillOutcome::Sold { fill_price, realized_pnl, position, .. } => {
            assert_eq!(*fill_price, 550_000);
            // (0.55 - 0.40) * 10 shares = $1.50
            assert_eq!(*realized_pnl, 3 * AMOUNT_PER_DOLLAR / 2);
            assert!(position.sold);
            assert_eq!(position.sell_price_actual, Some(550_000));
        },
        _ => panic!("expected a sell fill"),
    }
    assert_eq!(t.get_total_spending_and_earnings(), (4 * AMOUNT_PER_DOLLAR, 4 * AMOUNT_PER_DOLLAR + 3 * AMOUNT_PER_DOLLAR / 2, 3 * AMOUNT_PER_DOLLAR / 2));
    assert!(t.get_all_positions().is_empty());
    assert!(t.has_position(TOKEN_A));
}

#[test]
fn sell_without_position_and_unknown_side() {
    let mut t = SimulationTracker::new(0);
    t.add_limit_order(s(TOKEN_A), TokenType::EthUp, s(MARKET), 500_000, ONE_SHARE, s("SELL"), 1);
    t.add_limit_order(s(TOKEN_B), TokenType::EthUp, s(MARKET), 500_000, ONE_SHARE, s("HOLD"), 1);
    let r = t.check_limit_orders(&book(&[(TOKEN_A, Some(600_000), None), (TOKEN_B, Some(1), Some(1))]));
    assert_eq!(r.fills.len(), 1);
    assert!(matches!(r.fills[0], FillOutcome::SoldWithoutPosition { fill_price: 600_000, .. }));
    // The sell order was marked filled; the unknown side never fills.
    assert_eq!(t.get_pending_order_token_ids(), vec![s(TOKEN_B)]);
}

#[test]
fn resolving_a_market_pays_the_winning_side() {
    let mut t = SimulationTracker::new(100 * ONE_DOLLAR as u64);
    t.add_market_buy_position(s(TOKEN_A), TokenType::XrpUp, s(MARKET), 400_000, 10 * ONE_SHARE, 1);
    t.add_market_buy_position(s(TOKEN_B), TokenType::XrpDown, s(MARKET), 500_000, 2 * ONE_SHARE, 1);
    t.add_market_buy_position(s("other-token"), TokenType::XrpUp, s("other-market"), 500_000, ONE_SHARE, 1);
    let r = t.resolve_market_positions(MARKET, true);
    assert_eq!(r.total_spent, 5 * AMOUNT_PER_DOLLAR);
    assert_eq!(r.total_earned, 10 * AMOUNT_PER_DOLLAR);
    assert_eq!(r.net_pnl, 5 * AMOUNT_PER_DOLLAR);
    assert_eq!(r.closed.len(), 2);
    assert!(r.closed[0].won && !r.closed[1].won);
    assert_eq!(r.closed[0].payout, ONE_DOLLAR);
    assert_eq!(r.closed[1].payout, 0);
    assert_eq!(r.closed[1].pnl, -AMOUNT_PER_DOLLAR);
    let (_, earned, realized) = t.get_total_spending_and_earnings();
    assert_eq!(realized, 5 * AMOUNT_PER_DOLLAR);
    // invested 4 + 1 + 0.5, plus 5 realized
    assert_eq!(earned, 105 * AMOUNT_PER_DOLLAR / 10);
    assert_eq!(t.get_position_token_ids(), vec![s("other-token")]);
    // A second resolution finds nothing open.
    let again = t.resolve_market_positions(MARKET, false);
    assert_eq!((again.total_spent, again.total_earned, again.net_pnl), (0, 0, 0));
    assert!(again.closed.is_empty());
}

#[test]
fn settling_uses_the_winning_token() {
    let mut t = SimulationTracker::new(10 * ONE_DOLLAR as u64);
    t.add_market_buy_position(s(TOKEN_A), TokenType::BtcUp, s(MARKET), 300_000, ONE_SHARE, 1);
    t.add_market_buy_position(s(TOKEN_B), TokenType::BtcDown, s(MARKET), 600_000, ONE_SHARE, 1);
    assert_eq!(t.unsettled_condition_ids(), vec![s(MARKET)]);
    let open = MarketStatus { closed: false, tokens: vec![] };
    assert!(t.settle_closed_market(MARKET, &open).is_none());
    let closed = MarketStatus {
        closed: true,
        tokens: vec![
            MarketToken { token_id: s(TOKEN_A), winner: false },
            MarketToken { token_id: s(TOKEN_B), winner: true },
        ],
    };
    let r = t.settle_closed_market(MARKET, &closed).unwrap();
    assert_eq!(r.net_pnl, AMOUNT_PER_DOLLAR / 10);
    assert!(!r.closed[0].won && r.closed[1].won);
    assert!(t.unsettled_condition_ids().is_empty());
}

#[test]
fn settling_without_a_winner_pays_nothing() {
    let mut t = SimulationTracker::new(0);
    t.add_market_buy_position(s(TOKEN_A), TokenType::BtcUp, s(MARKET), 300_000, ONE_SHARE, 1);
    let r = t.settle_positions_for_market(MARKET, None);
    assert_eq!(r.total_earned, 0);
    assert_eq!(r.net_pnl, -3 * AMOUNT_PER_DOLLAR / 10);
}

#[test]
fn winner_is_the_first_flagged_token() {
    let tokens = vec![
        MarketToken { token_id: s("a"), winner: false },
        MarketToken { token_id: s("b"), winner: true },
        MarketToken { token_id: s("c"), winner: true },
    ];
    assert_eq!(winning_token(&tokens), Some(s("b")));
    assert_eq!(winning_token(&vec![]), None);
}

#[test]
fn unsettled_markets_are_listed_once() {
    let mut t = SimulationTracker::new(0);
    t.add_market_buy_position(s("t1"), TokenType::BtcUp, s("m1"), 1, 1, 1);
    t.add_market_buy_position(s("t2"), TokenType::BtcDown, s("m2"), 1, 1, 1);
    t.add_market_buy_position(s("t3"), TokenType::BtcDown, s("m1"), 1, 1, 1);
    assert_eq!(t.unsettled_condition_ids(), vec![s("m1"), s("m2")]);
}

#[test]
fn unrealized_profit_uses_the_midpoint() {
    let mut t = SimulationTracker::new(100 * ONE_DOLLAR as u64);
    t.add_market_buy_position(s(TOKEN_A), TokenType::EthUp, s(MARKET), 400_000, 10 * ONE_SHARE, 1);
    t.add_market_buy_position(s(TOKEN_B), TokenType::EthDown, s(MARKET), 600_000, 10 * ONE_SHARE, 1);
    // A: mid 0.50 -> +1.00; B: no price entry -> not counted.
    let prices = book(&[(TOKEN_A, Some(490_000), Some(510_000))]);
    assert_eq!(t.calculate_unrealized_pnl(&prices), AMOUNT_PER_DOLLAR);
    let summary = t.get_position_summary(&prices);
    assert_eq!(summary.unrealized_pnl, AMOUNT_PER_DOLLAR);
    assert_eq!(summary.total_pnl, AMOUNT_PER_DOLLAR);
    assert_eq!(summary.final_balance, 101 * AMOUNT_PER_DOLLAR);
    assert_eq!(summary.initial_capital, 100 * ONE_DOLLAR as u64);
    assert_eq!(summary.open_positions.len(), 2);
    // Mark prices in half micro-dollars.
    assert_eq!(summary.open_positions[0].current_price_halves, 1_000_000);
    assert_eq!(summary.open_positions[1].current_price_halves, 1_200_000);
    assert_eq!(summary.open_positions[1].unrealized, 0);
    let line_sum: i128 = summary.open_positions.iter().map(|l| l.unrealized).sum();
    assert_eq!(line_sum, summary.unrealized_pnl);
}

#[test]
fn buying_again_replaces_a_closed_position() {
    let mut t = SimulationTracker::new(0);
    t.add_market_buy_position(s(TOKEN_A), TokenType::EthUp, s(MARKET), 400_000, ONE_SHARE, 1);
    t.resolve_market_positions(MARKET, false);
    assert!(t.get_all_positions().is_empty());
    buy_order(&mut t, TOKEN_A, TokenType::EthUp, 300_000, 2 * ONE_SHARE);
    let r = t.check_limit_orders(&book(&[(TOKEN_A, None, Some(250_000))]));
    assert_eq!(r.fills.len(), 1);
    let open = t.get_all_positions();
    assert_eq!(open.len(), 1);
    assert_eq!(open[0].purchase_price, 250_000);
    assert_eq!(open[0].units, 2 * ONE_SHARE);
    // Invested counts both purchases; the first one's loss stays realized.
    assert_eq!(t.get_total_spending_and_earnings(), (9 * AMOUNT_PER_DOLLAR / 10, AMOUNT_PER_DOLLAR / 2, -4 * AMOUNT_PER_DOLLAR / 10));
}

#[test]
fn unrealized_profit_uses_the_exact_midpoint() {
    let mut t = SimulationTracker::new(100 * ONE_DOLLAR as u64);
    t.add_market_buy_position(s(TOKEN_A), TokenType::EthUp, s(MARKET), 400_000, 10 * ONE_SHARE, 1);
    // Mid 0.5000005: (0.5000005 - 0.40) * 10 = 1.000005 dollars.
    let prices = book(&[(TOKEN_A, Some(490_000), Some(510_001))]);
    assert_eq!(t.calculate_unrealized_pnl(&prices), 1_000_005 * AMOUNT_PER_DOLLAR / 1_000_000);
    let summary = t.get_position_summary(&prices);
    assert_eq!(summary.open_positions[0].current_price_halves, 1_000_001);
    assert_eq!(summary.open_positions[0].unrealized, 1_000_005 * AMOUNT_PER_DOLLAR / 1_000_000);
}

#[test]
fn return_on_capital_is_exact() {
    let mut t = SimulationTracker::new(1000 * ONE_DOLLAR as u64);
    t.add_market_buy_position(s(TOKEN_A), TokenType::EthUp, s(MARKET), ONE_DOLLAR, ONE_SHARE, 1);
    // A profit of 1.23456 dollars on 1000 dollars of capital: 0.123456%.
    let prices = book(&[(TOKEN_A, Some(2_234_560), Some(2_234_560))]);
    let summary = t.get_position_summary(&prices);
    assert_eq!(summary.total_pnl, 123_456 * AMOUNT_PER_DOLLAR / 100_000);
    assert_eq!(summary.initial_capital, 1000 * ONE_DOLLAR as u64);
    let capital = summary.initial_capital as f64 / ONE_DOLLAR as f64;
    let roi_pct = summary.total_pnl as f64 / AMOUNT_PER_DOLLAR as f64 / capital * 100.0;
    assert!((roi_pct - 0.123456).abs() < 1e-12);
}

#[test]
fn final_report_counts_trades() {
    let mut t = SimulationTracker::new(10 * ONE_DOLLAR as u64);
    t.add_market_buy_position(s("w"), TokenType::BtcUp, s("m1"), 400_000, ONE_SHARE, 1);
    t.add_market_buy_position(s("l"), TokenType::BtcDown, s("m1"), 600_000, ONE_SHARE, 1);
    t.add_market_buy_position(s("o"), TokenType::EthUp, s("m2"), 500_000, ONE_SHARE, 1);
    buy_order(&mut t, "pending", TokenType::EthDown, 100_000, ONE_SHARE);
    t.resolve_market_positions("m1", true);
    let r = t.final_report();
    assert_eq!(r.winning_trades, 1);
    assert_eq!(r.losing_trades, 1);
    assert_eq!(r.open_positions, 1);
    assert_eq!(r.total_trades, 3);
    assert_eq!(r.pending_limit_orders, 1);
    // +0.60 - 0.60 = 0
    assert_eq!(r.total_realized_pnl, 0);
    assert_eq!(r.final_balance, 10 * AMOUNT_PER_DOLLAR);
    assert_eq!(r.positions.len(), 3);
    assert_eq!(r.positions[0].pnl, 6 * AMOUNT_PER_DOLLAR / 10);
    assert!(r.positions[1].closed && !r.positions[2].closed);
}

#[test]
fn pending_summary_reports_status() {
    let mut t = SimulationTracker::new(0);
    buy_order(&mut t, "ready", TokenType::BtcUp, 500_000, ONE_SHARE);
    buy_order(&mut t, "near", TokenType::BtcUp, 500_000, ONE_SHARE);
    buy_order(&mut t, "far", TokenType::BtcUp, 500_000, ONE_SHARE);
    buy_order(&mut t, "noask", TokenType::BtcUp, 500_000, ONE_SHARE);
    buy_order(&mut t, "noprice", TokenType::BtcUp, 500_000, ONE_SHARE);
    t.add_limit_order(s("sell"), TokenType::BtcUp, s(MARKET), 500_000, ONE_SHARE, s("SELL"), 1);
    t.add_limit_order(s("odd"), TokenType::BtcUp, s(MARKET), 500_000, ONE_SHARE, s("X"), 1);
    let prices = book(&[
        ("ready", None, Some(490_000)),
        ("near", None, Some(500_100)),
        ("far", None, Some(500_101)),
        ("noask", Some(1), None),
        ("sell", Some(499_900), None),
        ("odd", Some(1), Some(1)),
    ]);
    let lines = t.pending_orders_summary(&prices);
    let statuses: Vec<(u32, PendingStatus)> = lines.iter().map(|l| (l.current_price, l.status)).collect();
    assert_eq!(
        statuses,
        vec![
            (490_000, PendingStatus::Ready),
            (500_100, PendingStatus::Ready),
            (500_101, PendingStatus::Waiting),
            (0, PendingStatus::NoAsk),
            (0, PendingStatus::NoPriceData),
            (499_900, PendingStatus::Ready),
            (0, PendingStatus::UnknownSide),
        ]
    );
}

#[test]
fn price_trackers_by_period_and_token() {
    let mut t = SimulationTracker::new(0);
    for i in 0..4u64 {
        t.track_price(100, TOKEN_A, i * 10, 500_000 + 10_000 * i as u32, 3);
    }
    t.track_price(200, TOKEN_A, 0, 500_000, 5);
    assert_eq!(t.tracker_sample_count(100, TOKEN_A), 3);
    assert_eq!(t.tracker_sample_count(200, TOKEN_A), 1);
    assert_eq!(t.tracker_sample_count(100, TOKEN_B), 0);
    assert!(t.can_analyze_trend(100, TOKEN_A, 3));
    let a = t.get_trend_analysis(100, TOKEN_A, 3).unwrap();
    assert_eq!(a.trend_duration, 20);
    assert!(t.is_token_uptrending(100, TOKEN_A, 500_000, 3));
    let (up, strength, slope) = t.get_trend_for_hedge(100, TOKEN_A, 3).unwrap();
    assert!(up);
    assert!(strength.slope_factor.num.le(&strength.slope_factor.den) && strength.slope_factor.den.le(&strength.slope_factor.num));
    assert!(strength.consistency.num.le(&strength.consistency.den) && strength.consistency.den.le(&strength.consistency.num));
    let thousand_den = Natural::from_u64(1000).mul(&slope.den);
    assert!(!slope.negative && slope.num.le(&thousand_den) && thousand_den.le(&slope.num));
    assert!(t.get_trend_analysis(100, TOKEN_B, 3).is_none());
    assert!(!t.is_token_uptrending(100, TOKEN_B, 0, 3));
    t.clear_period_trackers(100);
    assert_eq!(t.tracker_sample_count(100, TOKEN_A), 0);
    assert_eq!(t.tracker_sample_count(200, TOKEN_A), 1);
}

#[test]
fn room_for_trades() {
    let t = SimulationTracker::new(0);
    assert!(t.has_room(1000));
    assert!(!t.has_room(usize::MAX));
}

#[test]
fn checking_again_leaves_filled_orders_alone() {
    let mut t = SimulationTracker::new(100 * ONE_DOLLAR as u64);
    buy_order(&mut t, TOKEN_A, TokenType::SolanaUp, 450_000, ONE_SHARE);
    buy_order(&mut t, TOKEN_B, TokenType::SolanaDown, 450_000, ONE_SHARE);
    let before = t.get_pending_order_count();
    let first = t.check_limit_orders(&book(&[(TOKEN_A, Some(400_000), Some(440_000))]));
    assert_eq!(first.fills.len(), 1);
    let after_first = t.get_pending_order_count();
    assert!(after_first <= before);
    // A lower ask later neither refills nor reprices the filled order.
    let second = t.check_limit_orders(&book(&[(TOKEN_A, Some(100_000), Some(110_000))]));
    assert!(second.fills.is_empty());
    assert_eq!(t.get_pending_order_count(), after_first);
    assert_eq!(t.get_all_positions()[0].purchase_price, 440_000);
}

#[test]
fn open_position_ids_match_the_positions() {
    let mut t = SimulationTracker::new(0);
    t.add_market_buy_position(s("t1"), TokenType::EthUp, s("m1"), 1, 1, 1);
    t.add_market_buy_position(s("t2"), TokenType::EthDown, s("m1"), 1, 1, 1);
    t.add_market_buy_position(s("t1"), TokenType::EthUp, s("m1"), 2, 1, 1);
    let ids = t.get_position_token_ids();
    let from_positions: Vec<String> = t.get_all_positions().iter().map(|p| p.token_id.clone()).collect();
    assert_eq!(ids, from_positions);
    assert_eq!(ids, vec![s("t1"), s("t2")]);
    assert!(ids.iter().all(|id| t.has_position(id)));
}

#[test]
fn clearing_a_period_twice_is_clearing_it_once() {
    let mut t = SimulationTracker::new(0);
    t.track_price(100, TOKEN_A, 0, 500_000, 3);
    t.track_price(200, TOKEN_A, 0, 500_000, 3);
    t.clear_period_trackers(100);
    t.clear_period_trackers(100);
    assert_eq!(t.tracker_sample_count(100, TOKEN_A), 0);
    assert_eq!(t.tracker_sample_count(200, TOKEN_A), 1);
}

#[test]
fn tracking_keeps_the_window_of_an_existing_tracker() {
    let mut t = SimulationTracker::new(0);
    t.track_price(100, TOKEN_A, 0, 500_000, 2);
    // The size given later is ignored for an existing tracker.
    t.track_price(100, TOKEN_A, 10, 510_000, 50);
    t.track_price(100, TOKEN_A, 20, 520_000, 50);
    assert_eq!(t.tracker_sample_count(100, TOKEN_A), 2);
    let a = t.get_trend_analysis(100, TOKEN_A, 2).unwrap();
    assert_eq!(a.trend_duration, 10);
    assert_eq!(a.price_change, 10_000);
    // A tracker created with no room keeps nothing.
    t.track_price(300, TOKEN_B, 0, 500_000, 0);
    assert_eq!(t.tracker_sample_count(300, TOKEN_B), 0);
}
