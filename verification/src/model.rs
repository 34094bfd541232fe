//! The mathematical model of the simulation state and of every operation
//! on it. The executable tracker (`tracker`) is proved to follow it.

use std::time::Instant;
use vstd::prelude::*;
use crate::keyed::find_key;
use crate::market::{mid_halves, price_in, TokenPrice};
use crate::sums::seq_sum;
use crate::token::TokenType;
use crate::trend::window;
use crate::units::{amount_of, gain_of, trade_bound, ONE_DOLLAR};

verus! {

/// A pending or filled limit order.
#[derive(Debug)]
pub struct SimulatedLimitOrder {
    pub token_id: String,
    pub token_type: TokenType,
    pub condition_id: String,
    /// Limit price in micro-dollars.
    pub target_price: u32,
    /// Quantity in millionths of a share.
    pub size: u64,
    /// "BUY" or "SELL".
    pub side: String,
    pub timestamp: Instant,
    pub period_timestamp: u64,
    pub filled: bool,
}

/// An open or closed position.
#[derive(Debug)]
pub struct SimulatedPosition {
    pub token_id: String,
    pub token_type: TokenType,
    pub condition_id: String,
    /// Price paid per share, in micro-dollars.
    pub purchase_price: u32,
    /// Quantity in millionths of a share.
    pub units: u64,
    /// `units * purchase_price`, an amount (see `units`).
    pub investment_amount: i128,
    /// Target sell price, once a sell order is placed.
    pub sell_price: Option<u32>,
    pub purchase_timestamp: Instant,
    pub period_timestamp: u64,
    pub sold: bool,
    /// Price actually received when sold or resolved.
    pub sell_price_actual: Option<u32>,
    pub sell_timestamp: Option<Instant>,
}

/// What the logic reads of an order (clock readings left out).
pub struct OrderView {
    pub token_id: Seq<char>,
    pub token_type: TokenType,
    pub condition_id: Seq<char>,
    pub target_price: u32,
    pub size: u64,
    pub side: Seq<char>,
    pub period_timestamp: u64,
    pub filled: bool,
}

/// What the logic reads of a position (of the clock readings, only
/// whether the time of the sale was recorded).
pub struct PositionView {
    pub token_id: Seq<char>,
    pub token_type: TokenType,
    pub condition_id: Seq<char>,
    pub purchase_price: u32,
    pub units: u64,
    pub investment_amount: int,
    pub sell_price: Option<u32>,
    pub period_timestamp: u64,
    pub sold: bool,
    pub sell_price_actual: Option<u32>,
    /// The time of the sale or settlement is recorded.
    pub sale_time_recorded: bool,
}

/// A price history kept for one (period, token) pair.
pub struct TrackerView {
    pub period: u64,
    pub token_id: Seq<char>,
    pub history: Seq<(u64, u32)>,
    pub max_size: nat,
}

/// The whole simulation state.
pub struct SimView {
    /// Orders by key (`order_key` of token and side), in insertion order.
    pub orders: Seq<(Seq<char>, OrderView)>,
    /// Positions, one per token id, in insertion order.
    pub positions: Seq<PositionView>,
    /// Sum of the amounts of every position ever opened.
    pub invested: int,
    /// Sum of all realized profit and loss.
    pub realized: int,
    pub trackers: Seq<TrackerView>,
    /// Starting capital in micro-dollars.
    pub initial_capital: int,
}

impl View for SimulatedLimitOrder {
    type V = OrderView;

    open spec fn view(&self) -> OrderView {
        OrderView {
            token_id: self.token_id@,
            token_type: self.token_type,
            condition_id: self.condition_id@,
            target_price: self.target_price,
            size: self.size,
            side: self.side@,
            period_timestamp: self.period_timestamp,
            filled: self.filled,
        }
    }
}

impl View for SimulatedPosition {
    type V = PositionView;

    open spec fn view(&self) -> PositionView {
        PositionView {
            token_id: self.token_id@,
            token_type: self.token_type,
            condition_id: self.condition_id@,
            purchase_price: self.purchase_price,
            units: self.units,
            investment_amount: self.investment_amount as int,
            sell_price: self.sell_price,
            period_timestamp: self.period_timestamp,
            sold: self.sold,
            sell_price_actual: self.sell_price_actual,
            sale_time_recorded: self.sell_timestamp is Some,
        }
    }
}

impl Clone for SimulatedLimitOrder {
    fn clone(&self) -> (r: Self)
        ensures
            r@ == self@,
    {
        SimulatedLimitOrder {
            token_id: self.token_id.clone(),
            token_type: self.token_type,
            condition_id: self.condition_id.clone(),
            target_price: self.target_price,
            size: self.size,
            side: self.side.clone(),
            timestamp: self.timestamp,
            period_timestamp: self.period_timestamp,
            filled: self.filled,
        }
    }
}

impl Clone for SimulatedPosition {
    fn clone(&self) -> (r: Self)
        ensures
            r@ == self@,
    {
        SimulatedPosition {
            token_id: self.token_id.clone(),
            token_type: self.token_type,
            condition_id: self.condition_id.clone(),
            purchase_price: self.purchase_price,
            units: self.units,
            investment_amount: self.investment_amount,
            sell_price: self.sell_price,
            purchase_timestamp: self.purchase_timestamp,
            period_timestamp: self.period_timestamp,
            sold: self.sold,
            sell_price_actual: self.sell_price_actual,
            sell_timestamp: self.sell_timestamp,
        }
    }
}

// ---------------------------------------------------------------------------
// Keys and lookups
// ---------------------------------------------------------------------------

/// The key of an order: token id, an underscore, and the side.
pub open spec fn order_key(token_id: Seq<char>, side: Seq<char>) -> Seq<char> {
    token_id + "_"@ + side
}

pub open spec fn order_keys(orders: Seq<(Seq<char>, OrderView)>) -> Seq<Seq<char>> {
    orders.map_values(|e: (Seq<char>, OrderView)| e.0)
}

pub open spec fn position_keys(positions: Seq<PositionView>) -> Seq<Seq<char>> {
    positions.map_values(|p: PositionView| p.token_id)
}

pub open spec fn tracker_keys(trackers: Seq<TrackerView>) -> Seq<(u64, Seq<char>)> {
    trackers.map_values(|t: TrackerView| (t.period, t.token_id))
}

pub open spec fn order_at(s: SimView, key: Seq<char>) -> Option<OrderView> {
    let i = find_key(order_keys(s.orders), key);
    if i >= 0 { Some(s.orders[i].1) } else { None }
}

pub open spec fn position_for(s: SimView, token_id: Seq<char>) -> Option<PositionView> {
    let i = find_key(position_keys(s.positions), token_id);
    if i >= 0 { Some(s.positions[i]) } else { None }
}

pub open spec fn tracker_for(s: SimView, period: u64, token_id: Seq<char>) -> Option<TrackerView> {
    let i = find_key(tracker_keys(s.trackers), (period, token_id));
    if i >= 0 { Some(s.trackers[i]) } else { None }
}

/// Every position's amount is its quantity times its price.
pub open spec fn amounts_consistent(positions: Seq<PositionView>) -> bool {
    forall|i: int|
        0 <= i < positions.len() ==> (#[trigger] positions[i]).investment_amount == amount_of(
            positions[i].units,
            positions[i].purchase_price,
        )
}

/// What every reachable state satisfies.
pub open spec fn state_wf(s: SimView) -> bool {
    &&& order_keys(s.orders).no_duplicates()
    &&& position_keys(s.positions).no_duplicates()
    &&& tracker_keys(s.trackers).no_duplicates()
    &&& amounts_consistent(s.positions)
    &&& s.invested >= 0
}

/// Half the range of the running totals, within which they are kept.
pub open spec fn total_limit() -> int {
    0x2000_0000_0000_0000_0000_0000_0000_0000
}

/// Room for `k` more trades without leaving the range of the running totals.
pub open spec fn room(s: SimView, k: int) -> bool {
    &&& s.invested + k * trade_bound() <= total_limit()
    &&& s.realized + k * trade_bound() <= total_limit()
    &&& s.realized - k * trade_bound() >= -total_limit()
}

// ---------------------------------------------------------------------------
// Orders
// ---------------------------------------------------------------------------

pub open spec fn upsert_order(
    orders: Seq<(Seq<char>, OrderView)>,
    key: Seq<char>,
    o: OrderView,
) -> Seq<(Seq<char>, OrderView)> {
    let i = find_key(order_keys(orders), key);
    if i >= 0 { orders.update(i, (key, o)) } else { orders.push((key, o)) }
}

pub open spec fn remove_order(orders: Seq<(Seq<char>, OrderView)>, key: Seq<char>) -> Seq<(Seq<char>, OrderView)> {
    let i = find_key(order_keys(orders), key);
    if i >= 0 { orders.remove(i) } else { orders }
}

pub open spec fn unfilled_orders(orders: Seq<(Seq<char>, OrderView)>) -> Seq<(Seq<char>, OrderView)> {
    orders.filter(|e: (Seq<char>, OrderView)| !e.1.filled)
}

pub open spec fn add_limit_order_model(s: SimView, o: OrderView) -> SimView {
    SimView { orders: upsert_order(s.orders, order_key(o.token_id, o.side), o), ..s }
}

pub open spec fn cancel_limit_order_model(s: SimView, key: Seq<char>) -> SimView {
    SimView { orders: remove_order(s.orders, key), ..s }
}

// ---------------------------------------------------------------------------
// Positions
// ---------------------------------------------------------------------------

pub open spec fn upsert_position(positions: Seq<PositionView>, p: PositionView) -> Seq<PositionView> {
    let i = find_key(position_keys(positions), p.token_id);
    if i >= 0 { positions.update(i, p) } else { positions.push(p) }
}

pub open spec fn new_position(
    token_id: Seq<char>,
    token_type: TokenType,
    condition_id: Seq<char>,
    price: u32,
    units: u64,
    period_timestamp: u64,
) -> PositionView {
    PositionView {
        token_id,
        token_type,
        condition_id,
        purchase_price: price,
        units,
        investment_amount: amount_of(units, price),
        sell_price: None,
        period_timestamp,
        sold: false,
        sell_price_actual: None,
        sale_time_recorded: false,
    }
}

/// Opens (or replaces) the position of `p.token_id` and counts its amount as invested.
pub open spec fn open_position_model(s: SimView, p: PositionView) -> SimView {
    SimView {
        positions: upsert_position(s.positions, p),
        invested: s.invested + p.investment_amount,
        ..s
    }
}

pub open spec fn set_sell_price_model(s: SimView, token_id: Seq<char>, price: u32) -> SimView {
    let i = find_key(position_keys(s.positions), token_id);
    if i >= 0 {
        SimView {
            positions: s.positions.update(i, PositionView { sell_price: Some(price), ..s.positions[i] }),
            ..s
        }
    } else {
        s
    }
}

pub open spec fn open_positions(s: SimView) -> Seq<PositionView> {
    s.positions.filter(|p: PositionView| !p.sold)
}

// ---------------------------------------------------------------------------
// Fills
// ---------------------------------------------------------------------------

pub open spec fn is_buy(side: Seq<char>) -> bool {
    side == "BUY"@
}

pub open spec fn is_sell(side: Seq<char>) -> bool {
    side == "SELL"@
}

/// A buy fills when the ask is positive and at most the limit; a sell when
/// the bid is positive and at least the limit; other sides never fill.
pub open spec fn fills_at(o: OrderView, p: TokenPrice) -> bool {
    if is_buy(o.side) {
        match p.ask {
            Some(a) => a > 0 && a <= o.target_price,
            None => false,
        }
    } else if is_sell(o.side) {
        match p.bid {
            Some(b) => b > 0 && b >= o.target_price,
            None => false,
        }
    } else {
        false
    }
}

pub open spec fn ready_to_fill(o: OrderView, book: Seq<(Seq<char>, TokenPrice)>) -> bool {
    !o.filled && match price_in(book, o.token_id) {
        Some(p) => fills_at(o, p),
        None => false,
    }
}

/// The price at which an order fills: the ask for a buy, the bid for a
/// sell, the limit price when that quote is missing or for other sides.
pub open spec fn fill_price_model(o: OrderView, book: Seq<(Seq<char>, TokenPrice)>) -> u32 {
    let quote = match price_in(book, o.token_id) {
        Some(p) => if is_buy(o.side) { p.ask } else if is_sell(o.side) { p.bid } else { None },
        None => None,
    };
    match quote {
        Some(q) => q,
        None => o.target_price,
    }
}

/// Fills the pending order at `key`: marks it filled; a buy opens a
/// position at the fill price; a sell closes the open position of the token
/// (if any) and realizes its profit.
pub open spec fn fill_model(s: SimView, key: Seq<char>, book: Seq<(Seq<char>, TokenPrice)>) -> SimView {
    let i = find_key(order_keys(s.orders), key);
    if i < 0 || s.orders[i].1.filled {
        s
    } else {
        let o = s.orders[i].1;
        let price = fill_price_model(o, book);
        let orders = s.orders.update(i, (key, OrderView { filled: true, ..o }));
        if is_buy(o.side) {
            let p = new_position(o.token_id, o.token_type, o.condition_id, price, o.size, o.period_timestamp);
            SimView {
                orders,
                positions: upsert_position(s.positions, p),
                invested: s.invested + p.investment_amount,
                ..s
            }
        } else if is_sell(o.side) {
            let j = find_key(position_keys(s.positions), o.token_id);
            if j >= 0 && !s.positions[j].sold {
                let q = s.positions[j];
                SimView {
                    orders,
                    positions: s.positions.update(
                        j,
                        PositionView { sold: true, sell_price_actual: Some(price), sale_time_recorded: true, ..q },
                    ),
                    realized: s.realized + gain_of(q.units, q.purchase_price, price),
                    ..s
                }
            } else {
                SimView { orders, ..s }
            }
        } else {
            SimView { orders, ..s }
        }
    }
}

/// Keys of the orders that the current prices fill, in order.
pub open spec fn keys_to_fill(s: SimView, book: Seq<(Seq<char>, TokenPrice)>) -> Seq<Seq<char>> {
    order_keys(s.orders.filter(|e: (Seq<char>, OrderView)| ready_to_fill(e.1, book)))
}

/// Fills the orders at `keys`, one after the other.
pub open spec fn fill_all(s: SimView, keys: Seq<Seq<char>>, book: Seq<(Seq<char>, TokenPrice)>) -> SimView
    decreases keys.len(),
{
    if keys.len() == 0 {
        s
    } else {
        fill_model(fill_all(s, keys.drop_last(), book), keys.last(), book)
    }
}

/// Nothing is checked when orders are waiting but no price is known.
pub open spec fn check_skipped(s: SimView, book: Seq<(Seq<char>, TokenPrice)>) -> bool {
    unfilled_orders(s.orders).len() > 0 && book.len() == 0
}

pub open spec fn check_limit_orders_model(s: SimView, book: Seq<(Seq<char>, TokenPrice)>) -> SimView {
    if check_skipped(s, book) { s } else { fill_all(s, keys_to_fill(s, book), book) }
}

// ---------------------------------------------------------------------------
// Valuation
// ---------------------------------------------------------------------------

/// The price at which a position is marked, in half micro-dollars: the
/// midpoint when the token is quoted on both sides, the purchase price
/// otherwise.
pub open spec fn mark_price(p: PositionView, book: Seq<(Seq<char>, TokenPrice)>) -> int {
    match price_in(book, p.token_id) {
        Some(tp) => match mid_halves(tp) {
            Some(m) => m as int,
            None => 2 * p.purchase_price,
        },
        None => 2 * p.purchase_price,
    }
}

/// (mark price - purchase price) * units, as an amount.
pub open spec fn unrealized_of(p: PositionView, book: Seq<(Seq<char>, TokenPrice)>) -> int {
    (mark_price(p, book) - 2 * p.purchase_price) * p.units
}

/// Unrealized profit of the open positions whose token has a price entry.
pub open spec fn unrealized_model(s: SimView, book: Seq<(Seq<char>, TokenPrice)>) -> int {
    seq_sum(
        s.positions.map_values(
            |p: PositionView|
                if !p.sold && price_in(book, p.token_id) is Some { unrealized_of(p, book) } else { 0 },
        ),
    )
}

// ---------------------------------------------------------------------------
// Market closure
// ---------------------------------------------------------------------------

/// How the winning positions of a market are decided.
pub enum Outcome {
    /// The market resolved up (true) or down (false); a position wins when
    /// its token pays on that side.
    ResolvedUp(bool),
    /// The winning token id, when one is known; otherwise nothing wins.
    Winner(Option<Seq<char>>),
}

pub open spec fn wins(outcome: Outcome, p: PositionView) -> bool {
    match outcome {
        Outcome::ResolvedUp(up) => p.token_type.pays_on_up() == up,
        Outcome::Winner(w) => w == Some(p.token_id),
    }
}

pub open spec fn payout(won: bool) -> u32 {
    if won { ONE_DOLLAR } else { 0 }
}

pub open spec fn closes(p: PositionView, condition_id: Seq<char>) -> bool {
    p.condition_id == condition_id && !p.sold
}

pub open spec fn closed_position(p: PositionView, won: bool) -> PositionView {
    PositionView { sold: true, sell_price_actual: Some(payout(won)), sale_time_recorded: true, ..p }
}

/// Amount paid for the positions that close.
pub open spec fn spent_model(s: SimView, condition_id: Seq<char>) -> int {
    seq_sum(
        s.positions.map_values(
            |p: PositionView| if closes(p, condition_id) { p.investment_amount } else { 0 },
        ),
    )
}

/// Amount paid out to the positions that close.
pub open spec fn earned_model(s: SimView, condition_id: Seq<char>, outcome: Outcome) -> int {
    seq_sum(
        s.positions.map_values(
            |p: PositionView|
                if closes(p, condition_id) { amount_of(p.units, payout(wins(outcome, p))) } else { 0 },
        ),
    )
}

/// Closes every open position of the market at $1 if it won and $0 if not,
/// realizing payout minus cost.
pub open spec fn close_market_model(s: SimView, condition_id: Seq<char>, outcome: Outcome) -> SimView {
    SimView {
        positions: s.positions.map_values(
            |p: PositionView|
                if closes(p, condition_id) { closed_position(p, wins(outcome, p)) } else { p },
        ),
        realized: s.realized + earned_model(s, condition_id, outcome) - spent_model(s, condition_id),
        ..s
    }
}

/// The markets of the open positions, each once, in order of first appearance.
pub open spec fn open_conditions(positions: Seq<PositionView>) -> Seq<Seq<char>>
    decreases positions.len(),
{
    if positions.len() == 0 {
        Seq::empty()
    } else {
        let r = open_conditions(positions.drop_last());
        let p = positions.last();
        if !p.sold && !r.contains(p.condition_id) { r.push(p.condition_id) } else { r }
    }
}

// ---------------------------------------------------------------------------
// Price trackers
// ---------------------------------------------------------------------------

pub open spec fn track_price_model(
    s: SimView,
    period: u64,
    token_id: Seq<char>,
    time: u64,
    price: u32,
    max_size: nat,
) -> SimView {
    let i = find_key(tracker_keys(s.trackers), (period, token_id));
    let trackers = if i >= 0 {
        let t = s.trackers[i];
        s.trackers.update(i, TrackerView { history: window(t.history.push((time, price)), t.max_size), ..t })
    } else {
        s.trackers.push(
            TrackerView {
                period,
                token_id,
                history: window(Seq::<(u64, u32)>::empty().push((time, price)), max_size),
                max_size,
            },
        )
    };
    SimView { trackers, ..s }
}

pub open spec fn clear_period_model(s: SimView, period: u64) -> SimView {
    SimView { trackers: s.trackers.filter(|t: TrackerView| t.period != period), ..s }
}


/// The room for `k` trades shrinks by at most one with each fill.
pub proof fn lemma_fill_room(s: SimView, key: Seq<char>, book: Seq<(Seq<char>, TokenPrice)>, k: int)
    requires
        k >= 1,
        room(s, k),
        s.invested >= 0,
    ensures
        room(fill_model(s, key, book), k - 1),
        fill_model(s, key, book).invested >= s.invested,
        fill_model(s, key, book).orders.len() == s.orders.len(),
        fill_model(s, key, book).positions.len() <= s.positions.len() + 1,
{
    let i = find_key(order_keys(s.orders), key);
    crate::keyed::lemma_find_key(order_keys(s.orders), key);
    if !(i < 0 || s.orders[i].1.filled) {
        let o = s.orders[i].1;
        let price = fill_price_model(o, book);
        crate::units::lemma_amount_bounds(o.size, price);
        crate::keyed::lemma_find_key(position_keys(s.positions), o.token_id);
        if is_sell(o.side) && !is_buy(o.side) {
            let j = find_key(position_keys(s.positions), o.token_id);
            if j >= 0 && !s.positions[j].sold {
                let q = s.positions[j];
                lemma_pnl_bound(price, q.purchase_price, q.units);
            }
        }
    }
}

/// Room for `k` trades is room for fewer.
pub proof fn lemma_room_mono(s: SimView, j: int, k: int)
    requires
        0 <= j <= k,
        room(s, k),
    ensures
        room(s, j),
{
    let tb = trade_bound();
    assert(j * tb <= k * tb) by (nonlinear_arith)
        requires
            0 <= j <= k,
            tb > 0,
    ;
}

/// One trade moves the totals by less than the trade bound, using up the
/// room for one.
pub proof fn lemma_room_step(s: SimView, t: SimView, k: int)
    requires
        k >= 0,
        room(s, k + 1),
        t.invested <= s.invested + trade_bound(),
        s.realized - trade_bound() <= t.realized <= s.realized + trade_bound(),
    ensures
        room(t, k),
{
    let tb = trade_bound();
    assert((k + 1) * tb == k * tb + tb) by (nonlinear_arith);
}

/// Room for `j + k` trades, after a change of at most `k` trades in the
/// realized total and none upward in the invested one, leaves room for `j`.
pub proof fn lemma_room_split(s: SimView, t: SimView, j: int, k: int)
    requires
        j >= 0,
        k >= 0,
        room(s, j + k),
        t.invested <= s.invested,
        s.realized - k * trade_bound() <= t.realized <= s.realized + k * trade_bound(),
    ensures
        room(t, j),
{
    let tb = trade_bound();
    assert((j + k) * tb == j * tb + k * tb) by (nonlinear_arith);
}

/// A fill uses up the room for two more trades than the positions held:
/// one for the change of the totals and one for a new position.
pub proof fn lemma_fill_budget(s: SimView, key: Seq<char>, book: Seq<(Seq<char>, TokenPrice)>, r: int)
    requires
        r >= 1,
        room(s, s.positions.len() + 2 * r),
        s.invested >= 0,
    ensures
        room(fill_model(s, key, book), fill_model(s, key, book).positions.len() + 2 * (r - 1)),
        fill_model(s, key, book).invested >= s.invested,
        fill_model(s, key, book).orders.len() == s.orders.len(),
{
    let f = fill_model(s, key, book);
    lemma_fill_room(s, key, book, s.positions.len() + 2 * r);
    lemma_room_mono(f, f.positions.len() + 2 * (r - 1), s.positions.len() + 2 * r - 1);
}

/// A change of price on a quantity moves an amount by at most the trade bound.
pub proof fn lemma_pnl_bound(a: u32, b: u32, units: u64)
    ensures
        -trade_bound() <= gain_of(units, b, a) <= trade_bound(),
{
    crate::units::lemma_gain_bounds(units, b, a, 0);
}


/// What filling one order did, for reporting.
pub enum FillOutcome {
    /// No unfilled order is recorded under the key.
    NotPending,
    /// A buy filled and opened a position.
    Bought {
        /// The order, now marked filled.
        order: SimulatedLimitOrder,
        fill_price: u32,
        investment: i128,
        /// Open positions after the fill.
        open_positions: usize,
        total_invested: i128,
        total_realized: i128,
    },
    /// A sell filled and closed the open position of its token.
    Sold {
        order: SimulatedLimitOrder,
        /// The position, now closed.
        position: SimulatedPosition,
        fill_price: u32,
        realized_pnl: i128,
    },
    /// A sell filled but its token had no open position.
    SoldWithoutPosition { order: SimulatedLimitOrder, fill_price: u32 },
    /// An order whose side is neither "BUY" nor "SELL" was marked filled.
    OtherSide { order: SimulatedLimitOrder, fill_price: u32 },
}

/// `r` reports what `fill_model(s, key, book)` does.
pub open spec fn fill_reported(s: SimView, key: Seq<char>, book: Seq<(Seq<char>, TokenPrice)>, r: FillOutcome) -> bool {
    let i = find_key(order_keys(s.orders), key);
    let after = fill_model(s, key, book);
    if i < 0 || s.orders[i].1.filled {
        r is NotPending
    } else {
        let o = OrderView { filled: true, ..s.orders[i].1 };
        let price = fill_price_model(s.orders[i].1, book);
        if is_buy(o.side) {
            r matches FillOutcome::Bought { order, fill_price, investment, open_positions: n, total_invested, total_realized }
                && order@ == o && fill_price == price && investment == amount_of(o.size, price)
                && n == open_positions(after).len() && total_invested == after.invested
                && total_realized == after.realized
        } else if is_sell(o.side) {
            let j = find_key(position_keys(s.positions), o.token_id);
            if j >= 0 && !s.positions[j].sold {
                r matches FillOutcome::Sold { order, position, fill_price, realized_pnl }
                    && order@ == o && fill_price == price && position@ == after.positions[j]
                    && realized_pnl == gain_of(s.positions[j].units, s.positions[j].purchase_price, price)
            } else {
                r matches FillOutcome::SoldWithoutPosition { order, fill_price } && order@ == o && fill_price == price
            }
        } else {
            r matches FillOutcome::OtherSide { order, fill_price } && order@ == o && fill_price == price
        }
    }
}

/// One unfilled order compared with the price of its token.
pub struct OrderCheck {
    pub order: SimulatedLimitOrder,
    pub price: TokenPrice,
    /// Whether the price fills the order.
    pub fill: bool,
}

/// The result of checking the limit orders against current prices.
pub struct LimitOrderCheck {
    /// The number of unfilled orders, when nothing was checked for want of prices.
    pub skipped: Option<usize>,
    /// The unfilled orders whose token has a price, in order.
    pub checks: Vec<OrderCheck>,
    /// What each fill did, in order.
    pub fills: Vec<FillOutcome>,
}

pub open spec fn priced_unfilled(s: SimView, book: Seq<(Seq<char>, TokenPrice)>) -> Seq<(Seq<char>, OrderView)> {
    s.orders.filter(|e: (Seq<char>, OrderView)| !e.1.filled && price_in(book, e.1.token_id) is Some)
}

pub open spec fn check_view(e: (Seq<char>, OrderView), book: Seq<(Seq<char>, TokenPrice)>) -> (OrderView, TokenPrice, bool) {
    let p = price_in(book, e.1.token_id).unwrap();
    (e.1, p, fills_at(e.1, p))
}

pub open spec fn checks_view(checks: Seq<OrderCheck>) -> Seq<(OrderView, TokenPrice, bool)> {
    checks.map_values(|c: OrderCheck| (c.order@, c.price, c.fill))
}


/// One position closed with its market.
pub struct ClosedPosition {
    /// The position as it was before closing.
    pub position: SimulatedPosition,
    pub won: bool,
    /// Price per share received: one dollar if it won, zero if not.
    pub payout: u32,
    /// `units * payout`.
    pub value: i128,
    /// `value - investment_amount`.
    pub pnl: i128,
}

/// The result of closing the positions of one market.
pub struct MarketClose {
    pub total_spent: i128,
    pub total_earned: i128,
    pub net_pnl: i128,
    /// The positions closed, in order.
    pub closed: Vec<ClosedPosition>,
}

pub open spec fn closing_positions(s: SimView, condition_id: Seq<char>) -> Seq<PositionView> {
    s.positions.filter(|p: PositionView| closes(p, condition_id))
}

/// `r` reports what `close_market_model(s, condition_id, outcome)` does.
pub open spec fn close_reported(s: SimView, condition_id: Seq<char>, outcome: Outcome, r: MarketClose) -> bool {
    &&& r.total_spent == spent_model(s, condition_id)
    &&& r.total_earned == earned_model(s, condition_id, outcome)
    &&& r.net_pnl == r.total_earned - r.total_spent
    &&& r.closed@.map_values(|c: ClosedPosition| c.position@) == closing_positions(s, condition_id)
    &&& forall|i: int|
        0 <= i < r.closed@.len() ==> {
            let c = #[trigger] r.closed@[i];
            &&& c.won == wins(outcome, c.position@)
            &&& c.payout == payout(c.won)
            &&& c.value == amount_of(c.position@.units, c.payout)
            &&& c.pnl == c.value - c.position@.investment_amount
        }
}

/// A token of a market as reported by the exchange.
pub struct MarketToken {
    pub token_id: String,
    pub winner: bool,
}

/// Whether a market has closed, and its tokens.
pub struct MarketStatus {
    pub closed: bool,
    pub tokens: Vec<MarketToken>,
}

/// The first token flagged as the winner, if any.
pub open spec fn winner_of(tokens: Seq<MarketToken>) -> Option<Seq<char>>
    decreases tokens.len(),
{
    if tokens.len() == 0 {
        None
    } else if tokens[0].winner {
        Some(tokens[0].token_id@)
    } else {
        winner_of(tokens.drop_first())
    }
}


// ---------------------------------------------------------------------------
// Summaries and reports
// ---------------------------------------------------------------------------

/// The starting capital as an amount.
pub open spec fn capital_amount(s: SimView) -> int {
    s.initial_capital * 2_000_000
}

/// An open position as shown in the summary.
pub struct OpenPositionLine {
    pub position: SimulatedPosition,
    /// The mark price in half micro-dollars: the midpoint when quoted on
    /// both sides, else the purchase price.
    pub current_price_halves: u64,
    pub unrealized: i128,
}

/// The figures of the position summary.
pub struct PositionSummary {
    /// In micro-dollars.
    pub initial_capital: u64,
    pub total_invested: i128,
    pub realized_pnl: i128,
    pub unrealized_pnl: i128,
    pub total_pnl: i128,
    /// Starting capital plus total profit, as an amount.
    pub final_balance: i128,
    pub open_positions: Vec<OpenPositionLine>,
}

pub open spec fn summary_reported(s: SimView, book: Seq<(Seq<char>, TokenPrice)>, r: PositionSummary) -> bool {
    let total = s.realized + unrealized_model(s, book);
    &&& r.initial_capital == s.initial_capital
    &&& r.total_invested == s.invested
    &&& r.realized_pnl == s.realized
    &&& r.unrealized_pnl == unrealized_model(s, book)
    &&& r.total_pnl == total
    &&& r.final_balance == capital_amount(s) + total
    &&& r.open_positions@.map_values(|l: OpenPositionLine| (l.position@, l.current_price_halves as int, l.unrealized as int))
        == open_positions(s).map_values(|p: PositionView| (p, mark_price(p, book), unrealized_of(p, book)))
}

/// Profit of a closed trade at the price actually received; zero otherwise.
pub open spec fn trade_pnl(p: PositionView) -> int {
    if p.sold {
        match p.sell_price_actual {
            Some(x) => gain_of(p.units, p.purchase_price, x),
            None => 0,
        }
    } else {
        0
    }
}

pub open spec fn is_winning(p: PositionView) -> bool {
    p.sold && p.sell_price_actual is Some && trade_pnl(p) >= 0
}

pub open spec fn is_losing(p: PositionView) -> bool {
    p.sold && p.sell_price_actual is Some && trade_pnl(p) < 0
}

/// A position as listed in the final report.
pub struct ReportPosition {
    pub position: SimulatedPosition,
    pub pnl: i128,
    /// "closed" (true) or "open" (false).
    pub closed: bool,
}

/// The figures of the final report.
pub struct FinalReport {
    /// In micro-dollars.
    pub initial_capital: u64,
    pub total_invested: i128,
    pub total_realized_pnl: i128,
    /// Starting capital plus realized profit, as an amount.
    pub final_balance: i128,
    pub total_trades: u64,
    pub winning_trades: u64,
    pub losing_trades: u64,
    pub open_positions: u64,
    pub pending_limit_orders: usize,
    pub positions: Vec<ReportPosition>,
}

pub open spec fn report_made(s: SimView, r: FinalReport) -> bool {
    &&& r.initial_capital == s.initial_capital
    &&& r.total_invested == s.invested
    &&& r.total_realized_pnl == s.realized
    &&& r.final_balance == capital_amount(s) + s.realized
    &&& r.winning_trades == s.positions.filter(|p: PositionView| is_winning(p)).len()
    &&& r.losing_trades == s.positions.filter(|p: PositionView| is_losing(p)).len()
    &&& r.open_positions == open_positions(s).len()
    &&& r.total_trades == r.winning_trades + r.losing_trades + r.open_positions
    &&& r.pending_limit_orders == unfilled_orders(s.orders).len()
    &&& r.positions@.map_values(|l: ReportPosition| (l.position@, l.pnl as int, l.closed))
        == s.positions.map_values(|p: PositionView| (p, trade_pnl(p), p.sold))
}

/// How close a waiting order is to filling.
#[derive(Debug, Clone, Copy, PartialEq, Eq, Structural)]
pub enum PendingStatus {
    /// The quote is within 0.0001 dollars of the limit, or better.
    Ready,
    Waiting,
    ZeroPrice,
    NoAsk,
    NoBid,
    /// The side is neither "BUY" nor "SELL".
    UnknownSide,
    NoPriceData,
}

/// An unfilled order with its quote and status.
pub struct PendingOrderLine {
    pub order: SimulatedLimitOrder,
    /// The relevant quote (ask for a buy, bid for a sell), or zero.
    pub current_price: u32,
    pub status: PendingStatus,
}

pub open spec fn pending_status(o: OrderView, book: Seq<(Seq<char>, TokenPrice)>) -> (u32, PendingStatus) {
    match price_in(book, o.token_id) {
        None => (0, PendingStatus::NoPriceData),
        Some(p) => if is_buy(o.side) {
            match p.ask {
                Some(a) => if a > 0 {
                    (a, if a <= o.target_price + 100 { PendingStatus::Ready } else { PendingStatus::Waiting })
                } else {
                    (0, PendingStatus::ZeroPrice)
                },
                None => (0, PendingStatus::NoAsk),
            }
        } else if is_sell(o.side) {
            match p.bid {
                Some(b) => if b > 0 {
                    (b, if b + 100 >= o.target_price { PendingStatus::Ready } else { PendingStatus::Waiting })
                } else {
                    (0, PendingStatus::ZeroPrice)
                },
                None => (0, PendingStatus::NoBid),
            }
        } else {
            (0, PendingStatus::UnknownSide)
        },
    }
}

} // verus!
