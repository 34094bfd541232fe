//! The simulation tracker: orders, positions, profit and loss, and price
//! trackers, each operation proved to follow `model`.

use vstd::prelude::*;
use vstd::string::StringExecFns;
use crate::clock::now;
use crate::keyed::{find_key, lemma_find_key, lemma_push_fresh, lemma_remove_distinct};
use crate::model::{
    add_limit_order_model, cancel_limit_order_model, check_limit_orders_model, check_skipped,
    check_view, checks_view, close_market_model, close_reported, closed_position, closes,
    clear_period_model, fill_all, fill_model, fill_price_model, fill_reported, fills_at,
    closing_positions, keys_to_fill, lemma_fill_budget, lemma_pnl_bound, lemma_room_mono, lemma_room_split,
    lemma_room_step, mark_price, new_position, open_conditions,
    open_position_model, open_positions, order_key, order_keys, payout, pending_status,
    position_keys, priced_unfilled, ready_to_fill, report_made, room,
    set_sell_price_model, state_wf, summary_reported, total_limit, track_price_model,
    trade_pnl, tracker_for, tracker_keys, unfilled_orders, unrealized_model, unrealized_of,
    upsert_position, winner_of, wins, is_losing, is_winning, ClosedPosition, FillOutcome,
    FinalReport, LimitOrderCheck, MarketClose, MarketStatus, MarketToken, OpenPositionLine,
    OrderCheck, OrderView, Outcome, PendingOrderLine, PendingStatus, PositionSummary,
    PositionView, ReportPosition, SimView, SimulatedLimitOrder, SimulatedPosition, TrackerView,
};
use crate::market::{price_in, PriceBook, TokenPrice};
use crate::sums::{lemma_sum_take_step, seq_sum};
use crate::token::TokenType;
use crate::trend::{
    strength_reaches, trend_defined, trend_of, window, PriceTrendTracker, Ratio, TrendAnalysis,
    TrendDirection, TrendStrength,
};
use crate::units::{amount, amount_of, gain, lemma_amount_bounds, trade_bound, ONE_DOLLAR};

verus! {

struct TrackedPrices {
    period: u64,
    token_id: String,
    tracker: PriceTrendTracker,
}

/// Tracks simulated orders, positions and profit and loss.
pub struct SimulationTracker {
    pending_limit_orders: Vec<(String, SimulatedLimitOrder)>,
    positions: Vec<SimulatedPosition>,
    total_realized_pnl: i128,
    total_invested: i128,
    price_trackers: Vec<TrackedPrices>,
    initial_capital: u64,
}

pub open spec fn order_entry_view(e: (String, SimulatedLimitOrder)) -> (Seq<char>, OrderView) {
    (e.0@, e.1@)
}

spec fn tracker_entry_view(t: TrackedPrices) -> TrackerView {
    TrackerView {
        period: t.period,
        token_id: t.token_id@,
        history: t.tracker.history(),
        max_size: t.tracker.max_size(),
    }
}

impl View for SimulationTracker {
    type V = SimView;

    closed spec fn view(&self) -> SimView {
        SimView {
            orders: self.pending_limit_orders@.map_values(|e: (String, SimulatedLimitOrder)| order_entry_view(e)),
            positions: self.positions@.map_values(|p: SimulatedPosition| p@),
            invested: self.total_invested as int,
            realized: self.total_realized_pnl as int,
            trackers: self.price_trackers@.map_values(|t: TrackedPrices| tracker_entry_view(t)),
            initial_capital: self.initial_capital as int,
        }
    }
}

/// Builds the key of an order: token id, an underscore, and the side.
pub fn make_order_key(token_id: &str, side: &str) -> (r: String)
    ensures
        r@ == order_key(token_id@, side@),
{
    let mut key = String::from_str(token_id);
    key.append("_");
    key.append(side);
    key
}

impl SimulationTracker {
    pub closed spec fn wf(&self) -> bool {
        &&& state_wf(self@)
        &&& room(self@, self@.positions.len() as int)
        &&& forall|i: int|
            0 <= i < self.price_trackers@.len() ==> (#[trigger] self.price_trackers@[i]).tracker.wf()
    }

    /// A well-formed tracker's state satisfies the model's invariant, and
    /// its running totals have room for one trade per position held.
    pub proof fn lemma_wf_state(&self)
        requires
            self.wf(),
        ensures
            state_wf(self@),
            room(self@, self@.positions.len() as int),
    {
    }

    /// A tracker with no orders, positions or price history.
    pub fn new(initial_capital: u64) -> (r: Self)
        ensures
            r.wf(),
            r@ == (SimView {
                orders: Seq::empty(),
                positions: Seq::empty(),
                invested: 0,
                realized: 0,
                trackers: Seq::empty(),
                initial_capital: initial_capital as int,
            }),
    {
        let r = SimulationTracker {
            pending_limit_orders: Vec::new(),
            positions: Vec::new(),
            total_realized_pnl: 0,
            total_invested: 0,
            price_trackers: Vec::new(),
            initial_capital,
        };
        proof {
            assert(r@.orders =~= Seq::empty());
            assert(r@.positions =~= Seq::empty());
            assert(r@.trackers =~= Seq::empty());
            assert(order_keys(r@.orders) =~= Seq::empty());
            assert(position_keys(r@.positions) =~= Seq::empty());
            assert(tracker_keys(r@.trackers) =~= Seq::empty());
        }
        r
    }

    fn find_order(&self, key: &String) -> (r: Option<usize>)
        requires
            self.wf(),
        ensures
            r is Some <==> find_key(order_keys(self@.orders), key@) >= 0,
            r matches Some(i) ==> i == find_key(order_keys(self@.orders), key@) && i
                < self@.orders.len(),
    {
        let ghost keys = order_keys(self@.orders);
        proof {
            lemma_find_key(keys, key@);
        }
        let mut i: usize = 0;
        while i < self.pending_limit_orders.len()
            invariant
                self.wf(),
                keys == order_keys(self@.orders),
                keys.len() == self.pending_limit_orders@.len(),
                i <= keys.len(),
                forall|j: int| 0 <= j < i ==> keys[j] != key@,
                find_key(keys, key@) == -1 <==> (forall|j: int| 0 <= j < keys.len() ==> keys[j] != key@),
            decreases keys.len() - i,
        {
            if self.pending_limit_orders[i].0 == *key {
                proof {
                    assert(keys[i as int] == key@);
                    lemma_find_key(keys, key@);
                }
                return Some(i);
            }
            i = i + 1;
        }
        None
    }

    fn find_position(&self, token_id: &String) -> (r: Option<usize>)
        requires
            self.wf(),
        ensures
            r is Some <==> find_key(position_keys(self@.positions), token_id@) >= 0,
            r matches Some(i) ==> i == find_key(position_keys(self@.positions), token_id@) && i
                < self@.positions.len(),
    {
        let ghost keys = position_keys(self@.positions);
        proof {
            lemma_find_key(keys, token_id@);
        }
        let mut i: usize = 0;
        while i < self.positions.len()
            invariant
                self.wf(),
                keys == position_keys(self@.positions),
                keys.len() == self.positions@.len(),
                i <= keys.len(),
                forall|j: int| 0 <= j < i ==> keys[j] != token_id@,
                find_key(keys, token_id@) == -1 <==> (forall|j: int| 0 <= j < keys.len() ==> keys[j] != token_id@),
            decreases keys.len() - i,
        {
            if self.positions[i].token_id == *token_id {
                proof {
                    assert(keys[i as int] == token_id@);
                    lemma_find_key(keys, token_id@);
                }
                return Some(i);
            }
            i = i + 1;
        }
        None
    }

    fn find_tracker(&self, period: u64, token_id: &String) -> (r: Option<usize>)
        requires
            self.wf(),
        ensures
            r is Some <==> find_key(tracker_keys(self@.trackers), (period, token_id@)) >= 0,
            r matches Some(i) ==> i == find_key(tracker_keys(self@.trackers), (period, token_id@)) && i
                < self@.trackers.len(),
    {
        let ghost keys = tracker_keys(self@.trackers);
        let ghost k = (period, token_id@);
        proof {
            lemma_find_key(keys, k);
        }
        let mut i: usize = 0;
        while i < self.price_trackers.len()
            invariant
                self.wf(),
                keys == tracker_keys(self@.trackers),
                k == (period, token_id@),
                keys.len() == self.price_trackers@.len(),
                i <= keys.len(),
                forall|j: int| 0 <= j < i ==> keys[j] != k,
                find_key(keys, k) == -1 <==> (forall|j: int| 0 <= j < keys.len() ==> keys[j] != k),
            decreases keys.len() - i,
        {
            assert(keys[i as int] == (self.price_trackers@[i as int].period, self.price_trackers@[i as int].token_id@));
            let same_token = self.price_trackers[i].token_id == *token_id;
            if self.price_trackers[i].period == period && same_token {
                proof {
                    assert(self.price_trackers@[i as int].token_id@ == token_id@);
                    assert(keys[i as int] == k);
                    lemma_find_key(keys, k);
                }
                return Some(i);
            }
            i = i + 1;
        }
        None
    }

    /// The number of orders, filled or not.
    pub fn order_count(&self) -> (r: usize)
        ensures
            r == self@.orders.len(),
    {
        self.pending_limit_orders.len()
    }

    /// The number of positions, open or closed.
    pub fn position_count(&self) -> (r: usize)
        ensures
            r == self@.positions.len(),
    {
        self.positions.len()
    }

    /// The number of orders not yet filled.
    pub fn get_pending_order_count(&self) -> (r: usize)
        requires
            self.wf(),
        ensures
            r == unfilled_orders(self@.orders).len(),
    {
        let ghost orders = self@.orders;
        let mut count: usize = 0;
        let mut i: usize = 0;
        proof {
            assert(orders.take(0) =~= Seq::empty());
            reveal(Seq::filter);
        }
        while i < self.pending_limit_orders.len()
            invariant
                orders == self@.orders,
                orders.len() == self.pending_limit_orders@.len(),
                i <= orders.len(),
                count == unfilled_orders(orders.take(i as int)).len(),
                count <= i,
            decreases orders.len() - i,
        {
            proof {
                assert(orders.take(i + 1) =~= orders.take(i as int).push(orders[i as int]));
                orders.take(i as int).lemma_filter_push(
                    orders[i as int],
                    |e: (Seq<char>, OrderView)| !e.1.filled,
                );
            }
            if !self.pending_limit_orders[i].1.filled {
                count = count + 1;
            }
            i = i + 1;
        }
        proof {
            assert(orders.take(orders.len() as int) =~= orders);
        }
        count
    }

    /// Records a limit order, replacing any order with the same token and
    /// side. Returns the number of orders and the number not yet filled.
    pub fn add_limit_order(
        &mut self,
        token_id: String,
        token_type: TokenType,
        condition_id: String,
        target_price: u32,
        size: u64,
        side: String,
        period_timestamp: u64,
    ) -> (r: (usize, usize))
        requires
            old(self).wf(),
        ensures
            final(self).wf(),
            final(self)@ == add_limit_order_model(
                old(self)@,
                OrderView {
                    token_id: token_id@,
                    token_type,
                    condition_id: condition_id@,
                    target_price,
                    size,
                    side: side@,
                    period_timestamp,
                    filled: false,
                },
            ),
            r.0 == final(self)@.orders.len(),
            r.1 == unfilled_orders(final(self)@.orders).len(),
    {
        let ghost s0 = self@;
        let key = make_order_key(token_id.as_str(), side.as_str());
        let order = SimulatedLimitOrder {
            token_id,
            token_type,
            condition_id,
            target_price,
            size,
            side,
            timestamp: now(),
            period_timestamp,
            filled: false,
        };
        let ghost k = key@;
        let ghost ov = order@;
        proof {
            lemma_find_key(order_keys(s0.orders), k);
        }
        match self.find_order(&key) {
            Some(i) => {
                self.pending_limit_orders.set(i, (key, order));
                proof {
                    assert(self@.orders =~= s0.orders.update(i as int, (k, ov)));
                    assert(order_keys(self@.orders) =~= order_keys(s0.orders));
                }
            },
            None => {
                self.pending_limit_orders.push((key, order));
                proof {
                    assert(self@.orders =~= s0.orders.push((k, ov)));
                    assert(order_keys(self@.orders) =~= order_keys(s0.orders).push(k));
                    lemma_push_fresh(order_keys(s0.orders), k);
                }
            },
        }
        assert(self@ == add_limit_order_model(s0, ov));
        let total = self.pending_limit_orders.len();
        let unfilled = self.get_pending_order_count();
        (total, unfilled)
    }

    /// Removes the order of a token and side. Returns whether there was one
    /// and the number of orders left unfilled.
    pub fn cancel_limit_order(&mut self, token_id: &str, side: &str) -> (r: (bool, usize))
        requires
            old(self).wf(),
        ensures
            final(self).wf(),
            final(self)@ == cancel_limit_order_model(old(self)@, order_key(token_id@, side@)),
            r.0 == (find_key(order_keys(old(self)@.orders), order_key(token_id@, side@)) >= 0),
            r.1 == unfilled_orders(final(self)@.orders).len(),
    {
        let ghost s0 = self@;
        let key = make_order_key(token_id, side);
        let ghost k = key@;
        let existed = match self.find_order(&key) {
            Some(i) => {
                self.pending_limit_orders.remove(i);
                proof {
                    assert(self@.orders =~= s0.orders.remove(i as int));
                    assert(order_keys(self@.orders) =~= order_keys(s0.orders).remove(i as int));
                    lemma_remove_distinct(order_keys(s0.orders), i as int);
                }
                true
            },
            None => false,
        };
        assert(self@ == cancel_limit_order_model(s0, k));
        let remaining = self.get_pending_order_count();
        (existed, remaining)
    }

    /// Inserts or replaces the position of `p.token_id`.
    fn put_position(&mut self, p: SimulatedPosition)
        requires
            old(self).wf(),
            room(old(self)@, old(self)@.positions.len() + 1int),
            p@.investment_amount == amount_of(p@.units, p@.purchase_price),
        ensures
            final(self).wf(),
            final(self)@ == (SimView { positions: upsert_position(old(self)@.positions, p@), ..old(self)@ }),
            final(self)@.positions.len() <= old(self)@.positions.len() + 1,
    {
        let ghost s0 = self@;
        let ghost pv = p@;
        proof {
            lemma_find_key(position_keys(s0.positions), pv.token_id);
        }
        match self.find_position(&p.token_id) {
            Some(i) => {
                self.positions.set(i, p);
                proof {
                    assert(self@.positions =~= s0.positions.update(i as int, pv));
                    assert(position_keys(self@.positions) =~= position_keys(s0.positions));
                }
            },
            None => {
                self.positions.push(p);
                proof {
                    assert(self@.positions =~= s0.positions.push(pv));
                    assert(position_keys(self@.positions) =~= position_keys(s0.positions).push(pv.token_id));
                    lemma_push_fresh(position_keys(s0.positions), pv.token_id);
                }
            },
        }
        proof {
            assert forall|i: int| 0 <= i < self@.positions.len() implies (#[trigger] self@.positions[i]).investment_amount
                == amount_of(self@.positions[i].units, self@.positions[i].purchase_price) by {
                if i < s0.positions.len() && self@.positions[i] != pv {
                    assert(self@.positions[i] == s0.positions[i]);
                }
            }
            lemma_room_mono(self@, self@.positions.len() as int, s0.positions.len() + 1int);
        }
    }

    /// Records a market buy filled at once at `fill_price`: opens (or
    /// replaces) the position of the token and counts its cost as invested.
    /// Returns that cost.
    pub fn add_market_buy_position(
        &mut self,
        token_id: String,
        token_type: TokenType,
        condition_id: String,
        fill_price: u32,
        units: u64,
        period_timestamp: u64,
    ) -> (r: i128)
        requires
            old(self).wf(),
            room(old(self)@, old(self)@.positions.len() + 2int),
        ensures
            final(self).wf(),
            final(self)@ == open_position_model(
                old(self)@,
                new_position(token_id@, token_type, condition_id@, fill_price, units, period_timestamp),
            ),
            r == amount_of(units, fill_price),
    {
        let investment_amount = amount(units, fill_price);
        proof {
            lemma_amount_bounds(units, fill_price);
        }
        let position = SimulatedPosition {
            token_id,
            token_type,
            condition_id,
            purchase_price: fill_price,
            units,
            investment_amount,
            sell_price: None,
            purchase_timestamp: now(),
            period_timestamp,
            sold: false,
            sell_price_actual: None,
            sell_timestamp: None,
        };
        let ghost s0 = self@;
        proof {
            lemma_room_mono(s0, s0.positions.len() + 1int, s0.positions.len() + 2int);
        }
        self.put_position(position);
        self.total_invested = self.total_invested + investment_amount;
        proof {
            lemma_room_mono(s0, self@.positions.len() + 1int, s0.positions.len() + 2int);
            lemma_room_step(s0, self@, self@.positions.len() as int);
        }
        investment_amount
    }

    /// Sets the target sell price of the position of a token, if any.
    pub fn set_position_sell_price(&mut self, token_id: &str, sell_price: u32)
        requires
            old(self).wf(),
        ensures
            final(self).wf(),
            final(self)@ == set_sell_price_model(old(self)@, token_id@, sell_price),
    {
        let ghost s0 = self@;
        let key = String::from_str(token_id);
        proof {
            lemma_find_key(position_keys(s0.positions), key@);
        }
        match self.find_position(&key) {
            Some(i) => {
                let mut p = self.positions[i].clone();
                p.sell_price = Some(sell_price);
                self.positions.set(i, p);
                proof {
                    assert(self@.positions =~= s0.positions.update(
                        i as int,
                        PositionView { sell_price: Some(sell_price), ..s0.positions[i as int] },
                    ));
                    assert(position_keys(self@.positions) =~= position_keys(s0.positions));
                    assert forall|j: int| 0 <= j < self@.positions.len() implies (#[trigger] self@.positions[j]).investment_amount
                        == amount_of(self@.positions[j].units, self@.positions[j].purchase_price) by {
                        assert(s0.positions[j].investment_amount == amount_of(s0.positions[j].units, s0.positions[j].purchase_price));
                    }
                }
            },
            None => {},
        }
    }

    /// Whether a position (open or closed) exists for a token.
    pub fn has_position(&self, token_id: &str) -> (r: bool)
        requires
            self.wf(),
        ensures
            r == (find_key(position_keys(self@.positions), token_id@) >= 0),
    {
        let key = String::from_str(token_id);
        self.find_position(&key).is_some()
    }

    /// The token ids of the open positions, in order.
    pub fn get_position_token_ids(&self) -> (r: Vec<String>)
        requires
            self.wf(),
        ensures
            r@.map_values(|t: String| t@) == position_keys(open_positions(self@)),
    {
        let ghost ps = self@.positions;
        let mut out: Vec<String> = Vec::new();
        let mut i: usize = 0;
        proof {
            assert(ps.take(0) =~= Seq::empty());
            reveal(Seq::filter);
            assert(out@.map_values(|t: String| t@) =~= position_keys(ps.take(0).filter(|p: PositionView| !p.sold)));
        }
        while i < self.positions.len()
            invariant
                ps == self@.positions,
                ps.len() == self.positions@.len(),
                i <= ps.len(),
                out@.map_values(|t: String| t@) == position_keys(ps.take(i as int).filter(|p: PositionView| !p.sold)),
            decreases ps.len() - i,
        {
            proof {
                assert(ps.take(i + 1) =~= ps.take(i as int).push(ps[i as int]));
                ps.take(i as int).lemma_filter_push(ps[i as int], |p: PositionView| !p.sold);
            }
            let ghost before = out@;
            if !self.positions[i].sold {
                out.push(self.positions[i].token_id.clone());
                proof {
                    assert(out@.map_values(|t: String| t@) =~= before.map_values(|t: String| t@).push(ps[i as int].token_id));
                    assert(position_keys(ps.take(i as int).filter(|p: PositionView| !p.sold).push(ps[i as int])) =~=
                        position_keys(ps.take(i as int).filter(|p: PositionView| !p.sold)).push(ps[i as int].token_id));
                }
            }
            i = i + 1;
        }
        proof {
            assert(ps.take(ps.len() as int) =~= ps);
        }
        out
    }

    /// Copies of the open positions, in order.
    pub fn get_all_positions(&self) -> (r: Vec<SimulatedPosition>)
        requires
            self.wf(),
        ensures
            r@.map_values(|p: SimulatedPosition| p@) == open_positions(self@),
    {
        let ghost ps = self@.positions;
        let mut out: Vec<SimulatedPosition> = Vec::new();
        let mut i: usize = 0;
        proof {
            assert(ps.take(0) =~= Seq::empty());
            reveal(Seq::filter);
            assert(out@.map_values(|p: SimulatedPosition| p@) =~= ps.take(0).filter(|p: PositionView| !p.sold));
        }
        while i < self.positions.len()
            invariant
                ps == self@.positions,
                ps.len() == self.positions@.len(),
                i <= ps.len(),
                out@.map_values(|p: SimulatedPosition| p@) == ps.take(i as int).filter(|p: PositionView| !p.sold),
            decreases ps.len() - i,
        {
            proof {
                assert(ps.take(i + 1) =~= ps.take(i as int).push(ps[i as int]));
                ps.take(i as int).lemma_filter_push(ps[i as int], |p: PositionView| !p.sold);
            }
            let ghost before = out@;
            if !self.positions[i].sold {
                out.push(self.positions[i].clone());
                proof {
                    assert(out@.map_values(|p: SimulatedPosition| p@) =~= before.map_values(|p: SimulatedPosition| p@).push(ps[i as int]));
                }
            }
            i = i + 1;
        }
        proof {
            assert(ps.take(ps.len() as int) =~= ps);
        }
        out
    }

    /// The token ids of the orders not yet filled, in order.
    pub fn get_pending_order_token_ids(&self) -> (r: Vec<String>)
        requires
            self.wf(),
        ensures
            r@.map_values(|t: String| t@) == unfilled_orders(self@.orders).map_values(
                |e: (Seq<char>, OrderView)| e.1.token_id,
            ),
    {
        let ghost os = self@.orders;
        let mut out: Vec<String> = Vec::new();
        let mut i: usize = 0;
        proof {
            assert(os.take(0) =~= Seq::empty());
            reveal(Seq::filter);
            assert(out@.map_values(|t: String| t@) =~= unfilled_orders(os.take(0)).map_values(|e: (Seq<char>, OrderView)| e.1.token_id));
        }
        while i < self.pending_limit_orders.len()
            invariant
                os == self@.orders,
                os.len() == self.pending_limit_orders@.len(),
                i <= os.len(),
                out@.map_values(|t: String| t@) == unfilled_orders(os.take(i as int)).map_values(
                    |e: (Seq<char>, OrderView)| e.1.token_id,
                ),
            decreases os.len() - i,
        {
            proof {
                assert(os.take(i + 1) =~= os.take(i as int).push(os[i as int]));
                os.take(i as int).lemma_filter_push(os[i as int], |e: (Seq<char>, OrderView)| !e.1.filled);
            }
            let ghost before = out@;
            if !self.pending_limit_orders[i].1.filled {
                out.push(self.pending_limit_orders[i].1.token_id.clone());
                proof {
                    assert(out@.map_values(|t: String| t@) =~= before.map_values(|t: String| t@).push(os[i as int].1.token_id));
                    assert(unfilled_orders(os.take(i as int)).push(os[i as int]).map_values(|e: (Seq<char>, OrderView)| e.1.token_id)
                        =~= unfilled_orders(os.take(i as int)).map_values(|e: (Seq<char>, OrderView)| e.1.token_id).push(os[i as int].1.token_id));
                }
            }
            i = i + 1;
        }
        proof {
            assert(os.take(os.len() as int) =~= os);
        }
        out
    }

    /// (total invested, total invested plus realized profit, realized profit).
    pub fn get_total_spending_and_earnings(&self) -> (r: (i128, i128, i128))
        requires
            self.wf(),
        ensures
            r.0 == self@.invested,
            r.1 == self@.invested + self@.realized,
            r.2 == self@.realized,
    {
        proof {
            lemma_room_mono(self@, 0, self@.positions.len() as int);
        }
        (self.total_invested, self.total_invested + self.total_realized_pnl, self.total_realized_pnl)
    }

    /// The number of open positions.
    pub fn open_position_count(&self) -> (r: usize)
        requires
            self.wf(),
        ensures
            r == open_positions(self@).len(),
    {
        let ghost ps = self@.positions;
        let mut count: usize = 0;
        let mut i: usize = 0;
        proof {
            assert(ps.take(0) =~= Seq::empty());
            reveal(Seq::filter);
        }
        while i < self.positions.len()
            invariant
                ps == self@.positions,
                ps.len() == self.positions@.len(),
                i <= ps.len(),
                count == ps.take(i as int).filter(|p: PositionView| !p.sold).len(),
                count <= i,
            decreases ps.len() - i,
        {
            proof {
                assert(ps.take(i + 1) =~= ps.take(i as int).push(ps[i as int]));
                ps.take(i as int).lemma_filter_push(ps[i as int], |p: PositionView| !p.sold);
            }
            if !self.positions[i].sold {
                count = count + 1;
            }
            i = i + 1;
        }
        proof {
            assert(ps.take(ps.len() as int) =~= ps);
        }
        count
    }

    /// Fills the unfilled order under `key` at the current quote: a buy
    /// opens a position, a sell closes the open position of its token.
    fn fill_limit_order(&mut self, key: &String, current_prices: &PriceBook) -> (r: FillOutcome)
        requires
            old(self).wf(),
            current_prices.wf(),
            room(old(self)@, old(self)@.positions.len() + 2int),
        ensures
            final(self).wf(),
            final(self)@ == fill_model(old(self)@, key@, current_prices@),
            fill_reported(old(self)@, key@, current_prices@, r),
    {
        let ghost s0 = self@;
        let ghost book = current_prices@;
        proof {
            lemma_find_key(order_keys(s0.orders), key@);
        }
        let idx = match self.find_order(key) {
            Some(i) => i,
            None => {
                return FillOutcome::NotPending;
            },
        };
        if self.pending_limit_orders[idx].1.filled {
            return FillOutcome::NotPending;
        }
        let order = self.pending_limit_orders[idx].1.clone();
        let ghost ov = s0.orders[idx as int].1;
        assert(order@ == ov);
        let quote = current_prices.get(&order.token_id);
        let buy = order.side == String::from_str("BUY");
        let sell = order.side == String::from_str("SELL");
        let fill_price: u32 = match quote {
            Some(p) => {
                let q = if buy {
                    p.ask
                } else if sell {
                    p.bid
                } else {
                    None
                };
                match q {
                    Some(v) => v,
                    None => order.target_price,
                }
            },
            None => order.target_price,
        };
        assert(fill_price == fill_price_model(ov, book));
        let mut filled_order = order.clone();
        filled_order.filled = true;
        let ghost fov = filled_order@;
        self.pending_limit_orders.set(idx, (key.clone(), filled_order.clone()));
        proof {
            assert(self@.orders =~= s0.orders.update(idx as int, (key@, fov)));
            assert(order_keys(self@.orders) =~= order_keys(s0.orders));
            lemma_room_mono(self@, s0.positions.len() + 1int, s0.positions.len() + 2int);
            lemma_room_mono(self@, s0.positions.len() as int, s0.positions.len() + 2int);
        }
        if buy {
            let investment = amount(order.size, fill_price);
            proof {
                lemma_amount_bounds(order.size, fill_price);
            }
            let position = SimulatedPosition {
                token_id: order.token_id.clone(),
                token_type: order.token_type,
                condition_id: order.condition_id.clone(),
                purchase_price: fill_price,
                units: order.size,
                investment_amount: investment,
                sell_price: None,
                purchase_timestamp: now(),
                period_timestamp: order.period_timestamp,
                sold: false,
                sell_price_actual: None,
                sell_timestamp: None,
            };
            let ghost s1 = self@;
            self.put_position(position);
            self.total_invested = self.total_invested + investment;
            proof {
                lemma_room_mono(s0, self@.positions.len() + 1int, s0.positions.len() + 2int);
                lemma_room_step(s0, self@, self@.positions.len() as int);
            }
            assert(self@ == fill_model(s0, key@, book));
            let open = self.open_position_count();
            FillOutcome::Bought {
                order: filled_order,
                fill_price,
                investment,
                open_positions: open,
                total_invested: self.total_invested,
                total_realized: self.total_realized_pnl,
            }
        } else if sell {
            let ghost s1 = self@;
            proof {
                lemma_find_key(position_keys(s0.positions), ov.token_id);
            }
            match self.find_position(&order.token_id) {
                Some(j) => {
                    if !self.positions[j].sold {
                        let mut p = self.positions[j].clone();
                        let ghost q = s0.positions[j as int];
                        proof {
                            lemma_pnl_bound(fill_price, q.purchase_price, q.units);
                        }
                        let pnl: i128 = gain(p.units, p.purchase_price, fill_price);
                        p.sold = true;
                        p.sell_price_actual = Some(fill_price);
                        p.sell_timestamp = Some(now());
                        let ghost pv = p@;
                        self.positions.set(j, p.clone());
                        self.total_realized_pnl = self.total_realized_pnl + pnl;
                        proof {
                            assert(self@.positions =~= s0.positions.update(j as int, pv));
                            assert(position_keys(self@.positions) =~= position_keys(s0.positions));
                            assert forall|m: int| 0 <= m < self@.positions.len() implies (#[trigger] self@.positions[m]).investment_amount
                                == amount_of(self@.positions[m].units, self@.positions[m].purchase_price) by {
                                assert(s0.positions[m].investment_amount == amount_of(s0.positions[m].units, s0.positions[m].purchase_price));
                            }
                            assert(self@ == fill_model(s0, key@, book));
                            lemma_room_mono(s0, s0.positions.len() + 1int, s0.positions.len() + 2int);
                            lemma_room_step(s0, self@, self@.positions.len() as int);
                        }
                        FillOutcome::Sold { order: filled_order, position: p, fill_price, realized_pnl: pnl }
                    } else {
                        assert(self@ == fill_model(s0, key@, book));
                        FillOutcome::SoldWithoutPosition { order: filled_order, fill_price }
                    }
                },
                None => {
                    assert(self@ == fill_model(s0, key@, book));
                    FillOutcome::SoldWithoutPosition { order: filled_order, fill_price }
                },
            }
        } else {
            assert(self@ == fill_model(s0, key@, book));
            FillOutcome::OtherSide { order: filled_order, fill_price }
        }
    }

    /// Whether the price fills the order.
    fn order_fills_at(order: &SimulatedLimitOrder, price: &TokenPrice) -> (r: bool)
        ensures
            r == fills_at(order@, *price),
    {
        if order.side == String::from_str("BUY") {
            match price.ask {
                Some(a) => a > 0 && a <= order.target_price,
                None => false,
            }
        } else if order.side == String::from_str("SELL") {
            match price.bid {
                Some(b) => b > 0 && b >= order.target_price,
                None => false,
            }
        } else {
            false
        }
    }

    /// Compares every unfilled order with the price of its token and fills
    /// those that the price reaches (a buy when the ask is positive and at
    /// most the limit, a sell when the bid is positive and at least the
    /// limit). Nothing is checked when orders wait but no price is known.
    pub fn check_limit_orders(&mut self, current_prices: &PriceBook) -> (r: LimitOrderCheck)
        requires
            old(self).wf(),
            current_prices.wf(),
            room(old(self)@, old(self)@.positions.len() + 2 * (old(self)@.orders.len() as int)),
        ensures
            final(self).wf(),
            final(self)@ == check_limit_orders_model(old(self)@, current_prices@),
            check_skipped(old(self)@, current_prices@) ==> {
                &&& r.skipped == Some(unfilled_orders(old(self)@.orders).len() as usize)
                &&& r.checks@.len() == 0
                &&& r.fills@.len() == 0
            },
            !check_skipped(old(self)@, current_prices@) ==> {
                &&& r.skipped is None
                &&& checks_view(r.checks@) == priced_unfilled(old(self)@, current_prices@).map_values(
                    |e: (Seq<char>, OrderView)| check_view(e, current_prices@),
                )
                &&& r.fills@.len() == keys_to_fill(old(self)@, current_prices@).len()
                &&& forall|m: int|
                    0 <= m < r.fills@.len() ==> fill_reported(
                        fill_all(old(self)@, keys_to_fill(old(self)@, current_prices@).take(m), current_prices@),
                        keys_to_fill(old(self)@, current_prices@)[m],
                        current_prices@,
                        #[trigger] r.fills@[m],
                    )
            },
    {
        let ghost s0 = self@;
        let ghost book = current_prices@;
        let unfilled = self.get_pending_order_count();
        if unfilled > 0 && current_prices.is_empty() {
            return LimitOrderCheck { skipped: Some(unfilled), checks: Vec::new(), fills: Vec::new() };
        }
        let ghost os = s0.orders;
        let ghost checked = |e: (Seq<char>, OrderView)| !e.1.filled && price_in(book, e.1.token_id) is Some;
        let ghost ready = |e: (Seq<char>, OrderView)| ready_to_fill(e.1, book);
        let mut checks: Vec<OrderCheck> = Vec::new();
        let mut keys: Vec<String> = Vec::new();
        let mut i: usize = 0;
        proof {
            assert(os.take(0) =~= Seq::empty());
            reveal(Seq::filter);
            assert(checks_view(checks@) =~= os.take(0).filter(checked).map_values(|e: (Seq<char>, OrderView)| check_view(e, book)));
            assert(keys@.map_values(|k: String| k@) =~= order_keys(os.take(0).filter(ready)));
        }
        while i < self.pending_limit_orders.len()
            invariant
                self.wf(),
                self@ == s0,
                os == s0.orders,
                current_prices.wf(),
                book == current_prices@,
                os.len() == self.pending_limit_orders@.len(),
                i <= os.len(),
                checked == (|e: (Seq<char>, OrderView)| !e.1.filled && price_in(book, e.1.token_id) is Some),
                ready == (|e: (Seq<char>, OrderView)| ready_to_fill(e.1, book)),
                checks_view(checks@) == os.take(i as int).filter(checked).map_values(
                    |e: (Seq<char>, OrderView)| check_view(e, book),
                ),
                keys@.map_values(|k: String| k@) == order_keys(os.take(i as int).filter(ready)),
            decreases os.len() - i,
        {
            proof {
                assert(os.take(i + 1) =~= os.take(i as int).push(os[i as int]));
                os.take(i as int).lemma_filter_push(os[i as int], checked);
                os.take(i as int).lemma_filter_push(os[i as int], ready);
            }
            let ghost before_checks = checks@;
            let ghost before_keys = keys@;
            if !self.pending_limit_orders[i].1.filled {
                match current_prices.get(&self.pending_limit_orders[i].1.token_id) {
                    Some(price) => {
                        let fill = Self::order_fills_at(&self.pending_limit_orders[i].1, &price);
                        checks.push(OrderCheck { order: self.pending_limit_orders[i].1.clone(), price, fill });
                        proof {
                            assert(checks_view(checks@) =~= checks_view(before_checks).push(check_view(os[i as int], book)));
                            assert(os.take(i as int).filter(checked).push(os[i as int]).map_values(|e: (Seq<char>, OrderView)| check_view(e, book))
                                =~= os.take(i as int).filter(checked).map_values(|e: (Seq<char>, OrderView)| check_view(e, book)).push(check_view(os[i as int], book)));
                        }
                        if fill {
                            keys.push(self.pending_limit_orders[i].0.clone());
                            proof {
                                assert(keys@.map_values(|k: String| k@) =~= before_keys.map_values(|k: String| k@).push(os[i as int].0));
                                assert(order_keys(os.take(i as int).filter(ready).push(os[i as int])) =~=
                                    order_keys(os.take(i as int).filter(ready)).push(os[i as int].0));
                            }
                        }
                    },
                    None => {},
                }
            }
            i = i + 1;
        }
        proof {
            assert(os.take(os.len() as int) =~= os);
            assert(priced_unfilled(s0, book) == os.filter(checked));
            assert(keys_to_fill(s0, book) == order_keys(os.filter(ready)));
            os.filter(ready).lemma_filter_len(ready);
            os.lemma_filter_len(ready);
        }
        let ghost kv = keys_to_fill(s0, book);
        let mut fills: Vec<FillOutcome> = Vec::new();
        let mut k: usize = 0;
        proof {
            assert(kv.take(0) =~= Seq::empty());
            lemma_room_mono(s0, s0.positions.len() + 2int * kv.len(), s0.positions.len() + 2int * s0.orders.len());
        }
        while k < keys.len()
            invariant
                self.wf(),
                current_prices.wf(),
                book == current_prices@,
                kv == keys_to_fill(s0, book),
                keys@.map_values(|x: String| x@) == kv,
                kv.len() <= s0.orders.len(),
                k <= kv.len(),
                self@ == fill_all(s0, kv.take(k as int), book),
                self@.invested >= 0,
                room(self@, self@.positions.len() + 2 * (kv.len() - k) as int),
                fills@.len() == k,
                forall|m: int|
                    0 <= m < k ==> fill_reported(
                        fill_all(s0, kv.take(m), book),
                        kv[m],
                        book,
                        #[trigger] fills@[m],
                    ),
            decreases kv.len() - k,
        {
            let ghost cur = self@;
            proof {
                assert(keys@[k as int]@ == kv[k as int]);
                lemma_fill_budget(cur, kv[k as int], book, kv.len() - k);
                lemma_room_mono(cur, cur.positions.len() + 2int, cur.positions.len() + 2int * (kv.len() - k));
                assert(kv.take(k + 1).drop_last() =~= kv.take(k as int));
            }
            let outcome = self.fill_limit_order(&keys[k], current_prices);
            fills.push(outcome);
            k = k + 1;
        }
        proof {
            assert(kv.take(kv.len() as int) =~= kv);
        }
        LimitOrderCheck { skipped: None, checks, fills }
    }

    /// Whether the running totals have room for `k` more trades.
    pub fn has_room(&self, k: usize) -> (r: bool)
        requires
            self.wf(),
        ensures
            r == room(self@, k as int),
    {
        let limit: i128 = 0x2000_0000_0000_0000_0000_0000_0000_0000;
        if k > 0x1000_0000 {
            proof {
                assert(k as int * trade_bound() > total_limit()) by (nonlinear_arith)
                    requires k > 0x1000_0000;
            }
            return false;
        }
        let kb: i128 = (k as i128) * 0x2_0000_0000_0000_0000_0000_0000;
        self.total_invested <= limit - kb && self.total_realized_pnl <= limit - kb
            && self.total_realized_pnl >= kb - limit
    }

    fn wins_exec(by_side: bool, up: bool, winner: &Option<String>, p: &SimulatedPosition) -> (r: bool)
        ensures
            r == wins(outcome_of(by_side, up, winner), p@),
    {
        if by_side {
            p.token_type.is_up() == up
        } else {
            match winner {
                Some(t) => *t == p.token_id,
                None => false,
            }
        }
    }

    /// Closes every open position of the market at one dollar per share if
    /// it won and nothing if it lost, realizing payout minus cost.
    fn close_market(&mut self, condition_id: &str, by_side: bool, up: bool, winner: &Option<String>) -> (r: MarketClose)
        requires
            old(self).wf(),
            room(old(self)@, old(self)@.positions.len() + (closing_positions(old(self)@, condition_id@).len() as int)),
        ensures
            final(self).wf(),
            final(self)@ == close_market_model(old(self)@, condition_id@, outcome_of(by_side, up, winner)),
            close_reported(old(self)@, condition_id@, outcome_of(by_side, up, winner), r),
    {
        let ghost outcome = outcome_of(by_side, up, winner);
        let ghost s0 = self@;
        let ghost ps = s0.positions;
        let ghost cid = condition_id@;
        let ghost pred = |p: PositionView| closes(p, cid);
        let ghost spent_terms = ps.map_values(|p: PositionView| if closes(p, cid) { p.investment_amount } else { 0 });
        let ghost earned_terms = ps.map_values(
            |p: PositionView| if closes(p, cid) { amount_of(p.units, payout(wins(outcome, p))) } else { 0 },
        );
        let ghost closed_seq = ps.map_values(
            |p: PositionView| if closes(p, cid) { closed_position(p, wins(outcome, p)) } else { p },
        );
        let cond = String::from_str(condition_id);
        let mut spent: i128 = 0;
        let mut earned: i128 = 0;
        let mut closed: Vec<ClosedPosition> = Vec::new();
        let mut i: usize = 0;
        proof {
            assert(ps.take(0) =~= Seq::empty());
            assert(spent_terms.take(0) =~= Seq::empty());
            assert(earned_terms.take(0) =~= Seq::empty());
            reveal(Seq::filter);
            assert(closed@.map_values(|c: ClosedPosition| c.position@) =~= ps.take(0).filter(pred));
        }
        while i < self.positions.len()
            invariant
                self.price_trackers@ == old(self).price_trackers@,
                old(self).wf(),
                state_wf(self@),
                ps == s0.positions,
                cid == condition_id@,
                cond@ == cid,
                pred == (|p: PositionView| closes(p, cid)),
                outcome == outcome_of(by_side, up, winner),
                spent_terms == ps.map_values(|p: PositionView| if closes(p, cid) { p.investment_amount } else { 0 }),
                earned_terms == ps.map_values(
                    |p: PositionView| if closes(p, cid) { amount_of(p.units, payout(wins(outcome, p))) } else { 0 },
                ),
                closed_seq == ps.map_values(
                    |p: PositionView| if closes(p, cid) { closed_position(p, wins(outcome, p)) } else { p },
                ),
                state_wf(s0),
                room(s0, ps.len() + (closing_positions(s0, cid).len() as int)),
                self@.positions.len() == ps.len(),
                i <= ps.len(),
                forall|j: int| 0 <= j < i ==> self@.positions[j] == closed_seq[j],
                forall|j: int| i <= j < ps.len() ==> self@.positions[j] == ps[j],
                self@.orders == s0.orders,
                self@.trackers == s0.trackers,
                self@.invested == s0.invested,
                self@.initial_capital == s0.initial_capital,
                spent == seq_sum(spent_terms.take(i as int)),
                earned == seq_sum(earned_terms.take(i as int)),
                closed@.len() <= i,
                0 <= spent <= closed@.len() * trade_bound(),
                0 <= earned <= closed@.len() * trade_bound(),
                self@.realized == s0.realized + earned - spent,
                closed@.map_values(|c: ClosedPosition| c.position@) == ps.take(i as int).filter(pred),
                forall|m: int|
                    0 <= m < closed@.len() ==> {
                        let c = #[trigger] closed@[m];
                        &&& c.won == wins(outcome, c.position@)
                        &&& c.payout == payout(c.won)
                        &&& c.value == amount_of(c.position@.units, c.payout)
                        &&& c.pnl == c.value - c.position@.investment_amount
                    },
            decreases ps.len() - i,
        {
            proof {
                lemma_sum_take_step(spent_terms, i as int);
                lemma_sum_take_step(earned_terms, i as int);
                assert(ps.take(i + 1) =~= ps.take(i as int).push(ps[i as int]));
                ps.take(i as int).lemma_filter_push(ps[i as int], pred);
                assert(self@.positions[i as int] == ps[i as int]);
            }
            let ghost before_closed = closed@;
            if self.positions[i].condition_id == cond && !self.positions[i].sold {
                let before_close = self.positions[i].clone();
                let won = Self::wins_exec(by_side, up, winner, &before_close);
                let pay: u32 = if won { ONE_DOLLAR } else { 0 };
                let value = amount(before_close.units, pay);
                proof {
                    lemma_amount_bounds(before_close.units, pay);
                    lemma_amount_bounds(before_close.units, before_close.purchase_price);
                    assert(ps[i as int].investment_amount == amount_of(ps[i as int].units, ps[i as int].purchase_price));
                }
                proof {
                    let c = closed@.len() as int;
                    let tb = trade_bound();
                    assert((c + 1) * tb == c * tb + tb) by (nonlinear_arith);
                    lemma_room_mono(s0, c + 1, ps.len() + (closing_positions(s0, cid).len() as int));
                }
                let pnl = value - before_close.investment_amount;
                let mut updated = before_close.clone();
                updated.sold = true;
                updated.sell_price_actual = Some(pay);
                updated.sell_timestamp = Some(now());
                let ghost uv = updated@;
                let ghost before_positions = self@.positions;
                self.positions.set(i, updated);
                spent = spent + before_close.investment_amount;
                earned = earned + value;
                self.total_realized_pnl = self.total_realized_pnl + pnl;
                closed.push(ClosedPosition { position: before_close, won, payout: pay, value, pnl });
                proof {
                    assert(self@.positions =~= before_positions.update(i as int, uv));
                    assert(position_keys(self@.positions) =~= position_keys(before_positions));
                    assert forall|m: int| 0 <= m < self@.positions.len() implies (#[trigger] self@.positions[m]).investment_amount
                        == amount_of(self@.positions[m].units, self@.positions[m].purchase_price) by {
                        assert(before_positions[m].investment_amount == amount_of(before_positions[m].units, before_positions[m].purchase_price));
                    }
                    assert(closed@.map_values(|c: ClosedPosition| c.position@) =~= before_closed.map_values(|c: ClosedPosition| c.position@).push(ps[i as int]));
                }
            }
            i = i + 1;
        }
        proof {
            assert(ps.take(ps.len() as int) =~= ps);
            assert(spent_terms.take(ps.len() as int) =~= spent_terms);
            assert(earned_terms.take(ps.len() as int) =~= earned_terms);
            assert(self@.positions =~= closed_seq);
            assert(position_keys(self@.positions) =~= position_keys(ps));
            assert forall|m: int| 0 <= m < self@.positions.len() implies (#[trigger] self@.positions[m]).investment_amount
                == amount_of(self@.positions[m].units, self@.positions[m].purchase_price) by {
                assert(ps[m].investment_amount == amount_of(ps[m].units, ps[m].purchase_price));
            }
            assert(self@ == close_market_model(s0, cid, outcome));
            ps.lemma_filter_len(pred);
            assert(closed@.len() == closing_positions(s0, cid).len());
            lemma_room_split(s0, self@, ps.len() as int, closing_positions(s0, cid).len() as int);
        }
        MarketClose { total_spent: spent, total_earned: earned, net_pnl: earned - spent, closed }
    }

    /// Resolves every open position of a market: positions on the winning
    /// side ("Up" tokens when it resolved up) receive one dollar per share,
    /// the others nothing. Returns the amounts spent and earned and the net.
    pub fn resolve_market_positions(&mut self, condition_id: &str, market_resolved_up: bool) -> (r: MarketClose)
        requires
            old(self).wf(),
            room(old(self)@, old(self)@.positions.len() + (closing_positions(old(self)@, condition_id@).len() as int)),
        ensures
            final(self).wf(),
            final(self)@ == close_market_model(old(self)@, condition_id@, Outcome::ResolvedUp(market_resolved_up)),
            close_reported(old(self)@, condition_id@, Outcome::ResolvedUp(market_resolved_up), r),
    {
        self.close_market(condition_id, true, market_resolved_up, &None)
    }

    /// Settles every open position of a market: the position of the winning
    /// token (if one is named) receives one dollar per share, the others
    /// nothing.
    pub fn settle_positions_for_market(&mut self, condition_id: &str, winner_token_id: Option<&str>) -> (r: MarketClose)
        requires
            old(self).wf(),
            room(old(self)@, old(self)@.positions.len() + (closing_positions(old(self)@, condition_id@).len() as int)),
        ensures
            final(self).wf(),
            final(self)@ == close_market_model(old(self)@, condition_id@, Outcome::Winner(opt_view(winner_token_id))),
            close_reported(old(self)@, condition_id@, Outcome::Winner(opt_view(winner_token_id)), r),
    {
        let winner = match winner_token_id {
            Some(w) => Some(String::from_str(w)),
            None => None,
        };
        self.close_market(condition_id, false, false, &winner)
    }

    /// Adds a price sample to the tracker of (period, token), creating the
    /// tracker with room for `max_history_size` samples when there is none.
    pub fn track_price(
        &mut self,
        period_timestamp: u64,
        token_id: &str,
        time_elapsed_seconds: u64,
        bid_price: u32,
        max_history_size: usize,
    )
        requires
            old(self).wf(),
        ensures
            final(self).wf(),
            final(self)@ == track_price_model(
                old(self)@,
                period_timestamp,
                token_id@,
                time_elapsed_seconds,
                bid_price,
                max_history_size as nat,
            ),
    {
        let ghost s0 = self@;
        let key = String::from_str(token_id);
        let ghost k = (period_timestamp, key@);
        proof {
            lemma_find_key(tracker_keys(s0.trackers), k);
        }
        match self.find_tracker(period_timestamp, &key) {
            Some(i) => {
                let mut entry = TrackedPrices {
                    period: 0,
                    token_id: String::new(),
                    tracker: PriceTrendTracker::new(0),
                };
                let ghost old_entry = self.price_trackers@[i as int];
                self.price_trackers.set_and_swap(i, &mut entry);
                assert(entry == old_entry);
                assert(entry.tracker.wf());
                entry.tracker.add_price(time_elapsed_seconds, bid_price);
                let ghost new_entry = entry;
                self.price_trackers.set_and_swap(i, &mut entry);
                proof {
                    assert(self.price_trackers@ =~= old(self).price_trackers@.update(i as int, new_entry));
                    assert(self@.trackers =~= s0.trackers.update(
                        i as int,
                        TrackerView {
                            history: window(s0.trackers[i as int].history.push((time_elapsed_seconds, bid_price)), s0.trackers[i as int].max_size),
                            ..s0.trackers[i as int]
                        },
                    ));
                    assert(tracker_keys(self@.trackers) =~= tracker_keys(s0.trackers));
                    assert forall|j: int| 0 <= j < self.price_trackers@.len() implies
                        (#[trigger] self.price_trackers@[j]).tracker.wf() by {
                        if j != i {
                            assert(self.price_trackers@[j] == old(self).price_trackers@[j]);
                        }
                    }
                }
            },
            None => {
                let mut tracker = PriceTrendTracker::new(max_history_size);
                tracker.add_price(time_elapsed_seconds, bid_price);
                let entry = TrackedPrices { period: period_timestamp, token_id: key, tracker };
                let ghost ev = entry;
                self.price_trackers.push(entry);
                proof {
                    assert(self@.trackers =~= s0.trackers.push(
                        TrackerView {
                            period: period_timestamp,
                            token_id: token_id@,
                            history: window(Seq::<(u64, u32)>::empty().push((time_elapsed_seconds, bid_price)), max_history_size as nat),
                            max_size: max_history_size as nat,
                        },
                    ));
                    assert(tracker_keys(self@.trackers) =~= tracker_keys(s0.trackers).push(k));
                    lemma_push_fresh(tracker_keys(s0.trackers), k);
                    assert forall|j: int| 0 <= j < self.price_trackers@.len() implies
                        (#[trigger] self.price_trackers@[j]).tracker.wf() by {
                        if j < s0.trackers.len() {
                            assert(self.price_trackers@[j] == old(self).price_trackers@[j]);
                        }
                    }
                }
            },
        }
    }

    /// Whether the trend of (period, token) can be computed with `min_samples`.
    pub open spec fn trend_ready(&self, period_timestamp: u64, token_id: Seq<char>, min_samples: usize) -> bool {
        match tracker_for(self@, period_timestamp, token_id) {
            Some(t) => trend_defined(t.history, min_samples as nat),
            None => true,
        }
    }

    fn tracker_index(&self, period_timestamp: u64, token_id: &str) -> (r: Option<usize>)
        requires
            self.wf(),
        ensures
            r is Some <==> tracker_for(self@, period_timestamp, token_id@) is Some,
            r matches Some(i) ==> i < self.price_trackers@.len() && tracker_for(
                self@,
                period_timestamp,
                token_id@,
            ) == Some(tracker_entry_view(self.price_trackers@[i as int])) && self.price_trackers@[i as int].tracker.wf(),
    {
        let key = String::from_str(token_id);
        proof {
            lemma_find_key(tracker_keys(self@.trackers), (period_timestamp, token_id@));
        }
        self.find_tracker(period_timestamp, &key)
    }

    /// Checks `trend_ready`.
    pub fn can_analyze_trend(&self, period_timestamp: u64, token_id: &str, min_samples: usize) -> (r: bool)
        requires
            self.wf(),
        ensures
            r == self.trend_ready(period_timestamp, token_id@, min_samples),
    {
        match self.tracker_index(period_timestamp, token_id) {
            Some(i) => self.price_trackers[i].tracker.can_calculate_trend(min_samples),
            None => true,
        }
    }

    /// The trend of (period, token), if it is tracked.
    pub fn get_trend_analysis(&self, period_timestamp: u64, token_id: &str, min_samples: usize) -> (r: Option<TrendAnalysis>)
        requires
            self.wf(),
            self.trend_ready(period_timestamp, token_id@, min_samples),
        ensures
            r is Some <==> tracker_for(self@, period_timestamp, token_id@) is Some,
            r matches Some(a) ==> a@ == trend_of(
                tracker_for(self@, period_timestamp, token_id@).unwrap().history,
                min_samples as nat,
            ),
    {
        match self.tracker_index(period_timestamp, token_id) {
            Some(i) => Some(self.price_trackers[i].tracker.calculate_trend(min_samples)),
            None => None,
        }
    }

    /// Whether (period, token) is tracked and trending up with at least
    /// `min_strength` (millionths).
    pub fn is_token_uptrending(&self, period_timestamp: u64, token_id: &str, min_strength: u32, min_samples: usize) -> (r: bool)
        requires
            self.wf(),
            self.trend_ready(period_timestamp, token_id@, min_samples),
        ensures
            r == match tracker_for(self@, period_timestamp, token_id@) {
                Some(t) => trend_of(t.history, min_samples as nat).direction == TrendDirection::Uptrend
                    && strength_reaches(trend_of(t.history, min_samples as nat).strength, min_strength),
                None => false,
            },
            r == match tracker_for(self@, period_timestamp, token_id@) {
                Some(t) => {
                    let a = trend_of(t.history, min_samples as nat);
                    &&& a.direction == TrendDirection::Uptrend
                    &&& 1_000_000 * (a.strength.0.0 * a.strength.1.0) >= min_strength * (a.strength.0.1
                        * a.strength.1.1)
                },
                None => false,
            },
    {
        match self.tracker_index(period_timestamp, token_id) {
            Some(i) => self.price_trackers[i].tracker.is_uptrending(min_strength, min_samples),
            None => false,
        }
    }

    /// (is up, strength, slope) of (period, token), if it is tracked.
    pub fn get_trend_for_hedge(&self, period_timestamp: u64, token_id: &str, min_samples: usize) -> (r: Option<(bool, TrendStrength, Ratio)>)
        requires
            self.wf(),
            self.trend_ready(period_timestamp, token_id@, min_samples),
        ensures
            r is Some <==> tracker_for(self@, period_timestamp, token_id@) is Some,
            r matches Some(x) ==> {
                let t = trend_of(
                    tracker_for(self@, period_timestamp, token_id@).unwrap().history,
                    min_samples as nat,
                );
                &&& x.0 == (t.direction == TrendDirection::Uptrend)
                &&& x.1@ == t.strength
                &&& x.2@ == t.slope
            },
    {
        match self.tracker_index(period_timestamp, token_id) {
            Some(i) => Some(self.price_trackers[i].tracker.get_trend_for_hedge(min_samples)),
            None => None,
        }
    }

    /// The number of samples tracked for (period, token); zero if none.
    pub fn tracker_sample_count(&self, period_timestamp: u64, token_id: &str) -> (r: usize)
        requires
            self.wf(),
        ensures
            r == match tracker_for(self@, period_timestamp, token_id@) {
                Some(t) => t.history.len(),
                None => 0,
            },
    {
        match self.tracker_index(period_timestamp, token_id) {
            Some(i) => self.price_trackers[i].tracker.sample_count(),
            None => 0,
        }
    }

    /// Drops the trackers of a period.
    pub fn clear_period_trackers(&mut self, period_timestamp: u64)
        requires
            old(self).wf(),
        ensures
            final(self).wf(),
            final(self)@ == clear_period_model(old(self)@, period_timestamp),
    {
        let ghost s0 = self@;
        let ghost ts = s0.trackers;
        let ghost keep = |t: TrackerView| t.period != period_timestamp;
        let mut kept: Vec<TrackedPrices> = Vec::new();
        let mut old_trackers: Vec<TrackedPrices> = Vec::new();
        std::mem::swap(&mut old_trackers, &mut self.price_trackers);
        let ghost olds = old_trackers@;
        proof {
            assert(ts.take(0) =~= Seq::empty());
            reveal(Seq::filter);
            assert(kept@.map_values(|t: TrackedPrices| tracker_entry_view(t)) =~= ts.take(0).filter(keep));
        }
        let n = old_trackers.len();
        let mut i: usize = 0;
        while i < n
            invariant
                n == old_trackers@.len(),
                old_trackers@.len() == olds.len(),
                forall|j: int| i <= j < n ==> old_trackers@[j] == olds[j],
                olds.map_values(|t: TrackedPrices| tracker_entry_view(t)) == ts,
                keep == (|t: TrackerView| t.period != period_timestamp),
                i <= n,
                kept@.map_values(|t: TrackedPrices| tracker_entry_view(t)) == ts.take(i as int).filter(keep),
                forall|j: int| 0 <= j < olds.len() ==> (#[trigger] olds[j]).tracker.wf(),
                forall|j: int| 0 <= j < kept@.len() ==> (#[trigger] kept@[j]).tracker.wf(),
            decreases n - i,
        {
            let mut entry = TrackedPrices { period: 0, token_id: String::new(), tracker: PriceTrendTracker::new(0) };
            old_trackers.set_and_swap(i, &mut entry);
            proof {
                assert(entry == olds[i as int]);
                assert(ts[i as int] == tracker_entry_view(olds[i as int]));
                assert(ts.take(i + 1) =~= ts.take(i as int).push(ts[i as int]));
                ts.take(i as int).lemma_filter_push(ts[i as int], keep);
            }
            let ghost before = kept@;
            if entry.period != period_timestamp {
                kept.push(entry);
                proof {
                    assert(kept@.map_values(|t: TrackedPrices| tracker_entry_view(t)) =~= before.map_values(|t: TrackedPrices| tracker_entry_view(t)).push(ts[i as int]));
                }
            }
            i = i + 1;
        }
        self.price_trackers = kept;
        proof {
            assert(ts.take(ts.len() as int) =~= ts);
            assert(self@.trackers == ts.filter(keep));
            lemma_filter_keys_distinct(ts, period_timestamp);
        }
    }

    fn mark_price_exec(p: &SimulatedPosition, current_prices: &PriceBook) -> (r: u64)
        requires
            current_prices.wf(),
        ensures
            r == mark_price(p@, current_prices@),
            r <= 2 * 0xFFFF_FFFFu64,
    {
        match current_prices.get(&p.token_id) {
            Some(tp) => match tp.mid_price_halves() {
                Some(m) => m,
                None => 2 * p.purchase_price as u64,
            },
            None => 2 * p.purchase_price as u64,
        }
    }

    /// Unrealized profit of the open positions whose token has a price:
    /// (mark price - purchase price) * units, summed.
    pub fn calculate_unrealized_pnl(&self, current_prices: &PriceBook) -> (r: i128)
        requires
            self.wf(),
            current_prices.wf(),
        ensures
            r == unrealized_model(self@, current_prices@),
            -(self@.positions.len() * trade_bound()) <= r <= self@.positions.len() * trade_bound(),
    {
        let ghost s0 = self@;
        let ghost book = current_prices@;
        let ghost terms = s0.positions.map_values(
            |p: PositionView| if !p.sold && price_in(book, p.token_id) is Some { unrealized_of(p, book) } else { 0 },
        );
        let mut total: i128 = 0;
        let mut i: usize = 0;
        proof {
            assert(terms.take(0) =~= Seq::empty());
        }
        while i < self.positions.len()
            invariant
                self.wf(),
                self@ == s0,
                current_prices.wf(),
                book == current_prices@,
                room(s0, s0.positions.len() as int),
                terms == s0.positions.map_values(
                    |p: PositionView| if !p.sold && price_in(book, p.token_id) is Some { unrealized_of(p, book) } else { 0 },
                ),
                s0.positions.len() == self.positions@.len(),
                i <= s0.positions.len(),
                total == seq_sum(terms.take(i as int)),
                -(i * trade_bound()) <= total <= i * trade_bound(),
            decreases s0.positions.len() - i,
        {
            proof {
                lemma_sum_take_step(terms, i as int);
                assert(s0.positions.len() * trade_bound() <= total_limit()) by (nonlinear_arith)
                    requires s0.invested + s0.positions.len() * trade_bound() <= total_limit(), s0.invested >= 0;
                assert((i + 1) * trade_bound() <= s0.positions.len() * trade_bound()) by (nonlinear_arith)
                    requires i + 1 <= s0.positions.len();
            }
            let p = &self.positions[i];
            if !p.sold {
                match current_prices.get(&p.token_id) {
                    Some(_) => {
                        let mark = Self::mark_price_exec(p, current_prices);
                        proof {
                            crate::units::lemma_gain_bounds(p.units, p.purchase_price, p.purchase_price, mark as int);
                        }
                        let u: i128 = (mark as i128 - 2 * p.purchase_price as i128) * (p.units as i128);
                        total = total + u;
                    },
                    None => {},
                }
            }
            i = i + 1;
        }
        proof {
            assert(terms.take(s0.positions.len() as int) =~= terms);
        }
        total
    }

    /// The figures of the position summary: capital, invested, realized,
    /// unrealized and total profit, final balance, return, and each open
    /// position with its mark price and unrealized profit.
    pub fn get_position_summary(&self, current_prices: &PriceBook) -> (r: PositionSummary)
        requires
            self.wf(),
            current_prices.wf(),
        ensures
            summary_reported(self@, current_prices@, r),
    {
        let ghost s0 = self@;
        let ghost book = current_prices@;
        let unrealized = self.calculate_unrealized_pnl(current_prices);
        proof {
            assert(s0.positions.len() * trade_bound() <= total_limit()) by (nonlinear_arith)
                requires s0.invested + s0.positions.len() * trade_bound() <= total_limit(), s0.invested >= 0;
        }
        let total_pnl = self.total_realized_pnl + unrealized;
        let capital: i128 = (self.initial_capital as i128) * 2_000_000;
        let final_balance = capital + total_pnl;
        let ghost ps = s0.positions;
        let ghost open_pred = |p: PositionView| !p.sold;
        let mut lines: Vec<OpenPositionLine> = Vec::new();
        let mut i: usize = 0;
        proof {
            assert(ps.take(0) =~= Seq::empty());
            reveal(Seq::filter);
            assert(lines@.map_values(|l: OpenPositionLine| (l.position@, l.current_price_halves as int, l.unrealized as int)) =~=
                ps.take(0).filter(open_pred).map_values(|p: PositionView| (p, mark_price(p, book), unrealized_of(p, book))));
        }
        while i < self.positions.len()
            invariant
                self@ == s0,
                ps == s0.positions,
                current_prices.wf(),
                book == current_prices@,
                open_pred == (|p: PositionView| !p.sold),
                ps.len() == self.positions@.len(),
                i <= ps.len(),
                lines@.map_values(|l: OpenPositionLine| (l.position@, l.current_price_halves as int, l.unrealized as int))
                    == ps.take(i as int).filter(open_pred).map_values(
                    |p: PositionView| (p, mark_price(p, book), unrealized_of(p, book)),
                ),
            decreases ps.len() - i,
        {
            proof {
                assert(ps.take(i + 1) =~= ps.take(i as int).push(ps[i as int]));
                ps.take(i as int).lemma_filter_push(ps[i as int], open_pred);
            }
            let ghost before = lines@;
            if !self.positions[i].sold {
                let p = self.positions[i].clone();
                let mark = Self::mark_price_exec(&p, current_prices);
                proof {
                    crate::units::lemma_gain_bounds(p.units, p.purchase_price, p.purchase_price, mark as int);
                }
                let u: i128 = (mark as i128 - 2 * p.purchase_price as i128) * (p.units as i128);
                lines.push(OpenPositionLine { position: p, current_price_halves: mark, unrealized: u });
                proof {
                    assert(lines@.map_values(|l: OpenPositionLine| (l.position@, l.current_price_halves as int, l.unrealized as int)) =~=
                        before.map_values(|l: OpenPositionLine| (l.position@, l.current_price_halves as int, l.unrealized as int)).push(
                            (ps[i as int], mark_price(ps[i as int], book), unrealized_of(ps[i as int], book))));
                    assert(ps.take(i as int).filter(open_pred).push(ps[i as int]).map_values(
                        |p: PositionView| (p, mark_price(p, book), unrealized_of(p, book))) =~=
                        ps.take(i as int).filter(open_pred).map_values(
                        |p: PositionView| (p, mark_price(p, book), unrealized_of(p, book))).push(
                            (ps[i as int], mark_price(ps[i as int], book), unrealized_of(ps[i as int], book))));
                }
            }
            i = i + 1;
        }
        proof {
            assert(ps.take(ps.len() as int) =~= ps);
        }
        PositionSummary {
            initial_capital: self.initial_capital,
            total_invested: self.total_invested,
            realized_pnl: self.total_realized_pnl,
            unrealized_pnl: unrealized,
            total_pnl,
            final_balance,
            open_positions: lines,
        }
    }

    /// The figures of the final report: totals, return, counts of winning,
    /// losing and open trades, waiting orders, and every position with the
    /// profit realized on it.
    pub fn final_report(&self) -> (r: FinalReport)
        requires
            self.wf(),
        ensures
            report_made(self@, r),
    {
        proof {
            lemma_room_mono(self@, 0, self@.positions.len() as int);
        }
        let ghost s0 = self@;
        let ghost ps = s0.positions;
        let ghost win = |p: PositionView| is_winning(p);
        let ghost lose = |p: PositionView| is_losing(p);
        let ghost open_pred = |p: PositionView| !p.sold;
        let mut winning: u64 = 0;
        let mut losing: u64 = 0;
        let mut open: u64 = 0;
        let mut lines: Vec<ReportPosition> = Vec::new();
        let mut i: usize = 0;
        proof {
            assert(ps.take(0) =~= Seq::empty());
            reveal(Seq::filter);
            assert(lines@.map_values(|l: ReportPosition| (l.position@, l.pnl as int, l.closed)) =~=
                ps.take(0).map_values(|p: PositionView| (p, trade_pnl(p), p.sold)));
        }
        while i < self.positions.len()
            invariant
                self@ == s0,
                ps == s0.positions,
                win == (|p: PositionView| is_winning(p)),
                lose == (|p: PositionView| is_losing(p)),
                open_pred == (|p: PositionView| !p.sold),
                ps.len() == self.positions@.len(),
                i <= ps.len(),
                winning == ps.take(i as int).filter(win).len(),
                losing == ps.take(i as int).filter(lose).len(),
                open == ps.take(i as int).filter(open_pred).len(),
                winning + losing + open <= i,
                lines@.map_values(|l: ReportPosition| (l.position@, l.pnl as int, l.closed))
                    == ps.take(i as int).map_values(|p: PositionView| (p, trade_pnl(p), p.sold)),
            decreases ps.len() - i,
        {
            proof {
                assert(ps.take(i + 1) =~= ps.take(i as int).push(ps[i as int]));
                ps.take(i as int).lemma_filter_push(ps[i as int], win);
                ps.take(i as int).lemma_filter_push(ps[i as int], lose);
                ps.take(i as int).lemma_filter_push(ps[i as int], open_pred);
            }
            let p = self.positions[i].clone();
            let ghost pv = p@;
            let pnl: i128 = if p.sold {
                match p.sell_price_actual {
                    Some(x) => {
                        proof {
                            crate::model::lemma_pnl_bound(x, p.purchase_price, p.units);
                        }
                        let v: i128 = gain(p.units, p.purchase_price, x);
                        if v >= 0 {
                            winning = winning + 1;
                        } else {
                            losing = losing + 1;
                        }
                        v
                    },
                    None => 0,
                }
            } else {
                open = open + 1;
                0
            };
            let closed = p.sold;
            let ghost before = lines@;
            lines.push(ReportPosition { position: p, pnl, closed });
            proof {
                assert(lines@.map_values(|l: ReportPosition| (l.position@, l.pnl as int, l.closed)) =~=
                    before.map_values(|l: ReportPosition| (l.position@, l.pnl as int, l.closed)).push((pv, trade_pnl(pv), pv.sold)));
                assert(ps.take(i + 1).map_values(|p: PositionView| (p, trade_pnl(p), p.sold)) =~=
                    ps.take(i as int).map_values(|p: PositionView| (p, trade_pnl(p), p.sold)).push((pv, trade_pnl(pv), pv.sold)));
            }
            i = i + 1;
        }
        proof {
            assert(ps.take(ps.len() as int) =~= ps);
        }
        let capital: i128 = (self.initial_capital as i128) * 2_000_000;
        let pending = self.get_pending_order_count();
        FinalReport {
            initial_capital: self.initial_capital,
            total_invested: self.total_invested,
            total_realized_pnl: self.total_realized_pnl,
            final_balance: capital + self.total_realized_pnl,
            total_trades: winning + losing + open,
            winning_trades: winning,
            losing_trades: losing,
            open_positions: open,
            pending_limit_orders: pending,
            positions: lines,
        }
    }

    fn pending_status_exec(order: &SimulatedLimitOrder, current_prices: &PriceBook) -> (r: (u32, PendingStatus))
        requires
            current_prices.wf(),
        ensures
            r == pending_status(order@, current_prices@),
    {
        match current_prices.get(&order.token_id) {
            None => (0, PendingStatus::NoPriceData),
            Some(p) => {
                if order.side == String::from_str("BUY") {
                    match p.ask {
                        Some(a) => if a > 0 {
                            (a, if (a as u64) <= (order.target_price as u64) + 100 { PendingStatus::Ready } else { PendingStatus::Waiting })
                        } else {
                            (0, PendingStatus::ZeroPrice)
                        },
                        None => (0, PendingStatus::NoAsk),
                    }
                } else if order.side == String::from_str("SELL") {
                    match p.bid {
                        Some(b) => if b > 0 {
                            (b, if (b as u64) + 100 >= (order.target_price as u64) { PendingStatus::Ready } else { PendingStatus::Waiting })
                        } else {
                            (0, PendingStatus::ZeroPrice)
                        },
                        None => (0, PendingStatus::NoBid),
                    }
                } else {
                    (0, PendingStatus::UnknownSide)
                }
            },
        }
    }

    /// Every unfilled order, in order, with its current quote and status.
    pub fn pending_orders_summary(&self, current_prices: &PriceBook) -> (r: Vec<PendingOrderLine>)
        requires
            self.wf(),
            current_prices.wf(),
        ensures
            r@.map_values(|l: PendingOrderLine| (l.order@, (l.current_price, l.status)))
                == unfilled_orders(self@.orders).map_values(
                |e: (Seq<char>, OrderView)| (e.1, pending_status(e.1, current_prices@)),
            ),
    {
        let ghost os = self@.orders;
        let ghost book = current_prices@;
        let ghost pred = |e: (Seq<char>, OrderView)| !e.1.filled;
        let mut out: Vec<PendingOrderLine> = Vec::new();
        let mut i: usize = 0;
        proof {
            assert(os.take(0) =~= Seq::empty());
            reveal(Seq::filter);
            assert(out@.map_values(|l: PendingOrderLine| (l.order@, (l.current_price, l.status))) =~=
                os.take(0).filter(pred).map_values(|e: (Seq<char>, OrderView)| (e.1, pending_status(e.1, book))));
        }
        while i < self.pending_limit_orders.len()
            invariant
                os == self@.orders,
                current_prices.wf(),
                book == current_prices@,
                pred == (|e: (Seq<char>, OrderView)| !e.1.filled),
                os.len() == self.pending_limit_orders@.len(),
                i <= os.len(),
                out@.map_values(|l: PendingOrderLine| (l.order@, (l.current_price, l.status)))
                    == os.take(i as int).filter(pred).map_values(
                    |e: (Seq<char>, OrderView)| (e.1, pending_status(e.1, book)),
                ),
            decreases os.len() - i,
        {
            proof {
                assert(os.take(i + 1) =~= os.take(i as int).push(os[i as int]));
                os.take(i as int).lemma_filter_push(os[i as int], pred);
            }
            let ghost before = out@;
            if !self.pending_limit_orders[i].1.filled {
                let order = self.pending_limit_orders[i].1.clone();
                let (price, status) = Self::pending_status_exec(&order, current_prices);
                out.push(PendingOrderLine { order, current_price: price, status });
                proof {
                    let e = os[i as int];
                    assert(out@.map_values(|l: PendingOrderLine| (l.order@, (l.current_price, l.status))) =~=
                        before.map_values(|l: PendingOrderLine| (l.order@, (l.current_price, l.status))).push((e.1, pending_status(e.1, book))));
                    assert(os.take(i as int).filter(pred).push(e).map_values(|e: (Seq<char>, OrderView)| (e.1, pending_status(e.1, book))) =~=
                        os.take(i as int).filter(pred).map_values(|e: (Seq<char>, OrderView)| (e.1, pending_status(e.1, book))).push((e.1, pending_status(e.1, book))));
                }
            }
            i = i + 1;
        }
        proof {
            assert(os.take(os.len() as int) =~= os);
        }
        out
    }

    /// The markets of the open positions, each once, in order of first appearance.
    pub fn unsettled_condition_ids(&self) -> (r: Vec<String>)
        requires
            self.wf(),
        ensures
            r@.map_values(|c: String| c@) == open_conditions(self@.positions),
    {
        let ghost ps = self@.positions;
        let mut out: Vec<String> = Vec::new();
        let mut i: usize = 0;
        proof {
            assert(ps.take(0) =~= Seq::empty());
            assert(out@.map_values(|c: String| c@) =~= open_conditions(ps.take(0)));
        }
        while i < self.positions.len()
            invariant
                ps == self@.positions,
                ps.len() == self.positions@.len(),
                i <= ps.len(),
                out@.map_values(|c: String| c@) == open_conditions(ps.take(i as int)),
            decreases ps.len() - i,
        {
            proof {
                assert(ps.take(i + 1).drop_last() =~= ps.take(i as int));
            }
            if !self.positions[i].sold {
                let cid = &self.positions[i].condition_id;
                let mut seen = false;
                let mut j: usize = 0;
                while j < out.len()
                    invariant
                        j <= out@.len(),
                        cid@ == ps[i as int].condition_id,
                        seen == exists|m: int| 0 <= m < j && out@[m]@ == cid@,
                    decreases out@.len() - j,
                {
                    if out[j] == *cid {
                        seen = true;
                    }
                    j = j + 1;
                }
                let ghost before = out@;
                proof {
                    let views = before.map_values(|c: String| c@);
                    if seen {
                        let m = choose|m: int| 0 <= m < before.len() && before[m]@ == cid@;
                        assert(views[m] == cid@);
                    } else {
                        assert forall|m: int| 0 <= m < views.len() implies views[m] != cid@ by {
                            assert(views[m] == before[m]@);
                        }
                    }
                }
                if !seen {
                    out.push(cid.clone());
                    proof {
                        assert(out@.map_values(|c: String| c@) =~= before.map_values(|c: String| c@).push(ps[i as int].condition_id));
                    }
                }
            }
            i = i + 1;
        }
        proof {
            assert(ps.take(ps.len() as int) =~= ps);
        }
        out
    }

    /// Settles the open positions of a market once it has closed, with the
    /// first token flagged as the winner; does nothing while it is open.
    pub fn settle_closed_market(&mut self, condition_id: &str, market: &MarketStatus) -> (r: Option<MarketClose>)
        requires
            old(self).wf(),
            room(old(self)@, old(self)@.positions.len() + (closing_positions(old(self)@, condition_id@).len() as int)),
        ensures
            final(self).wf(),
            !market.closed ==> r is None && final(self)@ == old(self)@,
            market.closed ==> (r matches Some(c) && final(self)@ == close_market_model(
                old(self)@,
                condition_id@,
                Outcome::Winner(winner_of(market.tokens@)),
            ) && close_reported(old(self)@, condition_id@, Outcome::Winner(winner_of(market.tokens@)), c)),
    {
        if !market.closed {
            return None;
        }
        let winner = winning_token(&market.tokens);
        Some(self.close_market(condition_id, false, false, &winner))
    }
}

/// The first token flagged as the winner, if any.
pub fn winning_token(tokens: &Vec<MarketToken>) -> (r: Option<String>)
    ensures
        match r {
            Some(t) => winner_of(tokens@) == Some(t@),
            None => winner_of(tokens@) is None,
        },
{
    let mut i: usize = 0;
    proof {
        assert(tokens@.skip(0) =~= tokens@);
    }
    while i < tokens.len()
        invariant
            i <= tokens@.len(),
            winner_of(tokens@) == winner_of(tokens@.skip(i as int)),
        decreases tokens@.len() - i,
    {
        proof {
            assert(tokens@.skip(i as int).drop_first() =~= tokens@.skip(i + 1));
        }
        if tokens[i].winner {
            return Some(tokens[i].token_id.clone());
        }
        i = i + 1;
    }
    proof {
        assert(tokens@.skip(i as int).len() == 0);
    }
    None
}


/// Dropping the trackers of a period keeps the remaining keys distinct.
pub proof fn lemma_filter_keys_distinct(ts: Seq<TrackerView>, period: u64)
    requires
        tracker_keys(ts).no_duplicates(),
    ensures
        tracker_keys(ts.filter(|t: TrackerView| t.period != period)).no_duplicates(),
    decreases ts.len(),
{
    let keep = |t: TrackerView| t.period != period;
    reveal(Seq::filter);
    if ts.len() > 0 {
        let d = ts.drop_last();
        assert(tracker_keys(d) =~= tracker_keys(ts).drop_last());
        lemma_filter_keys_distinct(d, period);
        let fd = d.filter(keep);
        if keep(ts.last()) {
            let k = (ts.last().period, ts.last().token_id);
            assert forall|j: int| 0 <= j < tracker_keys(fd).len() implies tracker_keys(fd)[j] != k by {
                d.lemma_filter_contains_rev(keep, fd[j]);
                let m = choose|m: int| 0 <= m < d.len() && d[m] == fd[j];
                assert(tracker_keys(ts)[m] == tracker_keys(fd)[j]);
                assert(tracker_keys(ts)[ts.len() - 1] == k);
            }
            assert(tracker_keys(fd.push(ts.last())) =~= tracker_keys(fd).push(k));
            lemma_push_fresh(tracker_keys(fd), k);
        }
    }
}

pub open spec fn opt_view(w: Option<&str>) -> Option<Seq<char>> {
    match w {
        Some(t) => Some(t@),
        None => None,
    }
}

pub open spec fn outcome_of(by_side: bool, up: bool, winner: &Option<String>) -> Outcome {
    if by_side {
        Outcome::ResolvedUp(up)
    } else {
        Outcome::Winner(
            match winner {
                Some(t) => Some(t@),
                None => None,
            },
        )
    }
}

} // verus!
