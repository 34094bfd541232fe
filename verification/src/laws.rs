//! Properties that hold of the simulation across operations.

use vstd::prelude::*;
use crate::keyed::{find_key, lemma_find_key, lemma_push_fresh};
use crate::market::{price_in, TokenPrice};
use crate::model::{
    add_limit_order_model, cancel_limit_order_model, check_limit_orders_model, check_skipped,
    clear_period_model, close_market_model, closes, closing_positions, earned_model, fill_all, fill_model,
    keys_to_fill, mark_price, open_positions, order_at, order_key, order_keys, payout,
    position_for, position_keys, ready_to_fill, spent_model, state_wf, track_price_model,
    tracker_for, tracker_keys, unfilled_orders, unrealized_model, unrealized_of, OrderView,
    Outcome, PositionView, SimView, TrackerView, fills_at, wins, summary_reported, PositionSummary,
    is_winning, is_losing, trade_pnl,
};
use crate::sums::seq_sum;
use crate::token::TokenType;
use crate::units::ONE_DOLLAR;
use crate::trend::{
    lemma_strength_bounds, strength_reaches, regression_den, regression_num, sample_offsets, sample_prices,
    sample_products, sample_squares, trend_of, window, TrendDirection,
};

verus! {

/// Cancelling a newly added order restores the orders as they were: when
/// no order of that token and side existed, `cancel(add(s, o))` is `s`.
pub proof fn law_cancel_undoes_add(s: SimView, o: OrderView)
    requires
        state_wf(s),
        order_at(s, order_key(o.token_id, o.side)) is None,
    ensures
        cancel_limit_order_model(add_limit_order_model(s, o), order_key(o.token_id, o.side)) == s,
{
    let k = order_key(o.token_id, o.side);
    lemma_find_key(order_keys(s.orders), k);
    let added = add_limit_order_model(s, o);
    assert(added.orders == s.orders.push((k, o)));
    assert(order_keys(added.orders) =~= order_keys(s.orders).push(k));
    lemma_push_fresh(order_keys(s.orders), k);
    lemma_find_key(order_keys(added.orders), k);
    assert(order_keys(added.orders)[s.orders.len() as int] == k);
    assert(added.orders.remove(s.orders.len() as int) =~= s.orders);
}

/// After an order is added, the order stored under its key is that order,
/// unfilled.
pub proof fn law_added_order_is_pending(s: SimView, o: OrderView)
    requires
        state_wf(s),
        !o.filled,
    ensures
        order_at(add_limit_order_model(s, o), order_key(o.token_id, o.side)) == Some(o),
{
    let k = order_key(o.token_id, o.side);
    lemma_find_key(order_keys(s.orders), k);
    let added = add_limit_order_model(s, o);
    let i = find_key(order_keys(s.orders), k);
    if i >= 0 {
        assert(order_keys(added.orders) =~= order_keys(s.orders));
    } else {
        assert(order_keys(added.orders) =~= order_keys(s.orders).push(k));
        lemma_push_fresh(order_keys(s.orders), k);
    }
    lemma_find_key(order_keys(added.orders), k);
}

/// A fill changes no order key and unfills no order; the order under the
/// key is filled afterwards if it existed.
pub proof fn lemma_fill_orders(s: SimView, key: Seq<char>, book: Seq<(Seq<char>, TokenPrice)>)
    ensures
        order_keys(fill_model(s, key, book).orders) == order_keys(s.orders),
        forall|j: int|
            0 <= j < s.orders.len() && s.orders[j].1.filled ==> #[trigger] fill_model(s, key, book).orders[j].1.filled,
        forall|j: int|
            0 <= j < s.orders.len() && s.orders[j].0 == key ==> #[trigger] fill_model(s, key, book).orders[j].1.filled
                || find_key(order_keys(s.orders), key) != j,
        find_key(order_keys(s.orders), key) >= 0 ==> fill_model(s, key, book).orders[find_key(
            order_keys(s.orders),
            key,
        )].1.filled,
{
    lemma_find_key(order_keys(s.orders), key);
    let i = find_key(order_keys(s.orders), key);
    let after = fill_model(s, key, book);
    if i >= 0 && !s.orders[i].1.filled {
        assert(order_keys(after.orders) =~= order_keys(s.orders));
    } else {
        assert(after == s);
    }
}

/// Filling the keys one after the other changes no order key and unfills
/// no order, and every key that names an order ends filled.
pub proof fn lemma_fill_all_orders(s: SimView, keys: Seq<Seq<char>>, book: Seq<(Seq<char>, TokenPrice)>)
    requires
        order_keys(s.orders).no_duplicates(),
    ensures
        order_keys(fill_all(s, keys, book).orders) == order_keys(s.orders),
        forall|j: int|
            0 <= j < s.orders.len() && s.orders[j].1.filled ==> #[trigger] fill_all(s, keys, book).orders[j].1.filled,
        forall|j: int, m: int|
            0 <= j < s.orders.len() && 0 <= m < keys.len() && s.orders[j].0 == keys[m] ==> #[trigger] fill_all(
                s,
                keys,
                book,
            ).orders[j].1.filled && #[trigger] keys[m] == keys[m],
    decreases keys.len(),
{
    if keys.len() > 0 {
        let d = keys.drop_last();
        lemma_fill_all_orders(s, d, book);
        let mid = fill_all(s, d, book);
        lemma_fill_orders(mid, keys.last(), book);
        let ks = order_keys(s.orders);
        assert forall|j: int, m: int|
            0 <= j < s.orders.len() && 0 <= m < keys.len() && s.orders[j].0 == keys[m] implies #[trigger] fill_all(
            s,
            keys,
            book,
        ).orders[j].1.filled && #[trigger] keys[m] == keys[m] by {
            assert(order_keys(mid.orders)[j] == ks[j]);
            assert(ks[j] == s.orders[j].0);
            assert(mid.orders[j].0 == s.orders[j].0);
            if m == keys.len() - 1 {
                lemma_find_key(order_keys(mid.orders), keys.last());
                assert(order_keys(mid.orders)[j] == keys.last());
                assert(find_key(order_keys(mid.orders), keys.last()) == j);
            } else {
                assert(d[m] == keys[m]);
                assert(mid.orders[j].1.filled);
            }
        }
    }
}

/// After the limit orders are checked against prices (and prices were
/// available), no order that those prices reach is left unfilled.
pub proof fn law_check_fills_every_reached_order(s: SimView, book: Seq<(Seq<char>, TokenPrice)>, j: int)
    requires
        state_wf(s),
        !check_skipped(s, book),
        0 <= j < s.orders.len(),
        ready_to_fill(s.orders[j].1, book),
    ensures
        check_limit_orders_model(s, book).orders[j].1.filled,
        order_keys(check_limit_orders_model(s, book).orders) == order_keys(s.orders),
{
    let ready = |e: (Seq<char>, OrderView)| ready_to_fill(e.1, book);
    let f = s.orders.filter(ready);
    s.orders.lemma_filter_contains(ready, j);
    let m = choose|m: int| 0 <= m < f.len() && f[m] == s.orders[j];
    let keys = keys_to_fill(s, book);
    assert(keys == order_keys(f));
    assert(keys[m] == s.orders[j].0);
    lemma_fill_all_orders(s, keys, book);
}


/// A sum of zeros is zero.
proof fn lemma_sum_zeros(xs: Seq<int>)
    requires
        forall|i: int| 0 <= i < xs.len() ==> xs[i] == 0,
    ensures
        seq_sum(xs) == 0,
    decreases xs.len(),
{
    if xs.len() > 0 {
        lemma_sum_zeros(xs.drop_last());
    }
}

/// Closing a market leaves none of its positions open, keeps every other
/// position as it was, keeps sold positions sold, leaves orders, invested
/// amount and trackers alone, and changes realized profit by the amount
/// earned minus the amount spent.
pub proof fn law_close_market_effect(s: SimView, condition_id: Seq<char>, outcome: Outcome)
    ensures
        ({
            let t = close_market_model(s, condition_id, outcome);
            &&& t.positions.len() == s.positions.len()
            &&& forall|i: int| 0 <= i < t.positions.len() ==> !closes(#[trigger] t.positions[i], condition_id)
            &&& forall|i: int|
                0 <= i < s.positions.len() && !closes(s.positions[i], condition_id) ==> #[trigger] t.positions[i]
                    == s.positions[i]
            &&& forall|i: int| 0 <= i < s.positions.len() && s.positions[i].sold ==> #[trigger] t.positions[i].sold
            &&& forall|i: int|
                0 <= i < s.positions.len() && closes(s.positions[i], condition_id) ==> #[trigger] t.positions[i].sell_price_actual
                    == Some(payout(crate::model::wins(outcome, s.positions[i])))
            &&& t.realized == s.realized + earned_model(s, condition_id, outcome) - spent_model(s, condition_id)
            &&& t.orders == s.orders
            &&& t.invested == s.invested
            &&& t.trackers == s.trackers
        }),
{
}

/// Closing a market a second time, whatever the outcome given then,
/// changes nothing and spends and earns nothing.
pub proof fn law_close_market_idempotent(
    s: SimView,
    condition_id: Seq<char>,
    outcome: Outcome,
    second_outcome: Outcome,
)
    ensures
        ({
            let t = close_market_model(s, condition_id, outcome);
            &&& close_market_model(t, condition_id, second_outcome) == t
            &&& spent_model(t, condition_id) == 0
            &&& earned_model(t, condition_id, second_outcome) == 0
            &&& closing_positions(t, condition_id).len() == 0
        }),
{
    let t = close_market_model(s, condition_id, outcome);
    law_close_market_effect(s, condition_id, outcome);
    let sp = t.positions.map_values(|p: PositionView| if closes(p, condition_id) { p.investment_amount } else { 0 });
    let ea = t.positions.map_values(
        |p: PositionView|
            if closes(p, condition_id) {
                crate::units::amount_of(p.units, payout(crate::model::wins(second_outcome, p)))
            } else {
                0
            },
    );
    lemma_sum_zeros(sp);
    lemma_sum_zeros(ea);
    let again = close_market_model(t, condition_id, second_outcome);
    assert(again.positions =~= t.positions);
    let pred = |p: PositionView| closes(p, condition_id);
    if t.positions.filter(pred).len() > 0 {
        let x = t.positions.filter(pred)[0];
        t.positions.lemma_filter_pred(pred, 0);
        assert(t.positions.filter(pred).contains(x));
        t.positions.lemma_filter_contains_rev(pred, x);
        let m = choose|m: int| 0 <= m < t.positions.len() && t.positions[m] == x;
        assert(!closes(t.positions[m], condition_id));
    }
}

/// A fill never reopens a sold position of another token than the
/// order's, never lowers the amount invested, and leaves an already filled
/// or missing order as it is. (A filled buy replaces the position of its
/// own token, sold or not, with a new open one.)
pub proof fn law_fill_monotone(s: SimView, key: Seq<char>, book: Seq<(Seq<char>, TokenPrice)>)
    requires
        state_wf(s),
    ensures
        ({
            let t = fill_model(s, key, book);
            &&& t.positions.len() >= s.positions.len()
            &&& forall|i: int|
                0 <= i < s.positions.len() && s.positions[i].sold && (order_at(s, key) is None
                    || s.positions[i].token_id != order_at(s, key).unwrap().token_id) ==> #[trigger] t.positions[i].sold
            &&& t.invested >= s.invested
            &&& t.trackers == s.trackers
            &&& (order_at(s, key) is None || order_at(s, key).unwrap().filled) ==> t == s
        }),
{
    lemma_find_key(order_keys(s.orders), key);
    lemma_find_key(position_keys(s.positions), key);
    let i = find_key(order_keys(s.orders), key);
    if i >= 0 && !s.orders[i].1.filled {
        let o = s.orders[i].1;
        crate::units::lemma_amount_bounds(o.size, crate::model::fill_price_model(o, book));
        lemma_find_key(position_keys(s.positions), o.token_id);
    }
}

/// Dropping the trackers of a period leaves no tracker of that period and
/// keeps every tracker of the other periods.
pub proof fn law_clear_period(s: SimView, period: u64, token_id: Seq<char>)
    requires
        state_wf(s),
    ensures
        tracker_for(clear_period_model(s, period), period, token_id) is None,
        forall|q: u64| q != period ==> #[trigger] tracker_for(clear_period_model(s, q), period, token_id)
            == tracker_for(s, period, token_id),
{
    let keep = |t: TrackerView| t.period != period;
    let f = s.trackers.filter(keep);
    lemma_find_key(tracker_keys(f), (period, token_id));
    if find_key(tracker_keys(f), (period, token_id)) >= 0 {
        let i = find_key(tracker_keys(f), (period, token_id));
        s.trackers.lemma_filter_pred(keep, i);
    }
    assert forall|q: u64| q != period implies #[trigger] tracker_for(clear_period_model(s, q), period, token_id)
        == tracker_for(s, period, token_id) by {
        lemma_clear_other_period(s, q, period, token_id);
    }
}

proof fn lemma_clear_other_period(s: SimView, q: u64, period: u64, token_id: Seq<char>)
    requires
        state_wf(s),
        q != period,
    ensures
        tracker_for(clear_period_model(s, q), period, token_id) == tracker_for(s, period, token_id),
{
    let keep = |t: TrackerView| t.period != q;
    let f = s.trackers.filter(keep);
    let k = (period, token_id);
    lemma_find_key(tracker_keys(s.trackers), k);
    lemma_find_key(tracker_keys(f), k);
    crate::tracker::lemma_filter_keys_distinct(s.trackers, q);
    let i = find_key(tracker_keys(s.trackers), k);
    if i >= 0 {
        s.trackers.lemma_filter_contains(keep, i);
        let m = choose|m: int| 0 <= m < f.len() && f[m] == s.trackers[i];
        assert(tracker_keys(f)[m] == k);
    } else {
        let j = find_key(tracker_keys(f), k);
        if j >= 0 {
            s.trackers.lemma_filter_contains_rev(keep, f[j]);
            let m = choose|m: int| 0 <= m < s.trackers.len() && s.trackers[m] == f[j];
            assert(tracker_keys(s.trackers)[m] == k);
        }
    }
}


/// The unrealized profit of the summary is the sum of the unrealized
/// profit shown on its open-position lines.
pub proof fn law_unrealized_is_sum_of_lines(s: SimView, book: Seq<(Seq<char>, TokenPrice)>)
    ensures
        unrealized_model(s, book) == seq_sum(
            open_positions(s).map_values(|p: PositionView| unrealized_of(p, book)),
        ),
{
    lemma_unrealized_lines(s.positions, book);
}

proof fn lemma_unrealized_lines(ps: Seq<PositionView>, book: Seq<(Seq<char>, TokenPrice)>)
    ensures
        seq_sum(
            ps.map_values(
                |p: PositionView|
                    if !p.sold && price_in(book, p.token_id) is Some { unrealized_of(p, book) } else { 0 },
            ),
        ) == seq_sum(ps.filter(|p: PositionView| !p.sold).map_values(|p: PositionView| unrealized_of(p, book))),
    decreases ps.len(),
{
    let open = |p: PositionView| !p.sold;
    let f = |p: PositionView| if !p.sold && price_in(book, p.token_id) is Some { unrealized_of(p, book) } else { 0 };
    let g = |p: PositionView| unrealized_of(p, book);
    reveal(Seq::filter);
    if ps.len() > 0 {
        let d = ps.drop_last();
        lemma_unrealized_lines(d, book);
        assert(ps.map_values(f).drop_last() =~= d.map_values(f));
        let last = ps.last();
        if open(last) {
            assert(ps.filter(open) == d.filter(open).push(last));
            assert(ps.filter(open).map_values(g).drop_last() =~= d.filter(open).map_values(g));
            if price_in(book, last.token_id) is None {
                assert(mark_price(last, book) == 2 * last.purchase_price);
                assert(unrealized_of(last, book) == 0);
            }
        } else {
            assert(ps.filter(open) == d.filter(open));
        }
    }
}

/// The strength of a trend is between zero and one: each of its two
/// factors has a positive denominator and a numerator between zero and that
/// denominator.
pub proof fn law_trend_strength_bounded(h: Seq<(u64, u32)>, min_samples: nat)
    ensures
        0 <= trend_of(h, min_samples).strength.0.0 <= trend_of(h, min_samples).strength.0.1,
        0 < trend_of(h, min_samples).strength.0.1,
        0 <= trend_of(h, min_samples).strength.1.0 <= trend_of(h, min_samples).strength.1.1,
        0 < trend_of(h, min_samples).strength.1.1,
{
    lemma_strength_bounds(h);
}

/// The direction of a trend agrees with the slope and the price change
/// that it reports: up exactly when the slope is above 0.0001 dollars (100
/// micro-dollars) per second and the price rose by more than a cent, down
/// exactly when the slope is below -0.0001 and the price fell by more than
/// a cent.
pub proof fn law_trend_direction_matches_slope(h: Seq<(u64, u32)>, min_samples: nat)
    ensures
        trend_of(h, min_samples).slope.1 > 0,
        (trend_of(h, min_samples).direction == TrendDirection::Uptrend) <==> (trend_of(
            h,
            min_samples,
        ).slope.0 > 100 * trend_of(h, min_samples).slope.1 && trend_of(
            h,
            min_samples,
        ).price_change > 10_000),
        (trend_of(h, min_samples).direction == TrendDirection::Downtrend) <==> (trend_of(
            h,
            min_samples,
        ).slope.0 < -100 * trend_of(h, min_samples).slope.1 && trend_of(
            h,
            min_samples,
        ).price_change < -10_000),
{
}

/// A trend is "unknown" exactly when there are fewer samples than required.
pub proof fn law_trend_unknown_iff_too_few(h: Seq<(u64, u32)>, min_samples: nat)
    ensures
        (trend_of(h, min_samples).direction == TrendDirection::Unknown) <==> h.len() < min_samples,
{
}

/// After a sample is added to a window of at most `max` samples, at most
/// `max` remain, the newest last, preceded by the newest of the earlier ones.
pub proof fn law_window_keeps_newest(h: Seq<(u64, u32)>, e: (u64, u32), max: nat)
    requires
        max >= 1,
        h.len() <= max,
    ensures
        window(h.push(e), max).len() <= max,
        window(h.push(e), max).len() == if h.len() < max { h.len() + 1 } else { max },
        window(h.push(e), max).last() == e,
        window(h.push(e), max).drop_last() == window(h, (max - 1) as nat),
{
    let w = window(h.push(e), max);
    if h.len() + 1 > max {
        assert(w.drop_last() =~= window(h, (max - 1) as nat));
    } else {
        assert(w.drop_last() =~= h);
    }
}


/// Replacing one element changes the length of a filter by whether the
/// old and the new element pass it.
proof fn lemma_filter_update_len<A>(xs: Seq<A>, i: int, x: A, pred: spec_fn(A) -> bool)
    requires
        0 <= i < xs.len(),
    ensures
        xs.update(i, x).filter(pred).len() + (if pred(xs[i]) { 1int } else { 0int }) == xs.filter(
            pred,
        ).len() + (if pred(x) { 1int } else { 0int }),
    decreases xs.len(),
{
    reveal(Seq::filter);
    let ys = xs.update(i, x);
    if i == xs.len() - 1 {
        assert(ys.drop_last() =~= xs.drop_last());
    } else {
        assert(ys.drop_last() =~= xs.drop_last().update(i, x));
        lemma_filter_update_len(xs.drop_last(), i, x, pred);
    }
}

/// One fill keeps the order keys, leaves every filled order as it was, and
/// does not add to the unfilled orders.
proof fn lemma_fill_keeps_filled(s: SimView, key: Seq<char>, book: Seq<(Seq<char>, TokenPrice)>)
    ensures
        ({
            let t = fill_model(s, key, book);
            &&& order_keys(t.orders) == order_keys(s.orders)
            &&& forall|j: int|
                0 <= j < s.orders.len() && s.orders[j].1.filled ==> #[trigger] t.orders[j] == s.orders[j]
            &&& unfilled_orders(t.orders).len() <= unfilled_orders(s.orders).len()
        }),
{
    lemma_fill_orders(s, key, book);
    let i = find_key(order_keys(s.orders), key);
    lemma_find_key(order_keys(s.orders), key);
    let t = fill_model(s, key, book);
    if i >= 0 && !s.orders[i].1.filled {
        let o = s.orders[i].1;
        let x = (key, OrderView { filled: true, ..o });
        assert(t.orders == s.orders.update(i, x));
        lemma_filter_update_len(s.orders, i, x, |e: (Seq<char>, OrderView)| !e.1.filled);
    }
}

/// Filling the keys one after the other keeps the order keys, leaves every
/// filled order as it was, and does not add to the unfilled orders.
proof fn lemma_fill_all_keeps_filled(s: SimView, keys: Seq<Seq<char>>, book: Seq<(Seq<char>, TokenPrice)>)
    ensures
        ({
            let t = fill_all(s, keys, book);
            &&& order_keys(t.orders) == order_keys(s.orders)
            &&& forall|j: int|
                0 <= j < s.orders.len() && s.orders[j].1.filled ==> #[trigger] t.orders[j] == s.orders[j]
            &&& unfilled_orders(t.orders).len() <= unfilled_orders(s.orders).len()
        }),
    decreases keys.len(),
{
    if keys.len() > 0 {
        let d = keys.drop_last();
        lemma_fill_all_keeps_filled(s, d, book);
        let mid = fill_all(s, d, book);
        lemma_fill_keeps_filled(mid, keys.last(), book);
        assert(mid.orders.len() == order_keys(mid.orders).len());
        assert(s.orders.len() == order_keys(s.orders).len());
    }
}

/// Checking the limit orders never adds an order, never removes one, never
/// touches an order that was already filled, and never raises the number
/// of pending orders.
pub proof fn law_check_keeps_filled_orders(s: SimView, book: Seq<(Seq<char>, TokenPrice)>)
    ensures
        ({
            let t = check_limit_orders_model(s, book);
            &&& order_keys(t.orders) == order_keys(s.orders)
            &&& forall|j: int|
                0 <= j < s.orders.len() && s.orders[j].1.filled ==> #[trigger] t.orders[j] == s.orders[j]
            &&& unfilled_orders(t.orders).len() <= unfilled_orders(s.orders).len()
        }),
{
    if !check_skipped(s, book) {
        lemma_fill_all_keeps_filled(s, keys_to_fill(s, book), book);
    }
}

/// Tracking a price appends it to the history of its (period, token)
/// tracker, of which the newest samples within the tracker's size are
/// kept (a new tracker gets the size given); every other tracker stays as
/// it was. The trend reported afterwards is therefore the trend of that
/// window.
pub proof fn law_track_price_window(
    s: SimView,
    period: u64,
    token_id: Seq<char>,
    time: u64,
    price: u32,
    max_size: nat,
)
    requires
        state_wf(s),
    ensures
        ({
            let t = track_price_model(s, period, token_id, time, price, max_size);
            let before = tracker_for(s, period, token_id);
            let h = match before {
                Some(tr) => tr.history,
                None => Seq::<(u64, u32)>::empty(),
            };
            let m = match before {
                Some(tr) => tr.max_size,
                None => max_size,
            };
            &&& tracker_for(t, period, token_id) == Some(
                TrackerView { period, token_id, history: window(h.push((time, price)), m), max_size: m },
            )
            &&& forall|q: u64, u: Seq<char>|
                (q, u) != (period, token_id) ==> #[trigger] tracker_for(t, q, u) == tracker_for(s, q, u)
        }),
{
    let keys = tracker_keys(s.trackers);
    let k = (period, token_id);
    lemma_find_key(keys, k);
    let i = find_key(keys, k);
    let t = track_price_model(s, period, token_id, time, price, max_size);
    if i >= 0 {
        assert(tracker_keys(t.trackers) =~= keys);
        assert(keys[i] == (s.trackers[i].period, s.trackers[i].token_id));
        assert forall|q: u64, u: Seq<char>|
            (q, u) != (period, token_id) implies #[trigger] tracker_for(t, q, u) == tracker_for(s, q, u) by {
            lemma_find_key(keys, (q, u));
        }
    } else {
        let tv = TrackerView {
            period,
            token_id,
            history: window(Seq::<(u64, u32)>::empty().push((time, price)), max_size),
            max_size,
        };
        assert(t.trackers == s.trackers.push(tv));
        assert(tracker_keys(t.trackers) =~= keys.push(k));
        assert(keys.push(k).drop_last() =~= keys);
        assert forall|q: u64, u: Seq<char>|
            (q, u) != (period, token_id) implies #[trigger] tracker_for(t, q, u) == tracker_for(s, q, u) by {
            lemma_find_key(keys, (q, u));
        }
    }
}

/// Keeping the elements that pass a test keeps every element when all pass.
proof fn lemma_filter_all_pass<A>(xs: Seq<A>, pred: spec_fn(A) -> bool)
    requires
        forall|i: int| 0 <= i < xs.len() ==> pred(#[trigger] xs[i]),
    ensures
        xs.filter(pred) == xs,
    decreases xs.len(),
{
    reveal(Seq::filter);
    if xs.len() > 0 {
        lemma_filter_all_pass(xs.drop_last(), pred);
        assert(xs.drop_last().push(xs.last()) =~= xs);
    }
}

/// Clearing the trackers of a period twice is the same as clearing them once.
pub proof fn law_clear_period_twice(s: SimView, period: u64)
    ensures
        clear_period_model(clear_period_model(s, period), period) == clear_period_model(s, period),
{
    let keep = |t: TrackerView| t.period != period;
    let f = s.trackers.filter(keep);
    assert forall|i: int| 0 <= i < f.len() implies keep(#[trigger] f[i]) by {
        s.trackers.lemma_filter_pred(keep, i);
    }
    lemma_filter_all_pass(f, keep);
}

/// The token ids of the open positions are distinct.
proof fn lemma_open_keys_distinct(ps: Seq<PositionView>)
    requires
        position_keys(ps).no_duplicates(),
    ensures
        position_keys(ps.filter(|p: PositionView| !p.sold)).no_duplicates(),
    decreases ps.len(),
{
    let open = |p: PositionView| !p.sold;
    reveal(Seq::filter);
    if ps.len() > 0 {
        let d = ps.drop_last();
        assert(position_keys(d) =~= position_keys(ps).drop_last());
        lemma_open_keys_distinct(d);
        let fd = d.filter(open);
        if open(ps.last()) {
            let k = ps.last().token_id;
            assert forall|j: int| 0 <= j < position_keys(fd).len() implies position_keys(fd)[j] != k by {
                d.lemma_filter_contains_rev(open, fd[j]);
                let m = choose|m: int| 0 <= m < d.len() && d[m] == fd[j];
                assert(position_keys(ps)[m] == position_keys(fd)[j]);
                assert(position_keys(ps)[ps.len() - 1] == k);
            }
            assert(position_keys(fd.push(ps.last())) =~= position_keys(fd).push(k));
            lemma_push_fresh(position_keys(fd), k);
        }
    }
}

/// The open positions have distinct token ids; each is a position that
/// `has_position` finds under its token id; and the ids listed by
/// `get_position_token_ids` are those of the positions that
/// `get_all_positions` lists, in the same order.
pub proof fn law_open_positions_distinct(s: SimView)
    requires
        state_wf(s),
    ensures
        position_keys(open_positions(s)).no_duplicates(),
        forall|i: int|
            0 <= i < open_positions(s).len() ==> position_for(
                s,
                (#[trigger] open_positions(s)[i]).token_id,
            ) == Some(open_positions(s)[i]),
        open_positions(s).map_values(|p: PositionView| p.token_id) == position_keys(open_positions(s)),
{
    let open = |p: PositionView| !p.sold;
    lemma_open_keys_distinct(s.positions);
    assert forall|i: int| 0 <= i < open_positions(s).len() implies position_for(
        s,
        (#[trigger] open_positions(s)[i]).token_id,
    ) == Some(open_positions(s)[i]) by {
        let x = open_positions(s)[i];
        s.positions.lemma_filter_contains_rev(open, x);
        let m = choose|m: int| 0 <= m < s.positions.len() && s.positions[m] == x;
        assert(position_keys(s.positions)[m] == x.token_id);
        lemma_find_key(position_keys(s.positions), x.token_id);
    }
}


pub open spec fn sample_times(h: Seq<(u64, u32)>) -> Seq<int> {
    h.map_values(|e: (u64, u32)| e.0 as int)
}

pub open spec fn time_price_products(h: Seq<(u64, u32)>) -> Seq<int> {
    h.map_values(|e: (u64, u32)| e.0 as int * e.1 as int)
}

pub open spec fn time_squares(h: Seq<(u64, u32)>) -> Seq<int> {
    h.map_values(|e: (u64, u32)| e.0 as int * e.0 as int)
}

/// Numerator of the least-squares slope over the samples' own times:
/// n·Σty − Σt·Σy.
pub open spec fn absolute_regression_num(h: Seq<(u64, u32)>) -> int {
    h.len() * seq_sum(time_price_products(h)) - seq_sum(sample_times(h)) * seq_sum(sample_prices(h))
}

/// Denominator of the least-squares slope over the samples' own times:
/// n·Σt² − (Σt)².
pub open spec fn absolute_regression_den(h: Seq<(u64, u32)>) -> int {
    h.len() * seq_sum(time_squares(h)) - seq_sum(sample_times(h)) * seq_sum(sample_times(h))
}

spec fn shifted_times(h: Seq<(u64, u32)>, c: int) -> Seq<int> {
    h.map_values(|e: (u64, u32)| e.0 as int - c)
}

spec fn shifted_products(h: Seq<(u64, u32)>, c: int) -> Seq<int> {
    h.map_values(|e: (u64, u32)| (e.0 as int - c) * e.1 as int)
}

spec fn shifted_squares(h: Seq<(u64, u32)>, c: int) -> Seq<int> {
    h.map_values(|e: (u64, u32)| (e.0 as int - c) * (e.0 as int - c))
}

/// Sums of the times shifted by `c`, of the products and of the squares.
proof fn lemma_shifted_sums(h: Seq<(u64, u32)>, c: int)
    ensures
        seq_sum(shifted_times(h, c)) == seq_sum(sample_times(h)) - h.len() * c,
        seq_sum(shifted_products(h, c)) == seq_sum(time_price_products(h)) - c * seq_sum(
            sample_prices(h),
        ),
        seq_sum(shifted_squares(h, c)) == seq_sum(time_squares(h)) - 2 * c * seq_sum(
            sample_times(h),
        ) + h.len() * (c * c),
    decreases h.len(),
{
    if h.len() > 0 {
        let d = h.drop_last();
        lemma_shifted_sums(d, c);
        assert(shifted_times(h, c).drop_last() =~= shifted_times(d, c));
        assert(sample_times(h).drop_last() =~= sample_times(d));
        assert(shifted_products(h, c).drop_last() =~= shifted_products(d, c));
        assert(time_price_products(h).drop_last() =~= time_price_products(d));
        assert(sample_prices(h).drop_last() =~= sample_prices(d));
        assert(shifted_squares(h, c).drop_last() =~= shifted_squares(d, c));
        assert(time_squares(h).drop_last() =~= time_squares(d));
        let t = h.last().0 as int;
        let y = h.last().1 as int;
        let n = h.len() as int;
        assert(d.len() == n - 1);
        assert(d.len() * c + c == h.len() * c) by (nonlinear_arith)
            requires
                d.len() + 1 == h.len(),
        ;
        assert(shifted_times(h, c).last() == t - c);
        assert(shifted_squares(h, c).last() == (t - c) * (t - c));
        assert(time_squares(h).last() == t * t);
        assert(sample_times(h).last() == t);
        assert((t - c) * y == t * y - c * y) by (nonlinear_arith);
        assert(c * seq_sum(sample_prices(d)) + c * y == c * (seq_sum(sample_prices(d)) + y))
            by (nonlinear_arith);
        assert((t - c) * (t - c) == t * t - 2 * c * t + c * c) by (nonlinear_arith);
        assert(2 * c * seq_sum(sample_times(d)) + 2 * c * t == 2 * c * (seq_sum(sample_times(d))
            + t)) by (nonlinear_arith);
        assert(d.len() * (c * c) + c * c == h.len() * (c * c)) by (nonlinear_arith)
            requires
                d.len() + 1 == h.len(),
        ;
    } else {
        assert(h.len() * c == 0 && h.len() * (c * c) == 0) by (nonlinear_arith)
            requires
                h.len() == 0,
        ;
    }
}

/// The slope of a computed trend is the least-squares slope of price over
/// the samples' own times, n·Σty − Σt·Σy over n·Σt² − (Σt)², in
/// micro-dollars per second; it is zero when that denominator is zero
/// (all samples at one time).
pub proof fn law_slope_is_least_squares(h: Seq<(u64, u32)>, min_samples: nat)
    requires
        h.len() >= min_samples,
    ensures
        absolute_regression_den(h) == 0 ==> trend_of(h, min_samples).slope.0 == 0,
        absolute_regression_den(h) != 0 ==> trend_of(h, min_samples).slope.0
            * absolute_regression_den(h) == absolute_regression_num(h) * trend_of(
            h,
            min_samples,
        ).slope.1,
{
    let c = h[0].0 as int;
    lemma_shifted_sums(h, c);
    assert(sample_offsets(h) =~= shifted_times(h, c));
    assert(sample_products(h) =~= shifted_products(h, c));
    assert(sample_squares(h) =~= shifted_squares(h, c));
    let n = h.len() as int;
    let sx = seq_sum(sample_times(h));
    let sy = seq_sum(sample_prices(h));
    let sxy = seq_sum(time_price_products(h));
    let sxx = seq_sum(time_squares(h));
    assert(n * (sxy - c * sy) - (sx - n * c) * sy == n * sxy - sx * sy) by (nonlinear_arith);
    assert(n * (sxx - 2 * c * sx + n * (c * c)) - (sx - n * c) * (sx - n * c) == n * sxx - sx * sx)
        by (nonlinear_arith);
    assert(regression_num(h) == absolute_regression_num(h));
    assert(regression_den(h) == absolute_regression_den(h));
    let d = regression_den(h);
    let nu = regression_num(h);
    if d < 0 {
        assert((-nu) * d == nu * (-d)) by (nonlinear_arith);
    }
}


/// A trend reaches a strength threshold exactly when the product of its
/// slope factor and its consistency reaches it: with the factors as
/// fractions, `1_000_000 * slope_num * consistency_num >= m * slope_den *
/// consistency_den`.
pub proof fn law_strength_threshold_is_product(h: Seq<(u64, u32)>, min_samples: nat, m: u32)
    ensures
        ({
            let s = trend_of(h, min_samples).strength;
            strength_reaches(s, m) <==> 1_000_000 * s.0.0 * s.1.0 >= m * s.0.1 * s.1.1
        }),
{
    let s = trend_of(h, min_samples).strength;
    assert(1_000_000 * (s.0.0 * s.1.0) == 1_000_000 * s.0.0 * s.1.0) by (nonlinear_arith);
    assert(m * (s.0.1 * s.1.1) == m * s.0.1 * s.1.1) by (nonlinear_arith);
}

/// Neither factor can make up for the other: a trend that reaches a
/// strength of `m` millionths has a slope factor of at least `m`
/// millionths and a consistency of at least `m` millionths. (A steady rise
/// of 0.0002 dollars per second has slope factor 0.2, so it never reaches
/// 0.5, however consistent.)
pub proof fn law_strength_needs_both_factors(h: Seq<(u64, u32)>, min_samples: nat, m: u32)
    requires
        strength_reaches(trend_of(h, min_samples).strength, m),
    ensures
        1_000_000 * trend_of(h, min_samples).strength.0.0 >= m * trend_of(h, min_samples).strength.0.1,
        1_000_000 * trend_of(h, min_samples).strength.1.0 >= m * trend_of(h, min_samples).strength.1.1,
{
    lemma_strength_bounds(h);
    let s = trend_of(h, min_samples).strength;
    let (fnum, fden, cnum, cden) = (s.0.0, s.0.1, s.1.0, s.1.1);
    assert(1_000_000 * fnum >= m * fden && 1_000_000 * cnum >= m * cden) by (nonlinear_arith)
        requires
            1_000_000 * (fnum * cnum) >= m * (fden * cden),
            0 <= fnum <= fden,
            0 < fden,
            0 <= cnum <= cden,
            0 < cden,
            m >= 0,
    {
        if 1_000_000 * fnum < m * fden {
            assert(1_000_000 * fnum * cnum <= 1_000_000 * fnum * cden);
            assert(1_000_000 * fnum * cden < m * fden * cden);
        }
        if 1_000_000 * cnum < m * cden {
            assert(1_000_000 * fnum * cnum <= 1_000_000 * fden * cnum);
            assert(1_000_000 * fden * cnum < m * cden * fden);
        }
    }
}

/// A buy order fills exactly when its quote has an ask that is positive and
/// at most the limit (never on the bid alone); a sell exactly when the quote
/// has a bid that is positive and at least the limit; any other side never.
pub proof fn law_fill_conditions(o: OrderView, p: TokenPrice)
    ensures
        o.side == "BUY"@ ==> (fills_at(o, p) <==> (p.ask is Some && 0 < p.ask.unwrap()
            && p.ask.unwrap() <= o.target_price)),
        o.side == "SELL"@ ==> (fills_at(o, p) <==> (p.bid is Some && 0 < p.bid.unwrap()
            && p.bid.unwrap() >= o.target_price)),
        o.side != "BUY"@ && o.side != "SELL"@ ==> !fills_at(o, p),
        p.ask is None ==> (fills_at(o, p) ==> o.side == "SELL"@),
{
    reveal_strlit("BUY");
    reveal_strlit("SELL");
    assert("BUY"@.len() != "SELL"@.len());
}

/// Filling keys that never name the order at `j` leaves that order as it was.
proof fn lemma_fill_all_spares(s: SimView, keys: Seq<Seq<char>>, book: Seq<(Seq<char>, TokenPrice)>, j: int)
    requires
        order_keys(s.orders).no_duplicates(),
        0 <= j < s.orders.len(),
        forall|m: int| 0 <= m < keys.len() ==> keys[m] != s.orders[j].0,
    ensures
        fill_all(s, keys, book).orders.len() == s.orders.len(),
        fill_all(s, keys, book).orders[j] == s.orders[j],
    decreases keys.len(),
{
    if keys.len() > 0 {
        let d = keys.drop_last();
        assert forall|m: int| 0 <= m < d.len() implies d[m] != s.orders[j].0 by {
            assert(d[m] == keys[m]);
        }
        lemma_fill_all_spares(s, d, book, j);
        lemma_fill_all_keeps_filled(s, d, book);
        let mid = fill_all(s, d, book);
        let k = keys.last();
        lemma_fill_orders(mid, k, book);
        lemma_find_key(order_keys(mid.orders), k);
        let i = find_key(order_keys(mid.orders), k);
        assert(order_keys(mid.orders)[j] == s.orders[j].0);
        if i >= 0 && !mid.orders[i].1.filled {
            let o = mid.orders[i].1;
            assert(fill_model(mid, k, book).orders == mid.orders.update(i, (k, OrderView { filled: true, ..o })));
        }
    }
}

/// Checking the limit orders leaves a pending order that the prices do not
/// reach exactly as it was: in particular a buy order whose token is quoted
/// without an ask stays pending.
pub proof fn law_check_spares_unreached_orders(s: SimView, book: Seq<(Seq<char>, TokenPrice)>, j: int)
    requires
        state_wf(s),
        0 <= j < s.orders.len(),
        !ready_to_fill(s.orders[j].1, book),
    ensures
        check_limit_orders_model(s, book).orders[j] == s.orders[j],
{
    if !check_skipped(s, book) {
        let ready = |e: (Seq<char>, OrderView)| ready_to_fill(e.1, book);
        let f = s.orders.filter(ready);
        let keys = keys_to_fill(s, book);
        assert(keys == order_keys(f));
        assert forall|m: int| 0 <= m < keys.len() implies keys[m] != s.orders[j].0 by {
            s.orders.lemma_filter_pred(ready, m);
            assert(f.contains(f[m]));
            s.orders.lemma_filter_contains_rev(ready, f[m]);
            let q = choose|q: int| 0 <= q < s.orders.len() && s.orders[q] == f[m];
            if keys[m] == s.orders[j].0 {
                assert(order_keys(s.orders)[q] == order_keys(s.orders)[j]);
                assert(q == j);
            }
        }
        lemma_fill_all_spares(s, keys, book, j);
    }
}

/// A pending buy order whose token is quoted without an ask stays pending
/// through a check, whatever the bid.
pub proof fn law_buy_without_ask_stays_pending(s: SimView, book: Seq<(Seq<char>, TokenPrice)>, j: int)
    requires
        state_wf(s),
        0 <= j < s.orders.len(),
        !s.orders[j].1.filled,
        s.orders[j].1.side == "BUY"@,
        price_in(book, s.orders[j].1.token_id) is Some,
        price_in(book, s.orders[j].1.token_id).unwrap().ask is None,
    ensures
        check_limit_orders_model(s, book).orders[j] == s.orders[j],
        !check_limit_orders_model(s, book).orders[j].1.filled,
{
    law_fill_conditions(s.orders[j].1, price_in(book, s.orders[j].1.token_id).unwrap());
    law_check_spares_unreached_orders(s, book, j);
}

/// A resolution by side pays exactly one side: a position wins when the
/// market resolves up exactly when it loses when the market resolves down,
/// "Up" tokens win on up and "Down" tokens win on down.
pub proof fn law_resolution_pays_one_side(p: PositionView)
    ensures
        wins(Outcome::ResolvedUp(true), p) != wins(Outcome::ResolvedUp(false), p),
        (p.token_type == TokenType::BtcUp || p.token_type == TokenType::EthUp
            || p.token_type == TokenType::SolanaUp || p.token_type == TokenType::XrpUp) <==> wins(
            Outcome::ResolvedUp(true),
            p,
        ),
        (p.token_type == TokenType::BtcDown || p.token_type == TokenType::EthDown
            || p.token_type == TokenType::SolanaDown || p.token_type == TokenType::XrpDown)
            <==> wins(Outcome::ResolvedUp(false), p),
        forall|t: Seq<char>| wins(Outcome::Winner(Some(t)), p) <==> p.token_id == t,
        !wins(Outcome::Winner(None), p),
{
}

/// Closing a market pays each closing position one dollar per share if it
/// won and nothing if it lost: resolved down, a "Down" position is paid in
/// full and an "Up" one gets nothing.
pub proof fn law_close_pays_winners(s: SimView, condition_id: Seq<char>, up: bool, i: int)
    requires
        0 <= i < s.positions.len(),
        closes(s.positions[i], condition_id),
    ensures
        close_market_model(s, condition_id, Outcome::ResolvedUp(up)).positions[i].sell_price_actual
            == Some(if s.positions[i].token_type.pays_on_up() == up { ONE_DOLLAR } else { 0u32 }),
{
}

/// The summary's total profit is its realized profit (the tracker's
/// realized total) plus its unrealized profit, and its final balance is the
/// starting capital plus that total.
pub proof fn law_summary_total_is_realized_plus_unrealized(
    s: SimView,
    book: Seq<(Seq<char>, TokenPrice)>,
    r: PositionSummary,
)
    requires
        summary_reported(s, book, r),
    ensures
        r.realized_pnl == s.realized,
        r.unrealized_pnl == unrealized_model(s, book),
        r.total_pnl == r.realized_pnl + r.unrealized_pnl,
        r.final_balance == s.initial_capital * 2_000_000 + r.total_pnl,
{
}

/// A closed trade with a sale price wins exactly when it made no loss,
/// (sale price - purchase price) * units >= 0, and loses exactly when it
/// made one; its reported profit is that difference as an amount. An open
/// position neither wins nor loses.
pub proof fn law_winning_trade_is_profitable(p: PositionView)
    ensures
        is_winning(p) <==> (p.sold && p.sell_price_actual is Some && (p.sell_price_actual.unwrap()
            - p.purchase_price) * p.units >= 0),
        is_losing(p) <==> (p.sold && p.sell_price_actual is Some && (p.sell_price_actual.unwrap()
            - p.purchase_price) * p.units < 0),
        p.sold && p.sell_price_actual is Some ==> trade_pnl(p) == 2 * ((p.sell_price_actual.unwrap()
            - p.purchase_price) * p.units),
        !p.sold ==> !is_winning(p) && !is_losing(p) && trade_pnl(p) == 0,
{
}


/// The slope factor of a computed trend is min(|slope| * 1000, 1) with the
/// slope in dollars per second, over the slope that the trend reports:
/// its denominator is a thousand times the slope's (in micro-dollars per
/// second), its numerator the slope's magnitude capped at that denominator.
pub proof fn law_slope_factor_of_reported_slope(h: Seq<(u64, u32)>, min_samples: nat)
    requires
        h.len() >= min_samples,
    ensures
        ({
            let t = trend_of(h, min_samples);
            let mag = if t.slope.0 < 0 { -t.slope.0 } else { t.slope.0 };
            &&& t.strength.0.1 == 1000 * t.slope.1
            &&& t.strength.0.0 == (if mag < 1000 * t.slope.1 { mag } else { 1000 * t.slope.1 })
        }),
{
}

/// A trend whose samples all lie on its reported line through the first
/// sample is perfectly consistent.
pub proof fn law_samples_on_the_line_are_consistent(h: Seq<(u64, u32)>, min_samples: nat)
    requires
        h.len() >= min_samples,
        h.len() > 0,
        forall|i: int|
            0 <= i < h.len() ==> ((#[trigger] h[i]).1 as int - h[0].1 as int) * trend_of(h, min_samples).slope.1
                == trend_of(h, min_samples).slope.0 * (h[i].0 as int - h[0].0 as int),
    ensures
        trend_of(h, min_samples).strength.1.0 == trend_of(h, min_samples).strength.1.1,
{
    let devs = crate::trend::deviation_terms(h);
    assert forall|i: int| 0 <= i < devs.len() implies devs[i] == 0 by {
        assert(h[i] == h[i]);
    }
    lemma_sum_zeros(devs);
    lemma_strength_bounds(h);
}

/// What filling a pending order does, in terms of its quote: a buy quoted
/// with ask `a` opens (or replaces) the position of its token, unsold, with
/// the order's size at price `a`, and adds `size * a` to the amount
/// invested; a sell quoted with bid `b` whose token has an open position
/// sells it at `b` and realizes `(b - purchase price) * units`. Either way
/// the order ends filled.
pub proof fn law_fill_effects(s: SimView, key: Seq<char>, book: Seq<(Seq<char>, TokenPrice)>)
    requires
        order_at(s, key) is Some,
        !order_at(s, key).unwrap().filled,
        price_in(book, order_at(s, key).unwrap().token_id) is Some,
    ensures
        ({
            let o = order_at(s, key).unwrap();
            let q = price_in(book, o.token_id).unwrap();
            let t = fill_model(s, key, book);
            &&& order_at(t, key) is Some && order_at(t, key).unwrap().filled
            &&& (o.side == "BUY"@ && q.ask is Some) ==> {
                &&& position_for(t, o.token_id) is Some
                &&& position_for(t, o.token_id).unwrap().purchase_price == q.ask.unwrap()
                &&& position_for(t, o.token_id).unwrap().units == o.size
                &&& !position_for(t, o.token_id).unwrap().sold
                &&& t.invested == s.invested + 2 * (o.size * q.ask.unwrap())
                &&& t.realized == s.realized
            }
            &&& (o.side == "SELL"@ && q.bid is Some && position_for(s, o.token_id) is Some
                && !position_for(s, o.token_id).unwrap().sold) ==> {
                let x = position_for(s, o.token_id).unwrap();
                &&& position_for(t, o.token_id) is Some
                &&& position_for(t, o.token_id).unwrap().sold
                &&& position_for(t, o.token_id).unwrap().sell_price_actual == Some(q.bid.unwrap())
                &&& t.realized == s.realized + 2 * ((q.bid.unwrap() - x.purchase_price) * x.units)
                &&& t.invested == s.invested
            }
        }),
{
    reveal_strlit("BUY");
    reveal_strlit("SELL");
    assert("BUY"@.len() != "SELL"@.len());
    let i = find_key(order_keys(s.orders), key);
    lemma_find_key(order_keys(s.orders), key);
    let o = s.orders[i].1;
    let t = fill_model(s, key, book);
    assert(order_keys(t.orders) =~= order_keys(s.orders));
    lemma_find_key(order_keys(t.orders), key);
    let pk = position_keys(s.positions);
    lemma_find_key(pk, o.token_id);
    let j = find_key(pk, o.token_id);
    if o.side == "BUY"@ {
        let np = t.positions;
        if j >= 0 {
            assert(position_keys(np) =~= pk);
        } else {
            assert(position_keys(np) =~= pk.push(o.token_id));
            assert(pk.push(o.token_id).drop_last() =~= pk);
        }
        lemma_find_key(position_keys(np), o.token_id);
    } else if o.side == "SELL"@ && j >= 0 && !s.positions[j].sold {
        assert(position_keys(t.positions) =~= pk);
        lemma_find_key(position_keys(t.positions), o.token_id);
    }
}

/// A position is marked at the exact midpoint of its quote when it has both
/// a bid and an ask: its mark, in half micro-dollars, is bid plus ask, and
/// its unrealized profit is (bid + ask - 2 * purchase price) * units in
/// amount units; without both quotes it is marked at its purchase price and
/// shows no unrealized profit.
pub proof fn law_mark_is_midpoint(p: PositionView, book: Seq<(Seq<char>, TokenPrice)>)
    ensures
        (price_in(book, p.token_id) is Some && price_in(book, p.token_id).unwrap().bid is Some
            && price_in(book, p.token_id).unwrap().ask is Some) ==> {
            let q = price_in(book, p.token_id).unwrap();
            &&& mark_price(p, book) == q.bid.unwrap() + q.ask.unwrap()
            &&& unrealized_of(p, book) == (q.bid.unwrap() + q.ask.unwrap() - 2 * p.purchase_price)
                * p.units
        },
        !(price_in(book, p.token_id) is Some && price_in(book, p.token_id).unwrap().bid is Some
            && price_in(book, p.token_id).unwrap().ask is Some) ==> unrealized_of(p, book) == 0,
{
    let d = mark_price(p, book) - 2 * p.purchase_price;
    if d == 0 {
        assert(d * p.units == 0) by (nonlinear_arith)
            requires
                d == 0,
        ;
    }
}

} // verus!
