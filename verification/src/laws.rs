use vstd::prelude::*;
use vstd::arithmetic::div_mod::lemma_fundamental_div_mod;
use crate::data::Tick;
use crate::engine::{
    fill_for, lemma_feed_curve, lemma_feed_inv, order_for, simulate, wanted, EngineState,
    COMMISSION, MULTIPLIER,
};
use crate::events::{Event, FillEvent, SignalEvent};
use crate::equity::{equities, history_cap, sharpe_defined, window_at};
use crate::ratio::mean_gt;
use crate::series::{lemma_total_bounds, trailing};
use crate::strategy::SmaState;
use crate::walkforward::{full_windows, lemma_walk_len, walk};

verus! {

/// A new engine satisfies the invariant of reachable states.
pub proof fn lemma_fresh_inv(fast: nat, slow: nat, capital: int)
    ensures
        EngineState::fresh(fast, slow, capital).inv(),
{
    let s = EngineState::fresh(fast, slow, capital);
    assert(equities(s.curve) =~= Seq::<int>::empty());
    assert(s.history =~= trailing(equities(s.curve), history_cap()));
}

/// Feeding two runs of ticks one after the other is feeding their
/// concatenation.
pub proof fn lemma_feed_split(s: EngineState, first: Seq<Tick>, second: Seq<Tick>)
    ensures
        s.feed(first + second) == s.feed(first).feed(second),
    decreases second.len(),
{
    if second.len() == 0 {
        assert(first + second =~= first);
    } else {
        lemma_feed_split(s, first, second.drop_last());
        assert((first + second).drop_last() =~= first + second.drop_last());
        assert((first + second).last() == second.last());
    }
}

/// A signal always changes whether the strategy is in the market: an entry
/// is signalled only when it is out, and puts it in; an exit only when it is
/// in, and puts it out. Without a signal nothing changes. No signal comes
/// before the window holds `slow` prices.
pub proof fn lemma_signals_alternate(s: SmaState, price: int)
    ensures
        s.signal(price) == Some(true) ==> !s.in_market && s.next(price).in_market,
        s.signal(price) == Some(false) ==> s.in_market && !s.next(price).in_market,
        s.signal(price) is None ==> s.next(price).in_market == s.in_market,
        s.signal(price) is Some ==> s.pushed(price).window.len() >= s.slow,
{
}

/// The equity curve of a run has exactly one mark per tick, in the order and
/// with the timestamps of the ticks.
pub proof fn lemma_one_mark_per_tick(fast: nat, slow: nat, capital: int, ticks: Seq<Tick>)
    ensures
        simulate(fast, slow, capital, ticks).curve.len() == ticks.len(),
        forall|i: int|
            0 <= i < ticks.len() ==> (#[trigger] simulate(fast, slow, capital, ticks).curve[i]).ts
                == ticks[i].ts,
{
    let s = EngineState::fresh(fast, slow, capital);
    lemma_feed_curve(s, ticks);
    assert forall|i: int| 0 <= i < ticks.len() implies (#[trigger] simulate(
        fast,
        slow,
        capital,
        ticks,
    ).curve[i]).ts == ticks[i].ts by {
        assert(s.feed(ticks).curve[s.curve.len() + i].ts == ticks[i].ts);
    }
}

/// The marks of a run do not depend on the ticks that come after them: the
/// curve of a prefix of the ticks is a prefix of the curve.
pub proof fn lemma_curve_prefix(fast: nat, slow: nat, capital: int, ticks: Seq<Tick>, k: int)
    requires
        0 <= k <= ticks.len(),
    ensures
        simulate(fast, slow, capital, ticks.subrange(0, k)).curve == simulate(
            fast,
            slow,
            capital,
            ticks,
        ).curve.subrange(0, k),
{
    let s = EngineState::fresh(fast, slow, capital);
    let first = ticks.subrange(0, k);
    let second = ticks.subrange(k, ticks.len() as int);
    assert(first + second =~= ticks);
    lemma_feed_split(s, first, second);
    lemma_feed_curve(s, first);
    lemma_feed_curve(s.feed(first), second);
}

/// A mark looks back over itself and all marks before it, up to `ROLL + 1`
/// values in all. So the history behind the first two marks of any run is
/// too short for a Sharpe ratio to be defined, and from the third mark on it
/// is long enough.
pub proof fn lemma_lookback(fast: nat, slow: nat, capital: int, ticks: Seq<Tick>, i: int)
    requires
        0 <= i < ticks.len(),
    ensures
        simulate(fast, slow, capital, ticks).curve[i].lookback == if i + 1 <= history_cap() {
            (i + 1) as nat
        } else {
            history_cap()
        },
        i < 2 ==> !sharpe_defined(simulate(fast, slow, capital, ticks).curve[i].lookback),
        i >= 2 ==> sharpe_defined(simulate(fast, slow, capital, ticks).curve[i].lookback),
{
    lemma_fresh_inv(fast, slow, capital);
    lemma_feed_inv(EngineState::fresh(fast, slow, capital), ticks);
    lemma_one_mark_per_tick(fast, slow, capital, ticks);
}

/// The position is 0 or 1 after every tick of any run.
pub proof fn lemma_flat_or_long(fast: nat, slow: nat, capital: int, ticks: Seq<Tick>, k: int)
    requires
        0 <= k <= ticks.len(),
    ensures
        0 <= simulate(fast, slow, capital, ticks.subrange(0, k)).position <= 1,
{
    lemma_fresh_inv(fast, slow, capital);
    lemma_feed_inv(EngineState::fresh(fast, slow, capital), ticks.subrange(0, k));
}

/// The values behind mark `i` of a run are the rolling history that the
/// engine held after tick `i`, and the mark's lookback is their number. The
/// values behind the last mark are the history at the end of the run, which
/// is what a grid search hands out for the run of a pair of periods: a
/// statistic of the one is a statistic of the other.
pub proof fn lemma_window_is_history(fast: nat, slow: nat, capital: int, ticks: Seq<Tick>, i: int)
    requires
        0 <= i < ticks.len(),
    ensures
        window_at(simulate(fast, slow, capital, ticks).curve, i) == simulate(
            fast,
            slow,
            capital,
            ticks.subrange(0, i + 1),
        ).history,
        i == ticks.len() - 1 ==> window_at(simulate(fast, slow, capital, ticks).curve, i)
            == simulate(fast, slow, capital, ticks).history,
        window_at(simulate(fast, slow, capital, ticks).curve, i).len() == simulate(
            fast,
            slow,
            capital,
            ticks,
        ).curve[i].lookback,
{
    let whole = simulate(fast, slow, capital, ticks);
    let part = simulate(fast, slow, capital, ticks.subrange(0, i + 1));
    lemma_curve_prefix(fast, slow, capital, ticks, i + 1);
    lemma_fresh_inv(fast, slow, capital);
    lemma_feed_inv(EngineState::fresh(fast, slow, capital), ticks.subrange(0, i + 1));
    lemma_one_mark_per_tick(fast, slow, capital, ticks);
    lemma_one_mark_per_tick(fast, slow, capital, ticks.subrange(0, i + 1));
    assert(part.curve[i] == whole.curve[i]);
    let e = equities(part.curve);
    assert(e.len() == i + 1);
    assert(trailing(e, part.curve[i].lookback) =~= trailing(e, history_cap()));
    if i == ticks.len() - 1 {
        assert(ticks.subrange(0, i + 1) =~= ticks);
    }
}

/// The number of marks of a walk-forward run is the number of full windows
/// times the length of a test segment.
pub proof fn lemma_walk_forward_len(
    ticks: Seq<Tick>,
    train_len: nat,
    test_len: nat,
    fast: nat,
    slow: nat,
)
    requires
        test_len > 0,
    ensures
        walk(
            ticks,
            train_len,
            test_len,
            fast,
            slow,
            full_windows(ticks.len(), train_len, test_len),
        ).len() == full_windows(ticks.len(), train_len, test_len) * test_len,
{
    let windows = full_windows(ticks.len(), train_len, test_len);
    if ticks.len() < train_len {
        assert(windows * test_len == 0) by (nonlinear_arith)
            requires
                windows == 0,
        ;
        assert(walk(ticks, train_len, test_len, fast, slow, windows).len() == 0);
    } else {
        let room = ticks.len() - train_len;
        lemma_fundamental_div_mod(room, test_len as int);
        assert(test_len * (room / (test_len as int)) == windows * test_len) by (nonlinear_arith)
            requires
                windows == room / (test_len as int),
        ;
        lemma_walk_len(ticks, train_len, test_len, fast, slow, windows);
    }
}

/// Every signal is filled in the step that raised it, and nothing else moves
/// the position: a step changes the position exactly when the strategy
/// signals, by one unit, to the side that the signal names.
pub proof fn lemma_signal_is_filled(s: EngineState, tick: Tick)
    requires
        s.inv(),
    ensures
        s.strategy.signal(tick.price as int) is None ==> s.step(tick).position == s.position,
        s.strategy.signal(tick.price as int) == Some(true) ==> s.position == 0 && s.step(
            tick,
        ).position == 1,
        s.strategy.signal(tick.price as int) == Some(false) ==> s.position == 1 && s.step(
            tick,
        ).position == 0,
{
}

/// A step that changes the position pays the price of what it buys or is
/// paid the price of what it sells, and pays the commission once, the same
/// whatever the direction. A step that leaves the position leaves the cash.
pub proof fn lemma_commission_once(s: EngineState, tick: Tick)
    ensures
        s.step(tick).position == s.position ==> s.step(tick).cash == s.cash,
        s.step(tick).position != s.position ==> s.step(tick).cash == s.cash - (s.step(
            tick,
        ).position - s.position) * tick.price * MULTIPLIER - COMMISSION,
{
}

/// What the fills among a run of events add up to.
pub struct Tally {
    /// The number of fills.
    pub fills: nat,
    /// Units bought less units sold.
    pub units: int,
    /// What the units bought cost, less what the units sold brought in.
    pub cost: int,
    /// The commissions of the fills.
    pub commission: int,
}

/// The size of a fill, negative where it sells.
pub open spec fn signed_size(fill: FillEvent) -> int {
    if fill.long {
        fill.size as int
    } else {
        -(fill.size as int)
    }
}

/// The tally of the fills among `events`. Other events add nothing.
pub open spec fn tally(events: Seq<Event>) -> Tally
    decreases events.len(),
{
    if events.len() == 0 {
        Tally { fills: 0, units: 0, cost: 0, commission: 0 }
    } else {
        let rest = tally(events.drop_last());
        match events.last() {
            Event::Fill(fill) => Tally {
                fills: rest.fills + 1,
                units: rest.units + signed_size(fill),
                cost: rest.cost + signed_size(fill) * fill.price * MULTIPLIER,
                commission: rest.commission + fill.commission,
            },
            _ => rest,
        }
    }
}

/// The tally of two runs of events is the sum of their tallies.
pub proof fn lemma_tally_concat(first: Seq<Event>, second: Seq<Event>)
    ensures
        tally(first + second).fills == tally(first).fills + tally(second).fills,
        tally(first + second).units == tally(first).units + tally(second).units,
        tally(first + second).cost == tally(first).cost + tally(second).cost,
        tally(first + second).commission == tally(first).commission + tally(second).commission,
    decreases second.len(),
{
    if second.len() == 0 {
        assert(first + second =~= first);
    } else {
        lemma_tally_concat(first, second.drop_last());
        assert((first + second).drop_last() =~= first + second.drop_last());
        assert((first + second).last() == second.last());
    }
}

/// The events of one tick hold at most one fill. Where the step changes the
/// position they hold exactly one: for one unit, on the side of the change,
/// at the tick's price, for the commission.
pub proof fn lemma_tally_cascade(s: EngineState, tick: Tick)
    requires
        s.inv(),
    ensures
        s.step(tick).position == s.position ==> tally(s.cascade(tick)) == (Tally {
            fills: 0,
            units: 0,
            cost: 0,
            commission: 0,
        }),
        s.step(tick).position != s.position ==> tally(s.cascade(tick)) == (Tally {
            fills: 1,
            units: s.step(tick).position - s.position,
            cost: (s.step(tick).position - s.position) * tick.price * MULTIPLIER,
            commission: COMMISSION as int,
        }),
{
    let events = s.cascade(tick);
    let market = Event::Market(tick);
    assert(tally(Seq::<Event>::empty()).fills == 0);
    assert(seq![market].drop_last() =~= Seq::<Event>::empty());
    assert(tally(seq![market]) == tally(Seq::<Event>::empty()));
    match s.strategy.signal(tick.price as int) {
        None => {},
        Some(long) => {
            let signal = Event::Signal(SignalEvent { ts: tick.ts, long });
            assert(seq![market, signal].drop_last() =~= seq![market]);
            assert(tally(seq![market, signal]) == tally(seq![market]));
            let target = wanted(Some(long), s.position);
            if target != s.position {
                let order = order_for(tick.ts, target, s.position);
                let fill = fill_for(order, tick.price);
                let three = seq![market, signal, Event::Order(order)];
                assert(three.drop_last() =~= seq![market, signal]);
                assert(tally(three) == tally(seq![market, signal]));
                assert(events.drop_last() =~= three);
                assert(events.last() == Event::Fill(fill));
                assert(signed_size(fill) == target - s.position);
            }
        },
    }
}

/// All that moves the position and the cash of an engine is its fills. Over
/// any run, the position changes by the units that the fills of the run
/// bought, less those they sold; the cash falls by what those units cost and
/// by the commissions; and the commissions are one fixed commission for each
/// fill, whatever its side.
pub proof fn lemma_books_follow_fills(s: EngineState, ticks: Seq<Tick>)
    requires
        s.inv(),
    ensures
        s.feed(ticks).handled.len() >= s.handled.len(),
        s.feed(ticks).handled.subrange(0, s.handled.len() as int) == s.handled,
        ({
            let t = s.feed(ticks);
            let run = tally(t.handled.subrange(s.handled.len() as int, t.handled.len() as int));
            &&& t.position == s.position + run.units
            &&& t.cash == s.cash - run.cost - run.commission
            &&& run.commission == run.fills * COMMISSION
        }),
    decreases ticks.len(),
{
    let n = s.handled.len() as int;
    if ticks.len() == 0 {
        assert(s.handled.subrange(0, n) =~= s.handled);
        assert(s.handled.subrange(n, n) =~= Seq::<Event>::empty());
        assert(0 * COMMISSION == 0) by (nonlinear_arith);
    } else {
        let front = ticks.drop_last();
        let tick = ticks.last();
        lemma_books_follow_fills(s, front);
        lemma_feed_inv(s, front);
        let mid = s.feed(front);
        let end = s.feed(ticks);
        assert(end == mid.step(tick));
        let events = mid.cascade(tick);
        let before = mid.handled.subrange(n, mid.handled.len() as int);
        let after = end.handled.subrange(n, end.handled.len() as int);
        assert(end.handled.subrange(0, n) =~= mid.handled.subrange(0, n));
        assert(after =~= before + events);
        lemma_tally_concat(before, events);
        lemma_tally_cascade(mid, tick);
        lemma_commission_once(mid, tick);
        assert((tally(before).fills + 1) * COMMISSION == tally(before).fills * COMMISSION
            + COMMISSION) by (nonlinear_arith);
    }
}

/// In a run from a new engine, the position is what the fills have bought
/// less what they have sold, and the cash is the capital less what that cost
/// and less one commission for each fill.
pub proof fn lemma_cash_and_position_from_fills(
    fast: nat,
    slow: nat,
    capital: int,
    ticks: Seq<Tick>,
)
    ensures
        ({
            let end = simulate(fast, slow, capital, ticks);
            &&& end.position == tally(end.handled).units
            &&& end.cash == capital - tally(end.handled).cost - tally(end.handled).fills
                * COMMISSION
        }),
{
    let s = EngineState::fresh(fast, slow, capital);
    lemma_fresh_inv(fast, slow, capital);
    lemma_books_follow_fills(s, ticks);
    let end = s.feed(ticks);
    assert(end.handled.subrange(0, end.handled.len() as int) =~= end.handled);
}

/// While fewer than `slow` ticks have been seen, the strategy is warming up
/// and the engine does not trade: the window holds every tick seen, the
/// position is flat, the cash is the capital and every mark shows the
/// capital. A walk-forward window, which starts with a new engine, therefore
/// cannot trade before the tick that fills the strategy's window.
pub proof fn lemma_cold_start(fast: nat, slow: nat, capital: int, ticks: Seq<Tick>)
    requires
        ticks.len() < slow,
    ensures
        simulate(fast, slow, capital, ticks).strategy.window.len() == ticks.len(),
        simulate(fast, slow, capital, ticks).strategy.slow == slow,
        !simulate(fast, slow, capital, ticks).strategy.in_market,
        simulate(fast, slow, capital, ticks).position == 0,
        simulate(fast, slow, capital, ticks).cash == capital,
        tally(simulate(fast, slow, capital, ticks).handled).fills == 0,
        forall|i: int|
            0 <= i < ticks.len() ==> (#[trigger] simulate(
                fast,
                slow,
                capital,
                ticks,
            ).curve[i]).equity == capital,
    decreases ticks.len(),
{
    let s = EngineState::fresh(fast, slow, capital);
    lemma_one_mark_per_tick(fast, slow, capital, ticks);
    if ticks.len() > 0 {
        let front = ticks.drop_last();
        let tick = ticks.last();
        lemma_cold_start(fast, slow, capital, front);
        lemma_one_mark_per_tick(fast, slow, capital, front);
        let before = s.feed(front);
        let after = before.step(tick);
        assert(before.strategy.signal(tick.price as int) is None);
        assert(before.position * tick.price * MULTIPLIER == 0) by (nonlinear_arith)
            requires
                before.position == 0,
        ;
        assert(before.cascade(tick) =~= seq![Event::Market(tick)]);
        lemma_tally_concat(before.handled, before.cascade(tick));
        let one = seq![Event::Market(tick)];
        assert(tally(Seq::<Event>::empty()).fills == 0);
        assert(one.drop_last() =~= Seq::<Event>::empty());
        assert(one.last() == Event::Market(tick));
        assert(tally(one) == tally(one.drop_last()));
        assert forall|i: int| 0 <= i < ticks.len() implies (#[trigger] after.curve[i]).equity
            == capital by {
            if i < front.len() {
                assert(after.curve[i] == before.curve[i]);
            }
        }
    }
}

/// A strategy whose window holds one price only, and no more than `slow`
/// times.
pub open spec fn steady(s: SmaState, price: int) -> bool {
    &&& !s.in_market
    &&& s.window.len() <= s.slow
    &&& forall|i: int| 0 <= i < s.window.len() ==> s.window[i] == price
}

/// On a price that its whole window holds already, a strategy signals
/// nothing, as long as the fast period is not above the slow one or the
/// price is not negative.
pub proof fn lemma_steady_no_signal(s: SmaState, price: int)
    requires
        steady(s, price),
        s.fast <= s.slow || price >= 0,
    ensures
        s.signal(price) is None,
        steady(s.next(price), price),
{
    let t = s.pushed(price);
    let w = t.window;
    assert forall|i: int| 0 <= i < w.len() implies w[i] == price by {}
    assert(w.len() <= s.slow);
    if t.warm() {
        lemma_total_bounds(w, price, price);
        assert(t.slow_sum() == w.len() * price);
        if w.len() >= s.fast {
            let f = trailing(w, s.fast);
            assert forall|i: int| 0 <= i < f.len() implies f[i] == price by {}
            lemma_total_bounds(f, price, price);
            assert(f.len() == s.fast);
            assert(t.fast_sum() == s.fast * price);
            assert(!mean_gt(s.fast * price, s.fast as int, s.slow * price, s.slow as int))
                by (nonlinear_arith);
        } else {
            assert(t.fast_sum() == 0);
            assert(!mean_gt(0, s.fast as int, s.slow * price, s.slow as int)) by (nonlinear_arith)
                requires
                    price >= 0,
                    s.fast >= 0,
                    s.slow >= 0,
            ;
        }
    }
}

/// On a series of one constant price an engine never trades: it stays flat,
/// its cash stays the capital, and every mark of its curve shows the
/// capital. This holds where the fast period is not above the slow one, or
/// the price is not negative.
pub proof fn lemma_constant_series(fast: nat, slow: nat, capital: int, ticks: Seq<Tick>, price: int)
    requires
        forall|i: int| 0 <= i < ticks.len() ==> (#[trigger] ticks[i]).price == price,
        fast <= slow || price >= 0,
    ensures
        simulate(fast, slow, capital, ticks).position == 0,
        simulate(fast, slow, capital, ticks).cash == capital,
        simulate(fast, slow, capital, ticks).strategy.fast == fast,
        simulate(fast, slow, capital, ticks).strategy.slow == slow,
        steady(simulate(fast, slow, capital, ticks).strategy, price),
        forall|i: int|
            0 <= i < ticks.len() ==> (#[trigger] simulate(
                fast,
                slow,
                capital,
                ticks,
            ).curve[i]).equity == capital,
    decreases ticks.len(),
{
    let s = EngineState::fresh(fast, slow, capital);
    lemma_one_mark_per_tick(fast, slow, capital, ticks);
    if ticks.len() > 0 {
        let front = ticks.drop_last();
        lemma_constant_series(fast, slow, capital, front, price);
        lemma_one_mark_per_tick(fast, slow, capital, front);
        let before = s.feed(front);
        assert(ticks.last().price == price);
        lemma_steady_no_signal(before.strategy, price);
        let after = before.step(ticks.last());
        assert(before.position * price * MULTIPLIER == 0) by (nonlinear_arith)
            requires
                before.position == 0,
        ;
        assert forall|i: int| 0 <= i < ticks.len() implies (#[trigger] after.curve[i]).equity
            == capital by {
            if i < front.len() {
                assert(after.curve[i] == before.curve[i]);
            }
        }
    }
}

} // verus!
