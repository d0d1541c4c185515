use vstd::prelude::*;
use std::collections::VecDeque;
use crate::data::Tick;
use crate::equity::{equities, history_cap, marks, EquityMark, EquityPoint, ROLL};
use crate::events::{Event, FillEvent, OrderEvent, SignalEvent};
use crate::series::{trailing, wide_as_ints};
use crate::strategy::{SmaCross, SmaState};

verus! {

/// Currency per unit of price and unit of position.
pub const MULTIPLIER: i128 = 50;

/// What every fill costs, whatever its size or direction, in hundredths.
pub const COMMISSION: i64 = 250;

/// The capital that the grid search and the walk-forward runs start each
/// engine with: 100,000 units of currency, in hundredths.
pub const START_CASH: i64 = 10_000_000;

/// The most that one fill can move the cash balance.
pub open spec fn fill_reach() -> int {
    0x8000_0000 * MULTIPLIER + COMMISSION
}

/// How far the cash balance can be from zero after `n` ticks.
pub open spec fn cash_reach(n: nat) -> int {
    0x8000_0000_0000_0000 + n * fill_reach()
}

/// A product with -1, 0 or 1.
proof fn lemma_unit_product(b: int, x: int)
    by (nonlinear_arith)
    requires
        -1 <= b <= 1,
    ensures
        b * x == if b == 1 {
            x
        } else if b == 0 {
            0
        } else {
            -x
        },
{
}

/// The reach of the cash balance grows by one fill per tick, and stays far
/// inside the range of the balance.
proof fn lemma_cash_reach(n: nat)
    requires
        n <= usize::MAX,
    ensures
        fill_reach() == 107_374_182_650,
        cash_reach(n) == 0x8000_0000_0000_0000 + n * 107_374_182_650,
        cash_reach(n + 1) == cash_reach(n) + fill_reach(),
        0 <= cash_reach(n) <= cash_reach(usize::MAX as nat),
        cash_reach(usize::MAX as nat) < 0x20_0000_0000_0000_0000_0000_0000,
{
    assert(fill_reach() == 107_374_182_650);
    assert((n + 1) * fill_reach() == n * fill_reach() + fill_reach()) by (nonlinear_arith);
    assert(n * fill_reach() <= usize::MAX * fill_reach()) by (nonlinear_arith)
        requires
            n <= usize::MAX,
            fill_reach() >= 0,
    ;
    assert(0 <= n * fill_reach()) by (nonlinear_arith)
        requires
            fill_reach() >= 0,
    ;
    assert(usize::MAX * fill_reach() <= 0xffff_ffff_ffff_ffff * 107_374_182_650) by (nonlinear_arith)
        requires
            usize::MAX <= 0xffff_ffff_ffff_ffff,
            fill_reach() == 107_374_182_650,
    ;
}

/// The position that a signalled direction asks for.
pub open spec fn wanted(direction: Option<bool>, position: int) -> int {
    match direction {
        Some(long) => if long {
            1
        } else {
            0
        },
        None => position,
    }
}

/// The mathematical state of an engine between two ticks.
pub struct EngineState {
    pub strategy: SmaState,
    /// Cash: the starting capital, less what was paid for the position held
    /// and for commissions.
    pub cash: int,
    /// Units held: 0 when flat, 1 when long.
    pub position: int,
    /// One mark per tick seen, in tick order.
    pub curve: Seq<EquityMark>,
    /// The most recent equity values, at most `ROLL + 1` of them.
    pub history: Seq<int>,
    /// Every event handled so far, in the order in which it was handled.
    pub handled: Seq<Event>,
}

/// The order that takes `position` to `target`: its side, and the distance
/// as its size.
pub open spec fn order_for(ts: i64, target: int, position: int) -> OrderEvent {
    OrderEvent {
        ts,
        long: target > position,
        size: (if target > position {
            target - position
        } else {
            position - target
        }) as i32,
    }
}

/// The fill of an order: all of it, at once, at `price`, for the commission.
pub open spec fn fill_for(order: OrderEvent, price: i32) -> FillEvent {
    FillEvent {
        ts: order.ts,
        long: order.long,
        size: order.size,
        price,
        commission: COMMISSION,
    }
}

impl EngineState {
    /// A new engine: flat, all capital in cash, nothing recorded.
    pub open spec fn fresh(fast: nat, slow: nat, capital: int) -> EngineState {
        EngineState {
            strategy: SmaState::fresh(fast, slow),
            cash: capital,
            position: 0,
            curve: Seq::empty(),
            history: Seq::empty(),
            handled: Seq::empty(),
        }
    }

    /// The events that `tick` gives rise to, in the order in which they are
    /// handled: the market event; the signal, if the strategy gives one; and,
    /// if the signal asks for another position, the order for the difference
    /// and its fill at the tick's own price.
    pub open spec fn cascade(self, tick: Tick) -> Seq<Event> {
        let market = Event::Market(tick);
        match self.strategy.signal(tick.price as int) {
            None => seq![market],
            Some(long) => {
                let signal = Event::Signal(SignalEvent { ts: tick.ts, long });
                let target = wanted(Some(long), self.position);
                if target == self.position {
                    seq![market, signal]
                } else {
                    let order = order_for(tick.ts, target, self.position);
                    seq![
                        market,
                        signal,
                        Event::Order(order),
                        Event::Fill(fill_for(order, tick.price)),
                    ]
                }
            },
        }
    }

    /// Cash plus the position valued at `price`.
    pub open spec fn marked(self, price: int) -> int {
        self.cash + self.position * price * MULTIPLIER
    }

    /// The state once `tick` and all that follows from it has been handled:
    /// the strategy sees the tick, the equity is marked at the old position,
    /// and a signal for another position is filled at once at the tick's
    /// price, for a commission. The events of the tick are handled before
    /// any event of the next.
    pub open spec fn step(self, tick: Tick) -> EngineState {
        let price = tick.price as int;
        let equity = self.marked(price);
        let history = trailing(self.history.push(equity), history_cap());
        let target = wanted(self.strategy.signal(price), self.position);
        let bought = target - self.position;
        EngineState {
            strategy: self.strategy.next(price),
            cash: if bought != 0 {
                self.cash - bought * price * MULTIPLIER - COMMISSION
            } else {
                self.cash
            },
            position: target,
            curve: self.curve.push(EquityMark { ts: tick.ts, equity, lookback: history.len() }),
            history,
            handled: self.handled + self.cascade(tick),
        }
    }

    /// The state after a run of ticks, one step per tick, in order.
    pub open spec fn feed(self, ticks: Seq<Tick>) -> EngineState
        decreases ticks.len(),
    {
        if ticks.len() == 0 {
            self
        } else {
            self.feed(ticks.drop_last()).step(ticks.last())
        }
    }

    /// What holds of every state that an engine can reach: it is flat or
    /// long one unit, and long exactly when its strategy is in the market;
    /// its history is the tail of its curve, and every mark says how long
    /// that tail was when it was taken.
    pub open spec fn inv(self) -> bool {
        &&& 0 <= self.position <= 1
        &&& self.position == 1 <==> self.strategy.in_market
        &&& self.history == trailing(equities(self.curve), history_cap())
        &&& forall|i: int|
            0 <= i < self.curve.len() ==> (#[trigger] self.curve[i]).lookback == if i + 1
                <= history_cap() {
                (i + 1) as nat
            } else {
                history_cap()
            }
    }
}

/// The whole run of a new engine over `ticks`.
pub open spec fn simulate(fast: nat, slow: nat, capital: int, ticks: Seq<Tick>) -> EngineState {
    EngineState::fresh(fast, slow, capital).feed(ticks)
}

/// A step keeps the invariant.
pub proof fn lemma_step_inv(s: EngineState, tick: Tick)
    requires
        s.inv(),
    ensures
        s.step(tick).inv(),
{
    let t = s.step(tick);
    let equity = s.marked(tick.price as int);
    let n = s.curve.len() as int;
    assert(equities(t.curve) =~= equities(s.curve).push(equity));
    assert(t.history =~= trailing(equities(t.curve), history_cap()));
    assert forall|i: int| 0 <= i < t.curve.len() implies (#[trigger] t.curve[i]).lookback == if i
        + 1 <= history_cap() {
        (i + 1) as nat
    } else {
        history_cap()
    } by {
        if i < n {
            assert(t.curve[i] == s.curve[i]);
        }
    }
}

/// A run keeps the invariant.
pub proof fn lemma_feed_inv(s: EngineState, ticks: Seq<Tick>)
    requires
        s.inv(),
    ensures
        s.feed(ticks).inv(),
    decreases ticks.len(),
{
    if ticks.len() > 0 {
        lemma_feed_inv(s, ticks.drop_last());
        lemma_step_inv(s.feed(ticks.drop_last()), ticks.last());
    }
}

/// A run adds one mark per tick to the curve, and touches no earlier mark.
pub proof fn lemma_feed_curve(s: EngineState, ticks: Seq<Tick>)
    ensures
        s.feed(ticks).curve.len() == s.curve.len() + ticks.len(),
        s.feed(ticks).curve.subrange(0, s.curve.len() as int) == s.curve,
        forall|i: int|
            0 <= i < ticks.len() ==> (#[trigger] s.feed(ticks).curve[s.curve.len() + i]).ts
                == ticks[i].ts,
    decreases ticks.len(),
{
    let n = s.curve.len() as int;
    if ticks.len() == 0 {
        assert(s.feed(ticks).curve.subrange(0, n) =~= s.curve);
    } else {
        let front = ticks.drop_last();
        lemma_feed_curve(s, front);
        let mid = s.feed(front);
        let end = s.feed(ticks);
        assert(end == mid.step(ticks.last()));
        assert(end.curve.subrange(0, n) =~= mid.curve.subrange(0, n));
        assert forall|i: int| 0 <= i < ticks.len() implies (#[trigger] end.curve[n + i]).ts
            == ticks[i].ts by {
            if i < front.len() {
                assert(end.curve[n + i] == mid.curve[n + i]);
                assert(front[i] == ticks[i]);
            }
        }
    }
}

/// Feeding one more tick is one more step.
pub proof fn lemma_feed_push(s: EngineState, ticks: Seq<Tick>, tick: Tick)
    ensures
        s.feed(ticks.push(tick)) == s.feed(ticks).step(tick),
{
    assert(ticks.push(tick).drop_last() =~= ticks);
}

/// An event-driven simulation of one strategy on one instrument.
///
/// Each tick is enqueued as a market event, and the queue is drained before
/// the next tick is admitted: the signal, the order and the fill that a tick
/// gives rise to are all handled at that tick's price.
pub struct Engine {
    queue: VecDeque<Event>,
    strategy: SmaCross,
    equity: i128,
    position: i32,
    equity_curve: Vec<EquityPoint>,
    rolling_buf: VecDeque<i128>,
    log: Ghost<Seq<Event>>,
}

impl View for Engine {
    type V = EngineState;

    closed spec fn view(&self) -> EngineState {
        EngineState {
            strategy: self.strategy@,
            cash: self.equity as int,
            position: self.position as int,
            curve: marks(self.equity_curve@),
            history: wide_as_ints(self.rolling_buf@),
            handled: self.log@,
        }
    }
}

impl Engine {
    /// Between ticks the queue is empty, the strategy is well-formed and the
    /// cash balance is within reach of the ticks seen.
    pub closed spec fn settled(&self) -> bool {
        &&& self.queue@.len() == 0
        &&& self.strategy.wf()
        &&& self.rolling_buf@.len() <= ROLL + 1
        &&& -cash_reach(self.equity_curve@.len()) <= self.equity <= cash_reach(
            self.equity_curve@.len(),
        )
    }

    /// Well-formedness of an engine between ticks.
    pub open spec fn wf(&self) -> bool {
        &&& self@.inv()
        &&& self.settled()
    }

    /// All but the queue is as in `before`.
    spec fn same_books(&self, before: &Engine) -> bool {
        &&& self.strategy == before.strategy
        &&& self.equity == before.equity
        &&& self.position == before.position
        &&& self.equity_curve == before.equity_curve
        &&& self.rolling_buf == before.rolling_buf
        &&& self.log == before.log
    }

    /// The strategy has seen `tick` and its equity point is recorded.
    spec fn marked_after(&self, before: &Engine, tick: Tick) -> bool {
        let equity = before.equity + before.position * tick.price * MULTIPLIER;
        &&& self.strategy.wf()
        &&& self.strategy@ == before.strategy@.next(tick.price as int)
        &&& self.rolling_buf@.len() <= ROLL + 1
        &&& self.equity_curve@.len() == before.equity_curve@.len() + 1
        &&& wide_as_ints(self.rolling_buf@) == trailing(
            wide_as_ints(before.rolling_buf@).push(equity),
            history_cap(),
        )
        &&& marks(self.equity_curve@) == marks(before.equity_curve@).push(
            EquityMark { ts: tick.ts, equity, lookback: self.rolling_buf@.len() },
        )
    }

    /// What holds of the books once `done` events of the cascade of `tick`
    /// have been handled.
    spec fn staged(&self, before: &Engine, tick: Tick, done: int) -> bool {
        let target = wanted(before.strategy@.signal(tick.price as int), before.position as int);
        let bought = target - before.position;
        &&& done == 0 ==> self.same_books(before)
        &&& done >= 1 ==> self.marked_after(before, tick)
        &&& done < 4 ==> self.equity == before.equity && self.position == before.position
        &&& done == 4 ==> self.position == target && self.equity == before.equity - bought
            * tick.price * MULTIPLIER - COMMISSION
    }

    /// A new engine for the two periods, with `start_cash` hundredths of
    /// capital. The periods are not checked against each other.
    pub fn new(fast: usize, slow: usize, start_cash: i64) -> (e: Engine)
        ensures
            e.wf(),
            e@ == EngineState::fresh(fast as nat, slow as nat, start_cash as int),
    {
        let e = Engine {
            queue: VecDeque::new(),
            strategy: SmaCross::new(fast, slow),
            equity: start_cash as i128,
            position: 0,
            equity_curve: Vec::new(),
            rolling_buf: VecDeque::new(),
            log: Ghost(Seq::empty()),
        };
        proof {
            assert(marks(e.equity_curve@) =~= Seq::<EquityMark>::empty());
            assert(wide_as_ints(e.rolling_buf@) =~= Seq::<int>::empty());
            assert(equities(e@.curve) =~= Seq::<int>::empty());
            assert(e@.history =~= trailing(equities(e@.curve), history_cap()));
        }
        e
    }

    /// Runs the ticks through the engine, in order. Each tick's cascade is
    /// finished before the next tick is admitted.
    pub fn run(&mut self, ticks: Vec<Tick>)
        requires
            old(self).wf(),
        ensures
            final(self).wf(),
            final(self)@ == old(self)@.feed(ticks@),
    {
        let mut i: usize = 0;
        while i < ticks.len()
            invariant
                i <= ticks.len(),
                self.wf(),
                self@ == old(self)@.feed(ticks@.subrange(0, i as int)),
            decreases ticks.len() - i,
        {
            let tick: Tick = ticks[i];
            proof {
                lemma_feed_push(old(self)@, ticks@.subrange(0, i as int), tick);
                assert(ticks@.subrange(0, i as int).push(tick) =~= ticks@.subrange(0, i as int + 1));
            }
            self.step(tick);
            i = i + 1;
        }
        assert(ticks@.subrange(0, i as int) =~= ticks@);
    }

    /// Admits one tick and drains the queue: market, then the signal, the
    /// order and the fill that follow from it, if any.
    pub fn step(&mut self, tick: Tick)
        requires
            old(self).wf(),
        ensures
            final(self).wf(),
            final(self)@ == old(self)@.step(tick),
    {
        let ghost before: Engine = *self;
        let ghost events: Seq<Event> = before@.cascade(tick);
        let ghost bought = wanted(before.strategy@.signal(tick.price as int), before.position as int)
            - before.position;
        let ghost mut done: int = 0;
        proof {
            lemma_cash_reach(before.equity_curve.len() as nat);
            lemma_unit_product(bought, tick.price as int);
            assert(before.log@ + events.subrange(0, 0) =~= before.log@);
        }
        self.queue.push_back(Event::Market(tick));
        assert(self.queue@ =~= seq![events[0]]);
        while self.queue.len() > 0
            invariant
                before.wf(),
                events == before@.cascade(tick),
                bought == wanted(before.strategy@.signal(tick.price as int), before.position as int)
                    - before.position,
                bought * tick.price == if bought == 1 {
                    tick.price as int
                } else if bought == 0 {
                    0
                } else {
                    -tick.price
                },
                -cash_reach(usize::MAX as nat) <= before.equity <= cash_reach(usize::MAX as nat),
                0 <= done <= events.len(),
                self.log@ == before.log@ + events.subrange(0, done),
                self.queue@ == if done < events.len() {
                    seq![events[done]]
                } else {
                    Seq::<Event>::empty()
                },
                self.staged(&before, tick, done),
            decreases events.len() - done,
        {
            let head: Option<Event> = self.queue.pop_front();
            assert(self.queue@.len() == 0);
            assert(head == Some(events[done]));
            match head {
                Some(Event::Market(t)) => {
                    assert(done == 0);
                    self.handle_market(t);
                },
                Some(Event::Signal(s)) => {
                    assert(done == 1);
                    self.handle_signal(s);
                },
                Some(Event::Order(o)) => {
                    assert(done == 2);
                    self.handle_order(o, tick.price);
                },
                Some(Event::Fill(f)) => {
                    assert(done == 3);
                    self.handle_fill(f);
                },
                None => {},
            }
            self.log = Ghost(self.log@.push(events[done]));
            proof {
                assert(before.log@ + events.subrange(0, done + 1) =~= (before.log@
                    + events.subrange(0, done)).push(events[done]));
                done = done + 1;
            }
        }
        proof {
            assert(events.subrange(0, done) =~= events);
            assert(self@ == before@.step(tick));
            lemma_step_inv(before@, tick);
            lemma_cash_reach(before.equity_curve.len() as nat);
        }
    }

    fn handle_market(&mut self, tick: Tick)
        requires
            old(self).queue@.len() == 0,
            old(self).strategy.wf(),
            old(self).rolling_buf@.len() <= ROLL + 1,
            0 <= old(self).position <= 1,
            -cash_reach(old(self).equity_curve@.len()) <= old(self).equity <= cash_reach(
                old(self).equity_curve@.len(),
            ),
        ensures
            final(self).marked_after(old(self), tick),
            final(self).equity == old(self).equity,
            final(self).position == old(self).position,
            final(self).log == old(self).log,
            final(self).queue@ == match old(self).strategy@.signal(tick.price as int) {
                Some(long) => seq![Event::Signal(SignalEvent { ts: tick.ts, long })],
                None => Seq::<Event>::empty(),
            },
    {
        let signal: Option<Event> = self.strategy.on_tick(&tick);
        match signal {
            Some(sig) => {
                self.queue.push_back(sig);
            },
            None => {},
        }
        proof {
            lemma_cash_reach(self.equity_curve.len() as nat);
            lemma_unit_product(self.position as int, tick.price as int);
        }
        let mv: i128 = self.position as i128 * tick.price as i128 * MULTIPLIER;
        let ghost buf0 = self.rolling_buf@;
        let ghost curve0 = self.equity_curve@;
        self.push_equity(tick.ts, self.equity + mv);
        proof {
            let equity = self.equity + mv;
            assert(wide_as_ints(self.rolling_buf@) =~= trailing(
                wide_as_ints(buf0).push(equity),
                history_cap(),
            ));
            assert(marks(self.equity_curve@) =~= marks(curve0).push(
                EquityMark { ts: tick.ts, equity, lookback: self.rolling_buf@.len() },
            ));
        }
    }

    fn handle_signal(&mut self, sig: SignalEvent)
        requires
            old(self).queue@.len() == 0,
            0 <= old(self).position <= 1,
        ensures
            final(self).same_books(old(self)),
            final(self).queue@ == if wanted(Some(sig.long), old(self).position as int) != old(
                self,
            ).position {
                seq![
                    Event::Order(
                        order_for(
                            sig.ts,
                            wanted(Some(sig.long), old(self).position as int),
                            old(self).position as int,
                        ),
                    ),
                ]
            } else {
                Seq::<Event>::empty()
            },
    {
        let desired: i32 = if sig.long {
            1
        } else {
            0
        };
        let diff: i32 = desired - self.position;
        if diff != 0 {
            let size: i32 = if diff > 0 {
                diff
            } else {
                -diff
            };
            self.queue.push_back(Event::Order(OrderEvent { ts: sig.ts, long: diff > 0, size }));
        }
    }

    fn handle_order(&mut self, ord: OrderEvent, price: i32)
        requires
            old(self).queue@.len() == 0,
        ensures
            final(self).same_books(old(self)),
            final(self).queue@ == seq![Event::Fill(fill_for(ord, price))],
    {
        self.queue.push_back(
            Event::Fill(
                FillEvent {
                    ts: ord.ts,
                    long: ord.long,
                    size: ord.size,
                    price,
                    commission: COMMISSION,
                },
            ),
        );
    }

    fn handle_fill(&mut self, fill: FillEvent)
        requires
            fill.size == 1,
            fill.commission == COMMISSION,
            fill.long ==> old(self).position == 0,
            !fill.long ==> old(self).position == 1,
            -cash_reach(usize::MAX as nat) <= old(self).equity <= cash_reach(usize::MAX as nat),
        ensures
            final(self).queue == old(self).queue,
            final(self).strategy == old(self).strategy,
            final(self).equity_curve == old(self).equity_curve,
            final(self).rolling_buf == old(self).rolling_buf,
            final(self).log == old(self).log,
            final(self).position == old(self).position + if fill.long {
                1int
            } else {
                -1int
            },
            final(self).equity == old(self).equity - (if fill.long {
                1int
            } else {
                -1int
            }) * fill.price * MULTIPLIER - fill.commission,
    {
        let sign: i32 = if fill.long {
            1
        } else {
            -1
        };
        proof {
            lemma_unit_product(sign as int, fill.size as int);
            lemma_unit_product(sign as int, fill.price as int);
            lemma_cash_reach(0);
        }
        self.position = self.position + sign * fill.size;
        let notional: i128 = sign as i128 * fill.size as i128 * fill.price as i128 * MULTIPLIER;
        self.equity = self.equity - notional;
        self.equity = self.equity - fill.commission as i128;
    }

    /// Records the equity of a tick: it enters the rolling history, which
    /// gives up its oldest value once it is full, and the curve.
    fn push_equity(&mut self, ts: i64, eq: i128)
        requires
            old(self).rolling_buf@.len() <= ROLL + 1,
        ensures
            final(self).queue == old(self).queue,
            final(self).strategy == old(self).strategy,
            final(self).equity == old(self).equity,
            final(self).position == old(self).position,
            final(self).log == old(self).log,
            final(self).rolling_buf@ == trailing(old(self).rolling_buf@.push(eq), history_cap()),
            final(self).equity_curve@ == old(self).equity_curve@.push(
                EquityPoint { ts, equity: eq, lookback: final(self).rolling_buf@.len() as usize },
            ),
    {
        if self.rolling_buf.len() > ROLL {
            let _oldest: Option<i128> = self.rolling_buf.pop_front();
        }
        self.rolling_buf.push_back(eq);
        assert(self.rolling_buf@ =~= trailing(old(self).rolling_buf@.push(eq), history_cap()));
        let lookback: usize = self.rolling_buf.len();
        self.equity_curve.push(EquityPoint { ts, equity: eq, lookback });
    }

    /// The equity curve so far: one point per tick seen, in tick order.
    pub fn result(&self) -> (curve: &[EquityPoint])
        ensures
            marks(curve@) == self@.curve,
            curve@.len() == self@.curve.len(),
            forall|i: int| 0 <= i < curve@.len() ==> (#[trigger] curve@[i])@ == self@.curve[i],
    {
        let curve: &[EquityPoint] = self.equity_curve.as_slice();
        assert forall|i: int| 0 <= i < curve@.len() implies (#[trigger] curve@[i])@
            == self@.curve[i] by {
            assert(marks(curve@)[i] == curve@[i]@);
        }
        curve
    }

    /// Units held: 0 when flat, 1 when long.
    pub fn position(&self) -> (p: i32)
        ensures
            p == self@.position,
            self.wf() ==> 0 <= p <= 1,
    {
        self.position
    }

    /// The cash balance, in hundredths.
    pub fn cash(&self) -> (c: i128)
        ensures
            c == self@.cash,
    {
        self.equity
    }

    /// The rolling history: the most recent equity values, oldest first.
    pub fn window(&self) -> (w: Vec<i128>)
        ensures
            wide_as_ints(w@) == self@.history,
    {
        let mut w: Vec<i128> = Vec::new();
        let mut k: usize = 0;
        while k < self.rolling_buf.len()
            invariant
                k <= self.rolling_buf@.len(),
                w@ == self.rolling_buf@.subrange(0, k as int),
            decreases self.rolling_buf@.len() - k,
        {
            w.push(self.rolling_buf[k]);
            assert(w@ =~= self.rolling_buf@.subrange(0, k as int + 1));
            k = k + 1;
        }
        assert(w@ =~= self.rolling_buf@);
        w
    }
}

/// Appends the points of `more` to `out`.
pub fn append_points(out: &mut Vec<EquityPoint>, more: &[EquityPoint])
    ensures
        final(out)@ == old(out)@ + more@,
        marks(final(out)@) == marks(old(out)@) + marks(more@),
{
    let mut k: usize = 0;
    while k < more.len()
        invariant
            k <= more@.len(),
            out@ == old(out)@ + more@.subrange(0, k as int),
        decreases more@.len() - k,
    {
        out.push(more[k]);
        assert(out@ =~= old(out)@ + more@.subrange(0, k as int + 1));
        k = k + 1;
    }
    assert(out@ =~= old(out)@ + more@);
    assert(marks(out@) =~= marks(old(out)@) + marks(more@));
}

/// Runs a new engine over `ticks` and hands back its equity curve: one point
/// per tick, in tick order.
pub fn backtest(ticks: Vec<Tick>, fast: usize, slow: usize, initial_capital: i64) -> (curve: Vec<
    EquityPoint,
>)
    ensures
        marks(curve@) == simulate(fast as nat, slow as nat, initial_capital as int, ticks@).curve,
        curve@.len() == ticks@.len(),
{
    proof {
        lemma_feed_curve(
            EngineState::fresh(fast as nat, slow as nat, initial_capital as int),
            ticks@,
        );
    }
    let mut engine: Engine = Engine::new(fast, slow, initial_capital);
    engine.run(ticks);
    let mut curve: Vec<EquityPoint> = Vec::new();
    append_points(&mut curve, engine.result());
    assert(marks(curve@) =~= engine@.curve);
    curve
}

} // verus!
