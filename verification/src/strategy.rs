use vstd::prelude::*;
use std::collections::VecDeque;
use crate::data::Tick;
use crate::events::{Event, SignalEvent};
use crate::ratio::{mean_exceeds, mean_gt};
use crate::series::{as_ints, lemma_total_bounds, lemma_total_push, lemma_total_skip_first, total, trailing};

verus! {

/// The mathematical state of a crossover strategy: its two periods, the
/// trailing prices it still holds (oldest first, never more than `slow`), and
/// whether it is in the market.
pub struct SmaState {
    pub fast: nat,
    pub slow: nat,
    pub window: Seq<int>,
    pub in_market: bool,
}

impl SmaState {
    /// The state of a strategy that has seen no tick.
    pub open spec fn fresh(fast: nat, slow: nat) -> SmaState {
        SmaState { fast, slow, window: Seq::empty(), in_market: false }
    }

    /// The sum of the trailing `fast` prices. It is zero until the window
    /// holds `fast` prices.
    pub open spec fn fast_sum(self) -> int {
        if self.window.len() >= self.fast {
            total(trailing(self.window, self.fast))
        } else {
            0
        }
    }

    /// The sum of all prices in the window.
    pub open spec fn slow_sum(self) -> int {
        total(self.window)
    }

    /// The warm-up is over once the window holds `slow` prices.
    pub open spec fn warm(self) -> bool {
        self.window.len() >= self.slow
    }

    /// The fast average is strictly above the slow one.
    pub open spec fn fast_above(self) -> bool {
        mean_gt(self.fast_sum(), self.fast as int, self.slow_sum(), self.slow as int)
    }

    /// The fast average is strictly below the slow one.
    pub open spec fn fast_below(self) -> bool {
        mean_gt(self.slow_sum(), self.slow as int, self.fast_sum(), self.fast as int)
    }

    /// The state with `price` pushed and the window cut back to `slow` prices.
    pub open spec fn pushed(self, price: int) -> SmaState {
        SmaState {
            fast: self.fast,
            slow: self.slow,
            window: trailing(self.window.push(price), self.slow),
            in_market: self.in_market,
        }
    }

    /// The direction signalled on `price`, if any: `Some(true)` to enter,
    /// `Some(false)` to leave. Equal averages signal nothing.
    pub open spec fn signal(self, price: int) -> Option<bool> {
        let s = self.pushed(price);
        if !s.warm() {
            None
        } else if !self.in_market && s.fast_above() {
            Some(true)
        } else if self.in_market && s.fast_below() {
            Some(false)
        } else {
            None
        }
    }

    /// The state after `price` has been handled.
    pub open spec fn next(self, price: int) -> SmaState {
        let s = self.pushed(price);
        SmaState {
            fast: s.fast,
            slow: s.slow,
            window: s.window,
            in_market: match self.signal(price) {
                Some(long) => long,
                None => self.in_market,
            },
        }
    }
}

/// The event that carries a signalled direction.
pub open spec fn signal_event(direction: Option<bool>, ts: i64) -> Option<Event> {
    match direction {
        Some(long) => Some(Event::Signal(SignalEvent { ts, long })),
        None => None,
    }
}

/// A streaming moving-average crossover strategy. It keeps the trailing
/// `slow` prices and two running sums, so that a tick costs constant time.
pub struct SmaCross {
    fast: usize,
    slow: usize,
    prices: VecDeque<i32>,
    sum_fast: i128,
    sum_slow: i128,
    in_market: bool,
}

impl View for SmaCross {
    type V = SmaState;

    closed spec fn view(&self) -> SmaState {
        SmaState {
            fast: self.fast as nat,
            slow: self.slow as nat,
            window: as_ints(self.prices@),
            in_market: self.in_market,
        }
    }
}

impl SmaCross {
    /// The running sums agree with the window.
    pub closed spec fn sums_agree(&self) -> bool {
        &&& self.sum_slow == total(as_ints(self.prices@))
        &&& self.sum_fast == if self.fast <= self.slow {
            total(trailing(as_ints(self.prices@), self.fast as nat))
        } else {
            0
        }
    }

    /// Well-formedness: the window holds at most `slow` prices and the
    /// running sums agree with it.
    pub open spec fn wf(&self) -> bool {
        &&& self@.window.len() <= self@.slow
        &&& self.sums_agree()
    }

    /// A strategy that has seen no tick. Any two periods are taken; with
    /// a fast period above the slow one the fast sum stays zero.
    pub fn new(fast: usize, slow: usize) -> (s: SmaCross)
        ensures
            s.wf(),
            s@ == SmaState::fresh(fast as nat, slow as nat),
    {
        let s = SmaCross {
            fast,
            slow,
            prices: VecDeque::new(),
            sum_fast: 0,
            sum_slow: 0,
            in_market: false,
        };
        proof {
            assert(as_ints(s.prices@) =~= Seq::<int>::empty());
            assert(trailing(as_ints(s.prices@), fast as nat) =~= Seq::<int>::empty());
        }
        s
    }

    /// Takes one tick: pushes its price, drops the oldest price once the
    /// window holds more than `slow`, and compares the two averages. During
    /// warm-up nothing is signalled. After it, an entry is signalled when the
    /// fast average is strictly above the slow one and the strategy is out of
    /// the market, an exit when it is strictly below and the strategy is in.
    pub fn on_tick(&mut self, tick: &Tick) -> (sig: Option<Event>)
        requires
            old(self).wf(),
        ensures
            final(self).wf(),
            final(self)@ == old(self)@.next(tick.price as int),
            sig == signal_event(old(self)@.signal(tick.price as int), tick.ts),
    {
        let price: i32 = tick.price;
        let n0: usize = self.prices.len();
        let ghost w0: Seq<int> = as_ints(self.prices@);
        let ghost p: int = price as int;
        proof {
            lemma_total_bounds(w0, -0x8000_0000, 0x7fff_ffff);
            lemma_total_bounds(trailing(w0, self.fast as nat), -0x8000_0000, 0x7fff_ffff);
            assert(n0 * 0x7fff_ffff <= 0xffff_ffff_ffff_ffff * 0x7fff_ffff) by (nonlinear_arith)
                requires
                    n0 <= 0xffff_ffff_ffff_ffff,
            ;
            assert(n0 * (-0x8000_0000) >= 0xffff_ffff_ffff_ffff * (-0x8000_0000)) by (nonlinear_arith)
                requires
                    n0 <= 0xffff_ffff_ffff_ffff,
            ;
            let f = trailing(w0, self.fast as nat);
            assert(f.len() * 0x7fff_ffff <= 0xffff_ffff_ffff_ffff * 0x7fff_ffff) by (nonlinear_arith)
                requires
                    f.len() <= 0xffff_ffff_ffff_ffff,
            ;
            assert(f.len() * (-0x8000_0000) >= 0xffff_ffff_ffff_ffff * (-0x8000_0000)) by (nonlinear_arith)
                requires
                    f.len() <= 0xffff_ffff_ffff_ffff,
            ;
        }
        if 0 < self.fast && self.fast <= self.slow {
            if n0 >= self.fast {
                let leaving: i32 = self.prices[n0 - self.fast];
                self.sum_fast = self.sum_fast - leaving as i128 + price as i128;
            } else {
                self.sum_fast = self.sum_fast + price as i128;
            }
        }
        if self.slow > 0 {
            if n0 == self.slow {
                let evicted: Option<i32> = self.prices.pop_front();
                match evicted {
                    Some(oldest) => {
                        self.sum_slow = self.sum_slow - oldest as i128;
                    },
                    None => {},
                }
            }
            self.prices.push_back(price);
            self.sum_slow = self.sum_slow + price as i128;
        }
        let ghost w1: Seq<int> = as_ints(self.prices@);
        proof {
            let slow = self.slow as nat;
            let fast = self.fast as nat;
            let n = n0 as int;
            // the window
            if slow == 0 {
                assert(w1 =~= trailing(w0.push(p), slow));
            } else if n0 == slow {
                assert(w1 =~= w0.subrange(1, n).push(p));
                assert(w1 =~= trailing(w0.push(p), slow));
                lemma_total_skip_first(w0);
                lemma_total_push(w0.subrange(1, n), p);
            } else {
                assert(w1 =~= w0.push(p));
                assert(w1 =~= trailing(w0.push(p), slow));
                lemma_total_push(w0, p);
            }
            // the fast sum
            if 0 < fast && fast <= slow {
                let f0 = trailing(w0, fast);
                let f1 = trailing(w1, fast);
                if n0 >= fast {
                    assert(f0 =~= w0.subrange(n - fast, n));
                    assert(f1 =~= f0.subrange(1, fast as int).push(p));
                    lemma_total_skip_first(f0);
                    lemma_total_push(f0.subrange(1, fast as int), p);
                } else {
                    assert(f0 =~= w0);
                    assert(f1 =~= w0.push(p));
                    lemma_total_push(w0, p);
                }
            } else if fast == 0 {
                assert(trailing(w0, fast).len() == 0);
                assert(trailing(w1, fast).len() == 0);
            }
        }
        assert(self@.window == old(self)@.pushed(p).window);
        assert(self.sums_agree());
        if self.prices.len() < self.slow {
            return None;
        }
        let above: bool = mean_exceeds(self.sum_fast, self.fast, self.sum_slow, self.slow);
        let below: bool = mean_exceeds(self.sum_slow, self.slow, self.sum_fast, self.fast);
        if !self.in_market && above {
            self.in_market = true;
            Some(Event::Signal(SignalEvent { ts: tick.ts, long: true }))
        } else if self.in_market && below {
            self.in_market = false;
            Some(Event::Signal(SignalEvent { ts: tick.ts, long: false }))
        } else {
            None
        }
    }

    /// Whether the strategy is in the market.
    pub fn in_market(&self) -> (b: bool)
        ensures
            b == self@.in_market,
    {
        self.in_market
    }
}

} // verus!
