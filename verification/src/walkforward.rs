use vstd::prelude::*;
use vstd::arithmetic::div_mod::lemma_fundamental_div_mod_converse;
use vstd::slice::{slice_subrange, slice_to_vec};
use crate::data::Tick;
use crate::engine::{append_points, lemma_feed_curve, simulate, Engine, EngineState, START_CASH};
use crate::equity::{marks, EquityMark, EquityPoint};

verus! {

/// How many test windows fit: window `k` skips `train_len` ticks from tick
/// `k * test_len` on and tests on the `test_len` ticks after them.
pub open spec fn full_windows(len: nat, train_len: nat, test_len: nat) -> nat {
    if len < train_len {
        0
    } else {
        ((len - train_len) / (test_len as int)) as nat
    }
}

/// The ticks that window `k` is tested on.
pub open spec fn test_segment(ticks: Seq<Tick>, k: nat, train_len: nat, test_len: nat) -> Seq<
    Tick,
> {
    ticks.subrange((k * test_len + train_len) as int, (k * test_len + train_len + test_len) as int)
}

/// The curves of the first `windows` windows, one after the other. Each
/// window's curve is that of a new engine with the starting capital, run
/// over the window's test segment alone: the training ticks are skipped and
/// the strategy starts each window cold.
pub open spec fn walk(
    ticks: Seq<Tick>,
    train_len: nat,
    test_len: nat,
    fast: nat,
    slow: nat,
    windows: nat,
) -> Seq<EquityMark>
    decreases windows,
{
    if windows == 0 {
        Seq::empty()
    } else {
        walk(ticks, train_len, test_len, fast, slow, (windows - 1) as nat) + simulate(
            fast,
            slow,
            START_CASH as int,
            test_segment(ticks, (windows - 1) as nat, train_len, test_len),
        ).curve
    }
}

/// The walk over `windows` full windows has `test_len` marks per window.
pub proof fn lemma_walk_len(
    ticks: Seq<Tick>,
    train_len: nat,
    test_len: nat,
    fast: nat,
    slow: nat,
    windows: nat,
)
    requires
        windows * test_len + train_len <= ticks.len(),
    ensures
        walk(ticks, train_len, test_len, fast, slow, windows).len() == windows * test_len,
    decreases windows,
{
    if windows == 0 {
        assert(windows * test_len == 0) by (nonlinear_arith)
            requires
                windows == 0,
        ;
    } else {
        let k = (windows - 1) as nat;
        assert(windows * test_len == k * test_len + test_len) by (nonlinear_arith)
            requires
                windows == k + 1,
        ;
        lemma_walk_len(ticks, train_len, test_len, fast, slow, k);
        let segment = test_segment(ticks, k, train_len, test_len);
        assert(segment.len() == test_len);
        lemma_feed_curve(EngineState::fresh(fast, slow, START_CASH as int), segment);
    }
}

/// Walk-forward validation: the equity curves of successive test windows,
/// one after the other in window order.
///
/// The windows start `test_len` ticks apart. Each takes `train_len` ticks of
/// training, which are skipped, and `test_len` ticks of test, which a new
/// engine is run over. The walk stops when less than a full window is left.
pub fn walk_forward(
    ticks: &[Tick],
    train_len: usize,
    test_len: usize,
    fast: usize,
    slow: usize,
) -> (out: Vec<EquityPoint>)
    requires
        test_len > 0,
    ensures
        marks(out@) == walk(
            ticks@,
            train_len as nat,
            test_len as nat,
            fast as nat,
            slow as nat,
            full_windows(ticks@.len(), train_len as nat, test_len as nat),
        ),
        out@.len() == full_windows(ticks@.len(), train_len as nat, test_len as nat) * test_len,
{
    let mut out: Vec<EquityPoint> = Vec::new();
    let n: usize = ticks.len();
    if train_len > n {
        assert(marks(out@) =~= Seq::<EquityMark>::empty());
        assert(0 * test_len == 0) by (nonlinear_arith);
        return out;
    }
    let room: usize = n - train_len;
    let mut idx: usize = 0;
    let ghost mut k: nat = 0;
    assert(marks(out@) =~= Seq::<EquityMark>::empty());
    assert(0 * test_len == 0) by (nonlinear_arith);
    while room - idx >= test_len
        invariant
            test_len > 0,
            n == ticks@.len(),
            room == n - train_len,
            idx <= room,
            idx == k * test_len,
            out@.len() == k * test_len,
            marks(out@) == walk(
                ticks@,
                train_len as nat,
                test_len as nat,
                fast as nat,
                slow as nat,
                k,
            ),
        decreases room - idx,
    {
        let segment: Vec<Tick> = slice_to_vec(
            slice_subrange(ticks, idx + train_len, idx + train_len + test_len),
        );
        proof {
            assert(segment@ == test_segment(ticks@, k, train_len as nat, test_len as nat));
            lemma_feed_curve(
                EngineState::fresh(fast as nat, slow as nat, START_CASH as int),
                segment@,
            );
        }
        let mut engine: Engine = Engine::new(fast, slow, START_CASH);
        engine.run(segment);
        append_points(&mut out, engine.result());
        idx = idx + test_len;
        proof {
            assert((k + 1) * test_len == k * test_len + test_len) by (nonlinear_arith);
            k = k + 1;
        }
    }
    proof {
        lemma_fundamental_div_mod_converse(room as int, test_len as int, k as int, room - idx);
    }
    out
}

} // verus!
