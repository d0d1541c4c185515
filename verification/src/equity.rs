use vstd::prelude::*;
use crate::series::{trailing, wide_as_ints};

verus! {

/// The rolling statistic looks back over the last `ROLL` returns, that is
/// over the last `ROLL + 1` equity values.
pub const ROLL: usize = 2000;

/// The number of equity values the rolling history keeps.
pub open spec fn history_cap() -> nat {
    (ROLL + 1) as nat
}

/// One point of an equity curve: the mark-to-market equity at a tick, and the
/// number of trailing equity values, this one included, that the rolling
/// history held when the point was taken.
///
/// The rolling Sharpe ratio of a point is a statistic of the `lookback` equity
/// values that end with it.
#[derive(Clone, Copy, Debug, PartialEq, Eq)]
pub struct EquityPoint {
    pub ts: i64,
    pub equity: i128,
    pub lookback: usize,
}

/// An equity point as mathematics sees it.
pub struct EquityMark {
    pub ts: i64,
    pub equity: int,
    pub lookback: nat,
}

impl View for EquityPoint {
    type V = EquityMark;

    open spec fn view(&self) -> EquityMark {
        EquityMark { ts: self.ts, equity: self.equity as int, lookback: self.lookback as nat }
    }
}

/// The marks of a run of points.
pub open spec fn marks(points: Seq<EquityPoint>) -> Seq<EquityMark> {
    Seq::new(points.len(), |i: int| points[i]@)
}

/// The equity values of a curve, in order.
pub open spec fn equities(curve: Seq<EquityMark>) -> Seq<int> {
    Seq::new(curve.len(), |i: int| curve[i].equity)
}

/// The equity values that the rolling statistic of point `i` is taken over:
/// the `lookback` values that end with point `i`.
pub open spec fn window_at(curve: Seq<EquityMark>, i: int) -> Seq<int> {
    trailing(equities(curve.subrange(0, i + 1)), curve[i].lookback)
}

/// A rolling Sharpe ratio is computed from more than two equity values;
/// with fewer it is zero by definition.
pub open spec fn sharpe_defined(lookback: nat) -> bool {
    lookback > 2
}

impl EquityPoint {
    /// Whether the history behind this point is long enough for a Sharpe
    /// ratio. Where it is not, the ratio is zero.
    pub fn has_sharpe(&self) -> (b: bool)
        ensures
            b == sharpe_defined(self@.lookback),
    {
        self.lookback > 2
    }
}

/// Copies out the equity values behind point `i` of a curve, oldest first.
pub fn window_of(curve: &[EquityPoint], i: usize) -> (w: Vec<i128>)
    requires
        i < curve@.len(),
    ensures
        wide_as_ints(w@) == window_at(marks(curve@), i as int),
{
    let lookback: usize = curve[i].lookback;
    let start: usize = if lookback > i {
        0
    } else {
        i + 1 - lookback
    };
    let stop: usize = if lookback == 0 {
        start
    } else {
        i + 1
    };
    let mut w: Vec<i128> = Vec::new();
    let mut k: usize = start;
    while k < stop
        invariant
            start <= k <= stop,
            stop <= i + 1,
            i < curve@.len(),
            w@.len() == k - start,
            forall|j: int| 0 <= j < w@.len() ==> w@[j] == curve@[start + j].equity,
        decreases stop - k,
    {
        w.push(curve[k].equity);
        k = k + 1;
    }
    proof {
        let all = equities(marks(curve@).subrange(0, i + 1));
        let want = trailing(all, lookback as nat);
        assert(all.len() == i + 1);
        assert(want.len() == w@.len());
        assert forall|j: int| 0 <= j < w@.len() implies wide_as_ints(w@)[j] == want[j] by {
            assert(all[start + j] == marks(curve@).subrange(0, i + 1)[start + j].equity);
            assert(marks(curve@)[start + j] == curve@[start + j]@);
        }
        assert(wide_as_ints(w@) =~= want);
    }
    w
}

} // verus!
