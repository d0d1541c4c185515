use vstd::prelude::*;
use vstd::slice::slice_to_vec;
use std::ops::RangeInclusive;
use crate::data::Tick;
use crate::engine::{simulate, Engine, START_CASH};
use crate::equity::sharpe_defined;
use crate::series::wide_as_ints;

verus! {

/// `RangeInclusive::is_empty` of std: whether the range yields no value,
/// because it was iterated to its end or its start lies above its end.
/// The contract is taken from the documentation of std; it is not proved.
#[verifier::external_body]
fn range_is_empty(r: &RangeInclusive<usize>) -> (empty: bool)
    ensures
        empty == (r@.exhausted || r@.start > r@.end),
{
    r.is_empty()
}

/// `RangeInclusive::start` of std: the lower bound of a range that was not
/// iterated to its end. Of a range that was, nothing is claimed. The
/// contract is taken from the documentation of std; it is not proved.
#[verifier::external_body]
fn range_start(r: &RangeInclusive<usize>) -> (start: usize)
    ensures
        !r@.exhausted ==> start == r@.start,
{
    *r.start()
}

/// `RangeInclusive::end` of std: the upper bound of a range that was not
/// iterated to its end. Of a range that was, nothing is claimed. The
/// contract is taken from the documentation of std; it is not proved.
#[verifier::external_body]
fn range_end(r: &RangeInclusive<usize>) -> (end: usize)
    ensures
        !r@.exhausted ==> end == r@.end,
{
    *r.end()
}

/// Whether the range yields `x`.
pub open spec fn yields(r: RangeInclusive<usize>, x: usize) -> bool {
    !r@.exhausted && r@.start <= x <= r@.end
}

/// The pairs that a grid search runs: a fast period from the one range, a
/// slow period from the other, the fast one below the slow one.
pub open spec fn valid_pair(
    fast_range: RangeInclusive<usize>,
    slow_range: RangeInclusive<usize>,
    pair: (usize, usize),
) -> bool {
    &&& yields(fast_range, pair.0)
    &&& yields(slow_range, pair.1)
    &&& pair.0 < pair.1
}

/// What a grid search found for one pair of periods: the rolling history at
/// the end of the pair's run, oldest value first. It is empty where there
/// were no ticks. The pair's final Sharpe ratio is a statistic of it.
pub struct GridCell {
    pub fast: usize,
    pub slow: usize,
    pub window: Vec<i128>,
}

impl GridCell {
    /// Whether the history is long enough for a Sharpe ratio. Where it is
    /// not, the pair's ratio is zero.
    pub fn has_sharpe(&self) -> (b: bool)
        ensures
            b == sharpe_defined(self.window@.len()),
    {
        self.window.len() > 2
    }
}

/// The pairs of periods of a run of cells.
pub open spec fn cell_pairs(cells: Seq<GridCell>) -> Seq<(usize, usize)> {
    Seq::new(cells.len(), |i: int| (cells[i].fast, cells[i].slow))
}

/// Every pair of the two ranges with the fast period below the slow one,
/// each once.
pub fn grid_pairs(fast_range: &RangeInclusive<usize>, slow_range: &RangeInclusive<usize>) -> (out:
    Vec<(usize, usize)>)
    ensures
        out@.no_duplicates(),
        forall|pair: (usize, usize)|
            #![trigger out@.contains(pair)]
            #![trigger valid_pair(*fast_range, *slow_range, pair)]
            out@.contains(pair) <==> valid_pair(*fast_range, *slow_range, pair),
{
    let mut out: Vec<(usize, usize)> = Vec::new();
    if range_is_empty(fast_range) || range_is_empty(slow_range) {
        return out;
    }
    let fast_lo: usize = range_start(fast_range);
    let fast_hi: usize = range_end(fast_range);
    let slow_lo: usize = range_start(slow_range);
    let slow_hi: usize = range_end(slow_range);
    let mut f: usize = fast_lo;
    let mut more_fast: bool = true;
    while more_fast
        invariant
            fast_lo <= f <= fast_hi,
            slow_lo <= slow_hi,
            !fast_range@.exhausted,
            !slow_range@.exhausted,
            fast_lo == fast_range@.start,
            fast_hi == fast_range@.end,
            slow_lo == slow_range@.start,
            slow_hi == slow_range@.end,
            !more_fast ==> f == fast_hi,
            out@.no_duplicates(),
            forall|pair: (usize, usize)|
                #![trigger out@.contains(pair)]
                #![trigger valid_pair(*fast_range, *slow_range, pair)]
                out@.contains(pair) <==> (valid_pair(*fast_range, *slow_range, pair) && (pair.0 < f
                    || !more_fast)),
        decreases fast_hi - f + if more_fast { 1int } else { 0int },
    {
        let mut s: usize = slow_lo;
        let mut more_slow: bool = true;
        while more_slow
            invariant
                fast_lo <= f <= fast_hi,
                slow_lo <= s <= slow_hi,
                !fast_range@.exhausted,
                !slow_range@.exhausted,
                fast_lo == fast_range@.start,
                fast_hi == fast_range@.end,
                slow_lo == slow_range@.start,
                slow_hi == slow_range@.end,
                !more_slow ==> s == slow_hi,
                out@.no_duplicates(),
                forall|pair: (usize, usize)|
                    #![trigger out@.contains(pair)]
                    #![trigger valid_pair(*fast_range, *slow_range, pair)]
                    out@.contains(pair) <==> (valid_pair(*fast_range, *slow_range, pair) && (pair.0
                        < f || (pair.0 == f && (pair.1 < s || !more_slow)))),
            decreases slow_hi - s + if more_slow { 1int } else { 0int },
        {
            if f < s {
                let ghost before = out@;
                out.push((f, s));
                proof {
                    assert(!before.contains((f, s)));
                    assert forall|i: int, j: int|
                        0 <= i < out@.len() && 0 <= j < out@.len() && i != j implies out@[i]
                        != out@[j] by {
                        if i < before.len() {
                            assert(before.contains(before[i]));
                        }
                        if j < before.len() {
                            assert(before.contains(before[j]));
                        }
                    }
                    assert forall|pair: (usize, usize)| out@.contains(pair) <==> (before.contains(
                        pair,
                    ) || pair == (f, s)) by {
                        if before.contains(pair) {
                            let i = before.index_of(pair);
                            assert(out@[i] == pair);
                        }
                        if pair == (f, s) {
                            assert(out@[before.len() as int] == pair);
                        }
                        if out@.contains(pair) {
                            let i = out@.index_of(pair);
                            if i < before.len() {
                                assert(before[i] == pair);
                            }
                        }
                    }
                }
            }
            if s == slow_hi {
                more_slow = false;
            } else {
                s = s + 1;
            }
        }
        if f == fast_hi {
            more_fast = false;
        } else {
            f = f + 1;
        }
    }
    out
}

/// Runs one pair of periods over all the ticks, in an engine of its own
/// with the starting capital.
pub fn evaluate(ticks: &[Tick], fast: usize, slow: usize) -> (cell: GridCell)
    ensures
        cell.fast == fast,
        cell.slow == slow,
        wide_as_ints(cell.window@) == simulate(
            fast as nat,
            slow as nat,
            START_CASH as int,
            ticks@,
        ).history,
{
    let mut engine: Engine = Engine::new(fast, slow, START_CASH);
    engine.run(slice_to_vec(ticks));
    GridCell { fast, slow, window: engine.window() }
}

/// Grid search: one cell for every pair of a fast period from `fast_range`
/// and a slow period from `slow_range` with the fast one below the slow one.
/// Each pair is run over all the ticks independently of the others. The
/// order of the cells is not part of the contract.
pub fn grid_search(
    ticks: &[Tick],
    fast_range: RangeInclusive<usize>,
    slow_range: RangeInclusive<usize>,
) -> (out: Vec<GridCell>)
    ensures
        cell_pairs(out@).no_duplicates(),
        forall|pair: (usize, usize)|
            #![trigger cell_pairs(out@).contains(pair)]
            #![trigger valid_pair(fast_range, slow_range, pair)]
            cell_pairs(out@).contains(pair) <==> valid_pair(fast_range, slow_range, pair),
        forall|i: int|
            0 <= i < out@.len() ==> wide_as_ints((#[trigger] out@[i]).window@) == simulate(
                out@[i].fast as nat,
                out@[i].slow as nat,
                START_CASH as int,
                ticks@,
            ).history,
{
    let pairs: Vec<(usize, usize)> = grid_pairs(&fast_range, &slow_range);
    let mut out: Vec<GridCell> = Vec::new();
    let mut k: usize = 0;
    while k < pairs.len()
        invariant
            k <= pairs@.len(),
            out@.len() == k,
            cell_pairs(out@) == pairs@.subrange(0, k as int),
            forall|i: int|
                0 <= i < out@.len() ==> wide_as_ints((#[trigger] out@[i]).window@) == simulate(
                    out@[i].fast as nat,
                    out@[i].slow as nat,
                    START_CASH as int,
                    ticks@,
                ).history,
        decreases pairs@.len() - k,
    {
        let pair: (usize, usize) = pairs[k];
        let cell: GridCell = evaluate(ticks, pair.0, pair.1);
        let ghost before = out@;
        out.push(cell);
        proof {
            assert forall|i: int| 0 <= i < out@.len() implies cell_pairs(out@)[i] == pairs@[i] by {
                if i < k {
                    assert(out@[i] == before[i]);
                    assert(cell_pairs(before)[i] == pairs@.subrange(0, k as int)[i]);
                }
            }
            assert(cell_pairs(out@) =~= pairs@.subrange(0, k as int + 1));
        }
        k = k + 1;
    }
    assert(cell_pairs(out@) =~= pairs@);
    out
}

} // verus!
