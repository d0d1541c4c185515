use vstd::prelude::*;

verus! {

/// The sum of a sequence of integers.
pub open spec fn total(s: Seq<int>) -> int
    decreases s.len(),
{
    if s.len() == 0 {
        0
    } else {
        total(s.drop_last()) + s.last()
    }
}

/// The last `k` items of `s`, or all of `s` where it has no more than `k`.
pub open spec fn trailing<T>(s: Seq<T>, k: nat) -> Seq<T> {
    if s.len() <= k {
        s
    } else {
        s.subrange(s.len() - k, s.len() as int)
    }
}

/// The values of a sequence of prices as mathematical integers.
pub open spec fn as_ints(s: Seq<i32>) -> Seq<int> {
    Seq::new(s.len(), |i: int| s[i] as int)
}

/// The values of a sequence of amounts as mathematical integers.
pub open spec fn wide_as_ints(s: Seq<i128>) -> Seq<int> {
    Seq::new(s.len(), |i: int| s[i] as int)
}

pub proof fn lemma_total_push(s: Seq<int>, x: int)
    ensures
        total(s.push(x)) == total(s) + x,
{
    assert(s.push(x).drop_last() =~= s);
}

pub proof fn lemma_total_skip_first(s: Seq<int>)
    requires
        s.len() > 0,
    ensures
        total(s.subrange(1, s.len() as int)) == total(s) - s[0],
    decreases s.len(),
{
    let n = s.len() as int;
    let rest = s.subrange(1, n);
    let front = s.drop_last();
    assert(total(s) == total(front) + s.last());
    if n == 1 {
        assert(rest.len() == 0);
        assert(front.len() == 0);
        assert(total(rest) == 0);
        assert(total(front) == 0);
    } else {
        lemma_total_skip_first(front);
        assert(rest.drop_last() =~= front.subrange(1, n - 1));
        assert(rest.last() == s.last());
        assert(total(rest) == total(rest.drop_last()) + rest.last());
        assert(front[0] == s[0]);
    }
}

/// A sum lies between the count times a lower bound and the count times an
/// upper bound of its items.
pub proof fn lemma_total_bounds(s: Seq<int>, lo: int, hi: int)
    requires
        forall|i: int| 0 <= i < s.len() ==> lo <= #[trigger] s[i] <= hi,
    ensures
        s.len() * lo <= total(s) <= s.len() * hi,
    decreases s.len(),
{
    if s.len() == 0 {
        assert(s.len() * lo == 0) by (nonlinear_arith)
            requires
                s.len() == 0,
        ;
        assert(s.len() * hi == 0) by (nonlinear_arith)
            requires
                s.len() == 0,
        ;
    } else {
        let front = s.drop_last();
        lemma_total_bounds(front, lo, hi);
        assert(lo <= s.last() <= hi);
        assert(s.len() * lo == front.len() * lo + lo) by (nonlinear_arith)
            requires
                s.len() == front.len() + 1,
        ;
        assert(s.len() * hi == front.len() * hi + hi) by (nonlinear_arith)
            requires
                s.len() == front.len() + 1,
        ;
    }
}

} // verus!
