use vstd::prelude::*;
use vstd::arithmetic::div_mod::lemma_fundamental_div_mod;

verus! {

/// Whether the mean `a_sum / a_count` is strictly greater than the mean
/// `b_sum / b_count`, stated without division. For positive counts this is
/// the order of the two rationals. A mean over zero values is greater than
/// nothing and nothing is greater than it, as long as its sum is zero.
pub open spec fn mean_gt(a_sum: int, a_count: int, b_sum: int, b_count: int) -> bool {
    a_sum * b_count > b_sum * a_count
}

proof fn lemma_quotients_decide(a: int, m: int, qa: int, ra: int, b: int, n: int, qb: int, rb: int)
    by (nonlinear_arith)
    requires
        m > 0,
        n > 0,
        a == qa * m + ra,
        0 <= ra < m,
        b == qb * n + rb,
        0 <= rb < n,
    ensures
        qa > qb ==> a * n > b * m,
        qa < qb ==> a * n < b * m,
        qa == qb ==> (a * n > b * m <==> ra * n > rb * m),
{
    assert(a * n - b * m == (qa - qb) * (m * n) + (ra * n - rb * m));
    assert(ra * n < m * n);
    assert(rb * m < m * n);
    assert(ra * n >= 0);
    assert(rb * m >= 0);
    if qa > qb {
        assert((qa - qb) * (m * n) >= m * n);
    }
    if qa < qb {
        assert((qa - qb) * (m * n) <= -(m * n));
    }
}

/// Floor division of a signed sum by a positive count.
fn floor_div(a: i128, d: usize) -> (qr: (i128, u128))
    requires
        d > 0,
    ensures
        a == qr.0 * d + qr.1,
        0 <= qr.1 < d,
{
    let dd: u128 = d as u128;
    if a >= 0 {
        let u: u128 = a as u128;
        let q: u128 = u / dd;
        let r: u128 = u % dd;
        proof {
            lemma_fundamental_div_mod(u as int, dd as int);
            assert(q <= u) by (nonlinear_arith)
                requires
                    u == dd * q + r,
                    dd >= 1,
                    q >= 0,
                    r >= 0,
            ;
            assert(dd * q == q * dd) by (nonlinear_arith);
        }
        (q as i128, r)
    } else {
        let u: u128 = (-(a + 1)) as u128;
        let q: u128 = u / dd;
        let r: u128 = u % dd;
        proof {
            lemma_fundamental_div_mod(u as int, dd as int);
            assert(q <= u) by (nonlinear_arith)
                requires
                    u == dd * q + r,
                    dd >= 1,
                    q >= 0,
                    r >= 0,
            ;
            assert((-(q as int) - 1) * dd + (dd - 1 - r) == -(dd * q + r) - 1) by (nonlinear_arith);
        }
        (-(q as i128) - 1, dd - 1 - r)
    }
}

/// Compares two means exactly, whatever the size of the sums and counts.
pub fn mean_exceeds(a_sum: i128, a_count: usize, b_sum: i128, b_count: usize) -> (r: bool)
    ensures
        r == mean_gt(a_sum as int, a_count as int, b_sum as int, b_count as int),
{
    if b_count == 0 {
        proof {
            assert(a_sum * 0 == 0) by (nonlinear_arith);
            assert((b_sum * a_count < 0) <==> (b_sum < 0 && a_count > 0)) by (nonlinear_arith)
                requires
                    a_count >= 0,
            ;
        }
        b_sum < 0 && a_count > 0
    } else if a_count == 0 {
        proof {
            assert(b_sum * 0 == 0) by (nonlinear_arith);
            assert((a_sum * b_count > 0) <==> a_sum > 0) by (nonlinear_arith)
                requires
                    b_count > 0,
            ;
        }
        a_sum > 0
    } else {
        let qa: (i128, u128) = floor_div(a_sum, a_count);
        let qb: (i128, u128) = floor_div(b_sum, b_count);
        proof {
            lemma_quotients_decide(
                a_sum as int,
                a_count as int,
                qa.0 as int,
                qa.1 as int,
                b_sum as int,
                b_count as int,
                qb.0 as int,
                qb.1 as int,
            );
        }
        if qa.0 != qb.0 {
            qa.0 > qb.0
        } else {
            let m: u128 = a_count as u128;
            let n: u128 = b_count as u128;
            proof {
                assert(qa.1 * n <= 0xffff_ffff_ffff_ffff * 0xffff_ffff_ffff_ffff) by (nonlinear_arith)
                    requires
                        0 <= qa.1 <= 0xffff_ffff_ffff_ffff,
                        0 <= n <= 0xffff_ffff_ffff_ffff,
                ;
                assert(qb.1 * m <= 0xffff_ffff_ffff_ffff * 0xffff_ffff_ffff_ffff) by (nonlinear_arith)
                    requires
                        0 <= qb.1 <= 0xffff_ffff_ffff_ffff,
                        0 <= m <= 0xffff_ffff_ffff_ffff,
                ;
            }
            qa.1 * n > qb.1 * m
        }
    }
}

} // verus!
