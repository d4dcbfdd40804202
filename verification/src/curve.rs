//! The invariant engine: the constant-product curve of volatile pools, the
//! cubic curve of stable pools, and the output amount owed for a given
//! fee-adjusted input. Everything is integer arithmetic on scaled amounts;
//! results are reproducible bit for bit.

use vstd::prelude::*;

use crate::errors::AmmError;
use crate::math::{add_check_u128, mul_check_u128, pow10, pow10_u128};

verus! {

/// The volatile invariant: the product of the two reserves.
pub open spec fn volatile_k(r0: int, r1: int) -> int {
    r0 * r1
}

/// The stable curve value of a pair of scaled reserves:
/// `x^3 * y + y^3 * x`.
pub open spec fn stable_f(x: int, y: int) -> int {
    x * x * x * y + y * y * y * x
}

/// The common decimal basis of a pool: the larger of the two decimals.
pub open spec fn common_decimals(d0: int, d1: int) -> int {
    if d0 < d1 {
        d1
    } else {
        d0
    }
}

/// A reserve brought to the common decimal basis.
pub open spec fn scaled(v: int, dec: int, common: int) -> int {
    v * pow10((common - dec) as nat)
}

/// The stable invariant of a pool: the stable curve value of both reserves
/// scaled to the common decimal basis.
pub open spec fn stable_k(r0: int, r1: int, d0: int, d1: int) -> int {
    let c = common_decimals(d0, d1);
    stable_f(scaled(r0, d0, c), scaled(r1, d1, c))
}

/// The stable curve value grows monotonically in both scaled reserves.
pub proof fn lemma_stable_f_monotone(x1: int, y1: int, x2: int, y2: int)
    requires
        0 <= x1 <= x2,
        0 <= y1 <= y2,
    ensures
        0 <= stable_f(x1, y1) <= stable_f(x2, y2),
{
    assert(0 <= x1 * x1 * x1 <= x2 * x2 * x2) by (nonlinear_arith)
        requires
            0 <= x1 <= x2,
    ;
    assert(0 <= y1 * y1 * y1 <= y2 * y2 * y2) by (nonlinear_arith)
        requires
            0 <= y1 <= y2,
    ;
    assert(0 <= x1 * x1 * x1 * y1 <= x2 * x2 * x2 * y2) by (nonlinear_arith)
        requires
            0 <= x1 * x1 * x1 <= x2 * x2 * x2,
            0 <= y1 <= y2,
    ;
    assert(0 <= y1 * y1 * y1 * x1 <= y2 * y2 * y2 * x2) by (nonlinear_arith)
        requires
            0 <= y1 * y1 * y1 <= y2 * y2 * y2,
            0 <= x1 <= x2,
    ;
}

/// The stable invariant grows monotonically in both reserves.
pub proof fn lemma_stable_k_monotone(r0a: int, r1a: int, r0b: int, r1b: int, d0: int, d1: int)
    requires
        0 <= r0a <= r0b,
        0 <= r1a <= r1b,
    ensures
        0 <= stable_k(r0a, r1a, d0, d1) <= stable_k(r0b, r1b, d0, d1),
{
    let c = common_decimals(d0, d1);
    let p0 = pow10((c - d0) as nat) as int;
    let p1 = pow10((c - d1) as nat) as int;
    crate::math::lemma_pow10_monotone(0, (c - d0) as nat);
    crate::math::lemma_pow10_monotone(0, (c - d1) as nat);
    assert(0 <= r0a * p0 <= r0b * p0) by (nonlinear_arith)
        requires
            0 <= r0a <= r0b,
            1 <= p0,
    ;
    assert(0 <= r1a * p1 <= r1b * p1) by (nonlinear_arith)
        requires
            0 <= r1a <= r1b,
            1 <= p1,
    ;
    lemma_stable_f_monotone(r0a * p0, r1a * p1, r0b * p0, r1b * p1);
}

/// Growth of a product when fee amounts are added back onto checked
/// effective reserves: the committed reserves keep the pool-side fee, so
/// the committed product can only exceed the checked one, strictly when a
/// pool-side fee was actually collected and the invariant was positive.
pub proof fn lemma_volatile_fee_growth(chk0: int, chk1: int, lp0: int, lp1: int, k: int)
    requires
        0 <= chk0,
        0 <= chk1,
        0 <= lp0,
        0 <= lp1,
        chk0 * chk1 >= k,
    ensures
        (chk0 + lp0) * (chk1 + lp1) >= k,
        k > 0 && lp0 > 0 ==> (chk0 + lp0) * (chk1 + lp1) > k,
        k > 0 && lp1 > 0 ==> (chk0 + lp0) * (chk1 + lp1) > k,
{
    assert((chk0 + lp0) * (chk1 + lp1) >= chk0 * chk1 + lp0 * chk1 + lp1 * chk0)
        by (nonlinear_arith)
        requires
            0 <= chk0,
            0 <= chk1,
            0 <= lp0,
            0 <= lp1,
    ;
    if k > 0 {
        assert(chk0 >= 1 && chk1 >= 1) by (nonlinear_arith)
            requires
                0 <= chk0,
                0 <= chk1,
                chk0 * chk1 >= k,
                k > 0,
        ;
        assert(lp0 * chk1 >= lp0 && lp1 * chk0 >= lp1) by (nonlinear_arith)
            requires
                1 <= chk0,
                1 <= chk1,
                0 <= lp0,
                0 <= lp1,
        ;
    }
}

/// Computes the product of the two reserves of a volatile pool; it always
/// fits the wide integer type.
pub fn volatile_k_u128(r0: u64, r1: u64) -> (k: u128)
    ensures
        k as int == volatile_k(r0 as int, r1 as int),
{
    proof {
        assert(r0 as int * r1 as int <= u64::MAX as int * u64::MAX as int) by (nonlinear_arith)
            requires
                0 <= r0 <= u64::MAX,
                0 <= r1 <= u64::MAX,
        ;
    }
    (r0 as u128) * (r1 as u128)
}

/// Scales a value by `10^e`, or reports that the result exceeds
/// `u128::MAX`.
pub fn scale_u128(v: u128, e: u32) -> (r: Option<u128>)
    ensures
        match r {
            Some(s) => s as int == v as int * pow10(e as nat),
            None => v as int * pow10(e as nat) > u128::MAX,
        },
{
    if v == 0 {
        proof {
            crate::math::lemma_pow10_monotone(0, e as nat);
        }
        return Some(0);
    }
    match pow10_u128(e) {
        None => {
            proof {
                assert(v as int * pow10(e as nat) >= pow10(e as nat)) by (nonlinear_arith)
                    requires
                        1 <= v,
                        0 <= pow10(e as nat),
                ;
            }
            None
        },
        Some(p) => mul_check_u128(v, p),
    }
}

/// Computes the stable curve value of a pair of scaled reserves, or
/// reports that it exceeds `u128::MAX`.
pub fn stable_f_checked(x: u128, y: u128) -> (r: Option<u128>)
    ensures
        match r {
            Some(v) => v as int == stable_f(x as int, y as int),
            None => stable_f(x as int, y as int) > u128::MAX,
        },
{
    if x == 0 || y == 0 {
        proof {
            assert(stable_f(x as int, y as int) == 0) by (nonlinear_arith)
                requires
                    x == 0 || y == 0,
        ;
        }
        return Some(0);
    }
    let ghost xi = x as int;
    let ghost yi = y as int;
    let xy = match mul_check_u128(x, y) {
        Some(v) => v,
        None => {
            proof {
                assert(stable_f(xi, yi) >= xi * yi) by (nonlinear_arith)
                    requires
                        1 <= xi,
                        1 <= yi,
                ;
            }
            return None;
        },
    };
    let x2 = match mul_check_u128(x, x) {
        Some(v) => v,
        None => {
            proof {
                assert(stable_f(xi, yi) >= xi * xi) by (nonlinear_arith)
                    requires
                        1 <= xi,
                        1 <= yi,
                ;
            }
            return None;
        },
    };
    let y2 = match mul_check_u128(y, y) {
        Some(v) => v,
        None => {
            proof {
                assert(stable_f(xi, yi) >= yi * yi) by (nonlinear_arith)
                    requires
                        1 <= xi,
                        1 <= yi,
                ;
            }
            return None;
        },
    };
    let s = match add_check_u128(x2, y2) {
        Some(v) => v,
        None => {
            proof {
                assert(stable_f(xi, yi) >= xi * xi + yi * yi) by (nonlinear_arith)
                    requires
                        1 <= xi,
                        1 <= yi,
                ;
            }
            return None;
        },
    };
    proof {
        assert(stable_f(xi, yi) == xi * yi * (xi * xi + yi * yi)) by (nonlinear_arith);
    }
    match mul_check_u128(xy, s) {
        Some(v) => Some(v),
        None => None,
    }
}

/// Computes the stable invariant of a pair of reserves under the pool's
/// decimals, or reports that it exceeds `u128::MAX`.
pub fn stable_k_checked(r0: u128, r1: u128, d0: u8, d1: u8) -> (r: Option<u128>)
    ensures
        match r {
            Some(v) => v as int == stable_k(r0 as int, r1 as int, d0 as int, d1 as int),
            None => stable_k(r0 as int, r1 as int, d0 as int, d1 as int) > u128::MAX,
        },
{
    let c: u8 = if d0 < d1 {
        d1
    } else {
        d0
    };
    let ghost ci = common_decimals(d0 as int, d1 as int);
    let ghost p0 = pow10((ci - d0) as nat) as int;
    let ghost p1 = pow10((ci - d1) as nat) as int;
    proof {
        crate::math::lemma_pow10_monotone(0, (ci - d0) as nat);
        crate::math::lemma_pow10_monotone(0, (ci - d1) as nat);
    }
    if r0 == 0 || r1 == 0 {
        proof {
            assert(r0 as int * p0 == 0 || r1 as int * p1 == 0) by (nonlinear_arith)
                requires
                    r0 == 0 || r1 == 0,
            ;
            assert(stable_f(r0 as int * p0, r1 as int * p1) == 0) by (nonlinear_arith)
                requires
                    r0 as int * p0 == 0 || r1 as int * p1 == 0,
            ;
        }
        return Some(0);
    }
    let s0 = match scale_u128(r0, (c - d0) as u32) {
        Some(v) => v,
        None => {
            proof {
                assert(r1 as int * p1 >= 1) by (nonlinear_arith)
                    requires
                        1 <= r1,
                        1 <= p1,
                ;
                assert(stable_f(r0 as int * p0, r1 as int * p1) >= r0 as int * p0)
                    by (nonlinear_arith)
                    requires
                        1 <= r0 as int * p0,
                        1 <= r1 as int * p1,
                ;
                assert(r0 as int * p0 >= 1) by (nonlinear_arith)
                    requires
                        1 <= r0,
                        1 <= p0,
                ;
            }
            return None;
        },
    };
    let s1 = match scale_u128(r1, (c - d1) as u32) {
        Some(v) => v,
        None => {
            proof {
                assert(r0 as int * p0 >= 1) by (nonlinear_arith)
                    requires
                        1 <= r0,
                        1 <= p0,
                ;
                assert(stable_f(r0 as int * p0, r1 as int * p1) >= r1 as int * p1)
                    by (nonlinear_arith)
                    requires
                        1 <= r0 as int * p0,
                        1 <= r1 as int * p1,
                ;
                assert(r1 as int * p1 >= 1) by (nonlinear_arith)
                    requires
                        1 <= r1,
                        1 <= p1,
                ;
            }
            return None;
        },
    };
    stable_f_checked(s0, s1)
}

/// The output owed on the volatile curve for a fee-adjusted input:
/// `net_in * r_out / (r_in + net_in)`, with the full-precision product
/// taken before the division. Truncation rounds the output down, so this
/// is the largest output that keeps the product of the reserves from
/// shrinking.
pub fn volatile_amount_out(r_in: u64, r_out: u64, net_in: u64) -> (out: u64)
    requires
        r_in > 0,
    ensures
        out as int == net_in as int * r_out as int / (r_in + net_in),
        out <= r_out,
        volatile_k(r_in + net_in, r_out - out) >= volatile_k(r_in as int, r_out as int),
        out < r_out ==> volatile_k(r_in + net_in, r_out - (out + 1)) < volatile_k(
            r_in as int,
            r_out as int,
        ),
{
    proof {
        assert(net_in as int * r_out as int <= u64::MAX as int * u64::MAX as int)
            by (nonlinear_arith)
            requires
                0 <= net_in <= u64::MAX,
                0 <= r_out <= u64::MAX,
        ;
    }
    let num: u128 = (net_in as u128) * (r_out as u128);
    let denom: u128 = r_in as u128 + net_in as u128;
    let q: u128 = num / denom;
    proof {
        assert(0 <= num as int / denom as int <= r_out) by (nonlinear_arith)
            requires
                num == net_in as int * r_out as int,
                denom == r_in as int + net_in as int,
                r_in > 0,
                0 <= net_in,
                0 <= r_out,
        ;
        assert((r_in as int + net_in as int) * (r_out - num as int / denom as int) >= r_in as int
            * r_out as int) by (nonlinear_arith)
            requires
                num == net_in as int * r_out as int,
                denom == r_in as int + net_in as int,
                r_in > 0,
                0 <= net_in,
                0 <= r_out,
        ;
        let qv = num as int / denom as int;
        if qv < r_out {
            assert((r_in as int + net_in as int) * (r_out - (num as int / denom as int + 1))
                < r_in as int * r_out as int) by (nonlinear_arith)
                requires
                    num == net_in as int * r_out as int,
                    denom == r_in as int + net_in as int,
                    r_in > 0,
                    0 <= net_in,
                    0 <= r_out,
            ;
        }
    }
    q as u64
}

/// A requested stable-swap output `dy` is admissible when the stable
/// invariant of the pool after paying it out (with the fee-adjusted input
/// added in) is at least the invariant before the swap.
pub open spec fn stable_swap_ok(
    r_in: int,
    r_out: int,
    net_in: int,
    d_in: int,
    d_out: int,
    dy: int,
) -> bool {
    stable_k(r_in + net_in, r_out - dy, d_in, d_out) >= stable_k(r_in, r_out, d_in, d_out)
}

/// The output owed on the stable curve for a fee-adjusted input: the
/// largest output that keeps the stable invariant from shrinking, found by
/// bisection, which always converges within the bit width of an amount.
/// Fails only when the post-input invariant cannot be represented in the
/// wide integer type.
pub fn stable_amount_out(r_in: u64, r_out: u64, net_in: u64, d_in: u8, d_out: u8) -> (res: Result<
    u64,
    AmmError,
>)
    ensures
        match res {
            Ok(dy) => {
                &&& dy <= r_out
                &&& stable_swap_ok(r_in as int, r_out as int, net_in as int, d_in as int,
                    d_out as int, dy as int)
                &&& forall|dy2: int|
                    dy < dy2 <= r_out ==> !stable_swap_ok(r_in as int, r_out as int,
                        net_in as int, d_in as int, d_out as int, dy2)
            },
            Err(e) => {
                &&& e == AmmError::Overflow
                &&& stable_k(r_in as int + net_in as int, r_out as int, d_in as int, d_out as int)
                    > u128::MAX
            },
        },
{
    let x_new: u128 = r_in as u128 + net_in as u128;
    let ghost ri = r_in as int;
    let ghost ro = r_out as int;
    let ghost ni = net_in as int;
    let ghost di = d_in as int;
    let ghost dd = d_out as int;
    let k_top = match stable_k_checked(x_new, r_out as u128, d_in, d_out) {
        Some(v) => v,
        None => {
            return Err(AmmError::Overflow);
        },
    };
    let k_old = match stable_k_checked(r_in as u128, r_out as u128, d_in, d_out) {
        Some(v) => v,
        None => {
            proof {
                lemma_stable_k_monotone(ri, ro, ri + ni, ro, di, dd);
            }
            // unreachable: the pre-swap invariant never exceeds the
            // post-input one, which was just shown to fit
            return Err(AmmError::Overflow);
        },
    };
    let mut lo: u64 = 0;
    let mut hi: u64 = r_out;
    proof {
        lemma_stable_k_monotone(ri, ro, ri + ni, ro, di, dd);
    }
    while lo < hi
        invariant
            lo <= hi <= r_out,
            stable_swap_ok(ri, ro, ni, di, dd, lo as int),
            hi < r_out ==> !stable_swap_ok(ri, ro, ni, di, dd, hi as int + 1),
            k_old as int == stable_k(ri, ro, di, dd),
            k_top as int == stable_k(ri + ni, ro, di, dd),
            x_new as int == ri + ni,
            ri == r_in as int,
            ro == r_out as int,
            ni == net_in as int,
            di == d_in as int,
            dd == d_out as int,
        decreases hi - lo,
    {
        proof {
            assert(0 <= (hi - lo - 1) / 2 <= hi - lo - 1) by (nonlinear_arith)
                requires
                    lo < hi,
            ;
        }
        let mid: u64 = lo + 1 + (hi - lo - 1) / 2;
        let k_new = match stable_k_checked(x_new, (r_out - mid) as u128, d_in, d_out) {
            Some(v) => v,
            None => {
                proof {
                    lemma_stable_k_monotone(ri + ni, ro - mid, ri + ni, ro, di, dd);
                }
                // unreachable: shrinking the output side only shrinks the
                // invariant, which fits
                return Err(AmmError::Overflow);
            },
        };
        if k_new >= k_old {
            lo = mid;
        } else {
            hi = mid - 1;
        }
    }
    proof {
        assert forall|dy2: int| lo < dy2 <= r_out implies !stable_swap_ok(ri, ro, ni, di, dd, dy2)
        by {
            lemma_stable_k_monotone(ri + ni, ro - dy2, ri + ni, ro - (lo as int + 1), di, dd);
        }
    }
    Ok(lo)
}

} // verus!
