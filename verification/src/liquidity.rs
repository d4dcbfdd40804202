//! The liquidity accountant: conversion between deposited or withdrawn
//! token amounts and liquidity shares, and the laws that make the
//! conversion safe against value extraction.

use vstd::prelude::*;

use crate::math::spec_isqrt;

verus! {

/// The liquidity permanently locked by the first deposit into a pool, so
/// that the share supply of a funded pool can never be drained to zero.
pub const MINIMUM_LIQUIDITY: u64 = 1000;

/// The total share supply created by the first deposit `(d0, d1)`:
/// the integer square root of the deposit product. The depositor receives
/// this minus `MINIMUM_LIQUIDITY`.
pub open spec fn first_mint_total(d0: int, d1: int) -> int {
    spec_isqrt(d0 * d1)
}

/// The shares issued for a deposit `(d0, d1)` into a pool holding
/// `(r0, r1)` with supply `ts`: proportional to the scarcer side, so an
/// unbalanced deposit is penalized rather than rewarded.
pub open spec fn proportional_shares(d0: int, d1: int, ts: int, r0: int, r1: int) -> int {
    let m0 = d0 * ts / r0;
    let m1 = d1 * ts / r1;
    if m0 <= m1 {
        m0
    } else {
        m1
    }
}

/// The amount of one reserve redeemed by burning `s` of `ts` shares.
pub open spec fn redeem_amount(r: int, s: int, ts: int) -> int {
    r * s / ts
}

/// Redeeming at most the whole supply returns at most the whole reserve.
pub proof fn lemma_redeem_bounded(r: int, s: int, ts: int)
    requires
        0 <= s <= ts,
        0 < ts,
        0 <= r,
    ensures
        0 <= redeem_amount(r, s, ts) <= r,
        s == ts ==> redeem_amount(r, s, ts) == r,
        s < ts && r > 0 ==> redeem_amount(r, s, ts) < r,
{
    assert(0 <= r * s / ts <= r) by (nonlinear_arith)
        requires
            0 <= s <= ts,
            0 < ts,
            0 <= r,
    ;
    if s == ts {
        assert(r * ts / ts == r) by (nonlinear_arith)
            requires
                0 < ts,
        ;
    }
    if s < ts && r > 0 {
        assert(r * s / ts < r) by (nonlinear_arith)
            requires
                0 <= s < ts,
                0 < ts,
                0 < r,
        ;
    }
}

/// Minting a first deposit and at once burning every issued share returns
/// at most the deposit: the burn redeems `total - MINIMUM_LIQUIDITY` of
/// `total` shares against reserves equal to the deposit, and the locked
/// minimum stays behind.
pub proof fn lemma_first_mint_then_burn(d0: int, d1: int, ml: int)
    requires
        0 <= d0,
        0 <= d1,
        0 <= ml,
        first_mint_total(d0, d1) > ml,
    ensures
        redeem_amount(d0, first_mint_total(d0, d1) - ml, first_mint_total(d0, d1)) <= d0,
        redeem_amount(d1, first_mint_total(d0, d1) - ml, first_mint_total(d0, d1)) <= d1,
        ml > 0 && d0 > 0 ==> redeem_amount(d0, first_mint_total(d0, d1) - ml, first_mint_total(
            d0,
            d1,
        )) < d0,
        ml > 0 && d1 > 0 ==> redeem_amount(d1, first_mint_total(d0, d1) - ml, first_mint_total(
            d0,
            d1,
        )) < d1,
{
    let ts = first_mint_total(d0, d1);
    lemma_redeem_bounded(d0, ts - ml, ts);
    lemma_redeem_bounded(d1, ts - ml, ts);
}

/// Minting into a funded pool and at once burning every issued share
/// returns at most the deposit: the shares are proportional to the scarcer
/// side, and truncation on both conversions only ever favors the pool.
pub proof fn lemma_mint_then_burn(r0: int, r1: int, d0: int, d1: int, ts: int)
    requires
        0 < r0,
        0 < r1,
        0 < ts,
        0 <= d0,
        0 <= d1,
    ensures
        ({
            let s = proportional_shares(d0, d1, ts, r0, r1);
            &&& 0 <= s
            &&& redeem_amount(r0 + d0, s, ts + s) <= d0
            &&& redeem_amount(r1 + d1, s, ts + s) <= d1
        }),
{
    let s = proportional_shares(d0, d1, ts, r0, r1);
    let m0 = d0 * ts / r0;
    let m1 = d1 * ts / r1;
    assert(0 <= m0 && m0 * r0 <= d0 * ts) by (nonlinear_arith)
        requires
            0 <= d0,
            0 < ts,
            0 < r0,
            m0 == d0 * ts / r0,
    ;
    assert(0 <= m1 && m1 * r1 <= d1 * ts) by (nonlinear_arith)
        requires
            0 <= d1,
            0 < ts,
            0 < r1,
            m1 == d1 * ts / r1,
    ;
    assert(s * r0 <= d0 * ts) by (nonlinear_arith)
        requires
            0 <= s <= m0,
            m0 * r0 <= d0 * ts,
            0 < r0,
            0 <= m0,
    ;
    assert(s * r1 <= d1 * ts) by (nonlinear_arith)
        requires
            0 <= s <= m1,
            m1 * r1 <= d1 * ts,
            0 < r1,
            0 <= m1,
    ;
    assert(redeem_amount(r0 + d0, s, ts + s) <= d0) by (nonlinear_arith)
        requires
            0 <= s,
            s * r0 <= d0 * ts,
            0 < ts,
            0 < r0,
            0 <= d0,
            redeem_amount(r0 + d0, s, ts + s) == (r0 + d0) * s / (ts + s),
    ;
    assert(redeem_amount(r1 + d1, s, ts + s) <= d1) by (nonlinear_arith)
        requires
            0 <= s,
            s * r1 <= d1 * ts,
            0 < ts,
            0 < r1,
            0 <= d1,
            redeem_amount(r1 + d1, s, ts + s) == (r1 + d1) * s / (ts + s),
    ;
}

} // verus!
