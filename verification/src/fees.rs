//! The fee model: four basis-point rates applied to swap inputs.

use vstd::prelude::*;

verus! {

/// The basis-point denominator of every fee rate.
pub const BASIS_POINTS: u64 = 10000;

/// The process-wide fee configuration, fixed at engine construction.
/// Each rate is in basis points; the liquidity-provider rate and the
/// protocol rate of each pool kind sum to strictly less than the
/// denominator, so a fee can never consume a whole input.
#[derive(Clone, Copy, Debug, PartialEq, Eq, Structural)]
pub struct FeeConfig {
    pub lp_fee_volatile: u64,
    pub lp_fee_stable: u64,
    pub protocol_fee_volatile: u64,
    pub protocol_fee_stable: u64,
}

/// The well-formedness of a fee configuration. The strict bound on the
/// sum of the two rates of each pool kind is what guarantees that a
/// positive swap input always leaves a positive net input after fees.
pub open spec fn fee_config_valid(c: FeeConfig) -> bool {
    &&& c.lp_fee_volatile + c.protocol_fee_volatile < BASIS_POINTS
    &&& c.lp_fee_stable + c.protocol_fee_stable < BASIS_POINTS
}

impl FeeConfig {
    /// The liquidity-provider fee rate of the given pool kind.
    pub open spec fn lp_rate(self, is_stable: bool) -> int {
        if is_stable {
            self.lp_fee_stable as int
        } else {
            self.lp_fee_volatile as int
        }
    }

    /// The protocol fee rate of the given pool kind.
    pub open spec fn protocol_rate(self, is_stable: bool) -> int {
        if is_stable {
            self.protocol_fee_stable as int
        } else {
            self.protocol_fee_volatile as int
        }
    }
}

/// The fee taken from `amount` at `rate` basis points; integer division
/// truncates, so the dust of a fee stays with the payer of the fee.
pub open spec fn fee_part(amount: int, rate: int) -> int {
    amount * rate / (BASIS_POINTS as int)
}

/// The decomposition of a swap input into the net input and the two fees.
#[derive(Clone, Copy, Debug, PartialEq, Eq, Structural)]
pub struct FeeBreakdown {
    pub net_in: u64,
    pub lp_fee: u64,
    pub protocol_fee: u64,
}

/// A truncating fee part never exceeds the amount it is taken from,
/// and two fee parts at rates summing below the denominator leave a
/// positive net amount.
pub proof fn lemma_fee_parts_bounded(amount: int, lp_rate: int, protocol_rate: int)
    requires
        0 <= amount,
        0 <= lp_rate,
        0 <= protocol_rate,
        lp_rate + protocol_rate < BASIS_POINTS,
    ensures
        0 <= fee_part(amount, lp_rate),
        0 <= fee_part(amount, protocol_rate),
        fee_part(amount, lp_rate) + fee_part(amount, protocol_rate) <= amount,
        amount > 0 ==> fee_part(amount, lp_rate) + fee_part(amount, protocol_rate) < amount,
{
    let b = BASIS_POINTS as int;
    assert(0 <= amount * lp_rate / b && amount * lp_rate / b * b <= amount * lp_rate)
        by (nonlinear_arith)
        requires
            0 <= amount,
            0 <= lp_rate,
            b == 10000,
    ;
    assert(0 <= amount * protocol_rate / b && amount * protocol_rate / b * b <= amount
        * protocol_rate) by (nonlinear_arith)
        requires
            0 <= amount,
            0 <= protocol_rate,
            b == 10000,
    ;
    assert(amount * lp_rate + amount * protocol_rate <= amount * (b - 1)) by (nonlinear_arith)
        requires
            0 <= amount,
            0 <= lp_rate,
            0 <= protocol_rate,
            lp_rate + protocol_rate <= b - 1,
    ;
    let f = fee_part(amount, lp_rate) + fee_part(amount, protocol_rate);
    assert(f * b <= amount * (b - 1));
    if amount > 0 {
        assert(f < amount) by (nonlinear_arith)
            requires
                f * b <= amount * (b - 1),
                0 < amount,
                0 <= f,
                b == 10000,
        ;
    } else {
        assert(f <= amount) by (nonlinear_arith)
            requires
                f * b <= amount * (b - 1),
                0 == amount,
                0 <= f,
                b == 10000,
        ;
    }
}

/// Splits a swap input into the net input and the two fees at the given
/// rates. Truncating division is intentional: fee dust is never returned
/// to the caller. The intermediate products always fit the wide integer
/// type, so this can never overflow.
pub fn apply_fee_rates(amount_in: u64, lp_rate: u64, protocol_rate: u64) -> (r: FeeBreakdown)
    requires
        lp_rate + protocol_rate < BASIS_POINTS,
    ensures
        r.lp_fee == fee_part(amount_in as int, lp_rate as int),
        r.protocol_fee == fee_part(amount_in as int, protocol_rate as int),
        r.net_in == amount_in - r.lp_fee - r.protocol_fee,
        amount_in > 0 ==> r.net_in > 0,
{
    proof {
        lemma_fee_parts_bounded(amount_in as int, lp_rate as int, protocol_rate as int);
        assert(amount_in as int * lp_rate as int <= u64::MAX as int * 10000) by (nonlinear_arith)
            requires
                0 <= amount_in <= u64::MAX,
                0 <= lp_rate <= 10000,
        ;
        assert(amount_in as int * protocol_rate as int <= u64::MAX as int * 10000)
            by (nonlinear_arith)
            requires
                0 <= amount_in <= u64::MAX,
                0 <= protocol_rate <= 10000,
        ;
        assert(amount_in as int * lp_rate as int / 10000 <= amount_in as int) by (nonlinear_arith)
            requires
                0 <= amount_in,
                0 <= lp_rate < 10000,
        ;
        assert(amount_in as int * protocol_rate as int / 10000 <= amount_in as int)
            by (nonlinear_arith)
            requires
                0 <= amount_in,
                0 <= protocol_rate < 10000,
        ;
    }
    let lp_fee: u64 = ((amount_in as u128) * (lp_rate as u128) / (BASIS_POINTS as u128)) as u64;
    let protocol_fee: u64 = ((amount_in as u128) * (protocol_rate as u128)
        / (BASIS_POINTS as u128)) as u64;
    let net_in: u64 = amount_in - lp_fee - protocol_fee;
    FeeBreakdown { net_in, lp_fee, protocol_fee }
}

/// Splits a swap input into the net input and the two fees of the pool
/// kind selected by the configuration.
pub fn apply_fee(amount_in: u64, config: &FeeConfig, is_stable: bool) -> (r: FeeBreakdown)
    requires
        fee_config_valid(*config),
    ensures
        r.lp_fee == fee_part(amount_in as int, config.lp_rate(is_stable)),
        r.protocol_fee == fee_part(amount_in as int, config.protocol_rate(is_stable)),
        r.net_in == amount_in - r.lp_fee - r.protocol_fee,
        amount_in > 0 ==> r.net_in > 0,
{
    let lp_rate: u64 = if is_stable {
        config.lp_fee_stable
    } else {
        config.lp_fee_volatile
    };
    let protocol_rate: u64 = if is_stable {
        config.protocol_fee_stable
    } else {
        config.protocol_fee_volatile
    };
    apply_fee_rates(amount_in, lp_rate, protocol_rate)
}

} // verus!
