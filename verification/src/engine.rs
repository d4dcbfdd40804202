//! The engine: the pool collection and the public operations on it.
//!
//! Every operation is transaction-serial per pool. A swap is split into a
//! begin phase, which validates and takes the pool's exclusive-access lock,
//! and an end phase, which reconciles observed balances and commits; between
//! the two, caller-controlled code runs (the optimistic transfer and the
//! flash-swap callback), and any reentrant operation on the locked pool
//! fails with `ReentrancyBlocked`.

use vstd::prelude::*;

use crate::errors::AmmError;
use crate::identity::{canonical_id, canonicalize, key_lt, PoolId, TokenKey};
use crate::fees::{apply_fee_rates, fee_config_valid, fee_part, FeeConfig, BASIS_POINTS};
use crate::pool::{
    has_pool, ids_distinct, lemma_pool_at_unique, pool_at, pool_of, pool_wf, pools_wf, Pool,
    PoolSnapshot,
};
use crate::liquidity::{
    first_mint_total, lemma_redeem_bounded, proportional_shares, redeem_amount, MINIMUM_LIQUIDITY,
};
use crate::curve::{lemma_stable_k_monotone, stable_k, volatile_k};

verus! {

/// The exclusive handle on a pending swap: the snapshot a `swap_begin`
/// took of the pool, the requested outputs, and the fee rates in force
/// when the swap began. Only the engine can construct one, so only the
/// holder of the lock can finish the swap.
pub struct SwapTicket {
    id: PoolId,
    amount_0_out: u64,
    amount_1_out: u64,
    reserve_0: u64,
    reserve_1: u64,
    decimals_0: u8,
    decimals_1: u8,
    lp_rate: u64,
    protocol_rate: u64,
}

impl SwapTicket {
    /// The identity of the pool the swap is pending on.
    pub closed spec fn spec_id(&self) -> PoolId {
        self.id
    }

    /// The requested output of token 0.
    pub closed spec fn spec_amount_0_out(&self) -> u64 {
        self.amount_0_out
    }

    /// The requested output of token 1.
    pub closed spec fn spec_amount_1_out(&self) -> u64 {
        self.amount_1_out
    }

    /// The pool's reserve of token 0 when the swap began.
    pub closed spec fn spec_reserve_0(&self) -> u64 {
        self.reserve_0
    }

    /// The pool's reserve of token 1 when the swap began.
    pub closed spec fn spec_reserve_1(&self) -> u64 {
        self.reserve_1
    }

    /// The decimals of token 0.
    pub closed spec fn spec_decimals_0(&self) -> u8 {
        self.decimals_0
    }

    /// The decimals of token 1.
    pub closed spec fn spec_decimals_1(&self) -> u8 {
        self.decimals_1
    }

    /// The liquidity-provider fee rate in force when the swap began.
    pub closed spec fn spec_lp_rate(&self) -> u64 {
        self.lp_rate
    }

    /// The protocol fee rate in force when the swap began.
    pub closed spec fn spec_protocol_rate(&self) -> u64 {
        self.protocol_rate
    }
}

/// Whether a pool still shows exactly the pending-swap snapshot the
/// ticket took: locked, funded, and unchanged since `swap_begin`.
pub open spec fn ticket_matches(p: Pool, t: SwapTicket) -> bool {
    &&& p.locked
    &&& p.total_shares > 0
    &&& p.reserve_0 == t.spec_reserve_0()
    &&& p.reserve_1 == t.spec_reserve_1()
    &&& p.decimals_0 == t.spec_decimals_0()
    &&& p.decimals_1 == t.spec_decimals_1()
    &&& t.spec_amount_0_out() <= p.reserve_0
    &&& t.spec_amount_1_out() <= p.reserve_1
    &&& t.spec_lp_rate() + t.spec_protocol_rate() < BASIS_POINTS
}

/// The pool with its lock released and nothing else changed.
pub open spec fn unlocked(p: Pool) -> Pool {
    Pool { locked: false, ..p }
}

/// The implied input of token 0: what the reported balance holds beyond
/// the reserve left after paying the requested output.
pub open spec fn implied_in_0(p: Pool, t: SwapTicket, b0: int) -> int {
    b0 - (p.reserve_0 - t.spec_amount_0_out())
}

/// The implied input of token 1.
pub open spec fn implied_in_1(p: Pool, t: SwapTicket, b1: int) -> int {
    b1 - (p.reserve_1 - t.spec_amount_1_out())
}

/// The effective reserve of one side for the invariant check: the reserve
/// after paying the output, plus the fee-reduced net input. Both fees are
/// excluded here, so a fee can never substitute for real input.
pub open spec fn checked_reserve(reserve: int, out: int, amount_in: int, t: SwapTicket) -> int {
    reserve - out + (amount_in - fee_part(amount_in, t.spec_lp_rate() as int) - fee_part(
        amount_in,
        t.spec_protocol_rate() as int,
    ))
}

/// Whether the pool invariant survives the reconciliation: the curve
/// value of the effective reserves is at least the curve value of the
/// reserves the swap began from.
pub open spec fn swap_invariant_holds(p: Pool, t: SwapTicket, b0: int, b1: int) -> bool {
    let chk0 = checked_reserve(p.reserve_0 as int, t.spec_amount_0_out() as int,
        implied_in_0(p, t, b0), t);
    let chk1 = checked_reserve(p.reserve_1 as int, t.spec_amount_1_out() as int,
        implied_in_1(p, t, b1), t);
    if p.id.is_stable {
        stable_k(chk0, chk1, p.decimals_0 as int, p.decimals_1 as int) >= stable_k(
            p.reserve_0 as int,
            p.reserve_1 as int,
            p.decimals_0 as int,
            p.decimals_1 as int,
        )
    } else {
        volatile_k(chk0, chk1) >= volatile_k(p.reserve_0 as int, p.reserve_1 as int)
    }
}

/// Whether a stable pool's curve value cannot be represented in the wide
/// integer type, before or after the swap.
pub open spec fn swap_stable_overflows(p: Pool, t: SwapTicket, b0: int, b1: int) -> bool {
    let chk0 = checked_reserve(p.reserve_0 as int, t.spec_amount_0_out() as int,
        implied_in_0(p, t, b0), t);
    let chk1 = checked_reserve(p.reserve_1 as int, t.spec_amount_1_out() as int,
        implied_in_1(p, t, b1), t);
    p.id.is_stable && (stable_k(p.reserve_0 as int, p.reserve_1 as int, p.decimals_0 as int,
        p.decimals_1 as int) > u128::MAX || stable_k(chk0, chk1, p.decimals_0 as int,
        p.decimals_1 as int) > u128::MAX)
}

/// Whether a protocol-fee accumulator would overflow.
pub open spec fn swap_accumulator_overflows(p: Pool, t: SwapTicket, b0: int, b1: int) -> bool {
    ||| p.protocol_fee_0 + fee_part(implied_in_0(p, t, b0), t.spec_protocol_rate() as int)
        > u64::MAX
    ||| p.protocol_fee_1 + fee_part(implied_in_1(p, t, b1), t.spec_protocol_rate() as int)
        > u64::MAX
}

/// The pool as committed by a successful reconciliation: reserves equal
/// the observed custody balances, both fees included, and the
/// protocol-fee accumulators record the protocol's accrued share of those
/// reserves; the lock is released.
pub open spec fn swap_committed(p: Pool, t: SwapTicket, b0: int, b1: int) -> Pool {
    let pr0 = fee_part(implied_in_0(p, t, b0), t.spec_protocol_rate() as int);
    let pr1 = fee_part(implied_in_1(p, t, b1), t.spec_protocol_rate() as int);
    Pool {
        reserve_0: b0 as u64,
        reserve_1: b1 as u64,
        protocol_fee_0: (p.protocol_fee_0 + pr0) as u64,
        protocol_fee_1: (p.protocol_fee_1 + pr1) as u64,
        locked: false,
        ..p
    }
}

/// The outcome of `swap_end` as a mathematical function of the prior pool
/// collection, the ticket and the reported balances: the new collection
/// and the result. Each guard mirrors one failure of the reconciliation;
/// after the ticket is recognized, every failure releases the lock and
/// leaves the pool otherwise untouched.
pub open spec fn swap_end_outcome(s: Seq<Pool>, t: SwapTicket, b0: int, b1: int) -> (
    Seq<Pool>,
    Result<(), AmmError>,
) {
    if !has_pool(s, t.spec_id()) {
        (s, Err(AmmError::PoolNotFound))
    } else {
        let i = pool_at(s, t.spec_id());
        let p = s[i];
        if !ticket_matches(p, t) {
            (s, Err(AmmError::ReentrancyBlocked))
        } else {
            let aborted = s.update(i, unlocked(p));
            if implied_in_0(p, t, b0) < 0 || implied_in_1(p, t, b1) < 0 {
                (aborted, Err(AmmError::InsufficientInputAmount))
            } else if swap_stable_overflows(p, t, b0, b1) {
                (aborted, Err(AmmError::Overflow))
            } else if !swap_invariant_holds(p, t, b0, b1) {
                (aborted, Err(AmmError::InvariantViolation))
            } else if swap_accumulator_overflows(p, t, b0, b1) {
                (aborted, Err(AmmError::Overflow))
            } else {
                (s.update(i, swap_committed(p, t, b0, b1)), Ok(()))
            }
        }
    }
}

/// The external collaborator of a swap: the asset-custody and transfer
/// primitive and the flash-swap callback target. The engine promises
/// nothing about these methods and assumes nothing of them: a swap's
/// contract holds whatever an implementation does, including calling back
/// into the engine.
pub trait SwapHost {
    /// Performs the optimistic transfer of the requested outputs to the
    /// recipient, before any input is known to have arrived.
    fn transfer_out(&mut self, id: PoolId, amount_0: u64, amount_1: u64, to: u64);

    /// Invokes the flash-swap callback on the recipient, carrying `data`.
    fn invoke_callback(
        &mut self,
        amm: &mut Amm,
        id: PoolId,
        amount_0: u64,
        amount_1: u64,
        to: u64,
        data: &Vec<u8>,
    );

    /// Reports the balances of both pool assets currently in the pool's
    /// custody.
    fn pool_balances(&mut self, id: PoolId) -> (u64, u64);
}

/// After a recognized, input-covered, invariant-keeping reconciliation,
/// both fees are within the implied inputs and both committed reserves
/// are positive, so the committed pool is well-formed.
proof fn lemma_swap_committed_reserves_positive(p: Pool, t: SwapTicket, b0: int, b1: int)
    requires
        pool_wf(p),
        ticket_matches(p, t),
        0 <= b0 <= u64::MAX,
        0 <= b1 <= u64::MAX,
        implied_in_0(p, t, b0) >= 0,
        implied_in_1(p, t, b1) >= 0,
        swap_invariant_holds(p, t, b0, b1),
    ensures
        ({
            let in0 = implied_in_0(p, t, b0);
            let in1 = implied_in_1(p, t, b1);
            let lp0 = fee_part(in0, t.spec_lp_rate() as int);
            let lp1 = fee_part(in1, t.spec_lp_rate() as int);
            let pr0 = fee_part(in0, t.spec_protocol_rate() as int);
            let pr1 = fee_part(in1, t.spec_protocol_rate() as int);
            &&& 0 <= lp0 && 0 <= pr0 && lp0 + pr0 <= in0
            &&& 0 <= lp1 && 0 <= pr1 && lp1 + pr1 <= in1
            &&& 1 <= b0 <= u64::MAX
            &&& 1 <= b1 <= u64::MAX
        }),
{
    let in0 = implied_in_0(p, t, b0);
    let in1 = implied_in_1(p, t, b1);
    let lp0 = fee_part(in0, t.spec_lp_rate() as int);
    let lp1 = fee_part(in1, t.spec_lp_rate() as int);
    let pr0 = fee_part(in0, t.spec_protocol_rate() as int);
    let pr1 = fee_part(in1, t.spec_protocol_rate() as int);
    crate::fees::lemma_fee_parts_bounded(in0, t.spec_lp_rate() as int,
        t.spec_protocol_rate() as int);
    crate::fees::lemma_fee_parts_bounded(in1, t.spec_lp_rate() as int,
        t.spec_protocol_rate() as int);
    let chk0 = checked_reserve(p.reserve_0 as int, t.spec_amount_0_out() as int, in0, t);
    let chk1 = checked_reserve(p.reserve_1 as int, t.spec_amount_1_out() as int, in1, t);
    let d0 = p.decimals_0 as int;
    let d1 = p.decimals_1 as int;
    if p.id.is_stable {
        lemma_stable_k_monotone(1, 1, p.reserve_0 as int, p.reserve_1 as int, d0, d1);
        let c = crate::curve::common_decimals(d0, d1);
        let p0 = crate::math::pow10((c - d0) as nat) as int;
        let p1 = crate::math::pow10((c - d1) as nat) as int;
        crate::math::lemma_pow10_monotone(0, (c - d0) as nat);
        crate::math::lemma_pow10_monotone(0, (c - d1) as nat);
        assert(crate::curve::stable_f(p0, p1) >= 1) by (nonlinear_arith)
            requires
                1 <= p0,
                1 <= p1,
        ;
        assert(stable_k(1, 1, d0, d1) == crate::curve::stable_f(p0, p1));
        assert(stable_k(chk0, chk1, d0, d1) >= 1);
        if chk0 < 1 || chk1 < 1 {
            assert(chk0 * p0 == 0 || chk1 * p1 == 0) by (nonlinear_arith)
                requires
                    0 <= chk0,
                    0 <= chk1,
                    chk0 < 1 || chk1 < 1,
            ;
            assert(crate::curve::stable_f(chk0 * p0, chk1 * p1) == 0) by (nonlinear_arith)
                requires
                    chk0 * p0 == 0 || chk1 * p1 == 0,
            ;
            assert(false);
        }
    } else {
        assert(p.reserve_0 as int * p.reserve_1 as int >= 1) by (nonlinear_arith)
            requires
                1 <= p.reserve_0,
                1 <= p.reserve_1,
        ;
        assert(chk0 >= 1 && chk1 >= 1) by (nonlinear_arith)
            requires
                0 <= chk0,
                0 <= chk1,
                chk0 * chk1 >= 1,
        ;
    }
}

/// What a successful reconciliation guarantees of the pool it committed:
/// the identity, supply and decimals are kept, the lock is released, the
/// invariant has not shrunk relative to the snapshot the ticket took, and
/// on a volatile pool it has grown strictly whenever any positive fee
/// amount was collected on either side.
pub proof fn lemma_swap_end_growth(s: Seq<Pool>, t: SwapTicket, b0: int, b1: int)
    requires
        ids_distinct(s),
        0 <= b0 <= u64::MAX,
        0 <= b1 <= u64::MAX,
        swap_end_outcome(s, t, b0, b1).1 == Ok::<(), AmmError>(()),
    ensures
        ({
            let s2 = swap_end_outcome(s, t, b0, b1).0;
            let id = t.spec_id();
            &&& has_pool(s, id)
            &&& has_pool(s2, id)
            &&& pool_at(s2, id) == pool_at(s, id)
            &&& ({
                let p = pool_of(s, id);
                let q = pool_of(s2, id);
                let lp0 = fee_part(implied_in_0(p, t, b0), t.spec_lp_rate() as int);
                let lp1 = fee_part(implied_in_1(p, t, b1), t.spec_lp_rate() as int);
                let pr0 = fee_part(implied_in_0(p, t, b0), t.spec_protocol_rate() as int);
                let pr1 = fee_part(implied_in_1(p, t, b1), t.spec_protocol_rate() as int);
                &&& q.id == p.id
                &&& !q.locked
                &&& q.total_shares == p.total_shares
                &&& q.decimals_0 == p.decimals_0 && q.decimals_1 == p.decimals_1
                &&& p.reserve_0 == t.spec_reserve_0() && p.reserve_1 == t.spec_reserve_1()
                &&& !p.id.is_stable ==> volatile_k(q.reserve_0 as int, q.reserve_1 as int)
                    >= volatile_k(t.spec_reserve_0() as int, t.spec_reserve_1() as int)
                &&& !p.id.is_stable && volatile_k(t.spec_reserve_0() as int,
                    t.spec_reserve_1() as int) > 0 && (lp0 + pr0 > 0 || lp1 + pr1 > 0)
                    ==> volatile_k(q.reserve_0 as int, q.reserve_1 as int) > volatile_k(
                    t.spec_reserve_0() as int,
                    t.spec_reserve_1() as int,
                )
                &&& p.id.is_stable ==> stable_k(q.reserve_0 as int, q.reserve_1 as int,
                    q.decimals_0 as int, q.decimals_1 as int) >= stable_k(
                    t.spec_reserve_0() as int,
                    t.spec_reserve_1() as int,
                    q.decimals_0 as int,
                    q.decimals_1 as int,
                )
            })
        }),
{
    let id = t.spec_id();
    let i = pool_at(s, id);
    let p = s[i];
    let q = swap_committed(p, t, b0, b1);
    let s2 = swap_end_outcome(s, t, b0, b1).0;
    assert(s2 == s.update(i, q));
    assert forall|i2: int, j2: int| 0 <= i2 < j2 < s2.len() implies s2[i2].id != s2[j2].id by {
        assert(s2[i2].id == s[i2].id && s2[j2].id == s[j2].id);
    }
    lemma_pool_at_unique(s2, id, i);
    let in0 = implied_in_0(p, t, b0);
    let in1 = implied_in_1(p, t, b1);
    let lp0 = fee_part(in0, t.spec_lp_rate() as int);
    let lp1 = fee_part(in1, t.spec_lp_rate() as int);
    let pr0 = fee_part(in0, t.spec_protocol_rate() as int);
    let pr1 = fee_part(in1, t.spec_protocol_rate() as int);
    crate::fees::lemma_fee_parts_bounded(in0, t.spec_lp_rate() as int,
        t.spec_protocol_rate() as int);
    crate::fees::lemma_fee_parts_bounded(in1, t.spec_lp_rate() as int,
        t.spec_protocol_rate() as int);
    let chk0 = checked_reserve(p.reserve_0 as int, t.spec_amount_0_out() as int, in0, t);
    let chk1 = checked_reserve(p.reserve_1 as int, t.spec_amount_1_out() as int, in1, t);
    assert(q.reserve_0 as int == chk0 + (lp0 + pr0));
    assert(q.reserve_1 as int == chk1 + (lp1 + pr1));
    if p.id.is_stable {
        lemma_stable_k_monotone(chk0, chk1, chk0 + (lp0 + pr0), chk1 + (lp1 + pr1),
            p.decimals_0 as int, p.decimals_1 as int);
    } else {
        crate::curve::lemma_volatile_fee_growth(chk0, chk1, lp0 + pr0, lp1 + pr1, volatile_k(
            p.reserve_0 as int,
            p.reserve_1 as int,
        ));
    }
}

/// The engine state: the fee configuration fixed at construction, and the
/// created pools in creation order.
pub struct Amm {
    fee_config: FeeConfig,
    pools: Vec<Pool>,
}

impl View for Amm {
    type V = Seq<Pool>;

    closed spec fn view(&self) -> Seq<Pool> {
        self.pools@
    }
}

impl Amm {
    /// The fee configuration, as seen by contracts.
    pub closed spec fn spec_fees(&self) -> FeeConfig {
        self.fee_config
    }

    #[verifier::type_invariant]
    spec fn wf(self) -> bool {
        &&& pools_wf(self.pools@)
        &&& fee_config_valid(self.fee_config)
    }

    /// Constructs an engine with no pools under the given fee
    /// configuration.
    pub fn new(config: FeeConfig) -> (amm: Amm)
        requires
            fee_config_valid(config),
        ensures
            amm@ == Seq::<Pool>::empty(),
            amm.spec_fees() == config,
    {
        Amm { fee_config: config, pools: Vec::new() }
    }

    /// Witnesses that every reachable engine value is well-formed: each
    /// pool's identity is canonical, no identity is listed twice, a pool
    /// holds reserves exactly when it has shares, and the fee
    /// configuration is valid. Does nothing at run time; the guarantee is
    /// the type invariant, which a proof function cannot surface here.
    pub fn wf_witness(&self)
        ensures
            pools_wf(self@),
            fee_config_valid(self.spec_fees()),
    {
        proof {
            use_type_invariant(&*self);
        }
    }

    /// Returns the fee configuration; it is valid by construction.
    pub fn fees(&self) -> (r: FeeConfig)
        ensures
            r == self.spec_fees(),
            fee_config_valid(r),
    {
        proof {
            use_type_invariant(&*self);
        }
        self.fee_config
    }

    /// Finds the index of the pool with the given identity.
    fn find_pool(&self, id: PoolId) -> (r: Option<usize>)
        ensures
            match r {
                Some(i) => {
                    &&& has_pool(self@, id)
                    &&& i as int == pool_at(self@, id)
                    &&& i < self@.len()
                    &&& self@[i as int].id == id
                },
                None => !has_pool(self@, id),
            },
    {
        proof {
            use_type_invariant(&*self);
        }
        let n = self.pools.len();
        let mut k: usize = 0;
        while k < n
            invariant
                n == self@.len(),
                k <= n,
                forall|j: int| 0 <= j < k ==> self@[j].id != id,
                ids_distinct(self@),
            decreases n - k,
        {
            if self.pools[k] .id == id {
                proof {
                    lemma_pool_at_unique(self@, id, k as int);
                }
                return Some(k);
            }
            k = k + 1;
        }
        None
    }

    /// Replaces the pool at `i` with an updated, well-formed pool of the
    /// same identity.
    fn set_pool(&mut self, i: usize, p: Pool)
        requires
            i < old(self)@.len(),
            p.id == old(self)@[i as int].id,
            pool_wf(p),
        ensures
            final(self)@ == old(self)@.update(i as int, p),
            final(self).spec_fees() == old(self).spec_fees(),
    {
        proof {
            use_type_invariant(&*self);
        }
        let mut ps: Vec<Pool> = Vec::new();
        std::mem::swap(&mut ps, &mut self.pools);
        ps[i] = p;
        self.pools = ps;
    }

    /// Registers a pool under an identity that is not yet taken.
    fn push_pool(&mut self, p: Pool)
        requires
            pool_wf(p),
            !has_pool(old(self)@, p.id),
        ensures
            final(self)@ == old(self)@.push(p),
            final(self).spec_fees() == old(self).spec_fees(),
    {
        proof {
            use_type_invariant(&*self);
        }
        let mut ps: Vec<Pool> = Vec::new();
        std::mem::swap(&mut ps, &mut self.pools);
        ps.push(p);
        proof {
            assert forall|i: int, j: int| 0 <= i < j < ps@.len() implies ps@[i].id != ps@[j].id by {
                if j == ps@.len() - 1 {
                    assert(!(exists|k: int|
                        0 <= k < old(self)@.len() && old(self)@[k].id == p.id));
                }
            }
        }
        self.pools = ps;
    }

    /// Creates the pool of the unordered token pair `{token_a, token_b}`
    /// with the given stability mode. The pair is canonicalized, so the
    /// same two tokens resolve to the same pool whichever way round they
    /// are presented; each token's decimals travel with it. The new pool
    /// starts with zero reserves and zero shares and is never destroyed.
    pub fn create_pool(
        &mut self,
        token_a: TokenKey,
        token_b: TokenKey,
        is_stable: bool,
        decimals_a: u8,
        decimals_b: u8,
    ) -> (res: Result<PoolId, AmmError>)
        ensures
            final(self).spec_fees() == old(self).spec_fees(),
            token_a == token_b ==> res == Err::<PoolId, AmmError>(AmmError::IdenticalTokens)
                && final(self)@ == old(self)@,
            token_a != token_b ==> ({
                let id = canonical_id(token_a, token_b, is_stable);
                &&& has_pool(old(self)@, id) ==> res == Err::<PoolId, AmmError>(
                    AmmError::PoolAlreadyExists,
                ) && final(self)@ == old(self)@
                &&& !has_pool(old(self)@, id) ==> res == Ok::<PoolId, AmmError>(id)
                    && final(self)@ == old(self)@.push(
                    (Pool {
                        id,
                        reserve_0: 0,
                        reserve_1: 0,
                        total_shares: 0,
                        decimals_0: if key_lt(token_b, token_a) {
                            decimals_b
                        } else {
                            decimals_a
                        },
                        decimals_1: if key_lt(token_b, token_a) {
                            decimals_a
                        } else {
                            decimals_b
                        },
                        protocol_fee_0: 0,
                        protocol_fee_1: 0,
                        locked: false,
                    }),
                )
            }),
    {
        let id = match canonicalize(token_a, token_b, is_stable) {
            Ok(id) => id,
            Err(e) => {
                return Err(e);
            },
        };
        let (decimals_0, decimals_1) = if token_b.contract_id < token_a.contract_id
            || (token_b.contract_id == token_a.contract_id && token_b.sub_id < token_a.sub_id) {
            (decimals_b, decimals_a)
        } else {
            (decimals_a, decimals_b)
        };
        match self.find_pool(id) {
            Some(_) => Err(AmmError::PoolAlreadyExists),
            None => {
                proof {
                    crate::identity::lemma_canonical_idempotent(token_a, token_b, is_stable);
                }
                let p = Pool {
                    id,
                    reserve_0: 0,
                    reserve_1: 0,
                    total_shares: 0,
                    decimals_0,
                    decimals_1,
                    protocol_fee_0: 0,
                    protocol_fee_1: 0,
                    locked: false,
                };
                self.push_pool(p);
                Ok(id)
            },
        }
    }

    /// Returns a read-only snapshot of the pool with the given identity,
    /// or `None` if no such pool was created. Never fails.
    pub fn pool_metadata(&self, id: PoolId) -> (r: Option<PoolSnapshot>)
        ensures
            match r {
                Some(m) => has_pool(self@, id) && m == (PoolSnapshot {
                    reserve_0: pool_of(self@, id).reserve_0,
                    reserve_1: pool_of(self@, id).reserve_1,
                    total_shares: pool_of(self@, id).total_shares,
                    decimals_0: pool_of(self@, id).decimals_0,
                    decimals_1: pool_of(self@, id).decimals_1,
                    protocol_fee_0: pool_of(self@, id).protocol_fee_0,
                    protocol_fee_1: pool_of(self@, id).protocol_fee_1,
                }),
                None => !has_pool(self@, id),
            },
    {
        match self.find_pool(id) {
            None => None,
            Some(i) => {
                let p = self.pools[i];
                Some(
                    PoolSnapshot {
                        reserve_0: p.reserve_0,
                        reserve_1: p.reserve_1,
                        total_shares: p.total_shares,
                        decimals_0: p.decimals_0,
                        decimals_1: p.decimals_1,
                        protocol_fee_0: p.protocol_fee_0,
                        protocol_fee_1: p.protocol_fee_1,
                    },
                )
            },
        }
    }

    /// Mints liquidity shares for a deposit. The caller reports the token
    /// balances the pool actually custodies; the positive delta over the
    /// recorded reserves is the deposit. The first deposit issues the
    /// square root of the deposit product minus the permanently locked
    /// `MINIMUM_LIQUIDITY`; later deposits issue shares proportional to
    /// the scarcer side. On success the reserves are brought up to the
    /// observed balances and the share supply grows by the issued amount
    /// plus, on a first deposit, the locked minimum.
    pub fn mint(&mut self, id: PoolId, balance_0: u64, balance_1: u64) -> (res: Result<
        u64,
        AmmError,
    >)
        ensures
            final(self).spec_fees() == old(self).spec_fees(),
            !has_pool(old(self)@, id) ==> res == Err::<u64, AmmError>(AmmError::PoolNotFound)
                && final(self)@ == old(self)@,
            has_pool(old(self)@, id) ==> ({
                let s = old(self)@;
                let i = pool_at(s, id);
                let p = s[i];
                let d0 = balance_0 - p.reserve_0;
                let d1 = balance_1 - p.reserve_1;
                &&& p.locked ==> res == Err::<u64, AmmError>(AmmError::ReentrancyBlocked)
                    && final(self)@ == s
                &&& !p.locked && (balance_0 < p.reserve_0 || balance_1 < p.reserve_1) ==> res
                    == Err::<u64, AmmError>(AmmError::InsufficientInputAmount) && final(self)@ == s
                &&& !p.locked && balance_0 >= p.reserve_0 && balance_1 >= p.reserve_1 ==> ({
                    if p.total_shares == 0 {
                        let total = first_mint_total(d0, d1);
                        &&& total <= MINIMUM_LIQUIDITY ==> res == Err::<u64, AmmError>(
                            AmmError::InsufficientLiquidity,
                        ) && final(self)@ == s
                        &&& total > MINIMUM_LIQUIDITY ==> res == Ok::<u64, AmmError>(
                            (total - MINIMUM_LIQUIDITY) as u64,
                        ) && final(self)@ == s.update(
                            i,
                            (Pool {
                                reserve_0: balance_0,
                                reserve_1: balance_1,
                                total_shares: total as u64,
                                ..p
                            }),
                        )
                    } else {
                        let m = proportional_shares(d0, d1, p.total_shares as int,
                            p.reserve_0 as int, p.reserve_1 as int);
                        &&& m == 0 ==> res == Err::<u64, AmmError>(
                            AmmError::InsufficientLiquidity,
                        ) && final(self)@ == s
                        &&& m > u64::MAX ==> res == Err::<u64, AmmError>(AmmError::Overflow)
                            && final(self)@ == s
                        &&& 0 < m <= u64::MAX && p.total_shares + m > u64::MAX ==> res
                            == Err::<u64, AmmError>(AmmError::Overflow) && final(self)@ == s
                        &&& 0 < m && p.total_shares + m <= u64::MAX ==> res == Ok::<u64, AmmError>(
                            m as u64,
                        ) && final(self)@ == s.update(
                            i,
                            (Pool {
                                reserve_0: balance_0,
                                reserve_1: balance_1,
                                total_shares: (p.total_shares + m) as u64,
                                ..p
                            }),
                        )
                    }
                })
            }),
    {
        let i = match self.find_pool(id) {
            None => {
                return Err(AmmError::PoolNotFound);
            },
            Some(i) => i,
        };
        proof {
            use_type_invariant(&*self);
        }
        let p = self.pools[i];
        if p.locked {
            return Err(AmmError::ReentrancyBlocked);
        }
        if balance_0 < p.reserve_0 || balance_1 < p.reserve_1 {
            return Err(AmmError::InsufficientInputAmount);
        }
        let d0 = balance_0 - p.reserve_0;
        let d1 = balance_1 - p.reserve_1;
        if p.total_shares == 0 {
            let prod = crate::curve::volatile_k_u128(d0, d1);
            let total = crate::math::isqrt_u128(prod);
            if total <= MINIMUM_LIQUIDITY as u128 {
                return Err(AmmError::InsufficientLiquidity);
            }
            let total_64 = total as u64;
            proof {
                assert(d0 >= 1 && d1 >= 1) by (nonlinear_arith)
                    requires
                        d0 as int * d1 as int >= 1,
                        0 <= d0,
                        0 <= d1,
                ;
            }
            let p2 = Pool {
                reserve_0: balance_0,
                reserve_1: balance_1,
                total_shares: total_64,
                ..p
            };
            self.set_pool(i, p2);
            Ok(total_64 - MINIMUM_LIQUIDITY)
        } else {
            proof {
                assert(d0 as int * p.total_shares as int <= u64::MAX as int * u64::MAX as int)
                    by (nonlinear_arith)
                    requires
                        0 <= d0 <= u64::MAX,
                        0 <= p.total_shares <= u64::MAX,
                ;
                assert(d1 as int * p.total_shares as int <= u64::MAX as int * u64::MAX as int)
                    by (nonlinear_arith)
                    requires
                        0 <= d1 <= u64::MAX,
                        0 <= p.total_shares <= u64::MAX,
                ;
            }
            let m0: u128 = (d0 as u128) * (p.total_shares as u128) / (p.reserve_0 as u128);
            let m1: u128 = (d1 as u128) * (p.total_shares as u128) / (p.reserve_1 as u128);
            let m: u128 = if m0 <= m1 {
                m0
            } else {
                m1
            };
            if m == 0 {
                return Err(AmmError::InsufficientLiquidity);
            }
            if m > u64::MAX as u128 {
                return Err(AmmError::Overflow);
            }
            let new_total = match crate::math::add_check_u64(p.total_shares, m as u64) {
                None => {
                    return Err(AmmError::Overflow);
                },
                Some(v) => v,
            };
            let p2 = Pool {
                reserve_0: balance_0,
                reserve_1: balance_1,
                total_shares: new_total,
                ..p
            };
            self.set_pool(i, p2);
            Ok(m as u64)
        }
    }

    /// Burns liquidity shares and redeems the proportional amount of each
    /// reserve. The caller reports the number of shares surrendered to
    /// the pool's custody; redemption truncates in the pool's favor. On
    /// success the reserves and the share supply shrink by the redeemed
    /// and burned amounts.
    pub fn burn(&mut self, id: PoolId, shares_burned: u64) -> (res: Result<(u64, u64), AmmError>)
        ensures
            final(self).spec_fees() == old(self).spec_fees(),
            !has_pool(old(self)@, id) ==> res == Err::<(u64, u64), AmmError>(
                AmmError::PoolNotFound,
            ) && final(self)@ == old(self)@,
            has_pool(old(self)@, id) ==> ({
                let s = old(self)@;
                let i = pool_at(s, id);
                let p = s[i];
                &&& p.locked ==> res == Err::<(u64, u64), AmmError>(AmmError::ReentrancyBlocked)
                    && final(self)@ == s
                &&& !p.locked && (shares_burned == 0 || shares_burned > p.total_shares) ==> res
                    == Err::<(u64, u64), AmmError>(AmmError::InsufficientLiquidity)
                    && final(self)@ == s
                &&& !p.locked && 0 < shares_burned <= p.total_shares ==> ({
                    let a0 = redeem_amount(p.reserve_0 as int, shares_burned as int,
                        p.total_shares as int);
                    let a1 = redeem_amount(p.reserve_1 as int, shares_burned as int,
                        p.total_shares as int);
                    res == Ok::<(u64, u64), AmmError>(((a0 as u64, a1 as u64))) && final(self)@
                        == s.update(
                        i,
                        (Pool {
                            reserve_0: (p.reserve_0 - a0) as u64,
                            reserve_1: (p.reserve_1 - a1) as u64,
                            total_shares: (p.total_shares - shares_burned) as u64,
                            ..p
                        }),
                    )
                })
            }),
    {
        let i = match self.find_pool(id) {
            None => {
                return Err(AmmError::PoolNotFound);
            },
            Some(i) => i,
        };
        proof {
            use_type_invariant(&*self);
        }
        let p = self.pools[i];
        if p.locked {
            return Err(AmmError::ReentrancyBlocked);
        }
        if shares_burned == 0 || shares_burned > p.total_shares {
            return Err(AmmError::InsufficientLiquidity);
        }
        proof {
            lemma_redeem_bounded(p.reserve_0 as int, shares_burned as int, p.total_shares as int);
            lemma_redeem_bounded(p.reserve_1 as int, shares_burned as int, p.total_shares as int);
        }
        proof {
            assert(p.reserve_0 as int * shares_burned as int <= u64::MAX as int * u64::MAX as int)
                by (nonlinear_arith)
                requires
                    0 <= p.reserve_0 <= u64::MAX,
                    0 <= shares_burned <= u64::MAX,
            ;
            assert(p.reserve_1 as int * shares_burned as int <= u64::MAX as int * u64::MAX as int)
                by (nonlinear_arith)
                requires
                    0 <= p.reserve_1 <= u64::MAX,
                    0 <= shares_burned <= u64::MAX,
            ;
        }
        let a0: u64 = ((p.reserve_0 as u128) * (shares_burned as u128)
            / (p.total_shares as u128)) as u64;
        let a1: u64 = ((p.reserve_1 as u128) * (shares_burned as u128)
            / (p.total_shares as u128)) as u64;
        let p2 = Pool {
            reserve_0: p.reserve_0 - a0,
            reserve_1: p.reserve_1 - a1,
            total_shares: p.total_shares - shares_burned,
            ..p
        };
        self.set_pool(i, p2);
        Ok((a0, a1))
    }

    /// Begins a swap: validates the requested outputs against the pool and
    /// takes the pool's exclusive-access lock. The returned ticket is the
    /// only handle that can finish the swap; while it is pending, any
    /// other operation on this pool fails with `ReentrancyBlocked`.
    pub fn swap_begin(&mut self, id: PoolId, amount_0_out: u64, amount_1_out: u64) -> (res: Result<
        SwapTicket,
        AmmError,
    >)
        ensures
            final(self).spec_fees() == old(self).spec_fees(),
            !has_pool(old(self)@, id) ==> res == Err::<SwapTicket, AmmError>(AmmError::PoolNotFound)
                && final(self)@ == old(self)@,
            has_pool(old(self)@, id) ==> ({
                let s = old(self)@;
                let i = pool_at(s, id);
                let p = s[i];
                &&& p.locked ==> res == Err::<SwapTicket, AmmError>(AmmError::ReentrancyBlocked)
                    && final(self)@ == s
                &&& !p.locked && amount_0_out == 0 && amount_1_out == 0 ==> res == Err::<
                    SwapTicket,
                    AmmError,
                >(AmmError::InsufficientOutputAmount) && final(self)@ == s
                &&& !p.locked && (amount_0_out > 0 || amount_1_out > 0) && (amount_0_out
                    > p.reserve_0 || amount_1_out > p.reserve_1) ==> res == Err::<
                    SwapTicket,
                    AmmError,
                >(AmmError::InsufficientLiquidity) && final(self)@ == s
                &&& !p.locked && (amount_0_out > 0 || amount_1_out > 0) && amount_0_out
                    <= p.reserve_0 && amount_1_out <= p.reserve_1 ==> ({
                    &&& final(self)@ == s.update(i, (Pool { locked: true, ..p }))
                    &&& res matches Ok(t) && t.spec_id() == id && t.spec_amount_0_out()
                        == amount_0_out && t.spec_amount_1_out() == amount_1_out
                        && t.spec_reserve_0() == p.reserve_0 && t.spec_reserve_1() == p.reserve_1
                        && t.spec_decimals_0() == p.decimals_0 && t.spec_decimals_1()
                        == p.decimals_1 && t.spec_lp_rate() == old(self).spec_fees().lp_rate(
                        id.is_stable,
                    ) && t.spec_protocol_rate() == old(self).spec_fees().protocol_rate(
                        id.is_stable,
                    )
                })
            }),
    {
        let i = match self.find_pool(id) {
            None => {
                return Err(AmmError::PoolNotFound);
            },
            Some(i) => i,
        };
        proof {
            use_type_invariant(&*self);
        }
        let p = self.pools[i];
        if p.locked {
            return Err(AmmError::ReentrancyBlocked);
        }
        if amount_0_out == 0 && amount_1_out == 0 {
            return Err(AmmError::InsufficientOutputAmount);
        }
        if amount_0_out > p.reserve_0 || amount_1_out > p.reserve_1 {
            return Err(AmmError::InsufficientLiquidity);
        }
        let lp_rate: u64 = if id.is_stable {
            self.fee_config.lp_fee_stable
        } else {
            self.fee_config.lp_fee_volatile
        };
        let protocol_rate: u64 = if id.is_stable {
            self.fee_config.protocol_fee_stable
        } else {
            self.fee_config.protocol_fee_volatile
        };
        let t = SwapTicket {
            id,
            amount_0_out,
            amount_1_out,
            reserve_0: p.reserve_0,
            reserve_1: p.reserve_1,
            decimals_0: p.decimals_0,
            decimals_1: p.decimals_1,
            lp_rate,
            protocol_rate,
        };
        let p2 = Pool { locked: true, ..p };
        self.set_pool(i, p2);
        Ok(t)
    }

    /// Ends a swap: reconciles the reported custody balances against the
    /// pending ticket, applies fees to the implied inputs, verifies that
    /// the pool invariant has not shrunk, commits the new reserves from
    /// the observed balances, credits the protocol-fee accumulators
    /// without removing the fee from custody, and releases the lock. On
    /// any failure after the ticket is recognized, the pool is left
    /// exactly as it was before the swap began, with the lock released.
    /// The whole outcome is the mathematical function `swap_end_outcome`
    /// of the prior state, the ticket and the reported balances.
    pub fn swap_end(&mut self, t: SwapTicket, balance_0: u64, balance_1: u64) -> (res: Result<
        (),
        AmmError,
    >)
        ensures
            final(self).spec_fees() == old(self).spec_fees(),
            final(self)@ == swap_end_outcome(old(self)@, t, balance_0 as int, balance_1 as int).0,
            res == swap_end_outcome(old(self)@, t, balance_0 as int, balance_1 as int).1,
    {
        let i = match self.find_pool(t.id) {
            None => {
                return Err(AmmError::PoolNotFound);
            },
            Some(i) => i,
        };
        proof {
            use_type_invariant(&*self);
        }
        let p = self.pools[i];
        if !(p.locked && p.total_shares > 0 && p.reserve_0 == t.reserve_0 && p.reserve_1
            == t.reserve_1 && p.decimals_0 == t.decimals_0 && p.decimals_1 == t.decimals_1
            && t.amount_0_out <= p.reserve_0 && t.amount_1_out <= p.reserve_1 && t.lp_rate < 10000
            && t.protocol_rate < 10000 && t.lp_rate + t.protocol_rate < 10000) {
            return Err(AmmError::ReentrancyBlocked);
        }
        let base_0 = p.reserve_0 - t.amount_0_out;
        let base_1 = p.reserve_1 - t.amount_1_out;
        if balance_0 < base_0 || balance_1 < base_1 {
            let p2 = Pool { locked: false, ..p };
            self.set_pool(i, p2);
            return Err(AmmError::InsufficientInputAmount);
        }
        let in_0 = balance_0 - base_0;
        let in_1 = balance_1 - base_1;
        let fb0 = apply_fee_rates(in_0, t.lp_rate, t.protocol_rate);
        let fb1 = apply_fee_rates(in_1, t.lp_rate, t.protocol_rate);
        let chk_0 = base_0 + fb0.net_in;
        let chk_1 = base_1 + fb1.net_in;
        let invariant_kept: bool;
        if p.id.is_stable {
            let k_old = match crate::curve::stable_k_checked(
                p.reserve_0 as u128,
                p.reserve_1 as u128,
                p.decimals_0,
                p.decimals_1,
            ) {
                None => {
                    let p2 = Pool { locked: false, ..p };
                    self.set_pool(i, p2);
                    return Err(AmmError::Overflow);
                },
                Some(v) => v,
            };
            let k_chk = match crate::curve::stable_k_checked(
                chk_0 as u128,
                chk_1 as u128,
                p.decimals_0,
                p.decimals_1,
            ) {
                None => {
                    let p2 = Pool { locked: false, ..p };
                    self.set_pool(i, p2);
                    return Err(AmmError::Overflow);
                },
                Some(v) => v,
            };
            invariant_kept = k_chk >= k_old;
        } else {
            let k_old = crate::curve::volatile_k_u128(p.reserve_0, p.reserve_1);
            let k_chk = crate::curve::volatile_k_u128(chk_0, chk_1);
            invariant_kept = k_chk >= k_old;
        }
        if !invariant_kept {
            let p2 = Pool { locked: false, ..p };
            self.set_pool(i, p2);
            return Err(AmmError::InvariantViolation);
        }
        let pf0 = match crate::math::add_check_u64(p.protocol_fee_0, fb0.protocol_fee) {
            None => {
                let p2 = Pool { locked: false, ..p };
                self.set_pool(i, p2);
                return Err(AmmError::Overflow);
            },
            Some(v) => v,
        };
        let pf1 = match crate::math::add_check_u64(p.protocol_fee_1, fb1.protocol_fee) {
            None => {
                let p2 = Pool { locked: false, ..p };
                self.set_pool(i, p2);
                return Err(AmmError::Overflow);
            },
            Some(v) => v,
        };
        proof {
            lemma_swap_committed_reserves_positive(p, t, balance_0 as int, balance_1 as int);
        }
        let p2 = Pool {
            reserve_0: balance_0,
            reserve_1: balance_1,
            protocol_fee_0: pf0,
            protocol_fee_1: pf1,
            locked: false,
            ..p
        };
        self.set_pool(i, p2);
        Ok(())
    }

    /// Executes a whole swap against an external host: begins the swap,
    /// instructs the optimistic transfer of the requested outputs to the
    /// recipient, invokes the flash-swap callback when `data` is
    /// non-empty, reads back the pool's custody balances, and reconciles.
    /// The callback receives the engine itself and may call back into it;
    /// any such call on this pool fails with `ReentrancyBlocked`, so on
    /// success the pool's invariant has not shrunk relative to the state
    /// at entry, whatever the host did.
    pub fn swap<H: SwapHost>(
        &mut self,
        id: PoolId,
        amount_0_out: u64,
        amount_1_out: u64,
        to: u64,
        data: Vec<u8>,
        host: &mut H,
    ) -> (res: Result<(), AmmError>)
        ensures
            !has_pool(old(self)@, id) ==> res == Err::<(), AmmError>(AmmError::PoolNotFound)
                && final(self)@ == old(self)@,
            has_pool(old(self)@, id) ==> ({
                let p = pool_of(old(self)@, id);
                &&& p.locked ==> res == Err::<(), AmmError>(AmmError::ReentrancyBlocked)
                    && final(self)@ == old(self)@
                &&& !p.locked && amount_0_out == 0 && amount_1_out == 0 ==> res == Err::<
                    (),
                    AmmError,
                >(AmmError::InsufficientOutputAmount) && final(self)@ == old(self)@
                &&& !p.locked && (amount_0_out > 0 || amount_1_out > 0) && (amount_0_out
                    > p.reserve_0 || amount_1_out > p.reserve_1) ==> res == Err::<(), AmmError>(
                    AmmError::InsufficientLiquidity,
                ) && final(self)@ == old(self)@
            }),
            res == Ok::<(), AmmError>(()) ==> ({
                let p = pool_of(old(self)@, id);
                let q = pool_of(final(self)@, id);
                &&& has_pool(old(self)@, id)
                &&& has_pool(final(self)@, id)
                &&& q.id == id
                &&& !q.locked
                &&& !id.is_stable ==> volatile_k(q.reserve_0 as int, q.reserve_1 as int)
                    >= volatile_k(p.reserve_0 as int, p.reserve_1 as int)
                &&& id.is_stable ==> stable_k(q.reserve_0 as int, q.reserve_1 as int,
                    q.decimals_0 as int, q.decimals_1 as int) >= stable_k(p.reserve_0 as int,
                    p.reserve_1 as int, q.decimals_0 as int, q.decimals_1 as int)
            }),
    {
        let t = match self.swap_begin(id, amount_0_out, amount_1_out) {
            Err(e) => {
                return Err(e);
            },
            Ok(t) => t,
        };
        let ghost tg = t;
        host.transfer_out(id, amount_0_out, amount_1_out, to);
        if data.len() > 0 {
            host.invoke_callback(self, id, amount_0_out, amount_1_out, to, &data);
        }
        let (balance_0, balance_1) = host.pool_balances(id);
        proof {
            use_type_invariant(&*self);
        }
        let ghost s1 = self@;
        let res = self.swap_end(t, balance_0, balance_1);
        proof {
            if res is Ok {
                lemma_swap_end_growth(s1, tg, balance_0 as int, balance_1 as int);
            }
        }
        res
    }

    /// Quotes the output owed on one side of a pool for a given input on
    /// the other side, after fees: on either curve, the largest output
    /// that keeps the pool invariant from shrinking. Read-only: quoting
    /// commits nothing.
    pub fn get_amount_out(&self, id: PoolId, input_is_token_0: bool, amount_in: u64) -> (res:
        Result<u64, AmmError>)
        ensures
            !has_pool(self@, id) ==> res == Err::<u64, AmmError>(AmmError::PoolNotFound),
            has_pool(self@, id) ==> ({
                let p = pool_of(self@, id);
                let r_in = if input_is_token_0 {
                    p.reserve_0
                } else {
                    p.reserve_1
                };
                let r_out = if input_is_token_0 {
                    p.reserve_1
                } else {
                    p.reserve_0
                };
                let d_in = if input_is_token_0 {
                    p.decimals_0
                } else {
                    p.decimals_1
                };
                let d_out = if input_is_token_0 {
                    p.decimals_1
                } else {
                    p.decimals_0
                };
                let net = amount_in - fee_part(amount_in as int, self.spec_fees().lp_rate(
                    id.is_stable,
                )) - fee_part(amount_in as int, self.spec_fees().protocol_rate(id.is_stable));
                &&& (p.reserve_0 == 0 || p.reserve_1 == 0) ==> res == Err::<u64, AmmError>(
                    AmmError::InsufficientLiquidity,
                )
                &&& p.reserve_0 > 0 && p.reserve_1 > 0 && !id.is_stable ==> ({
                    let dy = net * r_out / (r_in + net);
                    &&& res == Ok::<u64, AmmError>(dy as u64)
                    &&& 0 <= dy <= r_out
                    &&& volatile_k(r_in + net, r_out - dy) >= volatile_k(r_in as int,
                        r_out as int)
                    &&& dy < r_out ==> volatile_k(r_in + net, r_out - (dy + 1)) < volatile_k(
                        r_in as int,
                        r_out as int,
                    )
                })
                &&& p.reserve_0 > 0 && p.reserve_1 > 0 && id.is_stable ==> (match res {
                    Ok(dy) => {
                        &&& dy <= r_out
                        &&& crate::curve::stable_swap_ok(r_in as int, r_out as int, net,
                            d_in as int, d_out as int, dy as int)
                        &&& forall|dy2: int|
                            dy < dy2 <= r_out ==> !crate::curve::stable_swap_ok(r_in as int,
                                r_out as int, net, d_in as int, d_out as int, dy2)
                    },
                    Err(e) => {
                        &&& e == AmmError::Overflow
                        &&& stable_k(r_in + net, r_out as int, d_in as int, d_out as int)
                            > u128::MAX
                    },
                })
            }),
    {
        let i = match self.find_pool(id) {
            None => {
                return Err(AmmError::PoolNotFound);
            },
            Some(i) => i,
        };
        proof {
            use_type_invariant(&*self);
        }
        let p = self.pools[i];
        if p.reserve_0 == 0 || p.reserve_1 == 0 {
            return Err(AmmError::InsufficientLiquidity);
        }
        let fb = crate::fees::apply_fee(amount_in, &self.fee_config, id.is_stable);
        let (r_in, r_out, d_in, d_out) = if input_is_token_0 {
            (p.reserve_0, p.reserve_1, p.decimals_0, p.decimals_1)
        } else {
            (p.reserve_1, p.reserve_0, p.decimals_1, p.decimals_0)
        };
        if id.is_stable {
            crate::curve::stable_amount_out(r_in, r_out, fb.net_in, d_in, d_out)
        } else {
            Ok(crate::curve::volatile_amount_out(r_in, r_out, fb.net_in))
        }
    }

    /// Lists the identities of every created pool, in creation order:
    /// each exactly once, each canonical.
    pub fn pools(&self) -> (r: Vec<PoolId>)
        ensures
            r@.len() == self@.len(),
            forall|i: int| 0 <= i < self@.len() ==> r@[i] == self@[i].id,
            pools_wf(self@),
    {
        proof {
            use_type_invariant(&*self);
        }
        let n = self.pools.len();
        let mut out: Vec<PoolId> = Vec::new();
        let mut k: usize = 0;
        while k < n
            invariant
                n == self@.len(),
                k <= n,
                out@.len() == k,
                forall|j: int| 0 <= j < k ==> out@[j] == self@[j].id,
            decreases n - k,
        {
            out.push(self.pools[k] .id);
            k = k + 1;
        }
        out
    }
}

} // verus!
