use amm_engine::engine::{Amm, SwapHost};
use amm_engine::errors::AmmError;
use amm_engine::fees::FeeConfig;
use amm_engine::identity::{PoolId, TokenKey};

fn cfg() -> FeeConfig {
    FeeConfig {
        lp_fee_volatile: 30,
        lp_fee_stable: 5,
        protocol_fee_volatile: 10,
        protocol_fee_stable: 2,
    }
}

fn tok(contract_id: u64, sub_id: u64) -> TokenKey {
    TokenKey { contract_id, sub_id }
}

fn volatile_pool(amm: &mut Amm) -> PoolId {
    let id = amm.create_pool(tok(1, 0), tok(2, 0), false, 9, 9).unwrap();
    amm.mint(id, 1000, 4000).unwrap();
    id
}

/// A host that performs no outside work and reports fixed balances.
struct PassiveHost {
    balances: (u64, u64),
    callback_ran: bool,
}

impl SwapHost for PassiveHost {
    fn transfer_out(&mut self, _id: PoolId, _amount_0: u64, _amount_1: u64, _to: u64) {}

    fn invoke_callback(
        &mut self,
        _amm: &mut Amm,
        _id: PoolId,
        _amount_0: u64,
        _amount_1: u64,
        _to: u64,
        _data: &Vec<u8>,
    ) {
        self.callback_ran = true;
    }

    fn pool_balances(&mut self, _id: PoolId) -> (u64, u64) {
        self.balances
    }
}

/// A host whose callback tries to reenter the engine on the locked pool.
struct ReentrantHost {
    balances: (u64, u64),
    swap_result: Option<AmmError>,
    mint_result: Option<AmmError>,
    burn_result: Option<AmmError>,
    other_pool_created: bool,
}

impl SwapHost for ReentrantHost {
    fn transfer_out(&mut self, _id: PoolId, _amount_0: u64, _amount_1: u64, _to: u64) {}

    fn invoke_callback(
        &mut self,
        amm: &mut Amm,
        id: PoolId,
        _amount_0: u64,
        _amount_1: u64,
        to: u64,
        _data: &Vec<u8>,
    ) {
        let mut inner = PassiveHost { balances: (0, 0), callback_ran: false };
        self.swap_result = amm.swap(id, 0, 1, to, Vec::new(), &mut inner).err();
        self.mint_result = amm.mint(id, u64::MAX, u64::MAX).err();
        self.burn_result = amm.burn(id, 1).err();
        // a distinct pool is independent: creating one mid-swap works
        self.other_pool_created = amm.create_pool(tok(8, 0), tok(9, 0), false, 6, 6).is_ok();
    }

    fn pool_balances(&mut self, _id: PoolId) -> (u64, u64) {
        self.balances
    }
}

#[test]
fn volatile_swap_grows_the_invariant() {
    let mut amm = Amm::new(cfg());
    let id = volatile_pool(&mut amm);
    // request 1000 of token 1, pay 400 of token 0 during the callback
    let mut host = PassiveHost { balances: (1400, 3000), callback_ran: false };
    assert_eq!(amm.swap(id, 0, 1000, 7, vec![1], &mut host), Ok(()));
    assert!(host.callback_ran);
    let m = amm.pool_metadata(id).unwrap();
    assert_eq!((m.reserve_0, m.reserve_1), (1400, 3000));
    assert_eq!(m.total_shares, 2000);
    // the constant product grew strictly: fees accrued to the pool
    assert!(1400u128 * 3000u128 > 1000u128 * 4000u128);
}

#[test]
fn volatile_swap_commits_balances_and_accrues_protocol_fee() {
    let mut amm = Amm::new(cfg());
    let id = volatile_pool(&mut amm);
    // input 1000 of token 0: the reserves become the observed balances,
    // and the protocol fee of 1 is booked without leaving custody
    let mut host = PassiveHost { balances: (2000, 3000), callback_ran: false };
    assert_eq!(amm.swap(id, 0, 1000, 7, vec![1], &mut host), Ok(()));
    let m = amm.pool_metadata(id).unwrap();
    assert_eq!((m.reserve_0, m.reserve_1), (2000, 3000));
    assert_eq!((m.protocol_fee_0, m.protocol_fee_1), (1, 0));
}

#[test]
fn swap_without_callback_data_skips_the_callback() {
    let mut amm = Amm::new(cfg());
    let id = volatile_pool(&mut amm);
    let mut host = PassiveHost { balances: (1400, 3000), callback_ran: false };
    assert_eq!(amm.swap(id, 0, 1000, 7, Vec::new(), &mut host), Ok(()));
    assert!(!host.callback_ran);
}

#[test]
fn swap_with_zero_outputs_fails() {
    let mut amm = Amm::new(cfg());
    let id = volatile_pool(&mut amm);
    let mut host = PassiveHost { balances: (1000, 4000), callback_ran: false };
    assert_eq!(
        amm.swap(id, 0, 0, 7, vec![1], &mut host),
        Err(AmmError::InsufficientOutputAmount)
    );
    assert!(!host.callback_ran);
}

#[test]
fn swap_output_above_reserve_fails_and_preserves_reserves() {
    let mut amm = Amm::new(cfg());
    let id = volatile_pool(&mut amm);
    let mut host = PassiveHost { balances: (1000, 4000), callback_ran: false };
    assert_eq!(
        amm.swap(id, 1001, 0, 7, vec![1], &mut host),
        Err(AmmError::InsufficientLiquidity)
    );
    assert!(!host.callback_ran);
    let m = amm.pool_metadata(id).unwrap();
    assert_eq!((m.reserve_0, m.reserve_1), (1000, 4000));
    // the pool is not locked: a later operation still works
    assert!(amm.mint(id, 2000, 8000).is_ok());
}

#[test]
fn swap_on_unknown_pool_fails() {
    let mut amm = Amm::new(cfg());
    let id = PoolId { token_0: tok(1, 0), token_1: tok(2, 0), is_stable: false };
    let mut host = PassiveHost { balances: (0, 0), callback_ran: false };
    assert_eq!(amm.swap(id, 0, 1, 7, vec![1], &mut host), Err(AmmError::PoolNotFound));
}

#[test]
fn swap_with_missing_input_fails_and_unlocks() {
    let mut amm = Amm::new(cfg());
    let id = volatile_pool(&mut amm);
    // output paid out, but custody below what the pool must keep
    let mut host = PassiveHost { balances: (999, 3000), callback_ran: false };
    assert_eq!(
        amm.swap(id, 0, 1000, 7, vec![1], &mut host),
        Err(AmmError::InsufficientInputAmount)
    );
    let m = amm.pool_metadata(id).unwrap();
    assert_eq!((m.reserve_0, m.reserve_1), (1000, 4000));
    assert!(amm.mint(id, 2000, 8000).is_ok());
}

#[test]
fn swap_paying_too_little_violates_the_invariant() {
    let mut amm = Amm::new(cfg());
    let id = volatile_pool(&mut amm);
    // 100 of token 0 cannot buy 1000 of token 1 here
    let mut host = PassiveHost { balances: (1100, 3000), callback_ran: false };
    assert_eq!(
        amm.swap(id, 0, 1000, 7, vec![1], &mut host),
        Err(AmmError::InvariantViolation)
    );
    let m = amm.pool_metadata(id).unwrap();
    assert_eq!((m.reserve_0, m.reserve_1), (1000, 4000));
    assert!(amm.mint(id, 2000, 8000).is_ok());
}

#[test]
fn reentrant_calls_during_callback_are_blocked() {
    let mut amm = Amm::new(cfg());
    let id = volatile_pool(&mut amm);
    let mut host = ReentrantHost {
        balances: (1400, 3000),
        swap_result: None,
        mint_result: None,
        burn_result: None,
        other_pool_created: false,
    };
    // the outer swap succeeds even though the callback probed the lock
    assert_eq!(amm.swap(id, 0, 1000, 7, vec![1], &mut host), Ok(()));
    assert_eq!(host.swap_result, Some(AmmError::ReentrancyBlocked));
    assert_eq!(host.mint_result, Some(AmmError::ReentrancyBlocked));
    assert_eq!(host.burn_result, Some(AmmError::ReentrancyBlocked));
    assert!(host.other_pool_created);
    let m = amm.pool_metadata(id).unwrap();
    assert_eq!((m.reserve_0, m.reserve_1), (1400, 3000));
}

#[test]
fn quote_volatile_matches_the_formula() {
    let mut amm = Amm::new(cfg());
    let id = volatile_pool(&mut amm);
    // input 400: net 399 after fees; 399 * 4000 / 1399 = 1140
    assert_eq!(amm.get_amount_out(id, true, 400), Ok(1140));
    // empty pool has no price
    let id2 = amm.create_pool(tok(3, 0), tok(4, 0), false, 9, 9).unwrap();
    assert_eq!(amm.get_amount_out(id2, true, 400), Err(AmmError::InsufficientLiquidity));
    let unknown = PoolId { token_0: tok(5, 0), token_1: tok(6, 0), is_stable: false };
    assert_eq!(amm.get_amount_out(unknown, true, 400), Err(AmmError::PoolNotFound));
}

#[test]
fn volatile_quote_is_the_largest_admissible_output() {
    let mut amm = Amm::new(cfg());
    let id = volatile_pool(&mut amm);
    let dy = amm.get_amount_out(id, true, 400).unwrap();
    assert_eq!(dy, 1140);
    // one more than the quote is refused by reconciliation
    let t = amm.swap_begin(id, 0, dy + 1).unwrap();
    assert_eq!(amm.swap_end(t, 1400, 4000 - (dy + 1)), Err(AmmError::InvariantViolation));
    let m = amm.pool_metadata(id).unwrap();
    assert_eq!((m.reserve_0, m.reserve_1), (1000, 4000));
    // the quote itself goes through
    let t2 = amm.swap_begin(id, 0, dy).unwrap();
    assert_eq!(amm.swap_end(t2, 1400, 4000 - dy), Ok(()));
    let m2 = amm.pool_metadata(id).unwrap();
    assert_eq!((m2.reserve_0, m2.reserve_1), (1400, 4000 - dy));
}

fn stable_pool(amm: &mut Amm) -> PoolId {
    let id = amm.create_pool(tok(1, 0), tok(2, 0), true, 9, 9).unwrap();
    amm.mint(id, 100_000, 100_000).unwrap();
    id
}

#[test]
fn stable_quote_is_the_largest_admissible_output() {
    let mut amm = Amm::new(cfg());
    let id = stable_pool(&mut amm);
    // stable fees are 5 + 2 basis points: input 1000 nets 1000 exactly
    let dy = amm.get_amount_out(id, true, 1000).unwrap();
    assert!(dy > 900 && dy <= 1000);
    // one more than the quote is refused by reconciliation
    let t = amm.swap_begin(id, 0, dy + 1).unwrap();
    assert_eq!(
        amm.swap_end(t, 101_000, 100_000 - (dy + 1)),
        Err(AmmError::InvariantViolation)
    );
    let m = amm.pool_metadata(id).unwrap();
    assert_eq!((m.reserve_0, m.reserve_1), (100_000, 100_000));
    // the quote itself goes through
    let t2 = amm.swap_begin(id, 0, dy).unwrap();
    assert_eq!(amm.swap_end(t2, 101_000, 100_000 - dy), Ok(()));
    let m2 = amm.pool_metadata(id).unwrap();
    assert_eq!((m2.reserve_0, m2.reserve_1), (101_000, 100_000 - dy));
}

#[test]
fn stable_swap_through_the_host() {
    let mut amm = Amm::new(cfg());
    let id = stable_pool(&mut amm);
    let dy = amm.get_amount_out(id, true, 1000).unwrap();
    let mut host = PassiveHost { balances: (101_000, 100_000 - dy), callback_ran: false };
    assert_eq!(amm.swap(id, 0, dy, 7, vec![1], &mut host), Ok(()));
    let m = amm.pool_metadata(id).unwrap();
    assert_eq!((m.reserve_0, m.reserve_1), (101_000, 100_000 - dy));
}

#[test]
fn stable_pool_with_wide_decimals_overflows() {
    let mut amm = Amm::new(cfg());
    // scaling token 0 by eighteen decimal places pushes the cubic curve
    // past the wide integer type
    let id = amm.create_pool(tok(1, 0), tok(2, 0), true, 0, 18).unwrap();
    amm.mint(id, 1_000_000, 1_000_000).unwrap();
    assert_eq!(amm.get_amount_out(id, true, 1000), Err(AmmError::Overflow));
    let t = amm.swap_begin(id, 0, 100).unwrap();
    assert_eq!(amm.swap_end(t, 1_001_000, 999_900), Err(AmmError::Overflow));
    // the failed swap left the pool unlocked and untouched
    let m = amm.pool_metadata(id).unwrap();
    assert_eq!((m.reserve_0, m.reserve_1), (1_000_000, 1_000_000));
    assert!(amm.mint(id, 2_000_000, 2_000_000).is_ok());
}

#[test]
fn reentrancy_blocked_before_output_validation() {
    let mut amm = Amm::new(cfg());
    let id = volatile_pool(&mut amm);
    let t = amm.swap_begin(id, 0, 1000).unwrap();
    // while the lock is held, even an invalid request reports reentrancy
    match amm.swap_begin(id, 0, 0) {
        Err(e) => assert_eq!(e, AmmError::ReentrancyBlocked),
        Ok(_) => panic!("a second begin must not succeed"),
    }
    assert_eq!(amm.swap_end(t, 1400, 3000), Ok(()));
}
