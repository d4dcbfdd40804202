use amm_engine::engine::Amm;
use amm_engine::errors::AmmError;
use amm_engine::fees::FeeConfig;
use amm_engine::identity::{canonicalize, PoolId, TokenKey};
use amm_engine::liquidity::MINIMUM_LIQUIDITY;

fn cfg() -> FeeConfig {
    FeeConfig {
        lp_fee_volatile: 30,
        lp_fee_stable: 5,
        protocol_fee_volatile: 10,
        protocol_fee_stable: 2,
    }
}

fn tok(contract_id: u64, sub_id: u64) -> TokenKey {
    TokenKey { contract_id, sub_id }
}

#[test]
fn canonicalize_is_commutative() {
    let a = tok(5, 1);
    let b = tok(2, 9);
    assert_eq!(canonicalize(a, b, false), canonicalize(b, a, false));
    let id = canonicalize(a, b, false).unwrap();
    assert_eq!(id.token_0, b);
    assert_eq!(id.token_1, a);
    // same contract, ordered by sub id
    let c = tok(2, 3);
    let id2 = canonicalize(b, c, true).unwrap();
    assert_eq!(id2.token_0, c);
    assert_eq!(id2.token_1, b);
    assert!(id2.is_stable);
}

#[test]
fn canonicalize_is_idempotent() {
    let a = tok(5, 1);
    let b = tok(2, 9);
    let id = canonicalize(a, b, false).unwrap();
    let again = canonicalize(id.token_0, id.token_1, false).unwrap();
    assert_eq!(id, again);
}

#[test]
fn canonicalize_rejects_identical_tokens() {
    let a = tok(5, 1);
    assert_eq!(canonicalize(a, a, false), Err(AmmError::IdenticalTokens));
}

#[test]
fn create_pool_rejects_identical_tokens() {
    let mut amm = Amm::new(cfg());
    let a = tok(1, 0);
    assert_eq!(amm.create_pool(a, a, false, 9, 9), Err(AmmError::IdenticalTokens));
    assert_eq!(amm.pools().len(), 0);
}

#[test]
fn create_pool_duplicate_unordered_pair_fails() {
    let mut amm = Amm::new(cfg());
    let a = tok(1, 0);
    let b = tok(2, 0);
    let id = amm.create_pool(a, b, false, 9, 6).unwrap();
    assert_eq!(id, PoolId { token_0: a, token_1: b, is_stable: false });
    // the same unordered pair, arguments swapped
    assert_eq!(amm.create_pool(b, a, false, 6, 9), Err(AmmError::PoolAlreadyExists));
    // same pair, same order
    assert_eq!(amm.create_pool(a, b, false, 9, 6), Err(AmmError::PoolAlreadyExists));
    assert_eq!(amm.pools(), vec![id]);
    // the stable pool of the same pair is a different pool
    let id_s = amm.create_pool(b, a, true, 6, 9).unwrap();
    assert_eq!(id_s, PoolId { token_0: a, token_1: b, is_stable: true });
    assert_eq!(amm.pools(), vec![id, id_s]);
}

#[test]
fn create_pool_carries_decimals_with_tokens() {
    let mut amm = Amm::new(cfg());
    // presented out of order: token b sorts first and keeps its decimals
    let a = tok(9, 0);
    let b = tok(3, 0);
    let id = amm.create_pool(a, b, false, 12, 6).unwrap();
    assert_eq!(id.token_0, b);
    let m = amm.pool_metadata(id).unwrap();
    assert_eq!(m.decimals_0, 6);
    assert_eq!(m.decimals_1, 12);
    assert_eq!(m.reserve_0, 0);
    assert_eq!(m.reserve_1, 0);
    assert_eq!(m.total_shares, 0);
}

#[test]
fn pool_metadata_unknown_is_none() {
    let amm = Amm::new(cfg());
    let id = PoolId { token_0: tok(1, 0), token_1: tok(2, 0), is_stable: false };
    assert_eq!(amm.pool_metadata(id), None);
}

#[test]
fn fees_returns_configuration() {
    let amm = Amm::new(cfg());
    assert_eq!(amm.fees(), cfg());
}

#[test]
fn first_mint_issues_isqrt_minus_locked_minimum() {
    assert_eq!(MINIMUM_LIQUIDITY, 1000);
    let mut amm = Amm::new(cfg());
    let id = amm.create_pool(tok(1, 0), tok(2, 0), false, 9, 9).unwrap();
    // deposit (1000, 4000): isqrt(4_000_000) - 1000 = 1000 shares
    assert_eq!(amm.mint(id, 1000, 4000), Ok(1000));
    let m = amm.pool_metadata(id).unwrap();
    assert_eq!(m.reserve_0, 1000);
    assert_eq!(m.reserve_1, 4000);
    assert_eq!(m.total_shares, 2000);
}

#[test]
fn first_mint_too_small_fails() {
    let mut amm = Amm::new(cfg());
    let id = amm.create_pool(tok(1, 0), tok(2, 0), false, 9, 9).unwrap();
    // isqrt(100 * 100) = 100 <= MINIMUM_LIQUIDITY
    assert_eq!(amm.mint(id, 100, 100), Err(AmmError::InsufficientLiquidity));
    let m = amm.pool_metadata(id).unwrap();
    assert_eq!(m.total_shares, 0);
    assert_eq!(m.reserve_0, 0);
}

#[test]
fn mint_on_unknown_pool_fails() {
    let mut amm = Amm::new(cfg());
    let id = PoolId { token_0: tok(1, 0), token_1: tok(2, 0), is_stable: false };
    assert_eq!(amm.mint(id, 1, 1), Err(AmmError::PoolNotFound));
}

#[test]
fn mint_below_reserves_fails() {
    let mut amm = Amm::new(cfg());
    let id = amm.create_pool(tok(1, 0), tok(2, 0), false, 9, 9).unwrap();
    amm.mint(id, 1000, 4000).unwrap();
    // reported custody below the recorded reserves: no deposit arrived
    assert_eq!(amm.mint(id, 999, 4000), Err(AmmError::InsufficientInputAmount));
}

#[test]
fn second_mint_is_proportional() {
    let mut amm = Amm::new(cfg());
    let id = amm.create_pool(tok(1, 0), tok(2, 0), false, 9, 9).unwrap();
    amm.mint(id, 1000, 4000).unwrap();
    // deposit (1000, 4000) doubles the pool: min(1000*2000/1000, 4000*2000/4000)
    assert_eq!(amm.mint(id, 2000, 8000), Ok(2000));
    let m = amm.pool_metadata(id).unwrap();
    assert_eq!(m.reserve_0, 2000);
    assert_eq!(m.reserve_1, 8000);
    assert_eq!(m.total_shares, 4000);
}

#[test]
fn unbalanced_mint_pays_the_scarcer_side() {
    let mut amm = Amm::new(cfg());
    let id = amm.create_pool(tok(1, 0), tok(2, 0), false, 9, 9).unwrap();
    amm.mint(id, 1000, 4000).unwrap();
    // deposit (1000, 0): the empty side caps the issue at zero
    assert_eq!(amm.mint(id, 2000, 4000), Err(AmmError::InsufficientLiquidity));
    // deposit (1000, 2000): the token-1 side is scarcer
    assert_eq!(amm.mint(id, 2000, 6000), Ok(1000));
}

#[test]
fn mint_then_burn_returns_no_more_than_deposit() {
    let mut amm = Amm::new(cfg());
    let id = amm.create_pool(tok(1, 0), tok(2, 0), false, 9, 9).unwrap();
    let issued = amm.mint(id, 1000, 4000).unwrap();
    assert_eq!(issued, 1000);
    // burn every issued share: the locked minimum keeps half the value here
    let (a0, a1) = amm.burn(id, issued).unwrap();
    assert_eq!((a0, a1), (500, 2000));
    assert!(a0 <= 1000 && a1 <= 4000);
    let m = amm.pool_metadata(id).unwrap();
    assert_eq!(m.reserve_0, 500);
    assert_eq!(m.reserve_1, 2000);
    assert_eq!(m.total_shares, 1000);
}

#[test]
fn mint_then_burn_after_funding_returns_no_more() {
    let mut amm = Amm::new(cfg());
    let id = amm.create_pool(tok(1, 0), tok(2, 0), false, 9, 9).unwrap();
    amm.mint(id, 1000, 4000).unwrap();
    // a later depositor gets back at most what it put in
    let issued = amm.mint(id, 1300, 5200).unwrap();
    assert_eq!(issued, 600);
    let (a0, a1) = amm.burn(id, issued).unwrap();
    assert!(a0 <= 300 && a1 <= 1200);
    assert_eq!((a0, a1), (300, 1200));
}

#[test]
fn burn_rejects_zero_and_excess_shares() {
    let mut amm = Amm::new(cfg());
    let id = amm.create_pool(tok(1, 0), tok(2, 0), false, 9, 9).unwrap();
    assert_eq!(amm.burn(id, 0), Err(AmmError::InsufficientLiquidity));
    // empty pool: nothing to redeem
    assert_eq!(amm.burn(id, 1), Err(AmmError::InsufficientLiquidity));
    amm.mint(id, 1000, 4000).unwrap();
    assert_eq!(amm.burn(id, 2001), Err(AmmError::InsufficientLiquidity));
    let unknown = PoolId { token_0: tok(7, 0), token_1: tok(8, 0), is_stable: false };
    assert_eq!(amm.burn(unknown, 1), Err(AmmError::PoolNotFound));
}

#[test]
fn burn_whole_supply_drains_the_pool() {
    let mut amm = Amm::new(cfg());
    let id = amm.create_pool(tok(1, 0), tok(2, 0), false, 9, 9).unwrap();
    amm.mint(id, 1000, 4000).unwrap();
    // the engine tracks only the aggregate supply: burning all of it,
    // locked minimum included, empties the pool but the pool persists
    assert_eq!(amm.burn(id, 2000), Ok((1000, 4000)));
    let m = amm.pool_metadata(id).unwrap();
    assert_eq!((m.reserve_0, m.reserve_1, m.total_shares), (0, 0, 0));
    assert_eq!(amm.pools().len(), 1);
}

#[test]
fn mint_at_extreme_size() {
    let mut amm = Amm::new(cfg());
    let id = amm.create_pool(tok(1, 0), tok(2, 0), false, 9, 9).unwrap();
    amm.mint(id, 1000, 4000).unwrap();
    // drain to a sliver: reserves (1, 4), supply 2
    assert_eq!(amm.burn(id, 1998), Ok((999, 3996)));
    let m = amm.pool_metadata(id).unwrap();
    assert_eq!((m.reserve_0, m.reserve_1, m.total_shares), (1, 4, 2));
    // a colossal deposit: the scarcer side still caps the issue, and the
    // wide intermediate keeps the division exact
    let expected = ((u64::MAX - 4) as u128 * 2 / 4) as u64;
    assert_eq!(amm.mint(id, u64::MAX, u64::MAX), Ok(expected));
    let m2 = amm.pool_metadata(id).unwrap();
    assert_eq!(m2.reserve_0, u64::MAX);
    assert_eq!(m2.reserve_1, u64::MAX);
    assert_eq!(m2.total_shares, expected + 2);
}
