use amm_engine::fees::{apply_fee, apply_fee_rates, FeeConfig};
use amm_engine::math::{add_check_u64, add_check_u128, isqrt_u128, mul_check_u128, pow10_u128};
use amm_engine::curve::{stable_amount_out, volatile_amount_out, volatile_k_u128};

#[test]
fn isqrt_small_values() {
    assert_eq!(isqrt_u128(0), 0);
    assert_eq!(isqrt_u128(1), 1);
    assert_eq!(isqrt_u128(2), 1);
    assert_eq!(isqrt_u128(3), 1);
    assert_eq!(isqrt_u128(4), 2);
    assert_eq!(isqrt_u128(15), 3);
    assert_eq!(isqrt_u128(16), 4);
    assert_eq!(isqrt_u128(99), 9);
    assert_eq!(isqrt_u128(100), 10);
}

#[test]
fn isqrt_large_values() {
    assert_eq!(isqrt_u128(4_000_000), 2000);
    assert_eq!(isqrt_u128(10_000_000_000), 100_000);
    assert_eq!(isqrt_u128(u128::MAX), u64::MAX as u128);
    let n: u128 = (1u128 << 64) - 1;
    let r = isqrt_u128(n * n);
    assert_eq!(r, n);
}

#[test]
fn pow10_values_and_limit() {
    assert_eq!(pow10_u128(0), Some(1));
    assert_eq!(pow10_u128(1), Some(10));
    assert_eq!(pow10_u128(6), Some(1_000_000));
    assert_eq!(
        pow10_u128(38),
        Some(100_000_000_000_000_000_000_000_000_000_000_000_000u128)
    );
    assert_eq!(pow10_u128(39), None);
    assert_eq!(pow10_u128(200), None);
}

#[test]
fn checked_multiplication() {
    assert_eq!(mul_check_u128(0, u128::MAX), Some(0));
    assert_eq!(mul_check_u128(7, 6), Some(42));
    assert_eq!(mul_check_u128(u128::MAX, 1), Some(u128::MAX));
    assert_eq!(mul_check_u128(u128::MAX, 2), None);
    assert_eq!(mul_check_u128(1u128 << 64, 1u128 << 64), None);
    assert_eq!(mul_check_u128(1u128 << 64, (1u128 << 64) - 1), Some(u128::MAX - (1u128 << 64) + 1));
}

#[test]
fn checked_addition() {
    assert_eq!(add_check_u64(1, 2), Some(3));
    assert_eq!(add_check_u64(u64::MAX, 0), Some(u64::MAX));
    assert_eq!(add_check_u64(u64::MAX, 1), None);
    assert_eq!(add_check_u128(1, 2), Some(3));
    assert_eq!(add_check_u128(u128::MAX, 1), None);
}

#[test]
fn fee_split_exact() {
    let r = apply_fee_rates(10_000, 30, 10);
    assert_eq!(r.lp_fee, 30);
    assert_eq!(r.protocol_fee, 10);
    assert_eq!(r.net_in, 9_960);
}

#[test]
fn fee_split_truncates_toward_protocol() {
    // 100 * 30 / 10000 truncates to 0: tiny inputs pay no fee at all
    let r = apply_fee_rates(100, 30, 10);
    assert_eq!(r.lp_fee, 0);
    assert_eq!(r.protocol_fee, 0);
    assert_eq!(r.net_in, 100);
    // 400 * 30 / 10000 = 1.2 truncates to 1
    let r2 = apply_fee_rates(400, 30, 10);
    assert_eq!(r2.lp_fee, 1);
    assert_eq!(r2.protocol_fee, 0);
    assert_eq!(r2.net_in, 399);
}

#[test]
fn fee_config_selects_pool_kind() {
    let cfg = FeeConfig {
        lp_fee_volatile: 30,
        lp_fee_stable: 5,
        protocol_fee_volatile: 10,
        protocol_fee_stable: 2,
    };
    let v = apply_fee(10_000, &cfg, false);
    assert_eq!((v.lp_fee, v.protocol_fee, v.net_in), (30, 10, 9_960));
    let s = apply_fee(10_000, &cfg, true);
    assert_eq!((s.lp_fee, s.protocol_fee, s.net_in), (5, 2, 9_993));
}

#[test]
fn volatile_product_full_precision() {
    assert_eq!(volatile_k_u128(u64::MAX, u64::MAX), (u64::MAX as u128) * (u64::MAX as u128));
    assert_eq!(volatile_k_u128(1000, 4000), 4_000_000);
}

#[test]
fn volatile_output_formula() {
    // 399 * 4000 / 1399 = 1140: the division truncates the output down
    assert_eq!(volatile_amount_out(1000, 4000, 399), 1140);
    // the quote is the largest admissible output: paying it keeps the
    // product of the reserves, one more would shrink it
    assert!(1399u128 * (4000 - 1140) >= 1000 * 4000);
    assert!(1399u128 * (4000 - 1141) < 1000 * 4000);
    // no input, no output
    assert_eq!(volatile_amount_out(1000, 4000, 0), 0);
}

#[test]
fn stable_output_is_admissible_boundary() {
    // balanced pool, equal decimals: the output for a net input of 1000
    // is near the input but never exceeds it
    let dy = stable_amount_out(100_000, 100_000, 1000, 9, 9).unwrap();
    assert!(dy <= 1000);
    assert!(dy >= 900);
    // with no input nothing is owed
    assert_eq!(stable_amount_out(100_000, 100_000, 0, 9, 9).unwrap(), 0);
}
