use stellarflow_contracts::amm::constant_product::{
    assert_invariant_stable, compute_lp_shares, compute_remove_liquidity, compute_swap_out, mul_div, U256,
};
use stellarflow_contracts::error::ContractError;

#[test]
fn test_mul_div_basic() {
    let result = mul_div(100, 200, 50).unwrap();
    assert_eq!(result, 400);
}

#[test]
fn test_mul_div_floor_rounding() {
    let result = mul_div(10, 3, 7).unwrap();
    assert_eq!(result, 4);
}

#[test]
fn test_mul_div_zero_divisor() {
    assert_eq!(mul_div(100, 200, 0), Err(ContractError::DivisionByZero));
}

#[test]
fn test_swap_out_basic() {
    let out = compute_swap_out(10, 100, 200).unwrap();
    assert_eq!(out, 18);
}

#[test]
fn test_swap_out_floor_reserves_favored() {
    let out = compute_swap_out(1, 3, 10).unwrap();
    assert_eq!(out, 2);
}

#[test]
fn test_invariant_stable_after_swap() {
    let reserve_in = 100u128;
    let reserve_out = 200u128;
    let amount_in = 10u128;
    let amount_out = compute_swap_out(amount_in, reserve_in, reserve_out).unwrap();
    assert!(amount_out < reserve_out);
    assert_invariant_stable(reserve_in, reserve_out, amount_in, amount_out).unwrap();
}

#[test]
fn test_invariant_increases_with_floor_rounding() {
    let reserve_in = 1000u128;
    let reserve_out = 2000u128;
    let amount_in = 1u128;
    let amount_out = compute_swap_out(amount_in, reserve_in, reserve_out).unwrap();
    let k_before = U256::mul(reserve_in, reserve_out);
    let k_after = U256::mul(reserve_in + amount_in, reserve_out - amount_out);
    assert!(
        k_after.1 > k_before.1 || (k_after.1 == k_before.1 && k_after.0 >= k_before.0),
        "k must not decrease"
    );
}

#[test]
fn test_lp_shares_basic() {
    let shares = compute_lp_shares(50, 100, 100, 200, 1000).unwrap();
    assert_eq!(shares, 500);
}

#[test]
fn test_lp_shares_floor() {
    let shares = compute_lp_shares(10, 20, 100, 200, 1000).unwrap();
    assert_eq!(shares, 100);
}

#[test]
fn test_lp_shares_min_rule() {
    let shares = compute_lp_shares(10, 50, 100, 200, 1000).unwrap();
    assert_eq!(shares, 100);
}

#[test]
fn test_remove_liquidity_basic() {
    let (a, b) = compute_remove_liquidity(500, 1000, 100, 200).unwrap();
    assert_eq!(a, 50);
    assert_eq!(b, 100);
}

#[test]
fn test_remove_liquidity_floor() {
    let (a, b) = compute_remove_liquidity(333, 1000, 100, 200).unwrap();
    assert!(a <= 33);
    assert!(b <= 66);
}

#[test]
fn test_swap_out_zero_input_rejected() {
    assert_eq!(compute_swap_out(0, 100, 200), Err(ContractError::InvalidInput));
}

#[test]
fn test_lp_shares_zero_input_rejected() {
    assert_eq!(compute_lp_shares(0, 100, 100, 200, 1000), Err(ContractError::InvalidInput));
}

#[test]
fn test_remove_liquidity_excessive_shares_rejected() {
    assert_eq!(compute_remove_liquidity(2000, 1000, 100, 200), Err(ContractError::InvalidInput));
}

#[test]
fn test_u256_mul_max_bounds() {
    let a = u128::MAX;
    let b = u128::MAX;
    let result = U256::mul(a, b);
    assert!(result.1 > 0);
}

#[test]
fn test_u256_mul_basic() {
    let result = U256::mul(5, 7);
    assert_eq!(result.0, 35);
    assert_eq!(result.1, 0);
}

#[test]
fn test_u256_div_mod_basic() {
    let u = U256(100, 0);
    let (q, r) = u.div_mod(7).unwrap();
    assert_eq!(q, 14);
    assert_eq!(r, 2);
}

#[test]
fn test_u256_div_mod_zero() {
    let u = U256(100, 0);
    assert!(u.div_mod(0).is_none());
}

#[test]
fn test_u256_div_mod_hi_nonzero() {
    let u = U256(0, 1);
    let (q, r) = u.div_mod(2).unwrap();
    assert_eq!(q, 1u128 << 127);
    assert_eq!(r, 0);
}

#[test]
fn test_invariant_max_bounds() {
    let reserve_in = u128::MAX / 2;
    let reserve_out = u128::MAX / 2;
    let amount_in = 1;
    let amount_out = compute_swap_out(amount_in, reserve_in, reserve_out).unwrap();
    assert_eq!(amount_out, 0);
    assert_invariant_stable(reserve_in, reserve_out, amount_in, amount_out).unwrap();
}

#[test]
fn test_invariant_high_volume() {
    let reserve_in = 1_000_000_000_000_000_000u128;
    let reserve_out = 2_000_000_000_000_000_000u128;
    let amount_in = 100_000_000_000_000_000u128;
    let amount_out = compute_swap_out(amount_in, reserve_in, reserve_out).unwrap();
    assert!(amount_out > 0);
    assert_invariant_stable(reserve_in, reserve_out, amount_in, amount_out).unwrap();
}

#[test]
fn liquidity_round_trip_never_profits() {
    let shares = compute_lp_shares(100, 200, 1000, 2000, 500).unwrap();
    assert_eq!(shares, 50);
    assert_eq!(compute_remove_liquidity(shares, 550, 1100, 2200).unwrap(), (100, 200));
    let shares = compute_lp_shares(7, 3, 10, 10, 10).unwrap();
    assert_eq!(shares, 3);
    let (a, b) = compute_remove_liquidity(shares, 13, 17, 13).unwrap();
    assert_eq!((a, b), (3, 3));
    assert!(a <= 7 && b <= 3);
}
