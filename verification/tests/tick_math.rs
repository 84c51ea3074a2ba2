use stellarflow_contracts::amm::tick_math::{integer_sqrt, range_efficiency_bps, tick_to_price, PRICE_SCALE};
use stellarflow_contracts::amm::ticks::{MAX_TICKS_PER_POOL, STABLE_TICK_SPACING, VOLATILE_TICK_SPACING};
use stellarflow_contracts::error::ContractError;

#[test]
fn tick_zero_equals_one() {
    let price = tick_to_price(0).unwrap();
    assert_eq!(price, PRICE_SCALE);
}

#[test]
fn tick_one_approximately_10001_over_10000() {
    let price = tick_to_price(1).unwrap();
    assert_eq!(price, 10_001_000);
}

#[test]
fn tick_negative_inverts() {
    let pos = tick_to_price(10).unwrap();
    let neg = tick_to_price(-10).unwrap();
    let product = pos * neg / PRICE_SCALE;
    assert!(product >= PRICE_SCALE - 1 && product <= PRICE_SCALE + 1);
}

#[test]
fn sqrt_zero() {
    assert_eq!(integer_sqrt(0).unwrap(), 0);
}

#[test]
fn sqrt_one() {
    assert_eq!(integer_sqrt(1).unwrap(), 1);
}

#[test]
fn sqrt_four() {
    assert_eq!(integer_sqrt(4).unwrap(), 2);
}

#[test]
fn sqrt_ten() {
    assert_eq!(integer_sqrt(10).unwrap(), 3);
}

#[test]
fn sqrt_large() {
    assert_eq!(integer_sqrt(1_000_000_000_000).unwrap(), 1_000_000);
}

#[test]
fn sqrt_negative_returns_error() {
    assert_eq!(integer_sqrt(-1), Err(ContractError::Overflow));
}

#[test]
fn range_efficiency_wide_range() {
    let bps = range_efficiency_bps(-100, 100).unwrap();
    assert!(bps > 0);
}

#[test]
fn range_efficiency_narrow_range() {
    let bps = range_efficiency_bps(-1, 1).unwrap();
    assert!(bps > 0);
    assert!(bps < 100);
}

#[test]
fn stable_tick_spacing_is_one() {
    assert_eq!(STABLE_TICK_SPACING, 1);
}

#[test]
fn volatile_tick_spacing_is_sixty() {
    assert_eq!(VOLATILE_TICK_SPACING, 60);
}

#[test]
fn max_ticks_per_pool_is_reasonable() {
    assert_eq!(MAX_TICKS_PER_POOL, 256);
}

#[test]
fn integer_sqrt_of_the_largest_value() {
    assert_eq!(integer_sqrt(i128::MAX).unwrap(), 13_043_817_825_332_782_212);
}

#[test]
fn tick_price_keeps_the_range_of_large_ticks() {
    assert_eq!(tick_to_price(488_882).unwrap(), 17_014_295_331_835_741_780_704_232_449);
    assert_eq!(tick_to_price(627_048).unwrap(), 17_021_079_570_480_635_551_932_812_731_577_709);
}

#[test]
fn tick_price_largest_tick_that_fits() {
    assert_eq!(tick_to_price(719_151).unwrap(), 170_125_565_905_003_702_490_254_556_004_302_173_054);
}

#[test]
fn tick_price_beyond_i128_overflows() {
    assert_eq!(tick_to_price(719_152), Err(ContractError::Overflow));
    assert_eq!(tick_to_price(i32::MAX), Err(ContractError::Overflow));
}
