use soroban_sdk::{Env, IntoVal, TryFromVal, Val, Vec as HostVec};
use stellarflow_contracts::error::ContractError;
use stellarflow_contracts::fees::{
    add_corridor_fees, compute_corridor_usage_fee_share, compute_multi_hop_corridor_fee_share,
    distribute_variable_fee_pool, get_corridor_fee_pool, get_corridor_weight, normalize_to_fixed_point_footprint,
    set_corridor_weight, CorridorFeePool, INTERIOR_SCALE, STANDARD_FIXED_POINT_SCALE,
};

#[test]
fn test_corridor_usage_fee_share_three_way_split_preserves_total() {
    let total_fee = 10_000u64;
    let usages = [3_333_333u64, 3_333_333u64, 3_333_334u64];
    let total_usage: u64 = 10_000_000;

    let mut allocated = 0u64;
    for (index, usage) in usages.iter().enumerate() {
        let share = if index == usages.len() - 1 {
            total_fee - allocated
        } else {
            compute_corridor_usage_fee_share(total_fee, *usage, total_usage).unwrap()
        };
        allocated += share;
    }

    assert_eq!(allocated, total_fee);
}

#[test]
fn test_multi_hop_fee_share_single_pass_matches_chained_low_precision() {
    let total_fee = 1_000_000u64;
    let hop_usage = 4_000_000u64;
    let relayer_usage = 2_500_000u64;
    let total_hop_usage = 10_000_000u64;
    let total_relayer_usage = 10_000_000u64;

    let high_precision = compute_multi_hop_corridor_fee_share(
        total_fee,
        hop_usage,
        relayer_usage,
        total_hop_usage,
        total_relayer_usage,
    )
    .unwrap();

    let hop_share = total_fee * hop_usage / total_hop_usage;
    let low_precision = hop_share * relayer_usage / total_relayer_usage;

    assert!(high_precision >= low_precision);
    assert_eq!(high_precision, 100_000);
}

#[test]
fn test_compute_corridor_usage_fee_share_zero_total_usage() {
    assert_eq!(compute_corridor_usage_fee_share(100, 1, 0), Err(ContractError::DivisionByZero));
}

#[test]
fn test_normalize_to_fixed_point_footprint_overflow() {
    let too_large: u128 = (u128::from(u64::MAX) + 1) * INTERIOR_SCALE;
    assert_eq!(normalize_to_fixed_point_footprint(too_large), Err(ContractError::Overflow));
}

const ADMIN: u64 = 1;
const ATTACKER: u64 = 2;

#[test]
fn corridor_weight_profile_is_isolated_from_fee_pool() {
    let admin = Some(ADMIN);
    let asset = 3897123275u32;
    let pool = add_corridor_fees(&admin, &ADMIN, None, asset, 1_000, 25).unwrap();
    assert_eq!(pool.collected, 1_000);
    assert_eq!(pool.variable_pool, 25);
    let profile = set_corridor_weight(&admin, &ADMIN, asset, 70, 30).unwrap();
    assert_eq!(profile.asset, asset);
    assert_eq!(profile.base_weight, 70);
    assert_eq!(profile.dynamic_weight, 30);
    // Each lives in its own slot: reading one back does not involve the other.
    let unchanged_pool = get_corridor_fee_pool(Some(pool), asset);
    assert_eq!(unchanged_pool.collected, 1_000);
    assert_eq!(unchanged_pool.variable_pool, 25);
    let stored_profile = get_corridor_weight(Some(profile), asset);
    assert_eq!(stored_profile.base_weight, 70);
    assert_eq!(stored_profile.dynamic_weight, 30);
}

#[test]
fn non_admin_cannot_edit_corridor_weight_profile() {
    let result = set_corridor_weight(&Some(ADMIN), &ATTACKER, 2654435761, 40, 60);
    assert_eq!(result, Err(ContractError::NotAdmin));
}

#[test]
fn fee_distribution_normalizes_to_standard_fixed_point_footprint() {
    let env = Env::default();
    let mut weights = HostVec::new(&env);
    weights.push_back(1);
    weights.push_back(1);
    weights.push_back(1);
    let profiles = distribute_variable_fee_pool(&env, 1, weights).unwrap();
    assert_eq!(profiles.get(0), Some(3_333_333));
    assert_eq!(profiles.get(1), Some(3_333_333));
    assert_eq!(profiles.get(2), Some(3_333_334));
    assert_eq!(profiles.iter().fold(0_u64, |acc, value| acc + value), STANDARD_FIXED_POINT_SCALE as u64);
}

#[test]
fn corridor_fees_accumulate() {
    let admin = Some(ADMIN);
    let pool = add_corridor_fees(&admin, &ADMIN, None, 9, 1_000, 100).unwrap();
    let pool = add_corridor_fees(&admin, &ADMIN, Some(pool), 9, 2_000, 200).unwrap();
    assert_eq!(pool, CorridorFeePool { asset: 9, collected: 3_000, variable_pool: 300 });
}

#[test]
fn corridor_fee_errors() {
    assert_eq!(add_corridor_fees(&None::<u64>, &ADMIN, None, 9, 1, 1), Err(ContractError::NotInitialized));
    assert_eq!(add_corridor_fees(&Some(ADMIN), &ATTACKER, None, 9, 1, 1), Err(ContractError::NotAdmin));
    let full = CorridorFeePool { asset: 9, collected: u64::MAX, variable_pool: 0 };
    assert_eq!(add_corridor_fees(&Some(ADMIN), &ADMIN, Some(full), 9, 1, 0), Err(ContractError::MathOverflow));
    assert_eq!(get_corridor_fee_pool(None, 4), CorridorFeePool { asset: 4, collected: 0, variable_pool: 0 });
}

#[test]
fn mistyped_weights_are_refused() {
    let env = Env::default();
    let raw: HostVec<i32> = HostVec::from_array(&env, [1i32, 2]);
    let val: Val = raw.into_val(&env);
    let weights = HostVec::<u64>::try_from_val(&env, &val).unwrap();
    assert_eq!(distribute_variable_fee_pool(&env, 100, weights).err(), Some(ContractError::InvalidInput));
}
