use soroban_sdk::{Env, IntoVal, TryFromVal, Val};
use stellarflow_contracts::consensus::{
    apply_weight, binary_search_validator, check_consensus_depth_stack, compact_duplicate_price_rows,
    compute_quorum_threshold, compute_weighted_average, compute_weighted_sum, entry_weight_share_bps,
    get_active_sequence, get_archived_sequence, get_price_with_fallback, mock_oracle_price,
    normalize_weight_score, verify_and_update_block_gap, verify_and_update_sequence, verify_epoch_window,
    PriceResult, SequenceCheckpoint, MAX_VALIDATORS, WARNING_ORACLE_OFFLINE,
};
use stellarflow_contracts::error::ContractError;

fn make_entries(env: &Env, pairs: &[(u64, u64)]) -> soroban_sdk::Vec<(u64, u64)> {
    let mut v = soroban_sdk::Vec::new(env);
    for &(value, weight) in pairs {
        v.push_back((value, weight));
    }
    v
}

#[test]
fn test_binary_search_validator() {
    let mut validators = [0u32; MAX_VALIDATORS];
    validators[0] = 10;
    validators[1] = 20;
    validators[2] = 30;
    let len = 3;
    assert_eq!(binary_search_validator(&validators, 20, len), Ok(1));
    assert_eq!(binary_search_validator(&validators, 15, len), Err(1));
}

#[test]
fn test_apply_weight_normal() {
    assert_eq!(apply_weight(100, 50).unwrap(), 5_000);
}

#[test]
fn test_apply_weight_zero_value() {
    assert_eq!(apply_weight(0, u64::MAX).unwrap(), 0);
}

#[test]
fn test_apply_weight_zero_weight() {
    assert_eq!(apply_weight(u64::MAX, 0).unwrap(), 0);
}

#[test]
fn test_apply_weight_overflow() {
    let result = apply_weight(u64::MAX, 2);
    assert_eq!(result, Err(ContractError::MathOverflow));
}

#[test]
fn test_quorum_threshold_two_thirds() {
    assert_eq!(compute_quorum_threshold(1_000_000, 6_700).unwrap(), 670_000);
}

#[test]
fn test_quorum_threshold_fifty_percent() {
    assert_eq!(compute_quorum_threshold(200, 5_000).unwrap(), 100);
}

#[test]
fn test_quorum_threshold_overflow() {
    let result = compute_quorum_threshold(u64::MAX, 2);
    assert_eq!(result, Err(ContractError::MathOverflow));
}

#[test]
fn test_quorum_threshold_zero_weight() {
    assert_eq!(compute_quorum_threshold(0, 6_700).unwrap(), 0);
}

#[test]
fn test_normalize_score_normal() {
    assert_eq!(normalize_weight_score(42, 1_000).unwrap(), 42_000);
}

#[test]
fn test_normalize_score_overflow() {
    let result = normalize_weight_score(u64::MAX, 2);
    assert_eq!(result, Err(ContractError::MathOverflow));
}

#[test]
fn test_normalize_score_zero() {
    assert_eq!(normalize_weight_score(0, u64::MAX).unwrap(), 0);
}

#[test]
fn test_share_bps_full_weight() {
    assert_eq!(entry_weight_share_bps(500, 500).unwrap(), 10_000);
}

#[test]
fn test_share_bps_half_weight() {
    assert_eq!(entry_weight_share_bps(250, 500).unwrap(), 5_000);
}

#[test]
fn test_share_bps_zero_total() {
    assert_eq!(entry_weight_share_bps(100, 0).unwrap(), 0);
}

#[test]
fn share_bps_caps_an_entry_above_the_total() {
    assert_eq!(entry_weight_share_bps(1_000, 500).unwrap(), 10_000);
    assert_eq!(entry_weight_share_bps(3, 2).unwrap(), 10_000);
}

#[test]
fn test_share_bps_overflow_on_numerator() {
    let result = entry_weight_share_bps(u64::MAX, 1);
    assert_eq!(result, Err(ContractError::MathOverflow));
}

#[test]
fn test_check_consensus_depth_stack_success() {
    let validators = [0u32; MAX_VALIDATORS];
    assert!(check_consensus_depth_stack(&validators, 5).is_ok());
}

#[test]
fn test_check_consensus_depth_stack_failure() {
    let validators = [0u32; MAX_VALIDATORS];
    assert_eq!(check_consensus_depth_stack(&validators, 2), Err(ContractError::IncompleteQuorum));
}

#[test]
fn test_weighted_sum_single_entry() {
    let env = Env::default();
    let entries = make_entries(&env, &[(200, 3)]);
    let (ws, tw) = compute_weighted_sum(&env, &entries).unwrap();
    assert_eq!(ws, 600);
    assert_eq!(tw, 3);
}

#[test]
fn test_weighted_sum_multiple_entries() {
    let env = Env::default();
    let entries = make_entries(&env, &[(100, 10), (200, 5)]);
    let (ws, tw) = compute_weighted_sum(&env, &entries).unwrap();
    assert_eq!(ws, 2_000);
    assert_eq!(tw, 15);
}

#[test]
fn test_weighted_sum_duplicate_price_rows_compact() {
    let env = Env::default();
    let entries = make_entries(&env, &[(100, 10), (100, 5), (200, 5)]);
    let (ws, tw) = compute_weighted_sum(&env, &entries).unwrap();
    assert_eq!(ws, 2_500);
    assert_eq!(tw, 20);
}

#[test]
fn test_weighted_sum_empty_dataset() {
    let env = Env::default();
    let entries = make_entries(&env, &[]);
    let (ws, tw) = compute_weighted_sum(&env, &entries).unwrap();
    assert_eq!(ws, 0);
    assert_eq!(tw, 0);
}

#[test]
fn test_weighted_sum_overflow_on_product() {
    let env = Env::default();
    let entries = make_entries(&env, &[(u64::MAX, 2)]);
    let result = compute_weighted_sum(&env, &entries);
    assert_eq!(result, Err(ContractError::MathOverflow));
}

#[test]
fn test_weighted_sum_overflow_on_accumulation() {
    let env = Env::default();
    let half = u64::MAX / 2;
    let entries = make_entries(&env, &[(half, 2), (half, 2)]);
    let result = compute_weighted_sum(&env, &entries);
    assert_eq!(result, Err(ContractError::MathOverflow));
}

#[test]
fn test_weighted_average_normal() {
    let env = Env::default();
    let entries = make_entries(&env, &[(1_000, 3), (2_000, 1)]);
    assert_eq!(compute_weighted_average(&env, &entries).unwrap(), 1_250);
}

#[test]
fn test_weighted_average_zero_total_weight() {
    let env = Env::default();
    let entries = make_entries(&env, &[(500, 0), (300, 0)]);
    assert_eq!(compute_weighted_average(&env, &entries).unwrap(), 0);
}

#[test]
fn compaction_merges_duplicates_in_first_seen_order() {
    let env = Env::default();
    let entries = make_entries(&env, &[(300, 1), (100, 2), (300, 4), (200, 8), (100, 16)]);
    let compacted = compact_duplicate_price_rows(&env, &entries).unwrap();
    assert_eq!(compacted.len(), 3);
    assert_eq!(compacted.get(0), Some((300, 5)));
    assert_eq!(compacted.get(1), Some((100, 18)));
    assert_eq!(compacted.get(2), Some((200, 8)));
    // Merging keeps both totals of the input rows.
    let (ws, tw) = compute_weighted_sum(&env, &entries).unwrap();
    assert_eq!(tw, 1 + 2 + 4 + 8 + 16);
    assert_eq!(ws, 300 * 1 + 100 * 2 + 300 * 4 + 200 * 8 + 100 * 16);
}

#[test]
fn compaction_overflow_on_merged_weight() {
    let env = Env::default();
    let entries = make_entries(&env, &[(0, u64::MAX), (0, 1)]);
    assert_eq!(compact_duplicate_price_rows(&env, &entries), Err(ContractError::MathOverflow));
}

#[test]
fn test_sequence_first_submission_accepted() {
    let mut cp = SequenceCheckpoint::new();
    assert!(verify_and_update_sequence(&mut cp, 1).is_ok());
    assert_eq!(get_active_sequence(&cp), Some(1));
    assert_eq!(get_archived_sequence(&cp), None);
}

#[test]
fn test_sequence_advance_archives_previous_checkpoint() {
    let mut cp = SequenceCheckpoint::new();
    verify_and_update_sequence(&mut cp, 10).unwrap();
    verify_and_update_sequence(&mut cp, 20).unwrap();
    assert_eq!(get_active_sequence(&cp), Some(20));
    assert_eq!(get_archived_sequence(&cp), Some(10));
}

#[test]
fn test_sequence_stale_rejected() {
    let mut cp = SequenceCheckpoint::new();
    verify_and_update_sequence(&mut cp, 5).unwrap();
    assert_eq!(verify_and_update_sequence(&mut cp, 5), Err(ContractError::StaleSequence));
    assert_eq!(verify_and_update_sequence(&mut cp, 4), Err(ContractError::StaleSequence));
    assert_eq!(get_active_sequence(&cp), Some(5));
}

#[test]
fn test_sequence_isolation_between_assets() {
    let mut ngn = SequenceCheckpoint::new();
    let mut kes = SequenceCheckpoint::new();
    verify_and_update_sequence(&mut ngn, 100).unwrap();
    verify_and_update_sequence(&mut kes, 200).unwrap();
    assert_eq!(get_active_sequence(&ngn), Some(100));
    assert_eq!(get_active_sequence(&kes), Some(200));
    verify_and_update_sequence(&mut ngn, 150).unwrap();
    assert_eq!(get_active_sequence(&kes), Some(200));
    assert_eq!(get_archived_sequence(&ngn), Some(100));
}

#[test]
fn test_archive_only_retains_most_recent_previous_checkpoint() {
    let mut cp = SequenceCheckpoint::new();
    verify_and_update_sequence(&mut cp, 1).unwrap();
    verify_and_update_sequence(&mut cp, 2).unwrap();
    assert_eq!(get_archived_sequence(&cp), Some(1));
    verify_and_update_sequence(&mut cp, 3).unwrap();
    assert_eq!(get_archived_sequence(&cp), Some(2));
    assert_eq!(get_active_sequence(&cp), Some(3));
}

#[test]
fn test_get_active_sequence_returns_none_before_any_submission() {
    let cp = SequenceCheckpoint::new();
    assert_eq!(get_active_sequence(&cp), None);
}

#[test]
fn test_get_archived_sequence_returns_none_after_single_submission() {
    let mut cp = SequenceCheckpoint::new();
    verify_and_update_sequence(&mut cp, 7).unwrap();
    assert_eq!(get_archived_sequence(&cp), None);
}

#[test]
fn test_get_price_with_fallback_success() {
    let result = get_price_with_fallback(Some(50000), 45000);
    assert_eq!(result, PriceResult::Live(50000));
}

#[test]
fn test_get_price_with_fallback_failure() {
    let result = get_price_with_fallback(Some(-1), 45000);
    assert_eq!(result, PriceResult::Fallback(45000, WARNING_ORACLE_OFFLINE));
}

#[test]
fn test_get_price_with_fallback_failure_emits_event() {
    // With no configured price the oracle is offline and the fallback (whose
    // warning the caller publishes) is returned.
    let result = get_price_with_fallback(None, 45000);
    assert_eq!(result, PriceResult::Fallback(45000, WARNING_ORACLE_OFFLINE));
}

#[test]
fn mock_oracle_price_outcomes() {
    assert_eq!(mock_oracle_price(Some(0)), Ok(0));
    assert_eq!(mock_oracle_price(Some(7)), Ok(7));
    assert_eq!(mock_oracle_price(Some(-5)), Err(ContractError::NotRegistered));
    assert_eq!(mock_oracle_price(None), Err(ContractError::NotRegistered));
}

#[test]
fn test_verify_epoch_window_success() {
    assert_eq!(verify_epoch_window(100, 90, 110), Ok(()));
    assert_eq!(verify_epoch_window(100, 100, 100), Ok(()));
}

#[test]
fn test_verify_epoch_window_closed() {
    assert_eq!(verify_epoch_window(100, 101, 120), Err(ContractError::EpochClosed));
    assert_eq!(verify_epoch_window(100, 80, 99), Err(ContractError::EpochClosed));
}

#[test]
fn block_gap_enforced() {
    assert_eq!(verify_and_update_block_gap(None, 5), Ok(5));
    assert_eq!(verify_and_update_block_gap(Some(5), 7), Err(ContractError::StaleSequence));
    assert_eq!(verify_and_update_block_gap(Some(5), 8), Ok(8));
    // A ledger index behind the recorded one counts as no progress.
    assert_eq!(verify_and_update_block_gap(Some(10), 3), Err(ContractError::StaleSequence));
}

#[test]
fn mistyped_rows_are_refused() {
    let env = Env::default();
    let raw: soroban_sdk::Vec<u64> = soroban_sdk::Vec::from_array(&env, [1u64, 2]);
    let val: Val = raw.into_val(&env);
    let rows = soroban_sdk::Vec::<(u64, u64)>::try_from_val(&env, &val).unwrap();
    assert_eq!(compact_duplicate_price_rows(&env, &rows).err(), Some(ContractError::InvalidInput));
    assert_eq!(compute_weighted_sum(&env, &rows), Err(ContractError::InvalidInput));
    assert_eq!(compute_weighted_average(&env, &rows), Err(ContractError::InvalidInput));
}
