use soroban_sdk::testutils::Address as _;
use soroban_sdk::{Address, Bytes, Env};
use std::collections::HashMap;
use stellarflow_contracts::error::ContractError;
use stellarflow_contracts::settlement::htlc::{
    active_htlc_count, claim, create_htlc, get_htlc, is_claimable, is_expired, next_htlc_id, refund,
    verify_claim, Htlc, HtlcState, MAX_ACTIVE_HTLCS, MAX_DEADLINE_OFFSET,
};

const TEST_ASSET: u32 = 1;
const TEST_AMOUNT: u64 = 10_000_000;
const START_SEQ: u32 = 100;

fn setup() -> (Env, Address, Address) {
    let env = Env::default();
    let depositor = Address::generate(&env);
    let beneficiary = Address::generate(&env);
    (env, depositor, beneficiary)
}

fn make_pre_image(id: u64) -> [u8; 8] {
    id.to_be_bytes()
}

fn sha256(env: &Env, data: &[u8]) -> [u8; 32] {
    env.crypto().sha256(&Bytes::from_slice(env, data)).to_array()
}

fn make_hash(env: &Env, id: u64) -> [u8; 32] {
    sha256(env, &make_pre_image(id))
}

fn new_htlc(env: &Env, dep: &Address, ben: &Address, hash_lock: [u8; 32]) -> (Htlc<Address>, u32) {
    create_htlc(START_SEQ, 0, 0, dep.clone(), ben.clone(), hash_lock, 200, TEST_ASSET, TEST_AMOUNT).unwrap()
}

#[test]
fn create_htlc_success() {
    let (env, dep, ben) = setup();
    let hash_lock = make_hash(&env, 42);
    let (htlc, count) = new_htlc(&env, &dep, &ben, hash_lock);
    assert_eq!(htlc.id, 1);
    assert_eq!(htlc.depositor, dep);
    assert_eq!(htlc.beneficiary, ben);
    assert_eq!(htlc.amount, TEST_AMOUNT);
    assert_eq!(htlc.state, HtlcState::Active);
    assert_eq!(htlc.deadline_sequence, 200);
    assert_eq!(count, 1);
}

#[test]
fn create_htlc_increments_id() {
    let (env, dep, ben) = setup();
    let (h1, c1) = create_htlc(START_SEQ, 0, 0, dep.clone(), ben.clone(), make_hash(&env, 1), 200, TEST_ASSET, 100).unwrap();
    let (h2, c2) = create_htlc(START_SEQ, h1.id, c1, dep.clone(), ben.clone(), make_hash(&env, 2), 300, TEST_ASSET, 200).unwrap();
    assert_eq!(h1.id + 1, h2.id);
    assert_eq!(c2, 2);
}

#[test]
fn create_htlc_rejects_zero_amount() {
    let (env, dep, ben) = setup();
    let result = create_htlc(START_SEQ, 0, 0, dep, ben, make_hash(&env, 1), 200, TEST_ASSET, 0);
    assert_eq!(result, Err(ContractError::ZeroSwapAmount));
}

#[test]
fn create_htlc_rejects_deadline_too_soon() {
    let (env, dep, ben) = setup();
    let result = create_htlc(START_SEQ, 0, 0, dep, ben, make_hash(&env, 1), 105, TEST_ASSET, TEST_AMOUNT);
    assert_eq!(result, Err(ContractError::DeadlineTooSoon));
}

#[test]
fn create_htlc_rejects_deadline_too_far() {
    let (env, dep, ben) = setup();
    let result = create_htlc(
        START_SEQ, 0, 0, dep, ben, make_hash(&env, 1), 100 + MAX_DEADLINE_OFFSET + 1, TEST_ASSET, TEST_AMOUNT,
    );
    assert_eq!(result, Err(ContractError::DeadlineTooFar));
}

#[test]
fn create_htlc_respects_max_active_limit() {
    let (env, dep, ben) = setup();
    let mut last_id = 0u64;
    let mut count = 0u32;
    for i in 0..MAX_ACTIVE_HTLCS {
        let (h, c) = create_htlc(START_SEQ, last_id, count, dep.clone(), ben.clone(), make_hash(&env, i as u64), 200 + i, TEST_ASSET, 1).unwrap();
        last_id = h.id;
        count = c;
    }
    let result = create_htlc(START_SEQ, last_id, count, dep, ben, make_hash(&env, 999), 500, TEST_ASSET, 1);
    assert_eq!(result, Err(ContractError::TooManyActiveHtlcs));
}

#[test]
fn create_htlc_rejects_exhausted_ids() {
    let (env, dep, ben) = setup();
    let result = create_htlc(START_SEQ, u64::MAX, 0, dep, ben, make_hash(&env, 1), 200, TEST_ASSET, 1);
    assert_eq!(result, Err(ContractError::Overflow));
}

#[test]
fn claim_success() {
    let (env, dep, ben) = setup();
    let pre_image = make_pre_image(42);
    let hash_lock = sha256(&env, &pre_image);
    let (htlc, count) = new_htlc(&env, &dep, &ben, hash_lock);
    let id = htlc.id;
    let (stored, _) = claim(&env, Some(htlc), &pre_image, &ben, 150, Some(count)).unwrap();
    assert_eq!(stored.amount, TEST_AMOUNT);
    assert_eq!(stored.id, id);
    assert_eq!(stored.state, HtlcState::Claimed);
}

#[test]
fn claim_rejects_invalid_preimage() {
    let (env, dep, ben) = setup();
    let pre_image = make_pre_image(42);
    let hash_lock = sha256(&env, &pre_image);
    let (htlc, count) = new_htlc(&env, &dep, &ben, hash_lock);
    let wrong_image = make_pre_image(99);
    let result = claim(&env, Some(htlc), &wrong_image, &ben, START_SEQ, Some(count));
    assert_eq!(result, Err(ContractError::InvalidPreImage));
}

#[test]
fn claim_rejects_after_deadline() {
    let (env, dep, ben) = setup();
    let pre_image = make_pre_image(42);
    let hash_lock = sha256(&env, &pre_image);
    let (htlc, count) = new_htlc(&env, &dep, &ben, hash_lock);
    let result = claim(&env, Some(htlc), &pre_image, &ben, 200, Some(count));
    assert_eq!(result, Err(ContractError::DeadlineReached));
}

#[test]
fn claim_rejects_wrong_caller() {
    let (env, dep, ben) = setup();
    let pre_image = make_pre_image(42);
    let hash_lock = sha256(&env, &pre_image);
    let (htlc, count) = new_htlc(&env, &dep, &ben, hash_lock);
    let wrong_caller = Address::generate(&env);
    let result = claim(&env, Some(htlc), &pre_image, &wrong_caller, START_SEQ, Some(count));
    assert_eq!(result, Err(ContractError::Unauthorized));
}

#[test]
fn claim_rejects_already_claimed() {
    let (env, dep, ben) = setup();
    let pre_image = make_pre_image(42);
    let hash_lock = sha256(&env, &pre_image);
    let (htlc, count) = new_htlc(&env, &dep, &ben, hash_lock);
    let (stored, count) = claim(&env, Some(htlc), &pre_image, &ben, START_SEQ, Some(count)).unwrap();
    let pre_image2 = make_pre_image(42);
    let result = claim(&env, Some(stored), &pre_image2, &ben, START_SEQ, Some(count));
    assert_eq!(result, Err(ContractError::HtlcNotActive));
}

#[test]
fn claim_decrements_active_count() {
    let (env, dep, ben) = setup();
    let pre_image = make_pre_image(42);
    let hash_lock = sha256(&env, &pre_image);
    let (htlc, count) = new_htlc(&env, &dep, &ben, hash_lock);
    assert_eq!(active_htlc_count(Some(count)), 1);
    let (_, count) = claim(&env, Some(htlc), &pre_image, &ben, START_SEQ, Some(count)).unwrap();
    assert_eq!(active_htlc_count(Some(count)), 0);
}

#[test]
fn claim_of_missing_record_not_found() {
    let (env, _dep, ben) = setup();
    let result = claim::<Address>(&env, None, &make_pre_image(1), &ben, START_SEQ, None);
    assert_eq!(result, Err(ContractError::HtlcNotFound));
}

#[test]
fn verify_claim_checks_digest() {
    let (env, dep, ben) = setup();
    let pre_image = make_pre_image(7);
    let hash_lock = sha256(&env, &pre_image);
    let (htlc, _) = new_htlc(&env, &dep, &ben, hash_lock);
    assert_eq!(verify_claim(&htlc, &ben, START_SEQ, &hash_lock), Ok(()));
    let mut other = hash_lock;
    other[31] ^= 1;
    assert_eq!(verify_claim(&htlc, &ben, START_SEQ, &other), Err(ContractError::InvalidPreImage));
    // The digest of the pre-image, not the pre-image itself, opens the lock.
    let mut raw = [0u8; 32];
    raw[..8].copy_from_slice(&pre_image);
    assert_eq!(verify_claim(&htlc, &ben, START_SEQ, &raw), Err(ContractError::InvalidPreImage));
}

#[test]
fn refund_success() {
    let (env, dep, ben) = setup();
    let (htlc, count) = new_htlc(&env, &dep, &ben, make_hash(&env, 42));
    let id = htlc.id;
    let (stored, _) = refund(Some(htlc), &dep, 200, Some(count)).unwrap();
    assert_eq!(stored.amount, TEST_AMOUNT);
    assert_eq!(stored.id, id);
    assert_eq!(stored.state, HtlcState::Refunded);
}

#[test]
fn refund_rejects_before_deadline() {
    let (env, dep, ben) = setup();
    let (htlc, count) = new_htlc(&env, &dep, &ben, make_hash(&env, 42));
    let result = refund(Some(htlc), &dep, START_SEQ, Some(count));
    assert_eq!(result, Err(ContractError::DeadlineNotReached));
}

#[test]
fn refund_rejects_wrong_caller() {
    let (env, dep, ben) = setup();
    let (htlc, count) = new_htlc(&env, &dep, &ben, make_hash(&env, 42));
    let wrong_caller = Address::generate(&env);
    let result = refund(Some(htlc), &wrong_caller, 200, Some(count));
    assert_eq!(result, Err(ContractError::Unauthorized));
}

#[test]
fn refund_rejects_already_refunded() {
    let (env, dep, ben) = setup();
    let (htlc, count) = new_htlc(&env, &dep, &ben, make_hash(&env, 42));
    let (stored, count) = refund(Some(htlc), &dep, 200, Some(count)).unwrap();
    let result = refund(Some(stored), &dep, 200, Some(count));
    assert_eq!(result, Err(ContractError::HtlcNotActive));
}

#[test]
fn refund_decrements_active_count() {
    let (env, dep, ben) = setup();
    let (htlc, count) = new_htlc(&env, &dep, &ben, make_hash(&env, 42));
    assert_eq!(active_htlc_count(Some(count)), 1);
    let (_, count) = refund(Some(htlc), &dep, 200, Some(count)).unwrap();
    assert_eq!(active_htlc_count(Some(count)), 0);
}

#[test]
fn settling_with_missing_counter_stores_zero() {
    let (env, dep, ben) = setup();
    let (htlc, _) = new_htlc(&env, &dep, &ben, make_hash(&env, 42));
    let (_, count) = refund(Some(htlc), &dep, 200, None).unwrap();
    assert_eq!(count, 0);
}

#[test]
fn get_htlc_not_found() {
    assert_eq!(get_htlc::<u64>(None), Err(ContractError::HtlcNotFound));
}

#[test]
fn next_htlc_id_starts_at_zero() {
    assert_eq!(next_htlc_id(None), 0);
    assert_eq!(next_htlc_id(Some(5)), 5);
}

#[test]
fn is_expired_true_after_deadline() {
    let (env, dep, ben) = setup();
    let (htlc, _) = new_htlc(&env, &dep, &ben, make_hash(&env, 42));
    assert!(is_expired(&Some(htlc), 200));
}

#[test]
fn is_expired_false_before_deadline() {
    let (env, dep, ben) = setup();
    let (htlc, _) = new_htlc(&env, &dep, &ben, make_hash(&env, 42));
    assert!(!is_expired(&Some(htlc), START_SEQ));
}

#[test]
fn is_claimable_true_before_deadline() {
    let (env, dep, ben) = setup();
    let (htlc, _) = new_htlc(&env, &dep, &ben, make_hash(&env, 42));
    assert!(is_claimable(&Some(htlc), START_SEQ));
}

#[test]
fn is_claimable_false_after_deadline() {
    let (env, dep, ben) = setup();
    let (htlc, _) = new_htlc(&env, &dep, &ben, make_hash(&env, 42));
    assert!(!is_claimable(&Some(htlc), 200));
}

#[test]
fn is_claimable_false_after_claim() {
    let (env, dep, ben) = setup();
    let pre_image = make_pre_image(42);
    let hash_lock = sha256(&env, &pre_image);
    let (htlc, count) = new_htlc(&env, &dep, &ben, hash_lock);
    // The contract's records, by identifier.
    let mut records: HashMap<u64, Htlc<Address>> = HashMap::new();
    records.insert(htlc.id, htlc.clone());
    let (stored, _) = claim(&env, records.get(&htlc.id).cloned(), &pre_image, &ben, START_SEQ, Some(count)).unwrap();
    records.insert(stored.id, stored);
    assert!(!is_claimable(&records.get(&htlc.id).cloned(), START_SEQ));
}

#[test]
fn is_claimable_and_is_expired_false_for_unknown_record() {
    assert!(!is_claimable::<Address>(&None, START_SEQ));
    assert!(!is_expired::<Address>(&None, 500));
}

#[test]
fn active_htlc_count_zero_for_unknown() {
    assert_eq!(active_htlc_count(None), 0);
}

#[test]
fn claim_and_refund_exclusive_at_every_ledger() {
    let (env, dep, ben) = setup();
    let pre_image = make_pre_image(3);
    let hash_lock = sha256(&env, &pre_image);
    for seq in [150u32, 199, 200, 250] {
        let (htlc, count) = new_htlc(&env, &dep, &ben, hash_lock);
        let claimed = claim(&env, Some(htlc.clone()), &pre_image, &ben, seq, Some(count)).is_ok();
        let refunded = refund(Some(htlc), &dep, seq, Some(count)).is_ok();
        assert!(claimed != refunded);
    }
}

#[test]
fn claimed_htlc_settles_only_once() {
    let (env, dep, ben) = setup();
    let pre_image = make_pre_image(7);
    let hash_lock = sha256(&env, &pre_image);
    let (htlc, count) = new_htlc(&env, &dep, &ben, hash_lock);
    let (claimed, count) = claim(&env, Some(htlc), &pre_image, &ben, 150, Some(count)).unwrap();
    assert_eq!(refund(Some(claimed.clone()), &dep, 250, Some(count)), Err(ContractError::HtlcNotActive));
    assert_eq!(claim(&env, Some(claimed.clone()), &pre_image, &ben, 160, Some(count)), Err(ContractError::HtlcNotActive));
    assert_eq!(claimed.state, HtlcState::Claimed);
}
