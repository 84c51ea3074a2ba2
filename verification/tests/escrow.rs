use soroban_sdk::testutils::Address as _;
use soroban_sdk::{Address, Env};
use stellarflow_contracts::escrow::timelock::{
    approve_by_receiver, approve_by_sender, create, refund, release, Escrow,
};

const CURRENT: u32 = 0;

fn setup() -> (Env, Address, Address, Address, Address) {
    let env = Env::default();
    let token_id = Address::generate(&env);
    let depositor = Address::generate(&env);
    let sender = Address::generate(&env);
    let receiver = Address::generate(&env);
    (env, token_id, depositor, sender, receiver)
}

fn new_escrow(token_id: &Address, depositor: &Address, sender: &Address, receiver: &Address, expiry: u32) -> Escrow<Address> {
    create(sender.clone(), receiver.clone(), depositor.clone(), token_id.clone(), 1000, expiry)
}

#[test]
fn test_create_escrow() {
    let (_env, token_id, depositor, sender, receiver) = setup();
    let escrow = new_escrow(&token_id, &depositor, &sender, &receiver, CURRENT + 100);
    assert!(!escrow.sender_approved);
    assert!(!escrow.receiver_approved);
    assert!(!escrow.released);
    assert_eq!(escrow.amount, 1000);
}

#[test]
fn test_dual_approval_before_expiry_releases() {
    let (_env, token_id, depositor, sender, receiver) = setup();
    let mut escrow = new_escrow(&token_id, &depositor, &sender, &receiver, CURRENT + 100);
    approve_by_sender(&mut escrow, &sender).unwrap();
    assert!(!escrow.is_approved());
    approve_by_receiver(&mut escrow, &receiver).unwrap();
    assert!(escrow.is_approved());
    assert!(release(&mut escrow, CURRENT + 50).is_ok());
    assert!(escrow.released);
}

#[test]
fn test_release_fails_without_dual_approval() {
    let (_env, token_id, depositor, sender, receiver) = setup();
    let mut escrow = new_escrow(&token_id, &depositor, &sender, &receiver, CURRENT + 100);
    approve_by_sender(&mut escrow, &sender).unwrap();
    assert!(release(&mut escrow, CURRENT + 50).is_err());
    assert!(!escrow.released);
}

#[test]
fn test_refund_after_expiry_by_depositor() {
    let (_env, token_id, depositor, sender, receiver) = setup();
    let mut escrow = new_escrow(&token_id, &depositor, &sender, &receiver, CURRENT + 10);
    assert!(refund(&mut escrow, &depositor, CURRENT + 20).is_ok());
    assert!(escrow.released);
}

#[test]
fn test_refund_fails_before_expiry() {
    let (_env, token_id, depositor, sender, receiver) = setup();
    let mut escrow = new_escrow(&token_id, &depositor, &sender, &receiver, CURRENT + 100);
    assert!(refund(&mut escrow, &depositor, CURRENT + 50).is_err());
    assert!(!escrow.released);
}

#[test]
fn test_refund_rejects_non_depositor() {
    let (env, token_id, depositor, sender, receiver) = setup();
    let mut escrow = new_escrow(&token_id, &depositor, &sender, &receiver, CURRENT + 10);
    let attacker = Address::generate(&env);
    assert!(refund(&mut escrow, &attacker, CURRENT + 20).is_err());
}

#[test]
fn test_approve_by_wrong_sender_fails() {
    let (env, token_id, depositor, sender, receiver) = setup();
    let mut escrow = new_escrow(&token_id, &depositor, &sender, &receiver, CURRENT + 100);
    let wrong = Address::generate(&env);
    assert!(approve_by_sender(&mut escrow, &wrong).is_err());
    assert!(!escrow.sender_approved);
}

#[test]
fn test_release_fails_after_expiry() {
    let (_env, token_id, depositor, sender, receiver) = setup();
    let mut escrow = new_escrow(&token_id, &depositor, &sender, &receiver, CURRENT + 10);
    approve_by_sender(&mut escrow, &sender).unwrap();
    approve_by_receiver(&mut escrow, &receiver).unwrap();
    assert!(release(&mut escrow, CURRENT + 20).is_err());
}

#[test]
fn test_release_fails_once_already_released() {
    let (_env, token_id, depositor, sender, receiver) = setup();
    let mut escrow = new_escrow(&token_id, &depositor, &sender, &receiver, CURRENT + 100);
    approve_by_sender(&mut escrow, &sender).unwrap();
    approve_by_receiver(&mut escrow, &receiver).unwrap();
    assert!(release(&mut escrow, CURRENT + 50).is_ok());
    assert!(release(&mut escrow, CURRENT + 50).is_err());
}

#[test]
fn test_escrow_state_transitions() {
    let (_env, token_id, depositor, sender, receiver) = setup();
    let escrow = new_escrow(&token_id, &depositor, &sender, &receiver, CURRENT + 50);
    assert!(!escrow.is_approved());
    assert!(!escrow.is_expired(CURRENT));
    assert!(!escrow.is_expired(CURRENT + 49));
    assert!(escrow.is_expired(CURRENT + 50));
    assert!(escrow.is_expired(CURRENT + 100));
}

#[test]
fn refund_after_release_refused() {
    let mut escrow = create(1u64, 2, 3, 4, 500, 10);
    approve_by_sender(&mut escrow, &1).unwrap();
    approve_by_receiver(&mut escrow, &2).unwrap();
    release(&mut escrow, 5).unwrap();
    assert!(refund(&mut escrow, &3, 20).is_err());
    assert!(approve_by_receiver(&mut escrow, &9).is_err());
}
