use stellarflow_contracts::admin::{
    assert_not_revoked, cancel_admin_change, claim_ownership, consume_admin_nonce,
    countersign_admin_change, execute_admin_change_by_timelock, get_admin_action_nonce, is_paused,
    propose_admin_change, propose_emergency_revocation, propose_ownership_transfer,
    purge_emergency_revocation_proposal, revocation_threshold, set_paused, vote_emergency_revocation,
    AdminChangeProposal, AdminStorageKey, RevocationEffects, RevocationProgress,
    ADMIN_CHANGE_TIMELOCK_SECONDS,
};
use stellarflow_contracts::error::ContractError;
use stellarflow_contracts::staging::StagingConfig;

const ADMIN: u64 = 1;

#[test]
fn admin_storage_key_variants_produce_distinct_symbols() {
    let symbols = [
        AdminStorageKey::ContractData.symbol(),
        AdminStorageKey::Signers.symbol(),
        AdminStorageKey::RevokedSigner.symbol(),
        AdminStorageKey::PendingOwner.symbol(),
        AdminStorageKey::PendingAdmin.symbol(),
        AdminStorageKey::EmergencyRevocationProposal.symbol(),
    ];
    for i in 0..symbols.len() {
        for j in (i + 1)..symbols.len() {
            assert_ne!(symbols[i], symbols[j], "duplicate storage symbol between admin slots");
        }
    }
}

#[test]
fn admin_storage_key_symbol_matches_existing_free_constants() {
    assert_eq!(AdminStorageKey::ContractData.symbol(), "DATA");
    assert_eq!(AdminStorageKey::Signers.symbol(), "SIGNERS");
    assert_eq!(AdminStorageKey::RevokedSigner.symbol(), "REVOKED");
    assert_eq!(AdminStorageKey::PendingOwner.symbol(), "PNDOWN");
    assert_eq!(AdminStorageKey::PendingAdmin.symbol(), "PADMIN");
    assert_eq!(AdminStorageKey::EmergencyRevocationProposal.symbol(), "EMERREV");
}

#[test]
fn nonces_start_at_zero_and_advance() {
    assert_eq!(get_admin_action_nonce(None), 0);
    let mut slot = get_admin_action_nonce(None);
    assert_eq!(consume_admin_nonce(&mut slot, 1), Err(ContractError::InvalidNonce));
    assert_eq!(slot, 0);
    assert_eq!(consume_admin_nonce(&mut slot, 0), Ok(()));
    assert_eq!(slot, 1);
    assert_eq!(consume_admin_nonce(&mut slot, 0), Err(ContractError::InvalidNonce));
}

#[test]
fn two_phase_ownership_transfer() {
    let mut admin = Some(ADMIN);
    let mut pending = None;
    let mut admin_nonce = 0u64;
    // Only the admin nominates.
    assert_eq!(propose_ownership_transfer(&admin, &mut pending, &mut admin_nonce, 5, 2, 0), Err(ContractError::NotAdmin));
    assert_eq!(propose_ownership_transfer(&admin, &mut pending, &mut admin_nonce, ADMIN, 2, 3), Err(ContractError::InvalidNonce));
    assert_eq!(propose_ownership_transfer(&admin, &mut pending, &mut admin_nonce, ADMIN, 2, 0), Ok(()));
    assert_eq!(admin_nonce, 1);
    assert_eq!(propose_ownership_transfer(&admin, &mut pending, &mut admin_nonce, ADMIN, 3, 1),
        Err(ContractError::TransferAlreadyPending));
    assert_eq!(admin_nonce, 1);
    // Somebody else cannot claim.
    let mut other_nonce = 0u64;
    assert_eq!(claim_ownership(&mut pending, &mut admin, &mut other_nonce, 3, 0), Err(ContractError::NotAdmin));
    assert_eq!(admin, Some(ADMIN));
    // The nominee claims.
    let mut nominee_nonce = 0u64;
    assert_eq!(claim_ownership(&mut pending, &mut admin, &mut nominee_nonce, 2, 0), Ok(()));
    assert_eq!(admin, Some(2));
    assert!(pending.is_none());
    assert_eq!(claim_ownership(&mut pending, &mut admin, &mut nominee_nonce, 2, 1), Err(ContractError::NoPendingOwner));
}

#[test]
fn ownership_transfer_requires_initialization() {
    let mut pending = None;
    let mut nonce = 0u64;
    assert_eq!(propose_ownership_transfer(&None::<u64>, &mut pending, &mut nonce, ADMIN, 2, 0),
        Err(ContractError::NotInitialized));
}

#[test]
fn admin_change_by_cosigner() {
    let staging: StagingConfig<u64> = StagingConfig::new();
    let mut admin = Some(ADMIN);
    let mut pending = None;
    assert_eq!(propose_admin_change(&staging, &admin, &mut pending, 9, 7, 1000), Err(ContractError::NotAdmin));
    assert_eq!(propose_admin_change(&staging, &admin, &mut pending, ADMIN, 7, 1000), Ok(()));
    assert_eq!(pending, Some(AdminChangeProposal { new_admin: 7, proposer: ADMIN, proposed_at: 1000 }));
    assert_eq!(propose_admin_change(&staging, &admin, &mut pending, ADMIN, 8, 1001), Err(ContractError::AdminChangePending));
    // The proposer cannot cosign; an unregistered address cannot either.
    assert_eq!(countersign_admin_change(&mut pending, &mut admin, &ADMIN, true), Err(ContractError::CosignerCannotBeProposer));
    assert_eq!(countersign_admin_change(&mut pending, &mut admin, &4, false), Err(ContractError::Unauthorized));
    assert_eq!(countersign_admin_change(&mut pending, &mut admin, &4, true), Ok(()));
    assert_eq!(admin, Some(7));
    assert!(pending.is_none());
    assert_eq!(countersign_admin_change(&mut pending, &mut admin, &4, true), Err(ContractError::NoAdminChangePending));
}

#[test]
fn admin_change_by_timelock() {
    let staging: StagingConfig<u64> = StagingConfig::new();
    let mut admin = Some(ADMIN);
    let mut pending = None;
    propose_admin_change(&staging, &admin, &mut pending, ADMIN, 7, 1000).unwrap();
    let ready = 1000 + ADMIN_CHANGE_TIMELOCK_SECONDS;
    assert_eq!(execute_admin_change_by_timelock(&mut pending, &mut admin, &ADMIN, ready - 1),
        Err(ContractError::AdminChangeTimelockNotSatisfied));
    assert_eq!(execute_admin_change_by_timelock(&mut pending, &mut admin, &5, ready), Err(ContractError::Unauthorized));
    assert_eq!(execute_admin_change_by_timelock(&mut pending, &mut admin, &ADMIN, ready), Ok(()));
    assert_eq!(admin, Some(7));
    assert!(pending.is_none());
}

#[test]
fn admin_change_cancel() {
    let staging: StagingConfig<u64> = StagingConfig::new();
    let admin = Some(ADMIN);
    let mut pending = None;
    assert_eq!(cancel_admin_change(&mut pending, &admin, &ADMIN), Err(ContractError::NoAdminChangePending));
    propose_admin_change(&staging, &admin, &mut pending, ADMIN, 7, 1000).unwrap();
    assert_eq!(cancel_admin_change(&mut pending, &admin, &7), Err(ContractError::NotAdmin));
    assert!(pending.is_some());
    assert_eq!(cancel_admin_change(&mut pending, &admin, &ADMIN), Ok(()));
    assert!(pending.is_none());
}

#[test]
fn admin_change_behind_staging_check() {
    let staging = StagingConfig { active: true, testers: vec![3u64] };
    let admin = Some(ADMIN);
    let mut pending = None;
    assert_eq!(propose_admin_change(&staging, &admin, &mut pending, 9, 7, 1000), Err(ContractError::StagingNotAuthorized));
    // A tester passes the staging check but still is not the admin.
    assert_eq!(propose_admin_change(&staging, &admin, &mut pending, 3, 7, 1000), Err(ContractError::NotAdmin));
    assert_eq!(propose_admin_change(&staging, &admin, &mut pending, ADMIN, 7, 1000), Ok(()));
}

#[test]
fn pause_flag() {
    let admin = Some(ADMIN);
    let mut paused = is_paused(None);
    assert!(!paused);
    let mut nonce = 0u64;
    assert_eq!(set_paused(&admin, &mut paused, &mut nonce, &2, true, 0), Err(ContractError::NotAdmin));
    assert_eq!(set_paused(&admin, &mut paused, &mut nonce, &ADMIN, true, 5), Err(ContractError::InvalidNonce));
    assert_eq!(set_paused(&admin, &mut paused, &mut nonce, &ADMIN, true, 0), Ok(()));
    assert!(paused);
    assert_eq!(nonce, 1);
    assert!(is_paused(Some(true)));
}

#[test]
fn revocation_threshold_is_majority() {
    assert_eq!(revocation_threshold(None), 1);
    assert_eq!(revocation_threshold(Some(0)), 1);
    assert_eq!(revocation_threshold(Some(1)), 1);
    assert_eq!(revocation_threshold(Some(4)), 3);
    assert_eq!(revocation_threshold(Some(5)), 3);
}

#[test]
fn emergency_revocation_by_votes() {
    let staging: StagingConfig<u64> = StagingConfig::new();
    let admin = Some(ADMIN);
    let signers = Some(4u32);
    let mut n1 = 0u64;
    // The target cannot propose its own revocation.
    assert_eq!(propose_emergency_revocation(&staging, &admin, true, true, false, signers, &mut n1, 5, 5, 6, 0, 100),
        Err(ContractError::Unauthorized));
    // The target must be a signer or the admin.
    assert_eq!(propose_emergency_revocation(&staging, &admin, false, false, false, signers, &mut n1, ADMIN, 5, 6, 0, 100),
        Err(ContractError::TargetNotAdmin));
    assert_eq!(n1, 0);
    assert_eq!(propose_emergency_revocation(&staging, &admin, false, true, true, signers, &mut n1, ADMIN, 5, 6, 0, 100),
        Err(ContractError::EmergencyRevocationAlreadyActive));
    let progress = propose_emergency_revocation(&staging, &admin, false, true, false, signers, &mut n1, ADMIN, 5, 6, 0, 100).unwrap();
    assert_eq!(n1, 1);
    let proposal = match progress {
        RevocationProgress::Pending(p) => p,
        RevocationProgress::Executed(_) => panic!("one vote of three cannot execute"),
    };
    assert_eq!(proposal.votes, vec![ADMIN]);
    // Expired signatures and double votes are refused; the target may not vote.
    let mut n2 = 0u64;
    assert_eq!(vote_emergency_revocation(&admin, true, Some(proposal.clone()), signers, &mut n2, 2, 101, 100, 0),
        Err(ContractError::SignatureExpired));
    let mut na = 1u64;
    assert_eq!(vote_emergency_revocation(&admin, false, Some(proposal.clone()), signers, &mut na, ADMIN, 100, 200, 1),
        Err(ContractError::AlreadyVoted));
    let mut n5 = 0u64;
    assert_eq!(vote_emergency_revocation(&admin, true, Some(proposal.clone()), signers, &mut n5, 5, 100, 200, 0),
        Err(ContractError::Unauthorized));
    let progress = vote_emergency_revocation(&admin, true, Some(proposal), signers, &mut n2, 2, 100, 200, 0).unwrap();
    let proposal = match progress {
        RevocationProgress::Pending(p) => p,
        RevocationProgress::Executed(_) => panic!("two votes of three cannot execute"),
    };
    assert_eq!(proposal.votes, vec![ADMIN, 2]);
    let mut n3 = 0u64;
    let progress = vote_emergency_revocation(&admin, true, Some(proposal), signers, &mut n3, 3, 100, 200, 0).unwrap();
    assert_eq!(progress, RevocationProgress::Executed(RevocationEffects { revoked: 5, added_signer: Some(6), new_admin: None }));
}

#[test]
fn emergency_revocation_of_admin_executes_at_once_with_no_signers() {
    let staging: StagingConfig<u64> = StagingConfig::new();
    let admin = Some(ADMIN);
    let mut n = 0u64;
    let progress = propose_emergency_revocation(&staging, &admin, true, false, false, None, &mut n, 2, ADMIN, 3, 0, 100).unwrap();
    assert_eq!(progress, RevocationProgress::Executed(RevocationEffects { revoked: ADMIN, added_signer: Some(3), new_admin: Some(3) }));
    let mut m = 0u64;
    let progress = propose_emergency_revocation(&staging, &admin, true, true, false, None, &mut m, 2, 4, 4, 0, 100).unwrap();
    assert_eq!(progress, RevocationProgress::Executed(RevocationEffects { revoked: 4, added_signer: None, new_admin: None }));
}

#[test]
fn purge_and_revoked_guard() {
    let mut proposal = None::<stellarflow_contracts::admin::EmergencyRevocationProposal<u64>>;
    assert_eq!(purge_emergency_revocation_proposal(&None::<u64>, &mut proposal), Err(ContractError::NotInitialized));
    assert_eq!(purge_emergency_revocation_proposal(&Some(ADMIN), &mut proposal), Ok(()));
    assert_eq!(assert_not_revoked(true), Err(ContractError::RevokedAddress));
    assert_eq!(assert_not_revoked(false), Ok(()));
}
