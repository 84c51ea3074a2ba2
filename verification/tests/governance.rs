use stellarflow_contracts::error::ContractError;
use stellarflow_contracts::governance::{
    calculate_collected_weight, cast_vote, get_signer_weight, open_ballot, set_signer_weight,
    set_signer_weight_as_admin, verify_block_height, verify_staged_delay, verify_upgrade_quorum, GovernanceConfig, MultiSigConfig,
};

#[test]
fn test_verify_block_height() {
    assert!(verify_block_height(101, 100));
    assert!(!verify_block_height(100, 100));
    assert!(!verify_block_height(99, 100));
}

#[test]
fn default_configs() {
    assert_eq!(GovernanceConfig::default().quorum_threshold, 2);
    let m = MultiSigConfig::default();
    assert_eq!((m.required_weight, m.max_signer_weight), (3, 1));
}

#[test]
fn staged_delay_saturates() {
    assert!(verify_staged_delay(100, 200, 100));
    assert!(!verify_staged_delay(100, 199, 100));
    assert!(!verify_staged_delay(300, 200, 1));
    assert!(verify_staged_delay(300, 200, 0));
}

#[test]
fn signer_weight_lookup() {
    let weights = vec![(7u64, 3u32), (9, 5)];
    assert_eq!(get_signer_weight(&weights, &7), 3);
    assert_eq!(get_signer_weight(&weights, &9), 5);
    assert_eq!(get_signer_weight(&weights, &8), 0);
}

#[test]
fn collected_weight_counts_distinct_authorized_signers() {
    let admin = 1u64;
    let authorized = vec![2u64, 3];
    let weights = vec![(2u64, 4u32), (3, 6)];
    // The admin has no recorded weight and counts as one; 2 is named twice;
    // 99 is not authorized.
    let signers = vec![1u64, 2, 2, 99, 3];
    assert_eq!(calculate_collected_weight(&signers, &admin, &authorized, &weights), Ok(1 + 4 + 6));
}

#[test]
fn collected_weight_ignores_order_and_repetition() {
    let admin = 1u64;
    let authorized = vec![2u64, 3];
    let weights = vec![(2u64, 4u32), (3, 6)];
    let a = calculate_collected_weight(&vec![1u64, 2, 3], &admin, &authorized, &weights);
    let b = calculate_collected_weight(&vec![3u64, 3, 2, 1, 2], &admin, &authorized, &weights);
    assert_eq!(a, Ok(11));
    assert_eq!(a, b);
}

#[test]
fn collected_weight_overflow() {
    let admin = 1u64;
    let authorized = vec![2u64, 3];
    let weights = vec![(2u64, u32::MAX), (3, 1)];
    let signers = vec![2u64, 3];
    assert_eq!(calculate_collected_weight(&signers, &admin, &authorized, &weights), Err(ContractError::Overflow));
}

#[test]
fn upgrade_quorum_outcomes() {
    let cfg = GovernanceConfig { quorum_threshold: 2 };
    let multisig = MultiSigConfig { required_weight: 3, max_signer_weight: 1 };
    let authorized = vec![2u64, 3];
    let weights = vec![(2u64, 1u32), (3, 1)];
    assert_eq!(verify_upgrade_quorum(&cfg, &multisig, &None, &vec![2u64, 3], &authorized, &weights),
        Err(ContractError::NotInitialized));
    // Two signers of weight one each: count reached, weight not.
    assert_eq!(verify_upgrade_quorum(&cfg, &multisig, &Some(1u64), &vec![2u64, 3], &authorized, &weights),
        Err(ContractError::ThresholdNotReached));
    // Repeating a signer does not help.
    assert_eq!(verify_upgrade_quorum(&cfg, &multisig, &Some(1u64), &vec![2u64, 3, 3, 2], &authorized, &weights),
        Err(ContractError::ThresholdNotReached));
    // The admin brings the third unit of weight.
    assert_eq!(verify_upgrade_quorum(&cfg, &multisig, &Some(1u64), &vec![2u64, 3, 1], &authorized, &weights), Ok(()));
    // One signer alone misses the count quorum.
    let heavy = vec![(2u64, 10u32)];
    assert_eq!(verify_upgrade_quorum(&cfg, &multisig, &Some(1u64), &vec![2u64], &authorized, &heavy),
        Err(ContractError::ThresholdNotReached));
}

#[test]
fn ballots_count_each_voter_once() {
    let ballot = open_ballot(&None, 10u64, 11, 12, 500).unwrap();
    assert_eq!(ballot.proposed_at, 500);
    assert!(ballot.votes.is_empty());
    assert_eq!(open_ballot(&Some(ballot.clone()), 10u64, 11, 12, 600), Err(ContractError::ProposalAlreadyActive));
    let ballot = cast_vote(Some(ballot), 20).unwrap();
    let ballot = cast_vote(Some(ballot), 21).unwrap();
    assert_eq!(ballot.votes, vec![20, 21]);
    assert_eq!(cast_vote(Some(ballot), 20), Err(ContractError::AlreadyVoted));
    assert_eq!(cast_vote::<u64>(None, 20), Err(ContractError::NoActiveProposal));
}

#[test]
fn signer_weight_read_after_write() {
    let mut weights: Vec<(u64, u32)> = Vec::new();
    set_signer_weight(&mut weights, 7, 3);
    set_signer_weight(&mut weights, 9, 5);
    assert_eq!(get_signer_weight(&weights, &7), 3);
    set_signer_weight(&mut weights, 7, 8);
    assert_eq!(get_signer_weight(&weights, &7), 8);
    assert_eq!(get_signer_weight(&weights, &9), 5);
    assert_eq!(weights.len(), 2);
    // Weight zero unregisters.
    set_signer_weight(&mut weights, 9, 0);
    assert_eq!(get_signer_weight(&weights, &9), 0);
    assert_eq!(weights, vec![(7, 8)]);
}

#[test]
fn signer_weight_above_the_maximum_is_refused() {
    let admin: Option<u64> = Some(1);
    let config = MultiSigConfig { required_weight: 3, max_signer_weight: 1 };
    let mut weights: Vec<(u64, u32)> = Vec::new();
    assert_eq!(set_signer_weight_as_admin(&admin, &1, &config, &mut weights, 7, 2),
        Err(ContractError::InvalidStakeAmount));
    assert!(weights.is_empty());
    assert_eq!(set_signer_weight_as_admin(&admin, &1, &config, &mut weights, 7, 1), Ok(()));
    assert_eq!(get_signer_weight(&weights, &7), 1);
}

#[test]
fn signer_weight_needs_the_admin() {
    let config = MultiSigConfig { required_weight: 3, max_signer_weight: 5 };
    let mut weights: Vec<(u64, u32)> = Vec::new();
    assert_eq!(set_signer_weight_as_admin(&None, &1, &config, &mut weights, 7, 2),
        Err(ContractError::NotInitialized));
    assert_eq!(set_signer_weight_as_admin(&Some(1u64), &2, &config, &mut weights, 7, 2),
        Err(ContractError::NotAdmin));
    assert!(weights.is_empty());
}
