use soroban_sdk::testutils::Address as _;
use soroban_sdk::{Address, Env};
use stellarflow_contracts::error::ContractError;
use stellarflow_contracts::staging::{
    add_tester, check_staging_access, is_staging_active, remove_tester, set_staging_mode, StagingConfig,
    MAX_TESTERS,
};

fn init_contract(env: &Env) -> (Option<Address>, Address, StagingConfig<Address>) {
    let admin = Address::generate(env);
    (Some(admin.clone()), admin, StagingConfig::new())
}

#[test]
fn staging_mode_off_by_default() {
    let env = Env::default();
    let (_slot, _admin, cfg) = init_contract(&env);
    assert!(!is_staging_active(&cfg));
}

#[test]
fn admin_can_enable_staging_mode() {
    let env = Env::default();
    let (slot, admin, mut cfg) = init_contract(&env);
    set_staging_mode(&slot, &admin, &mut cfg, true).expect("admin should be able to enable staging");
    assert!(is_staging_active(&cfg));
}

#[test]
fn admin_can_disable_staging_mode() {
    let env = Env::default();
    let (slot, admin, mut cfg) = init_contract(&env);
    set_staging_mode(&slot, &admin, &mut cfg, true).unwrap();
    set_staging_mode(&slot, &admin, &mut cfg, false).expect("admin should be able to disable staging");
    assert!(!is_staging_active(&cfg));
}

#[test]
fn non_admin_cannot_enable_staging_mode() {
    let env = Env::default();
    let (slot, _admin, mut cfg) = init_contract(&env);
    let other = Address::generate(&env);
    let result = set_staging_mode(&slot, &other, &mut cfg, true);
    assert_eq!(result, Err(ContractError::NotAdmin));
}

#[test]
fn admin_can_add_and_remove_tester() {
    let env = Env::default();
    let (slot, admin, mut cfg) = init_contract(&env);
    let tester = Address::generate(&env);
    add_tester(&slot, &admin, &mut cfg, tester.clone()).expect("add should succeed");
    assert_eq!(cfg.testers.len(), 1);
    assert_eq!(cfg.testers[0], tester);
    remove_tester(&slot, &admin, &mut cfg, &tester).expect("remove should succeed");
    assert_eq!(cfg.testers.len(), 0);
}

#[test]
fn add_tester_is_idempotent() {
    let env = Env::default();
    let (slot, admin, mut cfg) = init_contract(&env);
    let tester = Address::generate(&env);
    add_tester(&slot, &admin, &mut cfg, tester.clone()).unwrap();
    add_tester(&slot, &admin, &mut cfg, tester.clone()).unwrap();
    assert_eq!(cfg.testers.len(), 1);
}

#[test]
fn remove_tester_is_idempotent() {
    let env = Env::default();
    let (slot, admin, mut cfg) = init_contract(&env);
    let tester = Address::generate(&env);
    remove_tester(&slot, &admin, &mut cfg, &tester).expect("no-op remove should succeed");
    assert_eq!(cfg.testers.len(), 0);
}

#[test]
fn non_admin_cannot_add_tester() {
    let env = Env::default();
    let (slot, _admin, mut cfg) = init_contract(&env);
    let other = Address::generate(&env);
    let tester = Address::generate(&env);
    let result = add_tester(&slot, &other, &mut cfg, tester);
    assert_eq!(result, Err(ContractError::NotAdmin));
}

#[test]
fn non_admin_cannot_remove_tester() {
    let env = Env::default();
    let (slot, admin, mut cfg) = init_contract(&env);
    let other = Address::generate(&env);
    let tester = Address::generate(&env);
    add_tester(&slot, &admin, &mut cfg, tester.clone()).unwrap();
    let result = remove_tester(&slot, &other, &mut cfg, &tester);
    assert_eq!(result, Err(ContractError::NotAdmin));
}

#[test]
fn check_passes_when_staging_is_inactive() {
    let env = Env::default();
    let (slot, _admin, cfg) = init_contract(&env);
    let random = Address::generate(&env);
    check_staging_access(&cfg, &slot, &random).expect("check should pass when staging mode is off");
}

#[test]
fn admin_always_passes_staging_check() {
    let env = Env::default();
    let (slot, admin, mut cfg) = init_contract(&env);
    set_staging_mode(&slot, &admin, &mut cfg, true).unwrap();
    check_staging_access(&cfg, &slot, &admin).expect("admin should always pass the staging check");
}

#[test]
fn authorized_tester_passes_staging_check() {
    let env = Env::default();
    let (slot, admin, mut cfg) = init_contract(&env);
    let tester = Address::generate(&env);
    set_staging_mode(&slot, &admin, &mut cfg, true).unwrap();
    add_tester(&slot, &admin, &mut cfg, tester.clone()).unwrap();
    check_staging_access(&cfg, &slot, &tester).expect("authorized tester should pass the staging check");
}

#[test]
fn unauthorized_caller_blocked_when_staging_is_active() {
    let env = Env::default();
    let (slot, admin, mut cfg) = init_contract(&env);
    let unauthorized = Address::generate(&env);
    set_staging_mode(&slot, &admin, &mut cfg, true).unwrap();
    let result = check_staging_access(&cfg, &slot, &unauthorized);
    assert_eq!(result, Err(ContractError::StagingNotAuthorized));
}

#[test]
fn removed_tester_is_blocked_after_removal() {
    let env = Env::default();
    let (slot, admin, mut cfg) = init_contract(&env);
    let tester = Address::generate(&env);
    set_staging_mode(&slot, &admin, &mut cfg, true).unwrap();
    add_tester(&slot, &admin, &mut cfg, tester.clone()).unwrap();
    check_staging_access(&cfg, &slot, &tester).expect("tester should pass before removal");
    remove_tester(&slot, &admin, &mut cfg, &tester).unwrap();
    let result = check_staging_access(&cfg, &slot, &tester);
    assert_eq!(result, Err(ContractError::StagingNotAuthorized));
}

#[test]
fn disabling_staging_mode_unblocks_all_callers() {
    let env = Env::default();
    let (slot, admin, mut cfg) = init_contract(&env);
    let random = Address::generate(&env);
    set_staging_mode(&slot, &admin, &mut cfg, true).unwrap();
    assert_eq!(check_staging_access(&cfg, &slot, &random), Err(ContractError::StagingNotAuthorized));
    set_staging_mode(&slot, &admin, &mut cfg, false).unwrap();
    check_staging_access(&cfg, &slot, &random).expect("random address should pass after staging mode is disabled");
}

#[test]
fn allowlist_capped_at_max_testers() {
    let mut cfg: StagingConfig<u64> = StagingConfig::new();
    let slot = Some(0u64);
    for t in 1..=(MAX_TESTERS as u64) {
        add_tester(&slot, &0, &mut cfg, t).unwrap();
    }
    assert_eq!(cfg.testers.len(), MAX_TESTERS as usize);
    assert_eq!(add_tester(&slot, &0, &mut cfg, 1000), Err(ContractError::Overflow));
    // A listed tester is still a no-op at capacity.
    assert_eq!(add_tester(&slot, &0, &mut cfg, 7), Ok(()));
    assert_eq!(cfg.testers.len(), MAX_TESTERS as usize);
}

#[test]
fn uninitialized_contract_rejects_staging_changes() {
    let mut cfg: StagingConfig<u64> = StagingConfig::new();
    assert_eq!(set_staging_mode(&None, &1, &mut cfg, true), Err(ContractError::NotInitialized));
    assert_eq!(add_tester(&None, &1, &mut cfg, 2), Err(ContractError::NotInitialized));
    assert_eq!(remove_tester(&None, &1, &mut cfg, &2), Err(ContractError::NotInitialized));
    cfg.active = true;
    assert_eq!(check_staging_access(&cfg, &None, &1), Err(ContractError::NotInitialized));
}

#[test]
fn remove_keeps_order_of_other_testers() {
    let mut cfg: StagingConfig<u64> = StagingConfig::new();
    let slot = Some(0u64);
    for t in [5u64, 6, 7, 8] {
        add_tester(&slot, &0, &mut cfg, t).unwrap();
    }
    remove_tester(&slot, &0, &mut cfg, &6).unwrap();
    assert_eq!(cfg.testers, vec![5, 7, 8]);
}
