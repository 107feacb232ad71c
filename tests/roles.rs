use carbon_assets::accounts::{
    is_roles_correct, is_roles_mask_included, AccountStruct, RoleMask, ALL_ROLES_MASK, AUDITOR_ROLE_MASK,
    BOND_ARRANGER_ROLE_MASK, CC_AUDITOR_ROLE_MASK, CC_INVESTOR_ROLE_MASK,
    CC_PROJECT_OWNER_ROLE_MASK, CC_REGISTRY_ROLE_MASK, CC_STANDARD_ROLE_MASK, CUSTODIAN_ROLE_MASK,
    IMPACT_REPORTER_ROLE_MASK, INVESTOR_ROLE_MASK, ISSUER_ROLE_MASK, MANAGER_ROLE_MASK,
    MASTER_ROLE_MASK,
};
use carbon_assets::registry::{Module, RegistryError, RegistryEvent};

const ROLES: [(u64, RoleMask); 13] = [
    (1_u64, MASTER_ROLE_MASK),
    (2_u64, CUSTODIAN_ROLE_MASK),
    (3_u64, ISSUER_ROLE_MASK),
    (4_u64, INVESTOR_ROLE_MASK),
    (5_u64, AUDITOR_ROLE_MASK),
    (6_u64, MANAGER_ROLE_MASK),
    (7_u64, BOND_ARRANGER_ROLE_MASK),
    (8_u64, IMPACT_REPORTER_ROLE_MASK),
    (9_u64, CC_PROJECT_OWNER_ROLE_MASK),
    (10_u64, CC_AUDITOR_ROLE_MASK),
    (11_u64, CC_STANDARD_ROLE_MASK),
    (12_u64, CC_INVESTOR_ROLE_MASK),
    (13_u64, CC_REGISTRY_ROLE_MASK),
];

fn new_test_ext() -> Module {
    Module::new(
        ROLES
            .iter()
            .map(|(acc, role)| (*acc, AccountStruct { roles: *role, identity: 0, create_time: 0 }))
            .collect(),
    )
}

#[test]
fn it_returns_true_for_correct_role_checks() {
    let m = new_test_ext();
    assert_eq!(m.account_is_master(&1), true);
    assert_eq!(m.account_is_custodian(&2), true);
    assert_eq!(m.account_is_issuer(&3), true);
    assert_eq!(m.account_is_investor(&4), true);
    assert_eq!(m.account_is_auditor(&5), true);
    assert_eq!(m.account_is_manager(&6), true);
    assert_eq!(m.account_is_bond_arranger(&7), true);
    assert_eq!(m.account_is_impact_reporter(&8), true);
    assert_eq!(m.account_is_cc_project_owner(&9), true);
    assert_eq!(m.account_is_cc_auditor(&10), true);
    assert_eq!(m.account_is_cc_standard(&11), true);
    assert_eq!(m.account_is_cc_investor(&12), true);
    assert_eq!(m.account_is_cc_registry(&13), true);

    assert_eq!(m.account_is_master(&100), false);
    assert_eq!(m.account_is_custodian(&100), false);
    assert_eq!(m.account_is_issuer(&100), false);
    assert_eq!(m.account_is_investor(&100), false);
    assert_eq!(m.account_is_auditor(&100), false);
    assert_eq!(m.account_token_mint_burn_allowed(&100), false);
}

#[test]
fn it_returns_false_for_incorrect_role_checks() {
    let m = new_test_ext();
    assert_eq!(m.account_is_auditor(&1), false);
    assert_eq!(m.account_is_issuer(&2), false);
    assert_eq!(m.account_is_investor(&3), false);
    assert_eq!(m.account_is_custodian(&4), false);
    assert_eq!(m.account_is_master(&5), false);
}

#[test]
fn it_adds_new_account_with_correct_roles() {
    let mut m = new_test_ext();
    let now = 12345;
    assert_eq!(m.account_add_with_role_and_data(1, 101, CUSTODIAN_ROLE_MASK, 88u64, now), Ok(()));
    assert_eq!(m.account_is_custodian(&101), true);
    assert_eq!(m.account_is_investor(&101), false);

    assert_eq!(m.account_add_with_role_and_data(1, 102, AUDITOR_ROLE_MASK, 89u64, now), Ok(()));
    assert_eq!(m.account_is_custodian(&102), false);
    assert_eq!(m.account_is_auditor(&102), true);
    assert_eq!(m.account_registry(&102).create_time, now);
}

#[test]
fn it_correctly_sets_new_role_to_existing_account() {
    let mut m = new_test_ext();
    assert_eq!(m.account_is_issuer(&3), true);
    assert_eq!(m.account_set_with_role_and_data(1, 3, AUDITOR_ROLE_MASK), Ok(()));
    assert_eq!(m.account_is_issuer(&3), true);
    assert_eq!(m.account_is_auditor(&3), true);
    assert_eq!(m.account_is_investor(&3), false);

    assert_eq!(m.account_is_custodian(&2), true);
    assert_eq!(m.account_is_issuer(&2), false);
    assert_eq!(m.account_set_with_role_and_data(1, 2, ISSUER_ROLE_MASK), Ok(()));
    assert_eq!(m.account_is_custodian(&2), true);
    assert_eq!(m.account_is_issuer(&2), true);
}

#[test]
fn it_disable_account() {
    let mut m = new_test_ext();
    assert_eq!(m.account_add_with_role_and_data(1, 101, ISSUER_ROLE_MASK, 88u64, 0), Ok(()));
    assert_eq!(m.account_is_issuer(&101), true);
    assert_eq!(m.account_disable(1, 101), Ok(()));
    assert_eq!(m.account_is_issuer(&101), false);
}

#[test]
fn it_try_disable_yourself() {
    let mut m = new_test_ext();
    assert_eq!(m.account_disable(1, 1), Err(RegistryError::InvalidAction));
    assert_eq!(m.account_set_with_role_and_data(1, 1, 0), Err(RegistryError::InvalidAction));
}

#[test]
fn it_denies_add_and_set_roles_for_non_master() {
    let mut m = new_test_ext();
    assert_eq!(
        m.account_add_with_role_and_data(2, 101, MASTER_ROLE_MASK, 88u64, 12345),
        Err(RegistryError::AccountNotAuthorized)
    );
    assert_eq!(
        m.account_set_with_role_and_data(2, 3, ISSUER_ROLE_MASK),
        Err(RegistryError::AccountNotAuthorized)
    );
}

#[test]
fn it_works_account_add_with_role_and_data() {
    let mut m = new_test_ext();
    let some_new_account = 666;
    let r = m.account_add_with_role_and_data(ROLES[0].0, some_new_account, CC_INVESTOR_ROLE_MASK, 0, 0);
    assert_eq!(r, Ok(()));
}

#[test]
fn it_fails_account_add_with_role_and_data_not_master() {
    let mut m = new_test_ext();
    let some_new_account = 666;
    let r = m.account_add_with_role_and_data(ROLES[1].0, some_new_account, CC_INVESTOR_ROLE_MASK, 0, 0);
    assert_ne!(r, Ok(()));
}

#[test]
fn it_fails_account_set_with_role_and_data_not_exits() {
    let mut m = new_test_ext();
    let some_new_account = 666;
    let r = m.account_set_with_role_and_data(ROLES[0].0, some_new_account, CC_INVESTOR_ROLE_MASK);
    assert_ne!(r, Ok(()));
    assert_eq!(r, Err(RegistryError::AccountNotExist));
}

#[test]
fn it_works_account_set_with_role_and_data() {
    let mut m = new_test_ext();
    let some_new_account = 666;
    let _ = m.account_add_with_role_and_data(ROLES[0].0, some_new_account, CC_INVESTOR_ROLE_MASK, 0, 0);
    let r = m.account_set_with_role_and_data(ROLES[0].0, some_new_account, CC_AUDITOR_ROLE_MASK);
    assert!(m.account_is_cc_investor(&some_new_account));
    assert_eq!(r, Ok(()));
}

#[test]
fn it_fails_account_set_with_role_and_data_not_master() {
    let mut m = new_test_ext();
    let some_new_account = 666;
    let _ = m.account_add_with_role_and_data(ROLES[0].0, some_new_account, CC_INVESTOR_ROLE_MASK, 0, 0);
    let r = m.account_set_with_role_and_data(ROLES[1].0, some_new_account, CC_AUDITOR_ROLE_MASK);
    assert_ne!(r, Ok(()));
}

#[test]
fn it_fails_account_set_with_master_role() {
    let mut m = new_test_ext();
    let some_new_account = 666;
    let _ = m.account_add_with_role_and_data(ROLES[0].0, some_new_account, CC_INVESTOR_ROLE_MASK, 0, 0);
    let r = m.account_set_with_role_and_data(ROLES[0].0, some_new_account, MASTER_ROLE_MASK);
    assert_ne!(r, Ok(()));
    assert_eq!(r, Err(RegistryError::AccountRoleMasterIncluded));
}

#[test]
fn it_works_roles_assigned_correctly_set_master() {
    let mut m = new_test_ext();
    let some_new_account = 666;
    let _ = m.account_add_with_role_and_data(ROLES[0].0, some_new_account, CUSTODIAN_ROLE_MASK, 0, 0);
    let all_roles = vec![
        CUSTODIAN_ROLE_MASK,
        ISSUER_ROLE_MASK,
        INVESTOR_ROLE_MASK,
        AUDITOR_ROLE_MASK,
        MANAGER_ROLE_MASK,
        IMPACT_REPORTER_ROLE_MASK,
        BOND_ARRANGER_ROLE_MASK,
        CC_PROJECT_OWNER_ROLE_MASK,
        CC_AUDITOR_ROLE_MASK,
        CC_STANDARD_ROLE_MASK,
        CC_INVESTOR_ROLE_MASK,
        CC_REGISTRY_ROLE_MASK,
    ];
    for x in all_roles.iter() {
        let r = m.account_set_with_role_and_data(ROLES[0].0, some_new_account, *x);
        assert_eq!(r, Ok(()));
    }
    assert!(m.account_is_cc_project_owner(&some_new_account));
    assert!(m.account_is_cc_auditor(&some_new_account));
    assert!(m.account_is_cc_standard(&some_new_account));
    assert!(m.account_is_cc_investor(&some_new_account));
    assert!(m.account_is_cc_registry(&some_new_account));
}

#[test]
fn it_works_account_set_with_master_role() {
    let mut m = new_test_ext();
    let some_new_master_account = 666;
    let some_new_account = 1349;
    let set_master_result = m.add_master_role(ROLES[0].0, some_new_master_account);
    let assign_role_result = m.account_add_with_role_and_data(
        some_new_master_account,
        some_new_account,
        CC_PROJECT_OWNER_ROLE_MASK,
        0,
        0,
    );
    assert_eq!(set_master_result, Ok(()));
    assert_eq!(assign_role_result, Ok(()));
    assert!(m.account_is_master(&some_new_master_account));
    assert!(m.account_is_cc_project_owner(&some_new_account));
}

#[test]
fn it_fails_account_set_with_master_role_already_master() {
    let mut m = new_test_ext();
    let some_new_master_account = 666;
    let _ = m.add_master_role(ROLES[0].0, some_new_master_account);
    let r = m.add_master_role(ROLES[0].0, some_new_master_account);
    assert_ne!(r, Ok(()));
}

#[test]
fn it_works_account_withraw_role() {
    let mut m = new_test_ext();
    let some_new_account = 666;
    let _ = m.account_add_with_role_and_data(ROLES[0].0, some_new_account, CC_INVESTOR_ROLE_MASK, 0, 0);
    let assign_role_result =
        m.account_set_with_role_and_data(ROLES[0].0, some_new_account, CC_AUDITOR_ROLE_MASK);
    let withdraw_role_result =
        m.account_withdraw_role(ROLES[0].0, some_new_account, CC_INVESTOR_ROLE_MASK);
    assert_eq!(assign_role_result, Ok(()));
    assert_eq!(withdraw_role_result, Ok(()));
    assert!(!m.account_is_cc_investor(&some_new_account));
    assert!(m.account_is_cc_auditor(&some_new_account));
}

#[test]
fn it_works_check_events() {
    let mut m = new_test_ext();
    let some_new_account = 666;
    let _ = m.account_add_with_role_and_data(ROLES[0].0, some_new_account, CC_INVESTOR_ROLE_MASK, 0, 0);
    let add_account_event = *m.events().last().unwrap();
    let _ = m.account_set_with_role_and_data(ROLES[0].0, some_new_account, CC_AUDITOR_ROLE_MASK);
    let set_account_event = *m.events().last().unwrap();
    let _ = m.account_withdraw_role(ROLES[0].0, some_new_account, CC_AUDITOR_ROLE_MASK);
    let withdraw_account_event = *m.events().last().unwrap();

    assert_eq!(
        RegistryEvent::AccountAdd(ROLES[0].0, some_new_account, CC_INVESTOR_ROLE_MASK, 0),
        add_account_event
    );
    assert_eq!(
        RegistryEvent::AccountSet(ROLES[0].0, some_new_account, CC_AUDITOR_ROLE_MASK),
        set_account_event
    );
    assert_eq!(
        RegistryEvent::AccountWithdraw(ROLES[0].0, some_new_account, CC_AUDITOR_ROLE_MASK),
        withdraw_account_event
    );
}

#[test]
fn fuse_is_blone() {
    let mut m = new_test_ext();
    assert_eq!(m.fuse(), true);
    assert_eq!(m.set_master(2, 0), Err(RegistryError::InvalidAction));
}

#[test]
fn fuse_is_intact_on_bare_storage() {
    let mut m = Module::new(Vec::new());
    assert_eq!(m.fuse(), false);
    assert_eq!(
        m.account_add_with_role_and_data(1, 101, MASTER_ROLE_MASK, 0, 0),
        Err(RegistryError::AccountNotAuthorized)
    );
    assert_eq!(m.set_master(1, 0), Ok(()));
    assert_eq!(m.fuse(), true);
    assert_eq!(m.set_master(2, 0), Err(RegistryError::InvalidAction));
}

#[test]
fn it_checks_is_roles_mask_included() {
    assert!(is_roles_mask_included(MASTER_ROLE_MASK, MASTER_ROLE_MASK));
    assert!(is_roles_mask_included(MASTER_ROLE_MASK | CUSTODIAN_ROLE_MASK, MASTER_ROLE_MASK));
    assert!(is_roles_mask_included(ALL_ROLES_MASK, MASTER_ROLE_MASK));
    assert!(is_roles_mask_included(MASTER_ROLE_MASK | CC_AUDITOR_ROLE_MASK, MASTER_ROLE_MASK));
    assert!(!is_roles_mask_included(AUDITOR_ROLE_MASK, MASTER_ROLE_MASK));
    assert!(!is_roles_mask_included(CUSTODIAN_ROLE_MASK | CC_AUDITOR_ROLE_MASK, MASTER_ROLE_MASK));
    assert!(!is_roles_mask_included(CC_INVESTOR_ROLE_MASK, MASTER_ROLE_MASK));
    assert!(!is_roles_mask_included(
        CC_PROJECT_OWNER_ROLE_MASK | CC_STANDARD_ROLE_MASK,
        MASTER_ROLE_MASK
    ));
    assert!(!is_roles_mask_included(BOND_ARRANGER_ROLE_MASK, MASTER_ROLE_MASK));
}

#[test]
fn roles_correct_bounds() {
    assert_eq!(ALL_ROLES_MASK, 8191);
    assert!(is_roles_correct(ALL_ROLES_MASK));
    assert!(is_roles_correct(1));
    assert!(!is_roles_correct(0));
    assert!(!is_roles_correct(ALL_ROLES_MASK + 1));
}

#[test]
fn account_struct_new_keeps_fields() {
    let a = AccountStruct::new(CC_AUDITOR_ROLE_MASK, 42, 7u64);
    assert_eq!(a, AccountStruct { roles: CC_AUDITOR_ROLE_MASK, identity: 42, create_time: 7 });
}
