use carbon_assets::pallet::{GenesisConfig, Pallet};
use carbon_assets::types::{AssetId, Config, Error, Origin};

const ZERO_ID: [u8; 24] = [0; 24];
const ONE_ID: [u8; 24] = [1; 24];
const TWO_ID: [u8; 24] = [2; 24];
const PREEXIST_ASSET: [u8; 24] = [99u8; 24];
const CUSTODIAN: u64 = 1;
const SEED: [u8; 32] = [7u8; 32];

fn config() -> Config {
    Config {
        asset_deposit: 1,
        asset_account_deposit: 10,
        metadata_deposit_base: 1,
        metadata_deposit_per_byte: 1,
        approval_deposit: 1,
        string_limit: 50,
        max_consumers: 2,
    }
}

fn new_test_ext() -> Pallet {
    let genesis = GenesisConfig {
        custodian: Some(CUSTODIAN),
        assets: vec![(PREEXIST_ASSET, 0, true, 1)],
        metadata: vec![(PREEXIST_ASSET, b"Token Name".to_vec(), b"TOKEN".to_vec(), 10)],
        accounts: vec![(PREEXIST_ASSET, 1, 100)],
    };
    Pallet::build(config(), &genesis).unwrap()
}

fn test_ext_no_custodian() -> Pallet {
    Pallet::build(config(), &GenesisConfig::default()).unwrap()
}

fn create(p: &mut Pallet, who: u64) -> Result<AssetId, Error> {
    p.create(who, SEED, "Token".as_bytes().to_vec(), "Token".as_bytes().to_vec())
}

fn url() -> Vec<u8> {
    vec!['h' as u8, 't' as u8, 't' as u8, 'p' as u8]
}

fn data4() -> Vec<u8> {
    vec!['4' as u8, 'h' as u8, '6' as u8, 'g' as u8]
}

fn data5() -> Vec<u8> {
    vec!['4' as u8, 'h' as u8, '6' as u8, 'g' as u8, 'f' as u8]
}

#[test]
fn can_mint_only_to_owner() {
    let mut p = new_test_ext();
    assert_eq!(p.force_create(Origin::Root, ZERO_ID, 1, true, 1), Ok(()));
    assert_eq!(p.mint(1, ZERO_ID, 100), Ok(()));
    assert_eq!(p.balance(ZERO_ID, 1), 100);
    assert_eq!(p.mint(1, ZERO_ID, 100), Ok(()));
    assert_eq!(p.balance(ZERO_ID, 2), 0);
    assert_eq!(p.balance(ZERO_ID, 1), 200);
}

#[test]
fn minting_too_many_insufficient_assets_fails() {
    let mut p = new_test_ext();
    assert_eq!(p.force_create(Origin::Root, ZERO_ID, 1, false, 1), Ok(()));
    assert_eq!(p.force_create(Origin::Root, ONE_ID, 1, false, 1), Ok(()));
    assert_eq!(p.force_create(Origin::Root, TWO_ID, 1, false, 1), Ok(()));
    p.make_free_balance_be(1, 100);
    assert_eq!(p.mint(1, ZERO_ID, 100), Ok(()));
    assert_eq!(p.mint(1, ONE_ID, 100), Ok(()));
    assert_eq!(p.mint(1, TWO_ID, 100), Err(Error::CannotCreate));

    p.make_free_balance_be(2, 1);
    assert_eq!(p.transfer(1, ZERO_ID, 2, 100), Ok(()));
    assert_eq!(p.mint(1, TWO_ID, 100), Ok(()));
}

#[test]
fn minting_insufficient_asset_with_deposit_should_work_when_consumers_exhausted() {
    let mut p = new_test_ext();
    assert_eq!(p.force_create(Origin::Root, ZERO_ID, 1, false, 1), Ok(()));
    assert_eq!(p.force_create(Origin::Root, ONE_ID, 1, false, 1), Ok(()));
    assert_eq!(p.force_create(Origin::Root, TWO_ID, 1, false, 1), Ok(()));
    p.make_free_balance_be(1, 100);
    assert_eq!(p.mint(1, ZERO_ID, 100), Ok(()));
    assert_eq!(p.mint(1, ONE_ID, 100), Ok(()));
    assert_eq!(p.mint(1, TWO_ID, 100), Err(Error::CannotCreate));

    assert_eq!(p.touch(1, TWO_ID), Ok(()));
    assert_eq!(p.reserved_balance(1), 10);

    assert_eq!(p.mint(1, TWO_ID, 100), Ok(()));
}

#[test]
fn minting_insufficient_assets_with_deposit_without_consumer_should_work() {
    let mut p = new_test_ext();
    assert_eq!(p.force_create(Origin::Root, ZERO_ID, 1, false, 1), Ok(()));
    assert_eq!(p.mint(1, ZERO_ID, 100), Err(Error::CannotCreate));
    p.make_free_balance_be(1, 100);
    assert_eq!(p.touch(1, ZERO_ID), Ok(()));
    assert_eq!(p.mint(1, ZERO_ID, 100), Ok(()));
    assert_eq!(p.reserved_balance(1), 10);
    assert_eq!(p.consumers(1), 0);
}

#[test]
fn refunding_asset_deposit_with_burn_should_work() {
    let mut p = new_test_ext();
    assert_eq!(p.force_create(Origin::Root, ZERO_ID, 1, false, 1), Ok(()));
    p.make_free_balance_be(1, 100);
    assert_eq!(p.touch(1, ZERO_ID), Ok(()));
    assert_eq!(p.mint(1, ZERO_ID, 100), Ok(()));
    assert_eq!(p.refund(1, ZERO_ID, true), Ok(()));
    assert_eq!(p.reserved_balance(1), 0);
    assert_eq!(p.balance(ONE_ID, 0), 0);
    assert_eq!(p.total_supply(ZERO_ID), 0);
}

#[test]
fn refunding_asset_deposit_with_burn_disallowed_should_fail() {
    let mut p = new_test_ext();
    assert_eq!(p.force_create(Origin::Root, ZERO_ID, 1, false, 1), Ok(()));
    p.make_free_balance_be(1, 100);
    assert_eq!(p.touch(1, ZERO_ID), Ok(()));
    assert_eq!(p.mint(1, ZERO_ID, 100), Ok(()));
    assert_eq!(p.refund(1, ZERO_ID, false), Err(Error::WouldBurn));
}

#[test]
fn refunding_asset_deposit_without_burn_should_work() {
    let mut p = new_test_ext();
    assert_eq!(p.force_create(Origin::Root, ZERO_ID, 1, false, 1), Ok(()));
    assert_eq!(p.mint(1, ZERO_ID, 100), Err(Error::CannotCreate));
    p.make_free_balance_be(1, 100);
    assert_eq!(p.touch(1, ZERO_ID), Ok(()));
    assert_eq!(p.mint(1, ZERO_ID, 100), Ok(()));
    p.make_free_balance_be(2, 100);
    assert_eq!(p.transfer(1, ZERO_ID, 2, 100), Ok(()));
    assert_eq!(p.balance(ZERO_ID, 2), 100);
    assert_eq!(p.balance(ZERO_ID, 1), 0);
    assert_eq!(p.reserved_balance(1), 10);
    assert_eq!(p.refund(1, ZERO_ID, false), Ok(()));
    assert_eq!(p.reserved_balance(1), 0);
    assert_eq!(p.balance(ONE_ID, 0), 0);
}

#[test]
fn refunding_calls_died_hook() {
    let mut p = new_test_ext();
    assert_eq!(p.force_create(Origin::Root, ZERO_ID, 1, false, 1), Ok(()));
    p.make_free_balance_be(1, 100);
    assert_eq!(p.touch(1, ZERO_ID), Ok(()));
    assert_eq!(p.mint(1, ZERO_ID, 100), Ok(()));
    assert_eq!(p.refund(1, ZERO_ID, true), Ok(()));

    assert_eq!(p.asset_details(ZERO_ID).unwrap().accounts, 0);
    assert_eq!(p.hooks().clone(), vec![(ZERO_ID, 1)]);
}

#[test]
fn approval_lifecycle_works() {
    let mut p = new_test_ext();
    assert_eq!(p.approve_transfer(1, ZERO_ID, 2, 50), Err(Error::Unknown));
    assert_eq!(p.force_create(Origin::Root, ZERO_ID, 1, true, 1), Ok(()));
    assert_eq!(p.mint(1, ZERO_ID, 100), Ok(()));
    p.make_free_balance_be(1, 1);
    assert_eq!(p.approve_transfer(1, ZERO_ID, 2, 50), Ok(()));
    assert_eq!(p.asset_details(ZERO_ID).unwrap().approvals, 1);
    assert_eq!(p.reserved_balance(1), 1);
    assert_eq!(p.transfer_approved(2, ZERO_ID, 1, 3, 40), Ok(()));
    assert_eq!(p.asset_details(ZERO_ID).unwrap().approvals, 1);
    assert_eq!(p.cancel_approval(1, ZERO_ID, 2), Ok(()));
    assert_eq!(p.asset_details(ZERO_ID).unwrap().approvals, 0);
    assert_eq!(p.balance(ZERO_ID, 1), 60);
    assert_eq!(p.balance(ZERO_ID, 3), 40);
    assert_eq!(p.reserved_balance(1), 0);
}

#[test]
fn transfer_approved_all_funds() {
    let mut p = new_test_ext();
    assert_eq!(p.approve_transfer(1, ZERO_ID, 2, 50), Err(Error::Unknown));
    assert_eq!(p.force_create(Origin::Root, ZERO_ID, 1, true, 1), Ok(()));
    assert_eq!(p.mint(1, ZERO_ID, 100), Ok(()));
    p.make_free_balance_be(1, 1);
    assert_eq!(p.approve_transfer(1, ZERO_ID, 2, 50), Ok(()));
    assert_eq!(p.asset_details(ZERO_ID).unwrap().approvals, 1);
    assert_eq!(p.reserved_balance(1), 1);

    assert_eq!(p.transfer_approved(2, ZERO_ID, 1, 3, 50), Ok(()));
    assert_eq!(p.asset_details(ZERO_ID).unwrap().approvals, 0);
    assert_eq!(p.balance(ZERO_ID, 1), 50);
    assert_eq!(p.balance(ZERO_ID, 3), 50);
    assert_eq!(p.reserved_balance(1), 0);
}

#[test]
fn approval_deposits_work() {
    let mut p = new_test_ext();
    assert_eq!(p.force_create(Origin::Root, ZERO_ID, 1, true, 1), Ok(()));
    assert_eq!(p.mint(1, ZERO_ID, 100), Ok(()));
    assert_eq!(p.approve_transfer(1, ZERO_ID, 2, 50), Err(Error::InsufficientBalance));

    p.make_free_balance_be(1, 1);
    assert_eq!(p.approve_transfer(1, ZERO_ID, 2, 50), Ok(()));
    assert_eq!(p.reserved_balance(1), 1);

    assert_eq!(p.transfer_approved(2, ZERO_ID, 1, 3, 50), Ok(()));
    assert_eq!(p.reserved_balance(1), 0);

    assert_eq!(p.approve_transfer(1, ZERO_ID, 2, 50), Ok(()));
    assert_eq!(p.cancel_approval(1, ZERO_ID, 2), Ok(()));
    assert_eq!(p.reserved_balance(1), 0);
}

#[test]
fn cannot_transfer_more_than_approved() {
    let mut p = new_test_ext();
    assert_eq!(p.force_create(Origin::Root, ZERO_ID, 1, true, 1), Ok(()));
    assert_eq!(p.mint(1, ZERO_ID, 100), Ok(()));
    p.make_free_balance_be(1, 1);
    assert_eq!(p.approve_transfer(1, ZERO_ID, 2, 50), Ok(()));
    assert_eq!(p.transfer_approved(2, ZERO_ID, 1, 3, 51), Err(Error::Unapproved));
}

#[test]
fn cannot_transfer_more_than_exists() {
    let mut p = new_test_ext();
    assert_eq!(p.force_create(Origin::Root, ZERO_ID, 1, true, 1), Ok(()));
    assert_eq!(p.mint(1, ZERO_ID, 100), Ok(()));
    p.make_free_balance_be(1, 1);
    assert_eq!(p.approve_transfer(1, ZERO_ID, 2, 101), Ok(()));
    assert_eq!(p.transfer_approved(2, ZERO_ID, 1, 3, 101), Err(Error::BalanceLow));
}

#[test]
fn cancel_approval_works() {
    let mut p = new_test_ext();
    assert_eq!(p.force_create(Origin::Root, ZERO_ID, 1, true, 1), Ok(()));
    assert_eq!(p.mint(1, ZERO_ID, 100), Ok(()));
    p.make_free_balance_be(1, 1);
    assert_eq!(p.approve_transfer(1, ZERO_ID, 2, 50), Ok(()));
    assert_eq!(p.asset_details(ZERO_ID).unwrap().approvals, 1);
    assert_eq!(p.cancel_approval(1, ONE_ID, 2), Err(Error::Unknown));
    assert_eq!(p.cancel_approval(2, ZERO_ID, 2), Err(Error::Unknown));
    assert_eq!(p.cancel_approval(1, ZERO_ID, 3), Err(Error::Unknown));
    assert_eq!(p.asset_details(ZERO_ID).unwrap().approvals, 1);
    assert_eq!(p.cancel_approval(1, ZERO_ID, 2), Ok(()));
    assert_eq!(p.asset_details(ZERO_ID).unwrap().approvals, 0);
    assert_eq!(p.cancel_approval(1, ZERO_ID, 2), Err(Error::Unknown));
}

#[test]
fn force_cancel_approval_works() {
    let mut p = new_test_ext();
    assert_eq!(p.force_create(Origin::Root, ZERO_ID, 1, true, 1), Ok(()));
    assert_eq!(p.mint(1, ZERO_ID, 100), Ok(()));
    p.make_free_balance_be(1, 1);
    assert_eq!(p.approve_transfer(1, ZERO_ID, 2, 50), Ok(()));
    assert_eq!(p.asset_details(ZERO_ID).unwrap().approvals, 1);
    assert_eq!(p.force_cancel_approval(Origin::Signed(2), ZERO_ID, 1, 2), Err(Error::NoPermission));
    assert_eq!(p.force_cancel_approval(Origin::Signed(1), ONE_ID, 1, 2), Err(Error::Unknown));
    assert_eq!(p.force_cancel_approval(Origin::Signed(1), ZERO_ID, 2, 2), Err(Error::Unknown));
    assert_eq!(p.force_cancel_approval(Origin::Signed(1), ZERO_ID, 1, 3), Err(Error::Unknown));
    assert_eq!(p.asset_details(ZERO_ID).unwrap().approvals, 1);
    assert_eq!(p.force_cancel_approval(Origin::Signed(1), ZERO_ID, 1, 2), Ok(()));
    assert_eq!(p.asset_details(ZERO_ID).unwrap().approvals, 0);
    assert_eq!(p.force_cancel_approval(Origin::Signed(1), ZERO_ID, 1, 2), Err(Error::Unknown));
}

#[test]
fn lifecycle_should_work() {
    let mut p = new_test_ext();
    p.make_free_balance_be(1, 100);
    assert!(create(&mut p, 1).is_ok());
    assert_eq!(p.reserved_balance(1), 12);
    let id = p.get_current_asset_id(1).unwrap();
    assert!(p.asset_exists(id));

    assert_eq!(p.reserved_balance(1), 12);
    assert!(p.metadata(id).is_some());

    p.make_free_balance_be(10, 100);
    assert_eq!(p.mint(1, id, 100), Ok(()));
    p.make_free_balance_be(20, 100);
    assert_eq!(p.mint(1, id, 100), Ok(()));
    assert_eq!(p.account_count(id), 1);

    let w = p.asset_details(id).unwrap().destroy_witness();
    assert_eq!(p.destroy(Origin::Signed(1), id, w), Ok(()));
    assert_eq!(p.reserved_balance(1), 0);

    assert!(!p.asset_exists(id));
    assert!(p.metadata(id).is_none());
    assert_eq!(p.account_count(id), 0);

    assert!(create(&mut p, 1).is_ok());
    let second_id = p.get_current_asset_id(1).unwrap();
    assert_ne!(second_id, id);
    assert_eq!(p.reserved_balance(1), 12);
    assert!(p.asset_exists(second_id));

    assert_eq!(p.reserved_balance(1), 12);
    assert!(p.metadata(second_id).is_some());

    assert_eq!(p.mint(1, second_id, 100), Ok(()));
    assert_eq!(p.mint(1, second_id, 100), Ok(()));
    assert_eq!(p.account_count(second_id), 1);

    let w = p.asset_details(second_id).unwrap().destroy_witness();
    assert_eq!(p.destroy(Origin::Root, second_id, w), Ok(()));
    assert_eq!(p.reserved_balance(1), 0);

    assert!(!p.asset_exists(second_id));
    assert!(p.metadata(second_id).is_none());
    assert_eq!(p.account_count(second_id), 0);
}

#[test]
fn destroy_with_bad_witness_should_not_work() {
    let mut p = new_test_ext();
    p.make_free_balance_be(1, 100);
    assert_eq!(p.force_create(Origin::Root, ZERO_ID, 1, true, 1), Ok(()));
    let mut w = p.asset_details(ZERO_ID).unwrap().destroy_witness();
    assert_eq!(p.mint(1, ZERO_ID, 100), Ok(()));
    assert_eq!(p.destroy(Origin::Signed(1), ZERO_ID, w), Err(Error::BadWitness));
    w.accounts += 2;
    w.sufficients += 2;
    assert_eq!(p.destroy(Origin::Signed(1), ZERO_ID, w), Ok(()));
}

#[test]
fn destroy_should_refund_approvals() {
    let mut p = new_test_ext();
    p.make_free_balance_be(1, 100);
    assert_eq!(p.force_create(Origin::Root, ZERO_ID, 1, true, 1), Ok(()));
    assert_eq!(p.mint(1, ZERO_ID, 100), Ok(()));
    assert_eq!(p.approve_transfer(1, ZERO_ID, 2, 50), Ok(()));
    assert_eq!(p.approve_transfer(1, ZERO_ID, 3, 50), Ok(()));
    assert_eq!(p.approve_transfer(1, ZERO_ID, 4, 50), Ok(()));
    assert_eq!(p.reserved_balance(1), 3);

    let w = p.asset_details(ZERO_ID).unwrap().destroy_witness();
    assert_eq!(p.destroy(Origin::Signed(1), ZERO_ID, w), Ok(()));
    assert_eq!(p.reserved_balance(1), 0);

    assert_eq!(p.approval_count(ZERO_ID), 0);
    assert_eq!(p.approval_count(PREEXIST_ASSET), 0);
    assert_eq!(p.allowance(ZERO_ID, 1, 2), 0);
}

#[test]
fn non_providing_should_not_work() {
    let mut p = new_test_ext();
    assert_eq!(p.force_create(Origin::Root, ZERO_ID, 0, false, 1), Ok(()));

    p.make_free_balance_be(0, 100);
    assert_eq!(p.mint(0, ZERO_ID, 100), Ok(()));

    assert_eq!(p.transfer(0, ZERO_ID, 1, 50), Err(Error::CannotCreate));
    assert_eq!(p.force_transfer(1, ZERO_ID, 0, 1, 50), Err(Error::CannotCreate));

    p.make_free_balance_be(1, 100);
    p.make_free_balance_be(2, 100);
    assert_eq!(p.transfer(0, ZERO_ID, 1, 25), Ok(()));
    assert_eq!(p.force_transfer(0, ZERO_ID, 1, 2, 25), Ok(()));
}

#[test]
fn min_balance_should_work() {
    let mut p = new_test_ext();
    assert_eq!(p.force_create(Origin::Root, ZERO_ID, 1, true, 10), Ok(()));

    assert_eq!(p.mint(1, ZERO_ID, 9), Err(Error::BelowMinimum));
    assert_eq!(p.mint(1, ZERO_ID, 100), Ok(()));
    assert_eq!(p.asset_details(ZERO_ID).unwrap().accounts, 1);
    assert_eq!(p.transfer(1, ZERO_ID, 2, 9), Err(Error::BelowMinimum));
    assert_eq!(p.force_transfer(1, ZERO_ID, 1, 2, 9), Err(Error::BelowMinimum));

    // Death by `transfer`.
    assert_eq!(p.transfer(1, ZERO_ID, 2, 91), Ok(()));
    assert!(p.maybe_balance(ZERO_ID, 1).is_none());
    assert_eq!(p.balance(ZERO_ID, 2), 100);
    assert_eq!(p.asset_details(ZERO_ID).unwrap().accounts, 1);
    assert_eq!(p.take_hooks(), vec![(ZERO_ID, 1)]);

    // Death by `force_transfer`.
    assert_eq!(p.force_transfer(1, ZERO_ID, 2, 1, 91), Ok(()));
    assert!(p.maybe_balance(ZERO_ID, 2).is_none());
    assert_eq!(p.balance(ZERO_ID, 1), 100);
    assert_eq!(p.asset_details(ZERO_ID).unwrap().accounts, 1);
    assert_eq!(p.take_hooks(), vec![(ZERO_ID, 2)]);

    // Death by `burn`.
    assert_eq!(p.burn(1, ZERO_ID, 1, 91), Ok(()));
    assert!(p.maybe_balance(ZERO_ID, 1).is_none());
    assert_eq!(p.asset_details(ZERO_ID).unwrap().accounts, 0);
    assert_eq!(p.take_hooks(), vec![(ZERO_ID, 1)]);

    // Death by `transfer_approved`.
    assert_eq!(p.mint(1, ZERO_ID, 100), Ok(()));
    p.make_free_balance_be(1, 1);
    assert_eq!(p.approve_transfer(1, ZERO_ID, 2, 100), Ok(()));
    assert_eq!(p.transfer_approved(2, ZERO_ID, 1, 3, 91), Ok(()));
    assert_eq!(p.take_hooks(), vec![(ZERO_ID, 1)]);
}

#[test]
fn querying_total_supply_should_work() {
    let mut p = new_test_ext();
    assert_eq!(p.force_create(Origin::Root, ZERO_ID, 1, true, 1), Ok(()));
    assert_eq!(p.mint(1, ZERO_ID, 100), Ok(()));
    assert_eq!(p.balance(ZERO_ID, 1), 100);
    assert_eq!(p.transfer(1, ZERO_ID, 2, 50), Ok(()));
    assert_eq!(p.balance(ZERO_ID, 1), 50);
    assert_eq!(p.balance(ZERO_ID, 2), 50);
    assert_eq!(p.transfer(2, ZERO_ID, 3, 31), Ok(()));
    assert_eq!(p.balance(ZERO_ID, 1), 50);
    assert_eq!(p.balance(ZERO_ID, 2), 19);
    assert_eq!(p.balance(ZERO_ID, 3), 31);
    assert_eq!(p.burn(1, ZERO_ID, 3, 31), Ok(()));
    assert_eq!(p.total_supply(ZERO_ID), 69);
    assert_eq!(p.burn_certificate(3, ZERO_ID), Some(31));
}

#[test]
fn transferring_amount_below_available_balance_should_work() {
    let mut p = new_test_ext();
    assert_eq!(p.force_create(Origin::Root, ZERO_ID, 1, true, 1), Ok(()));
    assert_eq!(p.mint(1, ZERO_ID, 100), Ok(()));
    assert_eq!(p.balance(ZERO_ID, 1), 100);
    assert_eq!(p.transfer(1, ZERO_ID, 2, 50), Ok(()));
    assert_eq!(p.balance(ZERO_ID, 1), 50);
    assert_eq!(p.balance(ZERO_ID, 2), 50);
}

#[test]
fn transferring_enough_to_kill_source_when_keep_alive_should_fail() {
    let mut p = new_test_ext();
    assert_eq!(p.force_create(Origin::Root, ZERO_ID, 1, true, 10), Ok(()));
    assert_eq!(p.mint(1, ZERO_ID, 100), Ok(()));
    assert_eq!(p.balance(ZERO_ID, 1), 100);
    assert_eq!(p.transfer_keep_alive(1, ZERO_ID, 2, 91), Err(Error::BalanceLow));
    assert_eq!(p.transfer_keep_alive(1, ZERO_ID, 2, 90), Ok(()));
    assert_eq!(p.balance(ZERO_ID, 1), 10);
    assert_eq!(p.balance(ZERO_ID, 2), 90);
    assert!(p.hooks().is_empty());
}

#[test]
fn transferring_frozen_user_should_not_work() {
    let mut p = new_test_ext();
    assert_eq!(p.force_create(Origin::Root, ZERO_ID, 1, true, 1), Ok(()));
    assert_eq!(p.mint(1, ZERO_ID, 100), Ok(()));
    assert_eq!(p.balance(ZERO_ID, 1), 100);
    assert_eq!(p.freeze(1, ZERO_ID, 1), Ok(()));
    assert_eq!(p.transfer(1, ZERO_ID, 2, 50), Err(Error::Frozen));
    assert_eq!(p.thaw(1, ZERO_ID, 1), Ok(()));
    assert_eq!(p.transfer(1, ZERO_ID, 2, 50), Ok(()));
}

#[test]
fn transferring_frozen_asset_should_not_work() {
    let mut p = new_test_ext();
    assert_eq!(p.force_create(Origin::Root, ZERO_ID, 1, true, 1), Ok(()));
    assert_eq!(p.mint(1, ZERO_ID, 100), Ok(()));
    assert_eq!(p.balance(ZERO_ID, 1), 100);
    assert_eq!(p.freeze_asset(1, ZERO_ID), Ok(()));
    assert_eq!(p.transfer(1, ZERO_ID, 2, 50), Err(Error::Frozen));
    assert_eq!(p.thaw_asset(1, ZERO_ID), Ok(()));
    assert_eq!(p.transfer(1, ZERO_ID, 2, 50), Ok(()));
}

#[test]
fn approve_transfer_frozen_asset_should_not_work() {
    let mut p = new_test_ext();
    p.make_free_balance_be(1, 100);
    assert_eq!(p.force_create(Origin::Root, ZERO_ID, 1, true, 1), Ok(()));
    assert_eq!(p.mint(1, ZERO_ID, 100), Ok(()));
    assert_eq!(p.balance(ZERO_ID, 1), 100);
    assert_eq!(p.freeze_asset(1, ZERO_ID), Ok(()));
    assert_eq!(p.approve_transfer(1, ZERO_ID, 2, 50), Err(Error::Frozen));
    assert_eq!(p.thaw_asset(1, ZERO_ID), Ok(()));
    assert_eq!(p.approve_transfer(1, ZERO_ID, 2, 50), Ok(()));
}

#[test]
fn origin_guards_should_work() {
    let mut p = new_test_ext();
    assert_eq!(p.force_create(Origin::Root, ZERO_ID, 1, true, 1), Ok(()));
    assert_eq!(p.mint(1, ZERO_ID, 100), Ok(()));
    assert_eq!(p.transfer_ownership(2, ZERO_ID, 2), Err(Error::NoPermission));
    assert_eq!(p.freeze(2, ZERO_ID, 1), Err(Error::NoPermission));
    assert_eq!(p.thaw(2, ZERO_ID, 2), Err(Error::NoPermission));
    assert_eq!(p.mint(2, ZERO_ID, 100), Err(Error::NoPermission));
    assert_eq!(p.burn(2, ZERO_ID, 1, 100), Err(Error::NoPermission));
    assert_eq!(p.force_transfer(2, ZERO_ID, 1, 2, 100), Err(Error::NoPermission));
    let w = p.asset_details(ZERO_ID).unwrap().destroy_witness();
    assert_eq!(p.destroy(Origin::Signed(2), ZERO_ID, w), Err(Error::NoPermission));
}

#[test]
fn transfer_owner_should_work() {
    let mut p = new_test_ext();
    p.make_free_balance_be(1, 100);
    p.make_free_balance_be(2, 100);
    assert!(create(&mut p, 1).is_ok());
    let id = p.get_current_asset_id(1).unwrap();
    assert_eq!(p.reserved_balance(1), 12);

    assert_eq!(p.transfer_ownership(1, id, 2), Ok(()));
    assert_eq!(p.transfer_ownership(2, id, 2), Ok(()));
    assert_eq!(p.reserved_balance(2), 12);
    assert_eq!(p.reserved_balance(1), 0);

    assert_eq!(p.transfer_ownership(1, id, 1), Err(Error::NoPermission));

    assert_eq!(p.transfer_ownership(2, id, 1), Ok(()));
    assert_eq!(p.reserved_balance(1), 12);
    assert_eq!(p.reserved_balance(2), 0);
}

#[test]
fn transferring_to_frozen_account_should_work() {
    let mut p = new_test_ext();
    assert_eq!(p.force_create(Origin::Root, ZERO_ID, 1, true, 1), Ok(()));
    assert_eq!(p.mint(1, ZERO_ID, 100), Ok(()));
    assert_eq!(p.mint(1, ZERO_ID, 100), Ok(()));
    assert_eq!(p.balance(ZERO_ID, 1), 200);
    assert_eq!(p.transfer(1, ZERO_ID, 2, 5), Ok(()));
    assert_eq!(p.freeze(1, ZERO_ID, 2), Ok(()));
    assert_eq!(p.transfer(1, ZERO_ID, 2, 50), Ok(()));
    assert_eq!(p.balance(ZERO_ID, 2), 55);
}

#[test]
fn transferring_amount_more_than_available_balance_should_not_work() {
    let mut p = new_test_ext();
    assert_eq!(p.force_create(Origin::Root, ZERO_ID, 1, true, 1), Ok(()));
    assert_eq!(p.mint(1, ZERO_ID, 100), Ok(()));
    assert_eq!(p.balance(ZERO_ID, 1), 100);
    assert_eq!(p.transfer(1, ZERO_ID, 2, 50), Ok(()));
    assert_eq!(p.balance(ZERO_ID, 1), 50);
    assert_eq!(p.balance(ZERO_ID, 2), 50);
    assert_eq!(p.burn(1, ZERO_ID, 1, 50), Ok(()));
    assert_eq!(p.balance(ZERO_ID, 1), 0);
    assert_eq!(p.transfer(1, ZERO_ID, 1, 50), Err(Error::NoAccount));
    assert_eq!(p.transfer(2, ZERO_ID, 1, 51), Err(Error::BalanceLow));
}

#[test]
fn transferring_less_than_one_unit_is_fine() {
    let mut p = new_test_ext();
    assert_eq!(p.force_create(Origin::Root, ZERO_ID, 1, true, 1), Ok(()));
    assert_eq!(p.mint(1, ZERO_ID, 100), Ok(()));
    assert_eq!(p.balance(ZERO_ID, 1), 100);
    assert_eq!(p.transfer(1, ZERO_ID, 2, 0), Ok(()));
    // `ForceCreated` and `Issued` but no `Transferred` event.
    assert_eq!(p.events().len(), 2);
}

#[test]
fn transferring_more_units_than_total_supply_should_not_work() {
    let mut p = new_test_ext();
    assert_eq!(p.force_create(Origin::Root, ZERO_ID, 1, true, 1), Ok(()));
    assert_eq!(p.mint(1, ZERO_ID, 100), Ok(()));
    assert_eq!(p.balance(ZERO_ID, 1), 100);
    assert_eq!(p.transfer(1, ZERO_ID, 2, 101), Err(Error::BalanceLow));
}

#[test]
fn burning_asset_balance_with_zero_balance_does_nothing() {
    let mut p = new_test_ext();
    assert_eq!(p.force_create(Origin::Root, ZERO_ID, 1, true, 1), Ok(()));
    assert_eq!(p.mint(1, ZERO_ID, 100), Ok(()));
    assert_eq!(p.balance(ZERO_ID, 2), 0);
    assert_eq!(p.burn(1, ZERO_ID, 2, u64::MAX), Err(Error::NoAccount));
    assert_eq!(p.balance(ZERO_ID, 2), 0);
    assert_eq!(p.total_supply(ZERO_ID), 100);
}

#[test]
fn destroy_calls_died_hooks() {
    let mut p = new_test_ext();
    assert_eq!(p.force_create(Origin::Root, ZERO_ID, 1, true, 50), Ok(()));
    assert_eq!(p.mint(1, ZERO_ID, 100), Ok(()));
    assert_eq!(p.mint(1, ZERO_ID, 100), Ok(()));
    let w = p.asset_details(ZERO_ID).unwrap().destroy_witness();
    assert_eq!(p.destroy(Origin::Signed(1), ZERO_ID, w), Ok(()));

    assert!(p.asset_details(ZERO_ID).is_none());
    assert_eq!(p.hooks().clone(), vec![(ZERO_ID, 1)]);
}

#[test]
fn freezer_should_work() {
    let mut p = new_test_ext();
    assert_eq!(p.force_create(Origin::Root, ZERO_ID, 1, true, 10), Ok(()));
    assert_eq!(p.mint(1, ZERO_ID, 100), Ok(()));
    assert_eq!(p.balance(ZERO_ID, 1), 100);

    // freeze 50 of it.
    p.set_frozen_balance(ZERO_ID, 1, 50);

    assert_eq!(p.transfer(1, ZERO_ID, 2, 20), Ok(()));
    // the non-frozen 30 cannot go below the minimum balance of 10.
    assert_eq!(p.transfer(1, ZERO_ID, 2, 21), Err(Error::BalanceLow));

    p.make_free_balance_be(1, 100);
    assert_eq!(p.approve_transfer(1, ZERO_ID, 2, 50), Ok(()));
    assert_eq!(p.transfer_approved(2, ZERO_ID, 1, 2, 21), Err(Error::BalanceLow));
    assert_eq!(p.force_transfer(1, ZERO_ID, 1, 2, 21), Err(Error::BalanceLow));

    p.set_frozen_balance(ZERO_ID, 1, 49);
    assert_eq!(p.force_transfer(1, ZERO_ID, 1, 2, 21), Ok(()));

    p.clear_frozen_balance(ZERO_ID, 1);
    assert_eq!(p.transfer(1, ZERO_ID, 2, 50), Ok(()));
    assert_eq!(p.hooks().clone(), vec![(ZERO_ID, 1)]);
}

#[test]
fn force_metadata_should_work() {
    let mut p = new_test_ext();
    assert_eq!(p.force_create(Origin::Root, ZERO_ID, 1, true, 1), Ok(()));
    assert_eq!(
        p.force_set_metadata(Origin::Root, ZERO_ID, vec![0u8; 10], vec![0u8; 10], vec![0u8; 10], vec![0u8; 10], 8, false),
        Ok(())
    );
    assert!(p.metadata(ZERO_ID).is_some());

    let previous_metadata = p.metadata(ZERO_ID);
    assert_eq!(
        p.force_set_metadata(Origin::Root, ZERO_ID, vec![1u8; 10], vec![1u8; 10], vec![0u8; 10], vec![0u8; 10], 8, false),
        Ok(())
    );
    assert_ne!(p.metadata(ZERO_ID), previous_metadata);

    assert_eq!(
        p.force_set_metadata(Origin::Root, ONE_ID, vec![0u8; 10], vec![0u8; 10], vec![0u8; 10], vec![0u8; 10], 8, false),
        Err(Error::Unknown)
    );

    let limit = 50usize;
    assert_eq!(
        p.force_set_metadata(Origin::Root, ZERO_ID, vec![0u8; limit + 1], vec![0u8; 10], vec![0u8; 10], vec![0u8; 10], 8, false),
        Err(Error::BadMetadata)
    );
    assert_eq!(
        p.force_set_metadata(Origin::Root, ZERO_ID, vec![0u8; 10], vec![0u8; limit + 1], vec![0u8; 10], vec![0u8; 10], 8, false),
        Err(Error::BadMetadata)
    );
    assert_eq!(
        p.force_set_metadata(Origin::Root, ZERO_ID, vec![0u8; 10], vec![0u8; 10], vec![0u8; limit + 1], vec![0u8; 10], 8, false),
        Err(Error::BadMetadata)
    );
    assert_eq!(
        p.force_set_metadata(Origin::Root, ZERO_ID, vec![0u8; 10], vec![0u8; 10], vec![0u8; 10], vec![0u8; limit + 1], 8, false),
        Err(Error::BadMetadata)
    );

    assert!(p.metadata(ZERO_ID).is_some());
    assert_eq!(p.force_clear_metadata(Origin::Root, ZERO_ID), Ok(()));
    assert!(p.metadata(ZERO_ID).is_none());

    assert_eq!(p.force_clear_metadata(Origin::Root, ONE_ID), Err(Error::Unknown));
}

#[test]
fn force_asset_status_should_work() {
    let mut p = new_test_ext();
    p.make_free_balance_be(1, 100);
    p.make_free_balance_be(2, 10);
    assert!(create(&mut p, 1).is_ok());
    let id = p.get_current_asset_id(1).unwrap();
    assert_eq!(p.mint(1, id, 200), Ok(()));
    assert_eq!(p.transfer(1, id, 2, 150), Ok(()));

    // raise min_balance above a balance
    assert_eq!(p.force_asset_status(Origin::Root, id, 1, 1, 1, 1, 100, true, false), Ok(()));
    assert_eq!(p.balance(id, 1), 50);

    // the account can receive while below min_balance
    assert_eq!(p.transfer(2, id, 1, 1), Ok(()));
    assert_eq!(p.balance(id, 1), 51);

    // an outbound transfer drains it
    assert_eq!(p.transfer(1, id, 2, 1), Ok(()));
    assert_eq!(p.balance(id, 1), 0);

    // no new account below min_balance
    assert_eq!(p.transfer(2, id, 3, 50), Err(Error::BelowMinimum));

    assert_eq!(
        p.force_asset_status(Origin::Root, ONE_ID, 1, 1, 1, 1, 90, true, false),
        Err(Error::Unknown)
    );

    // the account drains to completion when funds dip below min_balance
    assert_eq!(p.force_asset_status(Origin::Root, id, 1, 1, 1, 1, 110, true, false), Ok(()));
    assert_eq!(p.transfer(2, id, 1, 110), Ok(()));
    assert_eq!(p.balance(id, 1), 200);
    assert_eq!(p.balance(id, 2), 0);
    assert_eq!(p.total_supply(id), 200);
}

#[test]
fn assets_from_genesis_should_exist() {
    let p = new_test_ext();
    assert!(p.asset_exists(PREEXIST_ASSET));
    assert!(p.metadata(PREEXIST_ASSET).is_some());
    assert_eq!(p.balance(PREEXIST_ASSET, 1), 100);
    assert_eq!(p.total_supply(PREEXIST_ASSET), 100);
}

#[test]
fn querying_name_symbol_and_decimals_should_work() {
    let mut p = new_test_ext();
    assert_eq!(p.force_create(Origin::Root, ZERO_ID, 1, true, 1), Ok(()));
    assert_eq!(
        p.force_set_metadata(Origin::Root, ZERO_ID, vec![0u8; 10], vec![1u8; 10], vec![0u8; 10], vec![0u8; 10], 12, false),
        Ok(())
    );
    assert_eq!(p.name(ZERO_ID), vec![0u8; 10]);
    assert_eq!(p.symbol(ZERO_ID), vec![1u8; 10]);
    assert_eq!(p.decimals(ZERO_ID), 12);
}

#[test]
fn querying_allowance_should_work() {
    let mut p = new_test_ext();
    assert_eq!(p.force_create(Origin::Root, ZERO_ID, 1, true, 1), Ok(()));
    assert_eq!(p.mint(1, ZERO_ID, 100), Ok(()));
    p.make_free_balance_be(1, 1);
    assert_eq!(p.approve(ZERO_ID, 1, 2, 50), Ok(()));
    assert_eq!(p.allowance(ZERO_ID, 1, 2), 50);
    assert_eq!(p.transfer_from(ZERO_ID, 1, 2, 3, 50), Ok(()));
    assert_eq!(p.allowance(ZERO_ID, 1, 2), 0);
}

#[test]
fn transfer_large_asset() {
    let mut p = new_test_ext();
    let amount = u64::pow(2, 63) + 2;
    assert_eq!(p.force_create(Origin::Root, ZERO_ID, 1, true, 1), Ok(()));
    assert_eq!(p.mint(1, ZERO_ID, amount), Ok(()));
    assert_eq!(p.transfer(1, ZERO_ID, 2, amount - 1), Ok(()));
}

#[test]
fn set_custodian_ok() {
    let mut p = new_test_ext();
    let custodian = 10;
    assert_eq!(p.set_custodian(Origin::Root, custodian), Ok(()));
    assert_eq!(p.get_custodian(), Some(custodian));
}

#[test]
fn set_custodian_fail() {
    let mut p = new_test_ext();
    let custodian = 10;
    assert_eq!(p.set_custodian(Origin::Signed(1), custodian), Err(Error::BadOrigin));
    assert!(p.get_custodian() != Some(custodian));
}

#[test]
fn create_asset_with_generated_name() {
    let mut p = new_test_ext();
    let user = 4;
    p.make_free_balance_be(user, 1000);
    assert!(create(&mut p, user).is_ok());
    let id = p.get_current_asset_id(user).unwrap();

    let metadata = p.metadata(id).unwrap();
    assert!(metadata.name.len() == 5);
    assert!(metadata.symbol.len() == 5);
    assert_eq!(metadata.deposit, 11);
    let aseet_details = p.asset_details(id).unwrap();
    assert_eq!(aseet_details.owner, user);
    assert_eq!(aseet_details.deposit, 1);
    assert_eq!(aseet_details.is_sufficient, false);
    assert_eq!(aseet_details.accounts, 0);
    assert_eq!(aseet_details.sufficients, 0);
    assert_eq!(aseet_details.approvals, 0);
    assert_eq!(aseet_details.is_frozen, false);
}

#[test]
fn create_asset_ensure_user_cannot_mint() {
    let mut p = new_test_ext();
    let user = 4;
    p.make_free_balance_be(user, 1000);
    assert!(create(&mut p, user).is_ok());
    let id = p.get_current_asset_id(user).unwrap();
    assert_eq!(p.mint(user, id, 500), Err(Error::NoPermission));
}

#[test]
fn create_asset_failed_no_custodian() {
    let mut p = test_ext_no_custodian();
    let user = 4;
    p.make_free_balance_be(user, 1000);
    assert_eq!(create(&mut p, user), Err(Error::NoCustodian));
}

#[test]
fn create_asset_failed_no_balance() {
    let mut p = new_test_ext();
    let user = 4;
    assert_eq!(create(&mut p, user), Err(Error::InsufficientBalance));
}

#[test]
fn set_project_data_by_user() {
    let mut p = new_test_ext();
    let user = 4;
    p.make_free_balance_be(user, 1000);
    assert!(create(&mut p, user).is_ok());
    let id = p.get_current_asset_id(user).unwrap();

    assert_eq!(p.set_project_data(user, id, url(), data4()), Ok(()));
    let metadata = p.metadata(id).unwrap();
    assert!(metadata.name.len() > 0);
    assert!(metadata.symbol.len() > 0);
    assert!(metadata.url.len() == 4);
    assert!(metadata.data_ipfs.len() == 4);
}

#[test]
fn set_project_data_by_custodian() {
    let mut p = new_test_ext();
    let user = 4;
    p.make_free_balance_be(user, 1000);
    assert!(create(&mut p, user).is_ok());
    let id = p.get_current_asset_id(user).unwrap();

    assert_eq!(p.set_project_data(CUSTODIAN, id, url(), data4()), Ok(()));
    let metadata = p.metadata(id).unwrap();
    assert!(metadata.name.len() > 0);
    assert!(metadata.symbol.len() > 0);
    assert!(metadata.url.len() == 4);
    assert!(metadata.data_ipfs.len() == 4);
}

#[test]
fn set_project_data_second_time() {
    let mut p = new_test_ext();
    let user = 4;
    p.make_free_balance_be(user, 1000);
    assert!(create(&mut p, user).is_ok());
    let id = p.get_current_asset_id(user).unwrap();

    assert_eq!(p.set_project_data(user, id, url(), data4()), Ok(()));
    let metadata = p.metadata(id).unwrap();
    assert!(metadata.name.len() > 0);
    assert!(metadata.symbol.len() > 0);
    assert!(metadata.url.len() == 4);
    assert!(metadata.data_ipfs.len() == 4);

    assert_eq!(p.set_project_data(user, id, url(), data5()), Ok(()));
    let metadata = p.metadata(id).unwrap();
    assert!(metadata.name.len() > 0);
    assert!(metadata.symbol.len() > 0);
    assert!(metadata.url.len() == 4);
    assert!(metadata.data_ipfs.len() == 5);
}

#[test]
fn set_project_data_after_mint_fail() {
    let mut p = new_test_ext();
    let user = 4;
    p.make_free_balance_be(user, 1000);
    assert!(create(&mut p, user).is_ok());
    let id = p.get_current_asset_id(user).unwrap();

    assert_eq!(p.set_project_data(user, id, url(), data4()), Ok(()));
    let metadata = p.metadata(id).unwrap();
    assert!(metadata.name.len() > 0);
    assert!(metadata.symbol.len() > 0);
    assert!(metadata.url.len() == 4);
    assert!(metadata.data_ipfs.len() == 4);

    assert_eq!(p.mint(CUSTODIAN, id, 100), Ok(()));
    assert_eq!(p.set_project_data(user, id, url(), data5()), Err(Error::CannotChangeAfterMint));
    let metadata = p.metadata(id).unwrap();
    assert!(metadata.name.len() > 0);
    assert!(metadata.symbol.len() > 0);
    assert!(metadata.url.len() == 4);
    assert!(metadata.data_ipfs.len() == 4);
}

#[test]
fn set_project_data_failed() {
    let mut p = new_test_ext();
    let user = 4;
    p.make_free_balance_be(user, 1000);
    assert!(create(&mut p, user).is_ok());
    let id = p.get_current_asset_id(user).unwrap();

    assert_eq!(
        p.set_project_data(
            user,
            id,
            url(),
            "123456789012345678901234567890123456789012345678901234567".as_bytes().to_vec()
        ),
        Err(Error::BadMetadata)
    );
    assert_eq!(
        p.set_project_data(5, id, url(), "1234".as_bytes().to_vec()),
        Err(Error::NoPermission)
    );
}

#[test]
fn custodian_mint() {
    let mut p = new_test_ext();
    let user = 4;
    p.make_free_balance_be(user, 1000);
    assert!(create(&mut p, user).is_ok());
    let id = p.get_current_asset_id(user).unwrap();
    assert_eq!(p.set_project_data(user, id, url(), data4()), Ok(()));
    assert_eq!(p.mint(CUSTODIAN, id, 500), Ok(()));
    assert_eq!(500, p.balance(id, user));
}

#[test]
fn not_custodian_cannot_mint() {
    let mut p = new_test_ext();
    let user = 4;
    p.make_free_balance_be(user, 1000);
    assert!(create(&mut p, user).is_ok());
    let id = p.get_current_asset_id(user).unwrap();
    assert_eq!(p.set_project_data(user, id, url(), data4()), Ok(()));
    assert_eq!(p.mint(3, id, 500), Err(Error::NoPermission));
}

#[test]
fn custodian_full_circle() {
    let mut p = new_test_ext();
    let user1 = 4;
    let user2 = 5;
    p.make_free_balance_be(user1, 1000);
    p.make_free_balance_be(user2, 1000);
    p.make_free_balance_be(CUSTODIAN, 1000);
    assert!(create(&mut p, CUSTODIAN).is_ok());
    let id = p.get_current_asset_id(CUSTODIAN).unwrap();
    assert_eq!(p.set_project_data(CUSTODIAN, id, url(), data4()), Ok(()));
    assert_eq!(p.mint(CUSTODIAN, id, 1500), Ok(()));
    assert_eq!(1500, p.balance(id, CUSTODIAN));

    assert_eq!(p.transfer(CUSTODIAN, id, user1, 500), Ok(()));
    assert_eq!(p.transfer(CUSTODIAN, id, user2, 700), Ok(()));

    assert_eq!(p.burn(CUSTODIAN, id, user1, 100), Ok(()));
    assert_eq!(400, p.balance(id, user1));
    assert_eq!(Some(100), p.burn_certificate(user1, id));

    assert_eq!(p.burn(CUSTODIAN, id, user2, 100), Ok(()));
    assert_eq!(600, p.balance(id, user2));
    assert_eq!(Some(100), p.burn_certificate(user2, id));
}

#[test]
fn custodian_burn() {
    let mut p = new_test_ext();
    let user = 4;
    p.make_free_balance_be(user, 1000);
    assert!(create(&mut p, user).is_ok());
    let id = p.get_current_asset_id(user).unwrap();
    assert_eq!(p.set_project_data(user, id, url(), data4()), Ok(()));
    assert_eq!(p.mint(CUSTODIAN, id, 500), Ok(()));
    assert_eq!(500, p.balance(id, user));

    assert_eq!(p.burn(CUSTODIAN, id, user, 100), Ok(()));
    assert_eq!(400, p.balance(id, user));
    assert_eq!(Some(100), p.burn_certificate(user, id));
}

#[test]
fn custodian_burn_several_times() {
    let mut p = new_test_ext();
    let user = 4;
    p.make_free_balance_be(user, 1000);
    assert!(create(&mut p, user).is_ok());
    let id = p.get_current_asset_id(user).unwrap();
    assert_eq!(p.set_project_data(user, id, url(), data4()), Ok(()));
    assert_eq!(p.mint(CUSTODIAN, id, 500), Ok(()));
    assert_eq!(500, p.balance(id, user));

    assert_eq!(p.burn(CUSTODIAN, id, user, 100), Ok(()));
    assert_eq!(400, p.balance(id, user));
    assert_eq!(Some(100), p.burn_certificate(user, id));

    assert_eq!(p.burn(CUSTODIAN, id, user, 111), Ok(()));
    assert_eq!(289, p.balance(id, user));
    assert_eq!(Some(211), p.burn_certificate(user, id));
}

#[test]
fn user_self_burn() {
    let mut p = new_test_ext();
    let user = 4;
    p.make_free_balance_be(user, 1000);
    assert!(create(&mut p, user).is_ok());
    let id = p.get_current_asset_id(user).unwrap();
    assert_eq!(p.set_project_data(user, id, url(), data4()), Ok(()));
    assert_eq!(p.mint(CUSTODIAN, id, 500), Ok(()));
    assert_eq!(500, p.balance(id, user));

    assert_eq!(p.self_burn(user, id, 100), Ok(()));
    assert_eq!(400, p.balance(id, user));
    assert_eq!(Some(100), p.burn_certificate(user, id));

    assert_eq!(p.self_burn(user, id, 100), Ok(()));
    assert_eq!(300, p.balance(id, user));
    assert_eq!(Some(200), p.burn_certificate(user, id));
}

#[test]
fn user_cannot_self_burn_more() {
    let mut p = new_test_ext();
    let user = 4;
    p.make_free_balance_be(user, 1000);
    assert!(create(&mut p, user).is_ok());
    let id = p.get_current_asset_id(user).unwrap();
    assert_eq!(p.set_project_data(user, id, url(), data4()), Ok(()));
    assert_eq!(p.mint(CUSTODIAN, id, 500), Ok(()));
    assert_eq!(500, p.balance(id, user));

    assert_eq!(p.self_burn(user, id, 100), Ok(()));
    assert_eq!(400, p.balance(id, user));
    assert_eq!(Some(100), p.burn_certificate(user, id));

    assert_eq!(p.self_burn(user, id, 500), Err(Error::BalanceLow));
    assert_eq!(400, p.balance(id, user));
    assert_eq!(Some(100), p.burn_certificate(user, id));
}

#[test]
fn custodian_cannot_burn_more() {
    let mut p = new_test_ext();
    let user = 4;
    p.make_free_balance_be(user, 1000);
    assert!(create(&mut p, user).is_ok());
    let id = p.get_current_asset_id(user).unwrap();
    assert_eq!(p.set_project_data(user, id, url(), data4()), Ok(()));
    assert_eq!(p.mint(CUSTODIAN, id, 500), Ok(()));
    assert_eq!(500, p.balance(id, user));

    assert_eq!(p.self_burn(user, id, 100), Ok(()));
    assert_eq!(400, p.balance(id, user));
    assert_eq!(Some(100), p.burn_certificate(user, id));

    assert_eq!(p.burn(CUSTODIAN, id, user, 500), Err(Error::BalanceLow));
    assert_eq!(400, p.balance(id, user));
    assert_eq!(Some(100), p.burn_certificate(user, id));
}
