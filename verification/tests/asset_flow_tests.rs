//! Balance-flow scenarios: crediting the issuer, moving units between
//! holders, and retiring balances directly.

use eco2_core::errors::Error;
use eco2_core::ids::Id;
use eco2_core::registry::Registry;

const APPROVER: bool = true;
const NOW: u64 = 7;

fn issue_to(owner: u64, first_supply: u64) -> (Registry, Id) {
    let mut reg = Registry::new();
    let (pid, _) = reg
        .submit_project(owner, b"ECO".to_vec(), 1_000_000, b"p".to_vec(), NOW)
        .unwrap();
    reg.approve_project(APPROVER, pid).unwrap();
    let (aid, _) = reg
        .submit_asset(owner, pid, b"2020".to_vec(), first_supply, b"a".to_vec(), NOW)
        .unwrap();
    reg.approve_asset(APPROVER, aid).unwrap();
    (reg, aid)
}

#[test]
fn issuing_asset_units_to_issuer_should_work() {
    let (reg, aid) = issue_to(1, 100);
    assert_eq!(reg.get_balance(aid, 1), 100);
}

#[test]
fn querying_total_supply_should_work() {
    let (mut reg, aid) = issue_to(1, 100);
    assert_eq!(reg.get_balance(aid, 1), 100);
    assert!(reg.transfer(1, aid, 2, 50, NOW).is_ok());
    assert_eq!(reg.get_balance(aid, 1), 50);
    assert_eq!(reg.get_balance(aid, 2), 50);
    assert!(reg.transfer(2, aid, 3, 31, NOW).is_ok());
    assert_eq!(reg.get_balance(aid, 1), 50);
    assert_eq!(reg.get_balance(aid, 2), 19);
    assert_eq!(reg.get_balance(aid, 3), 31);
    assert!(reg.neutralize(3, aid, 31, b"n".to_vec(), NOW).is_ok());
    let held = reg.get_balance(aid, 1) + reg.get_balance(aid, 2) + reg.get_balance(aid, 3);
    assert_eq!(held, 69);
}

#[test]
fn transferring_amount_above_available_balance_should_work() {
    let (mut reg, aid) = issue_to(1, 100);
    assert_eq!(reg.get_balance(aid, 1), 100);
    assert!(reg.transfer(1, aid, 2, 50, NOW).is_ok());
    assert_eq!(reg.get_balance(aid, 1), 50);
    assert_eq!(reg.get_balance(aid, 2), 50);
}

#[test]
fn transferring_amount_more_than_available_balance_should_not_work() {
    let (mut reg, aid) = issue_to(1, 100);
    assert_eq!(reg.get_balance(aid, 1), 100);
    assert!(reg.transfer(1, aid, 2, 50, NOW).is_ok());
    assert_eq!(reg.get_balance(aid, 1), 50);
    assert_eq!(reg.get_balance(aid, 2), 50);
    assert!(reg.neutralize(1, aid, 50, b"n".to_vec(), NOW).is_ok());
    assert_eq!(reg.get_balance(aid, 1), 0);
    assert_eq!(reg.transfer(1, aid, 1, 50, NOW).unwrap_err(), Error::BalanceLow);
}

#[test]
fn transferring_less_than_one_unit_should_not_work() {
    let (mut reg, aid) = issue_to(1, 100);
    assert_eq!(reg.get_balance(aid, 1), 100);
    assert_eq!(reg.transfer(1, aid, 2, 0, NOW).unwrap_err(), Error::AmountZero);
}

#[test]
fn transferring_more_units_than_total_supply_should_not_work() {
    let (mut reg, aid) = issue_to(1, 100);
    assert_eq!(reg.get_balance(aid, 1), 100);
    assert_eq!(reg.transfer(1, aid, 2, 101, NOW).unwrap_err(), Error::BalanceLow);
}

#[test]
fn destroying_asset_balance_with_positive_balance_should_work() {
    let (mut reg, aid) = issue_to(1, 100);
    assert_eq!(reg.get_balance(aid, 1), 100);
    assert!(reg.neutralize(1, aid, 100, b"n".to_vec(), NOW).is_ok());
    assert_eq!(reg.get_balance(aid, 1), 0);
}

#[test]
fn destroying_asset_balance_with_zero_balance_should_not_work() {
    let (mut reg, aid) = issue_to(1, 100);
    assert_eq!(reg.get_balance(aid, 2), 0);
    assert_eq!(
        reg.neutralize(2, aid, 1, b"n".to_vec(), NOW).unwrap_err(),
        Error::BalanceLow
    );
}
