//! Cross-cutting scenarios: the supply invariant on concrete values,
//! self-transfers, cap-sized supplies and zero-amount fills.

use eco2_core::errors::Error;
use eco2_core::exchange::{pot_account_id, Exchange, ASK};
use eco2_core::ids::Id;
use eco2_core::money::MoneyLedger;
use eco2_core::registry::Registry;

const OWNER: u64 = 1;
const APPROVER: bool = true;
const NOW: u64 = 3;

#[test]
fn supply_equals_sum_of_balances_through_the_workflow() {
    let mut reg = Registry::new();
    let (pid, _) = reg
        .submit_project(OWNER, b"ECO".to_vec(), 10_000, b"p".to_vec(), NOW)
        .unwrap();
    reg.approve_project(APPROVER, pid).unwrap();
    let (aid, _) = reg
        .submit_asset(OWNER, pid, b"2020".to_vec(), 600, b"a".to_vec(), NOW)
        .unwrap();
    reg.approve_asset(APPROVER, aid).unwrap();
    let (iid, _) = reg.submit_issue(OWNER, aid, 150, b"i".to_vec(), NOW).unwrap();
    reg.approve_issue(APPROVER, iid).unwrap();
    let (bid, _) = reg.submit_burn(OWNER, aid, 50, b"b".to_vec(), NOW).unwrap();
    reg.approve_burn(APPROVER, bid).unwrap();
    reg.transfer(OWNER, aid, 2, 123, NOW).unwrap();
    reg.transfer(2, aid, 3, 23, NOW).unwrap();

    let total = reg.get_asset(aid).unwrap().total_supply;
    assert_eq!(total, 700);
    assert_eq!(reg.get_project(pid).unwrap().total_supply, 700);
    let sum = reg.get_balance(aid, OWNER) + reg.get_balance(aid, 2) + reg.get_balance(aid, 3);
    assert_eq!(sum, total);
}

#[test]
fn transfer_to_self_changes_nothing() {
    let mut reg = Registry::new();
    let (pid, _) = reg
        .submit_project(OWNER, b"ECO".to_vec(), 1000, b"p".to_vec(), NOW)
        .unwrap();
    reg.approve_project(APPROVER, pid).unwrap();
    let (aid, _) = reg
        .submit_asset(OWNER, pid, b"2020".to_vec(), 100, b"a".to_vec(), NOW)
        .unwrap();
    reg.approve_asset(APPROVER, aid).unwrap();
    assert!(reg.transfer(OWNER, aid, OWNER, 60, NOW).is_ok());
    assert_eq!(reg.get_balance(aid, OWNER), 100);
    // still bounded by the balance
    assert_eq!(reg.transfer(OWNER, aid, OWNER, 101, NOW).unwrap_err(), Error::BalanceLow);
}

#[test]
fn a_cap_sized_supply_is_handled() {
    let mut reg = Registry::new();
    let (pid, _) = reg
        .submit_project(OWNER, b"MAX".to_vec(), u64::MAX, b"p".to_vec(), NOW)
        .unwrap();
    reg.approve_project(APPROVER, pid).unwrap();
    let (aid, _) = reg
        .submit_asset(OWNER, pid, b"2020".to_vec(), u64::MAX, b"a".to_vec(), NOW)
        .unwrap();
    reg.approve_asset(APPROVER, aid).unwrap();
    assert_eq!(reg.get_balance(aid, OWNER), u64::MAX);
    // not one unit more fits
    let r = reg.submit_issue(OWNER, aid, 1, b"i".to_vec(), NOW);
    assert_eq!(r.unwrap_err(), Error::OverIssueLimit);
}

#[test]
fn a_zero_amount_fill_only_reports_a_deal() {
    let mut reg = Registry::new();
    let (pid, _) = reg
        .submit_project(OWNER, b"ECO".to_vec(), 1000, b"p".to_vec(), NOW)
        .unwrap();
    reg.approve_project(APPROVER, pid).unwrap();
    let (aid, _) = reg
        .submit_asset(OWNER, pid, b"2020".to_vec(), 100, b"a".to_vec(), NOW)
        .unwrap();
    reg.approve_asset(APPROVER, aid).unwrap();
    let mut money = MoneyLedger::new();
    money.deposit(2, 100);
    let mut ex = Exchange::new();
    let (oid, _) = ex
        .make_order(&mut reg, &mut money, OWNER, aid, Id::zero(), 5, 100, ASK, 1, NOW)
        .unwrap();
    let (_deal, fin) = ex.take_order(&mut reg, &mut money, 2, oid, 0, NOW).unwrap();
    assert!(fin.is_none());
    assert_eq!(ex.get_order(oid).unwrap().left_amount, 100);
    assert_eq!(reg.get_balance(aid, pot_account_id()), 100);
    assert_eq!(money.get(2), 100);
}
