use eco2_core::errors::Error;
use eco2_core::events::Event;
use eco2_core::ids::Id;
use eco2_core::registry::{Registry, Status};

const OWNER: u64 = 1;
const APPROVER: bool = true;
const NOW: u64 = 42;

fn new_project(reg: &mut Registry, owner: u64, max_supply: u64) -> Id {
    let (pid, _ev) = reg
        .submit_project(owner, b"CO2".to_vec(), max_supply, b"p".to_vec(), NOW)
        .unwrap();
    pid
}

fn approved_asset(reg: &mut Registry, owner: u64, max_supply: u64, initial: u64) -> (Id, Id) {
    let pid = new_project(reg, owner, max_supply);
    reg.approve_project(APPROVER, pid).unwrap();
    let (aid, _ev) = reg
        .submit_asset(owner, pid, b"2020".to_vec(), initial, b"a".to_vec(), NOW)
        .unwrap();
    reg.approve_asset(APPROVER, aid).unwrap();
    (pid, aid)
}

#[test]
fn submit_project_records_pending_project_and_event() {
    let mut reg = Registry::new();
    let (pid, ev) = reg
        .submit_project(OWNER, b"CO2".to_vec(), 1000, b"meta".to_vec(), NOW)
        .unwrap();
    let p = reg.get_project(pid).unwrap();
    assert_eq!(p.symbol, b"CO2".to_vec());
    assert_eq!(p.max_supply, 1000);
    assert_eq!(p.total_supply, 0);
    assert_eq!(p.owner, OWNER);
    assert!(matches!(p.status, Status::Pending));
    match ev {
        Event::ProjectSubmitted { project_id, owner, symbol, timestamp } => {
            assert_eq!(project_id, pid);
            assert_eq!(owner, OWNER);
            assert_eq!(symbol, b"CO2".to_vec());
            assert_eq!(timestamp, NOW);
        },
        other => panic!("unexpected event {:?}", other),
    }
}

#[test]
fn identical_submission_is_a_duplicate_key() {
    let mut reg = Registry::new();
    new_project(&mut reg, OWNER, 1000);
    let r = reg.submit_project(OWNER, b"CO2".to_vec(), 1000, b"p".to_vec(), NOW);
    assert_eq!(r.unwrap_err(), Error::DuplicatedKey);
}

#[test]
fn different_submissions_get_different_ids() {
    let mut reg = Registry::new();
    let a = new_project(&mut reg, OWNER, 1000);
    let (b, _) = reg
        .submit_project(OWNER, b"CO3".to_vec(), 2000, b"q".to_vec(), NOW)
        .unwrap();
    assert_ne!(a, b);
}

#[test]
fn approving_a_project_twice_is_rejected() {
    let mut reg = Registry::new();
    let pid = new_project(&mut reg, OWNER, 1000);
    assert!(reg.approve_project(APPROVER, pid).is_ok());
    assert_eq!(reg.approve_project(APPROVER, pid).unwrap_err(), Error::AlreadyApproved);
    // the record is untouched by the failed second approval
    assert!(matches!(reg.get_project(pid).unwrap().status, Status::Approved));
}

#[test]
fn approval_needs_the_approver_role() {
    let mut reg = Registry::new();
    let pid = new_project(&mut reg, OWNER, 1000);
    assert_eq!(reg.approve_project(false, pid).unwrap_err(), Error::PermissionDenied);
    assert!(matches!(reg.get_project(pid).unwrap().status, Status::Pending));
}

#[test]
fn approving_an_unknown_project_is_invalid_index() {
    let mut reg = Registry::new();
    let no_id = Id { w0: 9, w1: 9, w2: 9, w3: 9 };
    assert_eq!(reg.approve_project(APPROVER, no_id).unwrap_err(), Error::InvalidIndex);
}

#[test]
fn asset_submission_needs_an_approved_project() {
    let mut reg = Registry::new();
    let pid = new_project(&mut reg, OWNER, 1000);
    let r = reg.submit_asset(OWNER, pid, b"2020".to_vec(), 100, b"a".to_vec(), NOW);
    assert_eq!(r.unwrap_err(), Error::ProjectNotApproved);
}

#[test]
fn asset_submission_needs_the_project_owner() {
    let mut reg = Registry::new();
    let pid = new_project(&mut reg, OWNER, 1000);
    reg.approve_project(APPROVER, pid).unwrap();
    let r = reg.submit_asset(2, pid, b"2020".to_vec(), 100, b"a".to_vec(), NOW);
    assert_eq!(r.unwrap_err(), Error::PermissionDenied);
}

#[test]
fn supply_cap_scenario_second_asset_over_the_limit() {
    // Project cap 1000; a 600 asset is approved, so approving a 500 one
    // must fail the re-checked bound at approval time.
    let mut reg = Registry::new();
    let pid = new_project(&mut reg, OWNER, 1000);
    reg.approve_project(APPROVER, pid).unwrap();
    let (a1, _) = reg
        .submit_asset(OWNER, pid, b"2020".to_vec(), 600, b"a".to_vec(), NOW)
        .unwrap();
    let (a2, _) = reg
        .submit_asset(OWNER, pid, b"2021".to_vec(), 500, b"b".to_vec(), NOW)
        .unwrap();
    reg.approve_asset(APPROVER, a1).unwrap();
    assert_eq!(reg.get_balance(a1, OWNER), 600);
    assert_eq!(reg.get_project(pid).unwrap().total_supply, 600);
    assert_eq!(reg.approve_asset(APPROVER, a2).unwrap_err(), Error::OverIssueLimit);
    // and a fresh over-cap submission is already rejected
    let r = reg.submit_asset(OWNER, pid, b"2022".to_vec(), 500, b"c".to_vec(), NOW);
    assert_eq!(r.unwrap_err(), Error::OverIssueLimit);
}

#[test]
fn issue_approval_raises_supply_and_balance() {
    let mut reg = Registry::new();
    let (pid, aid) = approved_asset(&mut reg, OWNER, 1000, 600);
    let (iid, _) = reg
        .submit_issue(OWNER, aid, 150, b"i".to_vec(), NOW)
        .unwrap();
    assert!(matches!(reg.get_issue(iid).unwrap().status, Status::Pending));
    reg.approve_issue(APPROVER, iid).unwrap();
    assert!(matches!(reg.get_issue(iid).unwrap().status, Status::Approved));
    assert_eq!(reg.get_asset(aid).unwrap().total_supply, 750);
    assert_eq!(reg.get_project(pid).unwrap().total_supply, 750);
    assert_eq!(reg.get_balance(aid, OWNER), 750);
    assert_eq!(reg.approve_issue(APPROVER, iid).unwrap_err(), Error::AlreadyApproved);
}

#[test]
fn issue_over_the_cap_is_rejected() {
    let mut reg = Registry::new();
    let (_pid, aid) = approved_asset(&mut reg, OWNER, 1000, 600);
    let r = reg.submit_issue(OWNER, aid, 500, b"i".to_vec(), NOW);
    assert_eq!(r.unwrap_err(), Error::OverIssueLimit);
}

#[test]
fn issue_needs_an_approved_asset() {
    let mut reg = Registry::new();
    let pid = new_project(&mut reg, OWNER, 1000);
    reg.approve_project(APPROVER, pid).unwrap();
    let (aid, _) = reg
        .submit_asset(OWNER, pid, b"2020".to_vec(), 100, b"a".to_vec(), NOW)
        .unwrap();
    let r = reg.submit_issue(OWNER, aid, 10, b"i".to_vec(), NOW);
    assert_eq!(r.unwrap_err(), Error::AssetNotApproved);
}

#[test]
fn burn_approval_lowers_supply_and_balance() {
    let mut reg = Registry::new();
    let (pid, aid) = approved_asset(&mut reg, OWNER, 1000, 600);
    let (bid, _) = reg
        .submit_burn(OWNER, aid, 200, b"b".to_vec(), NOW)
        .unwrap();
    reg.approve_burn(APPROVER, bid).unwrap();
    assert_eq!(reg.get_asset(aid).unwrap().total_supply, 400);
    assert_eq!(reg.get_project(pid).unwrap().total_supply, 400);
    assert_eq!(reg.get_balance(aid, OWNER), 400);
    assert_eq!(reg.approve_burn(APPROVER, bid).unwrap_err(), Error::AlreadyApproved);
}

#[test]
fn burn_submission_needs_the_balance_now() {
    let mut reg = Registry::new();
    let (_pid, aid) = approved_asset(&mut reg, OWNER, 1000, 600);
    let r = reg.submit_burn(OWNER, aid, 601, b"b".to_vec(), NOW);
    assert_eq!(r.unwrap_err(), Error::BalanceLow);
}

#[test]
fn burn_approval_rechecks_the_balance() {
    // The owner's balance drops between submission and approval: the
    // approval must fail rather than floor the debit at zero.
    let mut reg = Registry::new();
    let (_pid, aid) = approved_asset(&mut reg, OWNER, 1000, 600);
    let (bid, _) = reg
        .submit_burn(OWNER, aid, 500, b"b".to_vec(), NOW)
        .unwrap();
    reg.transfer(OWNER, aid, 2, 400, NOW).unwrap();
    assert_eq!(reg.approve_burn(APPROVER, bid).unwrap_err(), Error::BalanceLow);
    // nothing moved
    assert_eq!(reg.get_balance(aid, OWNER), 200);
    assert_eq!(reg.get_asset(aid).unwrap().total_supply, 600);
}

#[test]
fn transfer_moves_exactly_the_amount() {
    let mut reg = Registry::new();
    let (_pid, aid) = approved_asset(&mut reg, OWNER, 1000, 600);
    let ev = reg.transfer(OWNER, aid, 2, 250, NOW).unwrap();
    assert_eq!(reg.get_balance(aid, OWNER), 350);
    assert_eq!(reg.get_balance(aid, 2), 250);
    match ev {
        Event::Transferred { asset_id, from, to, amount, timestamp } => {
            assert_eq!(asset_id, aid);
            assert_eq!(from, OWNER);
            assert_eq!(to, 2);
            assert_eq!(amount, 250);
            assert_eq!(timestamp, NOW);
        },
        other => panic!("unexpected event {:?}", other),
    }
}

#[test]
fn transfer_conservation_under_failure() {
    let mut reg = Registry::new();
    let (_pid, aid) = approved_asset(&mut reg, OWNER, 1000, 600);
    assert_eq!(reg.transfer(OWNER, aid, 2, 601, NOW).unwrap_err(), Error::BalanceLow);
    assert_eq!(reg.get_balance(aid, OWNER), 600);
    assert_eq!(reg.get_balance(aid, 2), 0);
}
