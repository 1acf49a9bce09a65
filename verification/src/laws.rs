//! The library's stated laws, proved from the operations' contracts.

use vstd::prelude::*;

use crate::errors::Error;
use crate::exchange::{
    cancel_order_applied, initial_locked, make_order_applied, Exchange, POT_ACCOUNT,
};
use crate::ids::Id;
use crate::money::MoneyLedger;
use crate::registry::{project_assets_total, transfer_applied, Registry};

verus! {

/// Supply invariant: in any well-formed state where no balance has been
/// retired outside the burn workflow, an asset's recorded total supply
/// equals the circulating sum of its balances, and its project's
/// recorded total supply equals the sum of its assets' totals.
pub proof fn lemma_supply_invariant(r: &Registry, asset_id: Id)
    requires
        r.wf(),
        r.supply_exact(),
        r.asset(asset_id) is Some,
    ensures
        r.circulating(asset_id) == r.asset(asset_id).unwrap().total_supply as int,
        r.project(r.asset(asset_id).unwrap().project_id) matches Some(p) && p.total_supply as int
            == project_assets_total(r.assets@, r.asset(asset_id).unwrap().project_id),
{
    let a = r.asset(asset_id).unwrap();
    assert(r.asset_ok(asset_id, a));
    assert(r.project_ok(a.project_id, r.project(a.project_id).unwrap()));
}

/// Monotonic workflow: once a project is approved, a second approval
/// attempt is answered with AlreadyApproved (and the operation's
/// contract then leaves the state unchanged).
pub proof fn lemma_project_approved_once(r: &Registry, approver: bool, project_id: Id)
    requires
        approver,
        r.project(project_id) matches Some(p) && p.status is Approved,
    ensures
        r.approve_project_check(approver, project_id) == Some(Error::AlreadyApproved),
{
}

/// Monotonic workflow: once an asset is approved, a second approval
/// attempt is answered with AlreadyApproved.
pub proof fn lemma_asset_approved_once(r: &Registry, approver: bool, asset_id: Id)
    requires
        approver,
        r.asset(asset_id) matches Some(a) && a.status is Approved,
    ensures
        r.approve_asset_check(approver, asset_id) == Some(Error::AlreadyApproved),
{
}

/// Monotonic workflow: once an issue is approved, a second approval
/// attempt is answered with AlreadyApproved.
pub proof fn lemma_issue_approved_once(r: &Registry, approver: bool, issue_id: Id)
    requires
        approver,
        r.issue(issue_id) matches Some(i) && i.status is Approved,
    ensures
        r.approve_issue_check(approver, issue_id) == Some(Error::AlreadyApproved),
{
}

/// Monotonic workflow: once a burn is approved, a second approval
/// attempt is answered with AlreadyApproved.
pub proof fn lemma_burn_approved_once(r: &Registry, approver: bool, burn_id: Id)
    requires
        approver,
        r.burn(burn_id) matches Some(b) && b.status is Approved,
    ensures
        r.approve_burn_check(approver, burn_id) == Some(Error::AlreadyApproved),
{
}

/// Conservation under transfer: a successful transfer between two
/// distinct accounts moves exactly the amount, keeps the two balances'
/// sum, and keeps every circulating total.
pub proof fn lemma_transfer_conservation(
    pre: &Registry,
    post: &Registry,
    caller: u64,
    asset_id: Id,
    to: u64,
    amount: u64,
)
    requires
        caller != to,
        transfer_applied(pre, post, caller, asset_id, to, amount),
    ensures
        post.balance(asset_id, caller) + post.balance(asset_id, to) == pre.balance(
            asset_id,
            caller,
        ) + pre.balance(asset_id, to),
        post.balance(asset_id, caller) == pre.balance(asset_id, caller) - amount,
        post.balance(asset_id, to) == pre.balance(asset_id, to) + amount,
        post.circulating(asset_id) == pre.circulating(asset_id),
{
}

/// Conservation under transfer, failing half: a transfer of more than
/// the caller holds is answered with BalanceLow (and the operation's
/// contract then leaves the state unchanged).
pub proof fn lemma_transfer_insufficient_rejected(
    r: &Registry,
    caller: u64,
    asset_id: Id,
    amount: u64,
)
    requires
        amount != 0,
        r.balance(asset_id, caller) < amount as int,
    ensures
        r.transfer_check(caller, asset_id, amount) == Some(Error::BalanceLow),
{
}

/// Order escrow conservation: placing an order and cancelling it at
/// once, with no fill in between, restores the maker's asset and
/// settlement balances and the pot's exactly, and leaves no order.
pub proof fn lemma_order_escrow_conservation(
    ex0: &Exchange,
    reg0: &Registry,
    m0: &MoneyLedger,
    ex1: &Exchange,
    reg1: &Registry,
    m1: &MoneyLedger,
    ex2: &Exchange,
    reg2: &Registry,
    m2: &MoneyLedger,
    maker: u64,
    asset_id: Id,
    money_id: Id,
    price: u64,
    amount: u64,
    direction: u8,
    salt: u64,
    oid: Id,
)
    requires
        make_order_applied(
            ex0,
            reg0,
            m0,
            ex1,
            reg1,
            m1,
            maker,
            asset_id,
            money_id,
            price,
            amount,
            direction,
            salt,
            oid,
        ),
        cancel_order_applied(ex1, reg1, m1, ex2, reg2, m2, maker, oid),
    ensures
        reg2.balance(asset_id, maker) == reg0.balance(asset_id, maker),
        m2.balance(maker) == m0.balance(maker),
        reg2.balance(asset_id, POT_ACCOUNT) == reg0.balance(asset_id, POT_ACCOUNT),
        m2.balance(POT_ACCOUNT) == m0.balance(POT_ACCOUNT),
        ex2.order(oid) is None,
{
    let o = ex1.order(oid).unwrap();
    assert(o.left_amount == amount);
    assert(o.locked_balance == initial_locked(direction, amount, price));
}

} // verus!
