//! Event payloads. Every successful state transition returns one (the
//! caller decides how to publish it); a rejected operation returns none.

use vstd::prelude::*;

use crate::ids::Id;

verus! {

/// What a successful operation reports.
#[derive(Debug)]
pub enum Event {
    /// A project was submitted.
    ProjectSubmitted { project_id: Id, owner: u64, symbol: Vec<u8>, timestamp: u64 },
    /// A project was approved.
    ProjectApproved { project_id: Id },
    /// An asset was submitted under a project.
    AssetSubmitted {
        project_id: Id,
        asset_id: Id,
        symbol: Vec<u8>,
        vintage: Vec<u8>,
        owner: u64,
        timestamp: u64,
    },
    /// An asset was approved; its initial supply entered circulation.
    AssetApproved { asset_id: Id },
    /// An issue request was submitted.
    IssueSubmitted { issue_id: Id, asset_id: Id, owner: u64, amount: u64, timestamp: u64 },
    /// An issue request was approved.
    IssueApproved { issue_id: Id },
    /// A burn request was submitted.
    BurnSubmitted { burn_id: Id, asset_id: Id, owner: u64, amount: u64, timestamp: u64 },
    /// A burn request was approved.
    BurnApproved { burn_id: Id },
    /// Asset units moved between two accounts.
    Transferred { asset_id: Id, from: u64, to: u64, amount: u64, timestamp: u64 },
    /// Asset units were retired from the caller's own balance.
    Neutralized { asset_id: Id, owner: u64, amount: u64, timestamp: u64 },
    /// An order was placed and its maker side escrowed.
    NewOrder { order_id: Id, maker: u64, asset_id: Id, money_id: Id, timestamp: u64 },
    /// An order was filled, in part or in full.
    NewDeal {
        order_id: Id,
        asset_id: Id,
        money_id: Id,
        maker: u64,
        taker: u64,
        price: u64,
        amount: u64,
        direction: u8,
        timestamp: u64,
    },
    /// An order's remaining amount reached zero and it was deleted.
    OrderFinished { order_id: Id },
    /// An order was cancelled by its maker and its escrow refunded.
    OrderCanceled { order_id: Id },
}

/// Copy a byte string, keeping its contents.
pub fn clone_bytes(v: &Vec<u8>) -> (r: Vec<u8>)
    ensures
        r@ == v@,
{
    let r = v.clone();
    proof {
        assert forall|i: int| 0 <= i < v@.len() implies r@[i] == v@[i] by {
        }
        assert(r@ =~= v@);
    }
    r
}

} // verus!
