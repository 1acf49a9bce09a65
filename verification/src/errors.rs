//! The error taxonomy. Every rejected operation leaves state exactly as
//! it was and returns one of these kinds; none is fatal.

use vstd::prelude::*;

verus! {

/// Why an operation was rejected.
#[derive(Clone, Copy, PartialEq, Eq, Structural, Debug)]
pub enum Error {
    /// The referenced entity does not exist.
    InvalidIndex,
    /// The derived identifier collides with an existing record.
    DuplicatedKey,
    /// The record was already approved once.
    AlreadyApproved,
    /// The owning project is still pending.
    ProjectNotApproved,
    /// The asset is still pending.
    AssetNotApproved,
    /// The caller lacks the required ownership or role.
    PermissionDenied,
    /// No asset record exists under the given identifier.
    AssetNotExist,
    /// The supply cap would be exceeded.
    OverIssueLimit,
    /// A zero amount was given.
    AmountZero,
    /// A zero price was given.
    PriceZero,
    /// The account's ledger balance is too low.
    BalanceLow,
    /// The asset balance at the relevant account is too low.
    InsuffientAsset,
    /// The settlement-currency balance is too low.
    InsuffientMoney,
    /// The pot's asset escrow does not cover the fill.
    InsuffientPotAsset,
    /// The fill exceeds what is left of the order.
    AmountHigh,
    /// The order direction is neither ask nor bid.
    InvalidDirection,
    /// The quote currency is not the supported settlement currency.
    InvalidMoneyID,
}

} // verus!
