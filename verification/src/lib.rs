//! Core of a carbon-credit system: an asset registry with a
//! submit/approve lifecycle, a per-asset balance ledger, and a
//! two-sided escrowed order exchange, all verified.
//!
//! State-mutating operations are methods on explicit state values
//! ([`registry::Registry`], [`exchange::Exchange`], [`money::MoneyLedger`]).
//! The caller identity, the approver gate and the clock are explicit
//! parameters; events are returned to the caller rather than dispatched.

pub mod sums;
pub mod ids;
pub mod table;
pub mod errors;
pub mod ledger;
pub mod events;
pub mod registry;
pub mod money;
pub mod exchange;
pub mod laws;
