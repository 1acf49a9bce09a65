//! The asset registry: project, asset, issue and burn records with their
//! pending/approved workflow, driving the balance ledger on approval.
//!
//! The registry's well-formedness ties the records and the ledger
//! together: for every asset the circulating sum of balances never
//! exceeds its recorded total supply (and equals it while no balance has
//! been retired outside the burn workflow, see [`Registry::supply_exact`]),
//! and every project's total supply is exactly the sum of its assets'.

use vstd::prelude::*;

use crate::errors::Error;
use crate::events::{clone_bytes, Event};
use crate::ids::{
    asset_id_of, burn_id_of, derive_asset_id, derive_burn_id, derive_issue_id, derive_project_id,
    issue_id_of, project_id_of, Id,
};
use crate::ledger::{asset_weight, Ledger};
use crate::sums::{
    lemma_element_le_sum, lemma_sum_nonneg, lemma_sum_push, lemma_sum_remove, lemma_sum_zero,
    weighted_sum,
};
use crate::table::{lemma_get_index, lemma_get_present, table_get, Table};

verus! {

/// Workflow state of a record: created pending, approved at most once.
#[derive(Clone, Copy, PartialEq, Eq, Structural, Debug)]
pub enum Status {
    Pending,
    Approved,
}

/// A registered carbon-offset initiative with a supply cap.
#[derive(Debug)]
pub struct CarbonProject {
    pub symbol: Vec<u8>,
    pub max_supply: u64,
    pub total_supply: u64,
    pub status: Status,
    pub owner: u64,
}

/// A vintage-specific tranche of credits under a project.
#[derive(Debug)]
pub struct CarbonAsset {
    pub project_id: Id,
    pub vintage: Vec<u8>,
    pub initial_supply: u64,
    pub total_supply: u64,
    pub status: Status,
}

/// A request to mint supply against an asset.
#[derive(Debug)]
pub struct IssueInfo {
    pub asset_id: Id,
    pub amount: u64,
    pub status: Status,
    pub additional: Vec<u8>,
}

/// A request to retire supply against an asset.
#[derive(Debug)]
pub struct BurnInfo {
    pub asset_id: Id,
    pub amount: u64,
    pub status: Status,
    pub additional: Vec<u8>,
}

/// The weight an asset pair contributes to project `pid`'s total supply.
pub open spec fn asset_contribution(pid: Id) -> spec_fn((Id, CarbonAsset)) -> int {
    |p: (Id, CarbonAsset)| if p.1.project_id == pid { p.1.total_supply as int } else { 0 }
}

/// The sum of the total supplies of `pid`'s assets.
pub open spec fn project_assets_total(s: Seq<(Id, CarbonAsset)>, pid: Id) -> int {
    weighted_sum(s, asset_contribution(pid))
}

/// The registry state: all records and the balance ledger.
pub struct Registry {
    pub projects: Table<CarbonProject>,
    pub assets: Table<CarbonAsset>,
    pub issues: Table<IssueInfo>,
    pub burns: Table<BurnInfo>,
    pub project_additionals: Table<Vec<u8>>,
    pub asset_additionals: Table<Vec<u8>>,
    pub ledger: Ledger,
}

impl Registry {
    /// The project stored under `id`, if any.
    pub open spec fn project(&self, id: Id) -> Option<CarbonProject> {
        self.projects.spec_get(id)
    }

    /// The asset stored under `id`, if any.
    pub open spec fn asset(&self, id: Id) -> Option<CarbonAsset> {
        self.assets.spec_get(id)
    }

    /// The issue request stored under `id`, if any.
    pub open spec fn issue(&self, id: Id) -> Option<IssueInfo> {
        self.issues.spec_get(id)
    }

    /// The burn request stored under `id`, if any.
    pub open spec fn burn(&self, id: Id) -> Option<BurnInfo> {
        self.burns.spec_get(id)
    }

    /// The ledger balance of `account` for `asset_id` (zero by default).
    pub open spec fn balance(&self, asset_id: Id, account: u64) -> int {
        self.ledger.balance(asset_id, account)
    }

    /// The sum of all account balances for `asset_id`.
    pub open spec fn circulating(&self, asset_id: Id) -> int {
        self.ledger.supply(asset_id)
    }

    /// What well-formedness asks of one asset record.
    pub open spec fn asset_ok(&self, k: Id, a: CarbonAsset) -> bool {
        &&& self.circulating(k) <= a.total_supply
        &&& (self.project(a.project_id) matches Some(p) && p.status is Approved)
        &&& (a.status is Pending ==> a.total_supply == 0)
    }

    /// What well-formedness asks of one project record.
    pub open spec fn project_ok(&self, k: Id, p: CarbonProject) -> bool {
        &&& p.total_supply as int == project_assets_total(self.assets@, k)
        &&& p.total_supply <= p.max_supply
    }

    /// An issue or burn request always names an approved asset.
    pub open spec fn request_ok(&self, asset_id: Id) -> bool {
        self.asset(asset_id) matches Some(a) && a.status is Approved
    }

    /// The invariant every operation preserves.
    pub open spec fn wf(&self) -> bool {
        &&& self.projects.wf()
        &&& self.assets.wf()
        &&& self.issues.wf()
        &&& self.burns.wf()
        &&& self.project_additionals.wf()
        &&& self.asset_additionals.wf()
        &&& self.ledger.wf()
        &&& forall|k: Id| (#[trigger] self.asset(k)) matches Some(a) ==> self.asset_ok(k, a)
        &&& forall|k: Id| self.asset(k) is None ==> #[trigger] self.circulating(k) == 0
        &&& forall|k: Id| (#[trigger] self.project(k)) matches Some(p) ==> self.project_ok(k, p)
        &&& forall|k: Id| (#[trigger] self.issue(k)) matches Some(i) ==> self.request_ok(i.asset_id)
        &&& forall|k: Id| (#[trigger] self.burn(k)) matches Some(b) ==> self.request_ok(b.asset_id)
    }

    /// Every asset's recorded total supply is exactly the circulating sum
    /// of balances. It holds after any sequence of submit, approve,
    /// transfer and exchange operations; only `neutralize`, which retires
    /// balance outside the burn workflow, lowers the sum below the total.
    pub open spec fn supply_exact(&self) -> bool {
        forall|k: Id|
            (#[trigger] self.asset(k)) matches Some(a) ==> self.circulating(k)
                == a.total_supply as int
    }

    /// An empty registry.
    pub fn new() -> (r: Self)
        ensures
            r.wf(),
            r.supply_exact(),
            forall|k: Id| #[trigger] r.project(k) is None,
            forall|k: Id| #[trigger] r.asset(k) is None,
            forall|k: Id| #[trigger] r.issue(k) is None,
            forall|k: Id| #[trigger] r.burn(k) is None,
            forall|a: Id, acct: u64| #[trigger] r.balance(a, acct) == 0,
    {
        let r = Registry {
            projects: Table::new(),
            assets: Table::new(),
            issues: Table::new(),
            burns: Table::new(),
            project_additionals: Table::new(),
            asset_additionals: Table::new(),
            ledger: Ledger::new(),
        };
        r
    }

    /// Look up a project.
    pub fn get_project(&self, id: Id) -> (r: Option<&CarbonProject>)
        requires
            self.wf(),
        ensures
            match r {
                Some(p) => self.project(id) == Some(*p),
                None => self.project(id) is None,
            },
    {
        self.projects.get(id)
    }

    /// Look up an asset.
    pub fn get_asset(&self, id: Id) -> (r: Option<&CarbonAsset>)
        requires
            self.wf(),
        ensures
            match r {
                Some(a) => self.asset(id) == Some(*a),
                None => self.asset(id) is None,
            },
    {
        self.assets.get(id)
    }

    /// Look up an issue request.
    pub fn get_issue(&self, id: Id) -> (r: Option<&IssueInfo>)
        requires
            self.wf(),
        ensures
            match r {
                Some(i) => self.issue(id) == Some(*i),
                None => self.issue(id) is None,
            },
    {
        self.issues.get(id)
    }

    /// Look up a burn request.
    pub fn get_burn(&self, id: Id) -> (r: Option<&BurnInfo>)
        requires
            self.wf(),
        ensures
            match r {
                Some(b) => self.burn(id) == Some(*b),
                None => self.burn(id) is None,
            },
    {
        self.burns.get(id)
    }

    /// Whether an asset record exists under `id`.
    pub fn has_asset(&self, id: Id) -> (r: bool)
        requires
            self.wf(),
        ensures
            r == (self.asset(id) is Some),
    {
        self.assets.contains_key(id)
    }

    /// Read a ledger balance.
    pub fn get_balance(&self, asset_id: Id, account: u64) -> (r: u64)
        requires
            self.wf(),
        ensures
            r as int == self.balance(asset_id, account),
    {
        self.ledger.get(asset_id, account)
    }

    /// The ledger transfer primitive: a no-op between identical accounts,
    /// otherwise a debit of `from` and a matching credit of `to`.
    /// Succeeds exactly when the source balance covers the amount.
    pub fn make_transfer(&mut self, asset_id: Id, from: u64, to: u64, amount: u64) -> (r: Result<
        (),
        Error,
    >)
        requires
            old(self).wf(),
        ensures
            final(self).wf(),
            old(self).supply_exact() ==> final(self).supply_exact(),
            same_records(old(self), final(self)),
            r is Ok <==> (from == to || old(self).balance(asset_id, from) >= amount),
            r matches Err(e) ==> e == Error::BalanceLow && *final(self) == *old(self),
            from == to ==> *final(self) == *old(self),
            r is Ok && from != to ==> {
                &&& final(self).balance(asset_id, from) == old(self).balance(asset_id, from)
                    - amount
                &&& final(self).balance(asset_id, to) == old(self).balance(asset_id, to) + amount
                &&& forall|a2: Id, acct2: u64|
                    !(a2 == asset_id && (acct2 == from || acct2 == to))
                        ==> #[trigger] final(self).balance(a2, acct2) == old(self).balance(
                        a2,
                        acct2,
                    )
            },
            forall|a2: Id| #[trigger] final(self).circulating(a2) == old(self).circulating(a2),
    {
        proof {
            self.lemma_supply_bounded(asset_id);
        }
        let r = self.ledger.transfer(asset_id, from, to, amount);
        proof {
            lemma_wf_after_ledger_op(old(self), self);
            if old(self).supply_exact() {
                lemma_exact_after_ledger_op(old(self), self);
            }
        }
        r
    }

    /// Under well-formedness, an asset's circulating sum fits in a word.
    proof fn lemma_supply_bounded(&self, asset_id: Id)
        requires
            self.wf(),
        ensures
            0 <= self.circulating(asset_id) <= u64::MAX,
    {
        crate::ledger::lemma_balance_le_sum(self.ledger@, asset_id, 0);
        if self.asset(asset_id) is Some {
            assert(self.asset_ok(asset_id, self.asset(asset_id).unwrap()));
        }
    }

    /// Move `amount` asset units from the caller to `to`. Rejects a zero
    /// amount and an uncovered balance; otherwise delegates to the
    /// transfer primitive.
    pub fn transfer(&mut self, caller: u64, asset_id: Id, to: u64, amount: u64, now: u64) -> (r:
        Result<Event, Error>)
        requires
            old(self).wf(),
        ensures
            final(self).wf(),
            old(self).supply_exact() ==> final(self).supply_exact(),
            same_records(old(self), final(self)),
            r is Err <==> old(self).transfer_check(caller, asset_id, amount) is Some,
            r matches Err(e) ==> Some(e) == old(self).transfer_check(caller, asset_id, amount)
                && *final(self) == *old(self),
            r is Ok ==> transfer_applied(old(self), final(self), caller, asset_id, to, amount),
            r matches Ok(ev) ==> ev matches Event::Transferred {
                asset_id: a,
                from,
                to: t,
                amount: m,
                timestamp,
            } && a == asset_id && from == caller && t == to && m == amount && timestamp == now,
    {
        let origin_balance = self.ledger.get(asset_id, caller);
        if amount == 0 {
            return Err(Error::AmountZero);
        }
        if origin_balance < amount {
            return Err(Error::BalanceLow);
        }
        let r = self.make_transfer(asset_id, caller, to, amount);
        match r {
            Ok(()) => Ok(
                Event::Transferred { asset_id, from: caller, to, amount, timestamp: now },
            ),
            Err(e) => {
                proof {
                    assert(false);
                }
                Err(e)
            },
        }
    }

    /// Why a transfer request would be rejected, if it would be.
    pub open spec fn transfer_check(&self, caller: u64, asset_id: Id, amount: u64) -> Option<
        Error,
    > {
        if amount == 0 {
            Some(Error::AmountZero)
        } else if self.balance(asset_id, caller) < amount {
            Some(Error::BalanceLow)
        } else {
            None
        }
    }

    /// Retire `amount` units from the caller's own balance, outside the
    /// burn workflow. Rejects a zero amount and an uncovered balance.
    pub fn neutralize(&mut self, caller: u64, asset_id: Id, amount: u64, additional: Vec<u8>, now:
        u64) -> (r: Result<Event, Error>)
        requires
            old(self).wf(),
        ensures
            final(self).wf(),
            same_records(old(self), final(self)),
            r is Err <==> old(self).transfer_check(caller, asset_id, amount) is Some,
            r matches Err(e) ==> Some(e) == old(self).transfer_check(caller, asset_id, amount)
                && *final(self) == *old(self),
            r is Ok ==> {
                &&& final(self).balance(asset_id, caller) == old(self).balance(asset_id, caller)
                    - amount
                &&& forall|a2: Id, acct2: u64|
                    !(a2 == asset_id && acct2 == caller) ==> #[trigger] final(self).balance(
                        a2,
                        acct2,
                    ) == old(self).balance(a2, acct2)
                &&& final(self).circulating(asset_id) == old(self).circulating(asset_id) - amount
                &&& forall|a2: Id|
                    a2 != asset_id ==> #[trigger] final(self).circulating(a2) == old(
                        self,
                    ).circulating(a2)
            },
            r matches Ok(ev) ==> ev matches Event::Neutralized {
                asset_id: a,
                owner,
                amount: m,
                timestamp,
            } && a == asset_id && owner == caller && m == amount && timestamp == now,
    {
        let _ = additional;
        let origin_balance = self.ledger.get(asset_id, caller);
        if amount == 0 {
            return Err(Error::AmountZero);
        }
        if origin_balance < amount {
            return Err(Error::BalanceLow);
        }
        self.ledger.debit(asset_id, caller, amount);
        proof {
            lemma_wf_after_ledger_op(old(self), self);
        }
        Ok(Event::Neutralized { asset_id, owner: caller, amount, timestamp: now })
    }

    /// Why a project submission would be rejected, if it would be.
    pub open spec fn submit_project_check(
        &self,
        caller: u64,
        symbol: Seq<u8>,
        max_supply: u64,
        additional: Seq<u8>,
    ) -> Option<Error> {
        if self.project(project_id_of(caller, symbol, max_supply, additional)) is Some {
            Some(Error::DuplicatedKey)
        } else {
            None
        }
    }

    /// Register a new project, pending approval. Its identifier is the
    /// content hash of the submission; a collision is rejected as a
    /// duplicate key.
    pub fn submit_project(
        &mut self,
        caller: u64,
        symbol: Vec<u8>,
        max_supply: u64,
        additional: Vec<u8>,
        now: u64,
    ) -> (r: Result<(Id, Event), Error>)
        requires
            old(self).wf(),
            symbol@.len() <= u32::MAX,
            additional@.len() <= u32::MAX,
        ensures
            final(self).wf(),
            old(self).supply_exact() ==> final(self).supply_exact(),
            r is Err <==> old(self).submit_project_check(caller, symbol@, max_supply, additional@)
                is Some,
            r matches Err(e) ==> Some(e) == old(self).submit_project_check(
                caller,
                symbol@,
                max_supply,
                additional@,
            ) && *final(self) == *old(self),
            r matches Ok((id, ev)) ==> {
                &&& id == project_id_of(caller, symbol@, max_supply, additional@)
                &&& old(self).project(id) is None
                &&& (final(self).project(id) matches Some(p) && p.symbol@ == symbol@
                    && p.max_supply == max_supply && p.total_supply == 0 && p.status is Pending
                    && p.owner == caller)
                &&& forall|k: Id|
                    k != id ==> #[trigger] final(self).project(k) == old(self).project(k)
                &&& (final(self).project_additionals.spec_get(id) matches Some(ad) && ad@
                    == additional@)
                &&& forall|k: Id|
                    k != id ==> #[trigger] final(self).project_additionals.spec_get(k) == old(
                        self,
                    ).project_additionals.spec_get(k)
                &&& final(self).assets == old(self).assets
                &&& final(self).issues == old(self).issues
                &&& final(self).burns == old(self).burns
                &&& final(self).asset_additionals == old(self).asset_additionals
                &&& final(self).ledger == old(self).ledger
                &&& (ev matches Event::ProjectSubmitted { project_id, owner, symbol: sy, timestamp }
                    && project_id == id && owner == caller && sy@ == symbol@ && timestamp == now)
            },
    {
        let id = derive_project_id(caller, &symbol, max_supply, &additional);
        if self.projects.contains_key(id) {
            return Err(Error::DuplicatedKey);
        }
        let ev_symbol = clone_bytes(&symbol);
        let ghost pre = *self;
        let project = CarbonProject {
            symbol,
            max_supply,
            total_supply: 0,
            status: Status::Pending,
            owner: caller,
        };
        self.projects.insert(id, project);
        self.project_additionals.insert(id, additional);
        proof {
            lemma_wf_after_new_project(&pre, self, id);
        }
        Ok(
            (
                id,
                Event::ProjectSubmitted {
                    project_id: id,
                    owner: caller,
                    symbol: ev_symbol,
                    timestamp: now,
                },
            ),
        )
    }

    /// Why a project approval would be rejected, if it would be.
    pub open spec fn approve_project_check(&self, approver: bool, project_id: Id) -> Option<
        Error,
    > {
        if !approver {
            Some(Error::PermissionDenied)
        } else {
            match self.project(project_id) {
                Option::None => Some(Error::InvalidIndex),
                Option::Some(p) => if p.status is Approved {
                    Some(Error::AlreadyApproved)
                } else {
                    None
                },
            }
        }
    }

    /// Approve a pending project. Restricted to the approver role; a
    /// second approval is rejected and changes nothing.
    pub fn approve_project(&mut self, approver: bool, project_id: Id) -> (r: Result<Event, Error>)
        requires
            old(self).wf(),
        ensures
            final(self).wf(),
            old(self).supply_exact() ==> final(self).supply_exact(),
            r is Err <==> old(self).approve_project_check(approver, project_id) is Some,
            r matches Err(e) ==> Some(e) == old(self).approve_project_check(approver, project_id)
                && *final(self) == *old(self),
            r is Ok ==> {
                &&& (old(self).project(project_id) matches Some(p0) && p0.status is Pending)
                &&& (final(self).project(project_id) matches Some(p) && old(self).project(
                    project_id,
                ) matches Some(p0) && p.symbol == p0.symbol && p.max_supply == p0.max_supply
                    && p.total_supply == p0.total_supply && p.owner == p0.owner
                    && p.status is Approved)
                &&& forall|k: Id|
                    k != project_id ==> #[trigger] final(self).project(k) == old(self).project(k)
                &&& final(self).assets == old(self).assets
                &&& final(self).issues == old(self).issues
                &&& final(self).burns == old(self).burns
                &&& final(self).project_additionals == old(self).project_additionals
                &&& final(self).asset_additionals == old(self).asset_additionals
                &&& final(self).ledger == old(self).ledger
            },
            r matches Ok(ev) ==> ev matches Event::ProjectApproved { project_id: pid } && pid
                == project_id,
    {
        if !approver {
            return Err(Error::PermissionDenied);
        }
        let st = match self.projects.get(project_id) {
            Option::None => {
                return Err(Error::InvalidIndex);
            },
            Option::Some(p) => p.status,
        };
        if let Status::Approved = st {
            return Err(Error::AlreadyApproved);
        }
        let ghost pre = *self;
        let mut p = self.projects.take(project_id).unwrap();
        p.status = Status::Approved;
        self.projects.insert(project_id, p);
        proof {
            lemma_wf_after_project_approve(&pre, self, project_id);
        }
        Ok(Event::ProjectApproved { project_id })
    }

    /// Why an asset submission would be rejected, if it would be.
    pub open spec fn submit_asset_check(
        &self,
        caller: u64,
        project_id: Id,
        vintage: Seq<u8>,
        initial_supply: u64,
        additional: Seq<u8>,
    ) -> Option<Error> {
        match self.project(project_id) {
            Option::None => Some(Error::InvalidIndex),
            Option::Some(p) => if !(p.status is Approved) {
                Some(Error::ProjectNotApproved)
            } else if p.owner != caller {
                Some(Error::PermissionDenied)
            } else if initial_supply + p.total_supply > p.max_supply {
                Some(Error::OverIssueLimit)
            } else if self.asset(
                asset_id_of(caller, project_id, vintage, initial_supply, additional),
            ) is Some {
                Some(Error::DuplicatedKey)
            } else {
                None
            },
        }
    }

    /// Register a new asset under an approved project the caller owns,
    /// pending approval. The initial supply must respect the project's
    /// cap already at submission.
    pub fn submit_asset(
        &mut self,
        caller: u64,
        project_id: Id,
        vintage: Vec<u8>,
        initial_supply: u64,
        additional: Vec<u8>,
        now: u64,
    ) -> (r: Result<(Id, Event), Error>)
        requires
            old(self).wf(),
            vintage@.len() <= u32::MAX,
            additional@.len() <= u32::MAX,
        ensures
            final(self).wf(),
            old(self).supply_exact() ==> final(self).supply_exact(),
            r is Err <==> old(self).submit_asset_check(
                caller,
                project_id,
                vintage@,
                initial_supply,
                additional@,
            ) is Some,
            r matches Err(e) ==> Some(e) == old(self).submit_asset_check(
                caller,
                project_id,
                vintage@,
                initial_supply,
                additional@,
            ) && *final(self) == *old(self),
            r matches Ok((id, ev)) ==> {
                &&& id == asset_id_of(caller, project_id, vintage@, initial_supply, additional@)
                &&& old(self).asset(id) is None
                &&& (final(self).asset(id) matches Some(a) && a.project_id == project_id
                    && a.vintage@ == vintage@ && a.initial_supply == initial_supply
                    && a.total_supply == 0 && a.status is Pending)
                &&& forall|k: Id| k != id ==> #[trigger] final(self).asset(k) == old(self).asset(k)
                &&& (final(self).asset_additionals.spec_get(id) matches Some(ad) && ad@
                    == additional@)
                &&& forall|k: Id|
                    k != id ==> #[trigger] final(self).asset_additionals.spec_get(k) == old(
                        self,
                    ).asset_additionals.spec_get(k)
                &&& final(self).projects == old(self).projects
                &&& final(self).issues == old(self).issues
                &&& final(self).burns == old(self).burns
                &&& final(self).project_additionals == old(self).project_additionals
                &&& final(self).ledger == old(self).ledger
                &&& (ev matches Event::AssetSubmitted {
                    project_id: pid,
                    asset_id,
                    symbol,
                    vintage: vt,
                    owner,
                    timestamp,
                } && pid == project_id && asset_id == id && (old(self).project(
                    project_id,
                ) matches Some(p) && symbol@ == p.symbol@) && vt@ == vintage@ && owner == caller
                    && timestamp == now)
            },
    {
        let (owner, approved, p_total, p_max) = match self.projects.get(project_id) {
            Option::None => {
                return Err(Error::InvalidIndex);
            },
            Option::Some(p) => (
                p.owner,
                matches!(p.status, Status::Approved),
                p.total_supply,
                p.max_supply,
            ),
        };
        if !approved {
            return Err(Error::ProjectNotApproved);
        }
        if owner != caller {
            return Err(Error::PermissionDenied);
        }
        if initial_supply > p_max - p_total {
            return Err(Error::OverIssueLimit);
        }
        let id = derive_asset_id(caller, project_id, &vintage, initial_supply, &additional);
        if self.assets.contains_key(id) {
            return Err(Error::DuplicatedKey);
        }
        let ev_symbol = match self.projects.get(project_id) {
            Option::Some(p) => clone_bytes(&p.symbol),
            Option::None => {
                proof {
                    assert(false);
                }
                Vec::new()
            },
        };
        let ev_vintage = clone_bytes(&vintage);
        let ghost pre = *self;
        let asset = CarbonAsset {
            project_id,
            vintage,
            initial_supply,
            total_supply: 0,
            status: Status::Pending,
        };
        self.assets.insert(id, asset);
        self.asset_additionals.insert(id, additional);
        proof {
            lemma_wf_after_new_asset(&pre, self, id);
        }
        Ok(
            (
                id,
                Event::AssetSubmitted {
                    project_id,
                    asset_id: id,
                    symbol: ev_symbol,
                    vintage: ev_vintage,
                    owner: caller,
                    timestamp: now,
                },
            ),
        )
    }

    /// Why an asset approval would be rejected, if it would be.
    pub open spec fn approve_asset_check(&self, approver: bool, asset_id: Id) -> Option<Error> {
        if !approver {
            Some(Error::PermissionDenied)
        } else {
            match self.asset(asset_id) {
                Option::None => Some(Error::InvalidIndex),
                Option::Some(a) => if a.status is Approved {
                    Some(Error::AlreadyApproved)
                } else {
                    match self.project(a.project_id) {
                        Option::None => Some(Error::InvalidIndex),
                        Option::Some(p) => if a.initial_supply + p.total_supply > p.max_supply {
                            Some(Error::OverIssueLimit)
                        } else {
                            None
                        },
                    }
                },
            }
        }
    }

    /// Approve a pending asset. The supply bound is checked again here,
    /// since the project's total may have grown since submission. On
    /// success the asset's initial supply becomes its total supply, is
    /// added to the project's total, and is credited to the project
    /// owner's balance: the single point where credits enter circulation.
    pub fn approve_asset(&mut self, approver: bool, asset_id: Id) -> (r: Result<Event, Error>)
        requires
            old(self).wf(),
        ensures
            final(self).wf(),
            old(self).supply_exact() ==> final(self).supply_exact(),
            r is Err <==> old(self).approve_asset_check(approver, asset_id) is Some,
            r matches Err(e) ==> Some(e) == old(self).approve_asset_check(approver, asset_id)
                && *final(self) == *old(self),
            r is Ok ==> {
                &&& (old(self).asset(asset_id) matches Some(a0) && a0.status is Pending && {
                    &&& (final(self).asset(asset_id) matches Some(a) && a.project_id
                        == a0.project_id && a.vintage == a0.vintage && a.initial_supply
                        == a0.initial_supply && a.total_supply == a0.initial_supply
                        && a.status is Approved)
                    &&& (old(self).project(a0.project_id) matches Some(p0) && {
                        &&& (final(self).project(a0.project_id) matches Some(p) && p.symbol
                            == p0.symbol && p.max_supply == p0.max_supply && p.owner == p0.owner
                            && p.status == p0.status && p.total_supply == p0.total_supply
                                + a0.initial_supply)
                        &&& final(self).balance(asset_id, p0.owner) == old(self).balance(
                            asset_id,
                            p0.owner,
                        ) + a0.initial_supply
                        &&& forall|a2: Id, acct2: u64|
                            !(a2 == asset_id && acct2 == p0.owner)
                                ==> #[trigger] final(self).balance(a2, acct2) == old(self).balance(
                                a2,
                                acct2,
                            )
                        &&& forall|k: Id|
                            k != a0.project_id
                                ==> #[trigger] final(self).project(k) == old(self).project(k)
                    })
                    &&& final(self).circulating(asset_id) == a0.initial_supply
                })
                &&& forall|k: Id|
                    k != asset_id ==> #[trigger] final(self).asset(k) == old(self).asset(k)
                &&& final(self).issues == old(self).issues
                &&& final(self).burns == old(self).burns
                &&& final(self).project_additionals == old(self).project_additionals
                &&& final(self).asset_additionals == old(self).asset_additionals
            },
            r matches Ok(ev) ==> ev matches Event::AssetApproved { asset_id: aid } && aid
                == asset_id,
    {
        if !approver {
            return Err(Error::PermissionDenied);
        }
        let (a_pending, a_initial, pid) = match self.assets.get(asset_id) {
            Option::None => {
                return Err(Error::InvalidIndex);
            },
            Option::Some(a) => (matches!(a.status, Status::Pending), a.initial_supply, a.project_id),
        };
        if !a_pending {
            return Err(Error::AlreadyApproved);
        }
        let (owner, p_total, p_max) = match self.projects.get(pid) {
            Option::None => {
                return Err(Error::InvalidIndex);
            },
            Option::Some(p) => (p.owner, p.total_supply, p.max_supply),
        };
        if a_initial > p_max - p_total {
            return Err(Error::OverIssueLimit);
        }
        let ghost pre = *self;
        proof {
            lemma_circulating_nonneg(&pre, asset_id);
            crate::ledger::lemma_balance_le_sum(pre.ledger@, asset_id, owner);
        }
        let mut a = self.assets.take(asset_id).unwrap();
        let ghost i_a = choose|i: int|
            0 <= i < pre.assets@.len() && (#[trigger] pre.assets@[i]).0 == asset_id && self.assets@
                == pre.assets@.remove(i);
        a.status = Status::Approved;
        a.total_supply = a_initial;
        let ghost s1 = self.assets@;
        let ghost a_new = a;
        self.assets.insert(asset_id, a);
        proof {
            lemma_get_present(pre.assets@, i_a);
            assert(pre.assets@[i_a].1 == pre.asset(asset_id).unwrap());
            assert forall|k: Id|
                #[trigger] project_assets_total(self.assets@, k) == project_assets_total(
                pre.assets@,
                k,
            ) + if k == pid {
                a_initial as int
            } else {
                0
            } by {
                lemma_sum_remove(pre.assets@, asset_contribution(k), i_a);
                lemma_sum_push(s1, asset_contribution(k), (asset_id, a_new));
            }
        }
        let mut p = self.projects.take(pid).unwrap();
        p.total_supply = p_total + a_initial;
        self.projects.insert(pid, p);
        self.ledger.credit(asset_id, owner, a_initial);
        proof {
            lemma_wf_after_asset_approve(&pre, self, asset_id, pid, a_initial, owner);
        }
        Ok(Event::AssetApproved { asset_id })
    }

    /// Why an issue submission would be rejected, if it would be.
    pub open spec fn submit_issue_check(
        &self,
        caller: u64,
        asset_id: Id,
        amount: u64,
        additional: Seq<u8>,
    ) -> Option<Error> {
        match self.asset(asset_id) {
            Option::None => Some(Error::InvalidIndex),
            Option::Some(a) => if !(a.status is Approved) {
                Some(Error::AssetNotApproved)
            } else {
                match self.project(a.project_id) {
                    Option::None => Some(Error::InvalidIndex),
                    Option::Some(p) => if p.owner != caller {
                        Some(Error::PermissionDenied)
                    } else if amount + p.total_supply > p.max_supply {
                        Some(Error::OverIssueLimit)
                    } else if self.issue(issue_id_of(caller, asset_id, amount, additional))
                        is Some {
                        Some(Error::DuplicatedKey)
                    } else {
                        None
                    },
                }
            },
        }
    }

    /// Request more supply for an approved asset the caller owns, pending
    /// approval. The supply bound is checked already at submission.
    pub fn submit_issue(
        &mut self,
        caller: u64,
        asset_id: Id,
        amount: u64,
        additional: Vec<u8>,
        now: u64,
    ) -> (r: Result<(Id, Event), Error>)
        requires
            old(self).wf(),
            additional@.len() <= u32::MAX,
        ensures
            final(self).wf(),
            old(self).supply_exact() ==> final(self).supply_exact(),
            r is Err <==> old(self).submit_issue_check(caller, asset_id, amount, additional@)
                is Some,
            r matches Err(e) ==> Some(e) == old(self).submit_issue_check(
                caller,
                asset_id,
                amount,
                additional@,
            ) && *final(self) == *old(self),
            r matches Ok((id, ev)) ==> {
                &&& id == issue_id_of(caller, asset_id, amount, additional@)
                &&& old(self).issue(id) is None
                &&& (final(self).issue(id) matches Some(i) && i.asset_id == asset_id && i.amount
                    == amount && i.status is Pending && i.additional@ == additional@)
                &&& forall|k: Id| k != id ==> #[trigger] final(self).issue(k) == old(self).issue(k)
                &&& final(self).projects == old(self).projects
                &&& final(self).assets == old(self).assets
                &&& final(self).burns == old(self).burns
                &&& final(self).project_additionals == old(self).project_additionals
                &&& final(self).asset_additionals == old(self).asset_additionals
                &&& final(self).ledger == old(self).ledger
                &&& (ev matches Event::IssueSubmitted {
                    issue_id,
                    asset_id: aid,
                    owner,
                    amount: m,
                    timestamp,
                } && issue_id == id && aid == asset_id && owner == caller && m == amount
                    && timestamp == now)
            },
    {
        let (a_approved, pid) = match self.assets.get(asset_id) {
            Option::None => {
                return Err(Error::InvalidIndex);
            },
            Option::Some(a) => (matches!(a.status, Status::Approved), a.project_id),
        };
        if !a_approved {
            return Err(Error::AssetNotApproved);
        }
        let (owner, p_total, p_max) = match self.projects.get(pid) {
            Option::None => {
                return Err(Error::InvalidIndex);
            },
            Option::Some(p) => (p.owner, p.total_supply, p.max_supply),
        };
        if owner != caller {
            return Err(Error::PermissionDenied);
        }
        if amount > p_max - p_total {
            return Err(Error::OverIssueLimit);
        }
        let id = derive_issue_id(caller, asset_id, amount, &additional);
        if self.issues.contains_key(id) {
            return Err(Error::DuplicatedKey);
        }
        let ghost pre = *self;
        let info = IssueInfo { asset_id, amount, status: Status::Pending, additional };
        self.issues.insert(id, info);
        proof {
            lemma_wf_after_new_request(&pre, self);
        }
        Ok(
            (
                id,
                Event::IssueSubmitted {
                    issue_id: id,
                    asset_id,
                    owner: caller,
                    amount,
                    timestamp: now,
                },
            ),
        )
    }

    /// Why an issue approval would be rejected, if it would be.
    pub open spec fn approve_issue_check(&self, approver: bool, issue_id: Id) -> Option<Error> {
        if !approver {
            Some(Error::PermissionDenied)
        } else {
            match self.issue(issue_id) {
                Option::None => Some(Error::InvalidIndex),
                Option::Some(i) => if i.status is Approved {
                    Some(Error::AlreadyApproved)
                } else {
                    match self.asset(i.asset_id) {
                        Option::None => Some(Error::InvalidIndex),
                        Option::Some(a) => match self.project(a.project_id) {
                            Option::None => Some(Error::InvalidIndex),
                            Option::Some(p) => if i.amount + p.total_supply > p.max_supply {
                                Some(Error::OverIssueLimit)
                            } else {
                                None
                            },
                        },
                    }
                },
            }
        }
    }

    /// Approve a pending issue. The supply bound is checked again here;
    /// on success the amount is added to the asset's and the project's
    /// totals and credited to the project owner's balance.
    pub fn approve_issue(&mut self, approver: bool, issue_id: Id) -> (r: Result<Event, Error>)
        requires
            old(self).wf(),
        ensures
            final(self).wf(),
            old(self).supply_exact() ==> final(self).supply_exact(),
            r is Err <==> old(self).approve_issue_check(approver, issue_id) is Some,
            r matches Err(e) ==> Some(e) == old(self).approve_issue_check(approver, issue_id)
                && *final(self) == *old(self),
            r is Ok ==> {
                &&& (old(self).issue(issue_id) matches Some(i0) && i0.status is Pending && {
                    &&& (final(self).issue(issue_id) matches Some(i) && i.asset_id == i0.asset_id
                        && i.amount == i0.amount && i.status is Approved)
                    &&& (old(self).asset(i0.asset_id) matches Some(a0) && {
                        &&& (final(self).asset(i0.asset_id) matches Some(a) && a.project_id
                            == a0.project_id && a.total_supply == a0.total_supply + i0.amount
                            && a.status == a0.status)
                        &&& (old(self).project(a0.project_id) matches Some(p0) && {
                            &&& (final(self).project(a0.project_id) matches Some(p)
                                && p.total_supply == p0.total_supply + i0.amount && p.max_supply
                                == p0.max_supply && p.owner == p0.owner && p.status == p0.status)
                            &&& final(self).balance(i0.asset_id, p0.owner) == old(self).balance(
                                i0.asset_id,
                                p0.owner,
                            ) + i0.amount
                            &&& forall|a2: Id, acct2: u64|
                                !(a2 == i0.asset_id && acct2 == p0.owner)
                                    ==> #[trigger] final(self).balance(a2, acct2) == old(
                                    self,
                                ).balance(a2, acct2)
                        })
                    })
                })
                &&& forall|k: Id|
                    k != issue_id ==> #[trigger] final(self).issue(k) == old(self).issue(k)
                &&& final(self).burns == old(self).burns
                &&& final(self).project_additionals == old(self).project_additionals
                &&& final(self).asset_additionals == old(self).asset_additionals
            },
            r matches Ok(ev) ==> ev matches Event::IssueApproved { issue_id: iid } && iid
                == issue_id,
    {
        if !approver {
            return Err(Error::PermissionDenied);
        }
        let (i_pending, i_amount, asset_id) = match self.issues.get(issue_id) {
            Option::None => {
                return Err(Error::InvalidIndex);
            },
            Option::Some(i) => (matches!(i.status, Status::Pending), i.amount, i.asset_id),
        };
        if !i_pending {
            return Err(Error::AlreadyApproved);
        }
        let (a_total, pid) = match self.assets.get(asset_id) {
            Option::None => {
                return Err(Error::InvalidIndex);
            },
            Option::Some(a) => (a.total_supply, a.project_id),
        };
        let (owner, p_total, p_max) = match self.projects.get(pid) {
            Option::None => {
                return Err(Error::InvalidIndex);
            },
            Option::Some(p) => (p.owner, p.total_supply, p.max_supply),
        };
        if i_amount > p_max - p_total {
            return Err(Error::OverIssueLimit);
        }
        let ghost pre = *self;
        proof {
            lemma_asset_le_project(&pre, asset_id);
            crate::ledger::lemma_balance_le_sum(pre.ledger@, asset_id, owner);
            assert(pre.asset_ok(asset_id, pre.asset(asset_id).unwrap()));
        }
        let mut inf = self.issues.take(issue_id).unwrap();
        inf.status = Status::Approved;
        self.issues.insert(issue_id, inf);
        let mut a = self.assets.take(asset_id).unwrap();
        let ghost i_a = choose|i: int|
            0 <= i < pre.assets@.len() && (#[trigger] pre.assets@[i]).0 == asset_id && self.assets@
                == pre.assets@.remove(i);
        a.total_supply = a_total + i_amount;
        let ghost s1 = self.assets@;
        let ghost a_new = a;
        self.assets.insert(asset_id, a);
        proof {
            lemma_get_present(pre.assets@, i_a);
            assert(pre.assets@[i_a].1 == pre.asset(asset_id).unwrap());
            assert forall|k: Id|
                #[trigger] project_assets_total(self.assets@, k) == project_assets_total(
                pre.assets@,
                k,
            ) + if k == pid {
                i_amount as int
            } else {
                0
            } by {
                lemma_sum_remove(pre.assets@, asset_contribution(k), i_a);
                lemma_sum_push(s1, asset_contribution(k), (asset_id, a_new));
            }
        }
        let mut p = self.projects.take(pid).unwrap();
        p.total_supply = p_total + i_amount;
        self.projects.insert(pid, p);
        self.ledger.credit(asset_id, owner, i_amount);
        proof {
            lemma_wf_after_supply_delta(&pre, self, asset_id, pid, i_amount as int);
        }
        Ok(Event::IssueApproved { issue_id })
    }

    /// Why a burn submission would be rejected, if it would be.
    pub open spec fn submit_burn_check(
        &self,
        caller: u64,
        asset_id: Id,
        amount: u64,
        additional: Seq<u8>,
    ) -> Option<Error> {
        match self.asset(asset_id) {
            Option::None => Some(Error::InvalidIndex),
            Option::Some(a) => if !(a.status is Approved) {
                Some(Error::AssetNotApproved)
            } else {
                match self.project(a.project_id) {
                    Option::None => Some(Error::InvalidIndex),
                    Option::Some(p) => if p.owner != caller {
                        Some(Error::PermissionDenied)
                    } else if self.burn(burn_id_of(caller, asset_id, amount, additional))
                        is Some {
                        Some(Error::DuplicatedKey)
                    } else if self.balance(asset_id, caller) < amount {
                        Some(Error::BalanceLow)
                    } else {
                        None
                    },
                }
            },
        }
    }

    /// Request retirement of supply against an approved asset the caller
    /// owns, pending approval. The caller must hold the amount now; the
    /// balance is checked again at approval, since it may change between
    /// the two.
    pub fn submit_burn(
        &mut self,
        caller: u64,
        asset_id: Id,
        amount: u64,
        additional: Vec<u8>,
        now: u64,
    ) -> (r: Result<(Id, Event), Error>)
        requires
            old(self).wf(),
            additional@.len() <= u32::MAX,
        ensures
            final(self).wf(),
            old(self).supply_exact() ==> final(self).supply_exact(),
            r is Err <==> old(self).submit_burn_check(caller, asset_id, amount, additional@)
                is Some,
            r matches Err(e) ==> Some(e) == old(self).submit_burn_check(
                caller,
                asset_id,
                amount,
                additional@,
            ) && *final(self) == *old(self),
            r matches Ok((id, ev)) ==> {
                &&& id == burn_id_of(caller, asset_id, amount, additional@)
                &&& old(self).burn(id) is None
                &&& (final(self).burn(id) matches Some(b) && b.asset_id == asset_id && b.amount
                    == amount && b.status is Pending && b.additional@ == additional@)
                &&& forall|k: Id| k != id ==> #[trigger] final(self).burn(k) == old(self).burn(k)
                &&& final(self).projects == old(self).projects
                &&& final(self).assets == old(self).assets
                &&& final(self).issues == old(self).issues
                &&& final(self).project_additionals == old(self).project_additionals
                &&& final(self).asset_additionals == old(self).asset_additionals
                &&& final(self).ledger == old(self).ledger
                &&& (ev matches Event::BurnSubmitted {
                    burn_id,
                    asset_id: aid,
                    owner,
                    amount: m,
                    timestamp,
                } && burn_id == id && aid == asset_id && owner == caller && m == amount
                    && timestamp == now)
            },
    {
        let (a_approved, pid) = match self.assets.get(asset_id) {
            Option::None => {
                return Err(Error::InvalidIndex);
            },
            Option::Some(a) => (matches!(a.status, Status::Approved), a.project_id),
        };
        if !a_approved {
            return Err(Error::AssetNotApproved);
        }
        let owner = match self.projects.get(pid) {
            Option::None => {
                return Err(Error::InvalidIndex);
            },
            Option::Some(p) => p.owner,
        };
        if owner != caller {
            return Err(Error::PermissionDenied);
        }
        let id = derive_burn_id(caller, asset_id, amount, &additional);
        if self.burns.contains_key(id) {
            return Err(Error::DuplicatedKey);
        }
        let balance = self.ledger.get(asset_id, caller);
        if balance < amount {
            return Err(Error::BalanceLow);
        }
        let ghost pre = *self;
        let info = BurnInfo { asset_id, amount, status: Status::Pending, additional };
        self.burns.insert(id, info);
        proof {
            lemma_wf_after_new_request(&pre, self);
        }
        Ok(
            (
                id,
                Event::BurnSubmitted { burn_id: id, asset_id, owner: caller, amount, timestamp: now },
            ),
        )
    }

    /// Why a burn approval would be rejected, if it would be.
    pub open spec fn approve_burn_check(&self, approver: bool, burn_id: Id) -> Option<Error> {
        if !approver {
            Some(Error::PermissionDenied)
        } else {
            match self.burn(burn_id) {
                Option::None => Some(Error::InvalidIndex),
                Option::Some(b) => if b.status is Approved {
                    Some(Error::AlreadyApproved)
                } else {
                    match self.asset(b.asset_id) {
                        Option::None => Some(Error::InvalidIndex),
                        Option::Some(a) => match self.project(a.project_id) {
                            Option::None => Some(Error::InvalidIndex),
                            Option::Some(p) => if self.balance(b.asset_id, p.owner) < b.amount {
                                Some(Error::BalanceLow)
                            } else {
                                None
                            },
                        },
                    }
                },
            }
        }
    }

    /// Approve a pending burn. The recorded submitter's balance is
    /// checked again here, since it may have dropped since submission; a
    /// debit below the balance must fail the operation rather than floor
    /// at zero. On success the amount leaves the asset's and the
    /// project's totals and the owner's balance.
    pub fn approve_burn(&mut self, approver: bool, burn_id: Id) -> (r: Result<Event, Error>)
        requires
            old(self).wf(),
        ensures
            final(self).wf(),
            old(self).supply_exact() ==> final(self).supply_exact(),
            r is Err <==> old(self).approve_burn_check(approver, burn_id) is Some,
            r matches Err(e) ==> Some(e) == old(self).approve_burn_check(approver, burn_id)
                && *final(self) == *old(self),
            r is Ok ==> {
                &&& (old(self).burn(burn_id) matches Some(b0) && b0.status is Pending && {
                    &&& (final(self).burn(burn_id) matches Some(b) && b.asset_id == b0.asset_id
                        && b.amount == b0.amount && b.status is Approved)
                    &&& (old(self).asset(b0.asset_id) matches Some(a0) && {
                        &&& (final(self).asset(b0.asset_id) matches Some(a) && a.project_id
                            == a0.project_id && a.total_supply == a0.total_supply - b0.amount
                            && a.status == a0.status)
                        &&& (old(self).project(a0.project_id) matches Some(p0) && {
                            &&& (final(self).project(a0.project_id) matches Some(p)
                                && p.total_supply == p0.total_supply - b0.amount && p.max_supply
                                == p0.max_supply && p.owner == p0.owner && p.status == p0.status)
                            &&& final(self).balance(b0.asset_id, p0.owner) == old(self).balance(
                                b0.asset_id,
                                p0.owner,
                            ) - b0.amount
                            &&& forall|a2: Id, acct2: u64|
                                !(a2 == b0.asset_id && acct2 == p0.owner)
                                    ==> #[trigger] final(self).balance(a2, acct2) == old(
                                    self,
                                ).balance(a2, acct2)
                        })
                    })
                })
                &&& forall|k: Id|
                    k != burn_id ==> #[trigger] final(self).burn(k) == old(self).burn(k)
                &&& final(self).issues == old(self).issues
                &&& final(self).project_additionals == old(self).project_additionals
                &&& final(self).asset_additionals == old(self).asset_additionals
            },
            r matches Ok(ev) ==> ev matches Event::BurnApproved { burn_id: bid } && bid == burn_id,
    {
        if !approver {
            return Err(Error::PermissionDenied);
        }
        let (b_pending, b_amount, asset_id) = match self.burns.get(burn_id) {
            Option::None => {
                return Err(Error::InvalidIndex);
            },
            Option::Some(b) => (matches!(b.status, Status::Pending), b.amount, b.asset_id),
        };
        if !b_pending {
            return Err(Error::AlreadyApproved);
        }
        let (a_total, pid) = match self.assets.get(asset_id) {
            Option::None => {
                return Err(Error::InvalidIndex);
            },
            Option::Some(a) => (a.total_supply, a.project_id),
        };
        let (owner, p_total) = match self.projects.get(pid) {
            Option::None => {
                return Err(Error::InvalidIndex);
            },
            Option::Some(p) => (p.owner, p.total_supply),
        };
        let balance = self.ledger.get(asset_id, owner);
        if balance < b_amount {
            return Err(Error::BalanceLow);
        }
        let ghost pre = *self;
        proof {
            lemma_asset_le_project(&pre, asset_id);
            crate::ledger::lemma_balance_le_sum(pre.ledger@, asset_id, owner);
            assert(pre.asset_ok(asset_id, pre.asset(asset_id).unwrap()));
        }
        let mut inf = self.burns.take(burn_id).unwrap();
        inf.status = Status::Approved;
        self.burns.insert(burn_id, inf);
        let mut a = self.assets.take(asset_id).unwrap();
        let ghost i_a = choose|i: int|
            0 <= i < pre.assets@.len() && (#[trigger] pre.assets@[i]).0 == asset_id && self.assets@
                == pre.assets@.remove(i);
        a.total_supply = a_total - b_amount;
        let ghost s1 = self.assets@;
        let ghost a_new = a;
        self.assets.insert(asset_id, a);
        proof {
            lemma_get_present(pre.assets@, i_a);
            assert(pre.assets@[i_a].1 == pre.asset(asset_id).unwrap());
            assert forall|k: Id|
                #[trigger] project_assets_total(self.assets@, k) == project_assets_total(
                pre.assets@,
                k,
            ) - if k == pid {
                b_amount as int
            } else {
                0
            } by {
                lemma_sum_remove(pre.assets@, asset_contribution(k), i_a);
                lemma_sum_push(s1, asset_contribution(k), (asset_id, a_new));
            }
        }
        let mut p = self.projects.take(pid).unwrap();
        p.total_supply = p_total - b_amount;
        self.projects.insert(pid, p);
        self.ledger.debit(asset_id, owner, b_amount);
        proof {
            lemma_wf_after_supply_delta(&pre, self, asset_id, pid, -(b_amount as int));
        }
        Ok(Event::BurnApproved { burn_id })
    }
}

/// A circulating sum is a sum of unsigned balances.
pub proof fn lemma_circulating_nonneg(r: &Registry, a: Id)
    ensures
        r.circulating(a) >= 0,
{
    lemma_sum_nonneg(r.ledger@, asset_weight(a));
}

/// A ledger change that does not raise any circulating sum preserves
/// well-formedness, the records being untouched.
pub proof fn lemma_wf_after_ledger_op(pre: &Registry, post: &Registry)
    requires
        pre.wf(),
        same_records(pre, post),
        post.ledger.wf(),
        forall|a: Id| #[trigger] post.circulating(a) <= pre.circulating(a),
    ensures
        post.wf(),
{
    assert forall|k: Id| (#[trigger] post.asset(k)) matches Some(a) ==> post.asset_ok(k, a) by {
        assert(pre.asset(k) == post.asset(k));
        if post.asset(k) is Some {
            let aa = post.asset(k).unwrap();
            assert(pre.asset_ok(k, aa));
            assert(pre.project(aa.project_id) == post.project(aa.project_id));
            assert(post.asset_ok(k, aa));
        }
    }
    assert forall|k: Id| post.asset(k) is None implies #[trigger] post.circulating(k) == 0 by {
        assert(pre.asset(k) == post.asset(k));
        lemma_circulating_nonneg(post, k);
    }
    assert forall|k: Id| (#[trigger] post.project(k)) matches Some(p) ==> post.project_ok(
        k,
        p,
    ) by {
        assert(pre.project(k) == post.project(k));
        if post.project(k) is Some {
            let pp = post.project(k).unwrap();
            assert(pre.project_ok(k, pp));
            assert(post.assets@ == pre.assets@);
            assert(post.project_ok(k, pp));
        }
    }
    assert forall|k: Id| (#[trigger] post.issue(k)) matches Some(i) ==> post.request_ok(
        i.asset_id,
    ) by {
        assert(pre.issue(k) == post.issue(k));
        if post.issue(k) is Some {
            let ii = post.issue(k).unwrap();
            assert(pre.request_ok(ii.asset_id));
            assert(pre.asset(ii.asset_id) == post.asset(ii.asset_id));
            assert(post.request_ok(ii.asset_id));
        }
    }
    assert forall|k: Id| (#[trigger] post.burn(k)) matches Some(b) ==> post.request_ok(
        b.asset_id,
    ) by {
        assert(pre.burn(k) == post.burn(k));
        if post.burn(k) is Some {
            let bb = post.burn(k).unwrap();
            assert(pre.request_ok(bb.asset_id));
            assert(pre.asset(bb.asset_id) == post.asset(bb.asset_id));
            assert(post.request_ok(bb.asset_id));
        }
    }
}

/// A ledger change that keeps every circulating sum keeps supply
/// exactness as well.
pub proof fn lemma_exact_after_ledger_op(pre: &Registry, post: &Registry)
    requires
        pre.supply_exact(),
        same_records(pre, post),
        forall|a: Id| #[trigger] post.circulating(a) == pre.circulating(a),
    ensures
        post.supply_exact(),
{
    assert forall|k: Id| (#[trigger] post.asset(k)) matches Some(a) ==> post.circulating(k)
        == a.total_supply as int by {
        assert(pre.asset(k) == post.asset(k));
    }
}

/// Adding a fresh project with zero total supply preserves
/// well-formedness: no asset can already point at it.
proof fn lemma_wf_after_new_project(pre: &Registry, post: &Registry, id: Id)
    requires
        pre.wf(),
        pre.project(id) is None,
        post.projects.wf(),
        post.project_additionals.wf(),
        post.project(id) matches Some(p) && p.total_supply == 0 && p.total_supply <= p.max_supply,
        forall|k: Id| k != id ==> #[trigger] post.project(k) == pre.project(k),
        post.assets == pre.assets,
        post.issues == pre.issues,
        post.burns == pre.burns,
        post.asset_additionals == pre.asset_additionals,
        post.ledger == pre.ledger,
    ensures
        post.wf(),
        pre.supply_exact() ==> post.supply_exact(),
{
    assert(post.assets@ == pre.assets@);
    assert forall|j: int|
        0 <= j < post.assets@.len() implies (asset_contribution(id))(
        #[trigger] post.assets@[j],
    ) == 0 by {
        lemma_get_present(pre.assets@, j);
        let pair = pre.assets@[j];
        assert(pre.asset(pair.0) == Some(pair.1));
        assert(pre.asset_ok(pair.0, pair.1));
        assert(pair.1.project_id != id);
    }
    lemma_sum_zero(post.assets@, asset_contribution(id));
    assert forall|k: Id| (#[trigger] post.asset(k)) matches Some(a) ==> post.asset_ok(k, a) by {
        if post.asset(k) is Some {
            let aa = post.asset(k).unwrap();
            assert(pre.asset(k) == post.asset(k));
            assert(pre.asset_ok(k, aa));
            assert(aa.project_id != id);
            assert(post.project(aa.project_id) == pre.project(aa.project_id));
            assert(post.circulating(k) == pre.circulating(k));
            assert(post.asset_ok(k, aa));
        }
    }
    assert forall|k: Id| post.asset(k) is None implies #[trigger] post.circulating(k) == 0 by {
        assert(pre.asset(k) == post.asset(k));
        assert(post.circulating(k) == pre.circulating(k));
    }
    assert forall|k: Id| (#[trigger] post.project(k)) matches Some(p) ==> post.project_ok(
        k,
        p,
    ) by {
        if post.project(k) is Some {
            let pp = post.project(k).unwrap();
            if k == id {
                assert(pp.total_supply as int == project_assets_total(post.assets@, id));
            } else {
                assert(pre.project(k) == post.project(k));
                assert(pre.project_ok(k, pp));
            }
            assert(post.project_ok(k, pp));
        }
    }
    assert forall|k: Id| (#[trigger] post.issue(k)) matches Some(i) ==> post.request_ok(
        i.asset_id,
    ) by {
        if post.issue(k) is Some {
            let ii = post.issue(k).unwrap();
            assert(pre.issue(k) == post.issue(k));
            assert(pre.request_ok(ii.asset_id));
            assert(post.asset(ii.asset_id) == pre.asset(ii.asset_id));
        }
    }
    assert forall|k: Id| (#[trigger] post.burn(k)) matches Some(b) ==> post.request_ok(
        b.asset_id,
    ) by {
        if post.burn(k) is Some {
            let bb = post.burn(k).unwrap();
            assert(pre.burn(k) == post.burn(k));
            assert(pre.request_ok(bb.asset_id));
            assert(post.asset(bb.asset_id) == pre.asset(bb.asset_id));
        }
    }
    if pre.supply_exact() {
        assert forall|k: Id| (#[trigger] post.asset(k)) matches Some(a) ==> post.circulating(k)
            == a.total_supply as int by {
            assert(pre.asset(k) == post.asset(k));
            assert(post.circulating(k) == pre.circulating(k));
        }
    }
}

/// Replacing a project's status by Approved, all else equal, preserves
/// well-formedness.
proof fn lemma_wf_after_project_approve(pre: &Registry, post: &Registry, id: Id)
    requires
        pre.wf(),
        pre.project(id) is Some,
        post.projects.wf(),
        post.project(id) matches Some(p) && pre.project(id) matches Some(p0) && p.total_supply
            == p0.total_supply && p.max_supply == p0.max_supply && p.status is Approved,
        forall|k: Id| k != id ==> #[trigger] post.project(k) == pre.project(k),
        post.assets == pre.assets,
        post.issues == pre.issues,
        post.burns == pre.burns,
        post.project_additionals == pre.project_additionals,
        post.asset_additionals == pre.asset_additionals,
        post.ledger == pre.ledger,
    ensures
        post.wf(),
        pre.supply_exact() ==> post.supply_exact(),
{
    assert(post.assets@ == pre.assets@);
    assert(post.issues@ == pre.issues@);
    assert(post.burns@ == pre.burns@);
    assert(post.project_additionals@ == pre.project_additionals@);
    assert(post.asset_additionals@ == pre.asset_additionals@);
    assert forall|k: Id| (#[trigger] post.asset(k)) matches Some(a) ==> post.asset_ok(k, a) by {
        if post.asset(k) is Some {
            let aa = post.asset(k).unwrap();
            assert(pre.asset(k) == post.asset(k));
            assert(pre.asset_ok(k, aa));
            assert(post.circulating(k) == pre.circulating(k));
            if aa.project_id != id {
                assert(post.project(aa.project_id) == pre.project(aa.project_id));
            }
            assert(post.asset_ok(k, aa));
        }
    }
    assert forall|k: Id| post.asset(k) is None implies #[trigger] post.circulating(k) == 0 by {
        assert(pre.asset(k) == post.asset(k));
        assert(post.circulating(k) == pre.circulating(k));
    }
    assert forall|k: Id| (#[trigger] post.project(k)) matches Some(p) ==> post.project_ok(
        k,
        p,
    ) by {
        if post.project(k) is Some {
            let pp = post.project(k).unwrap();
            if k == id {
                let p0 = pre.project(id).unwrap();
                assert(pre.project_ok(id, p0));
            } else {
                assert(pre.project(k) == post.project(k));
                assert(pre.project_ok(k, pp));
            }
            assert(post.project_ok(k, pp));
        }
    }
    assert forall|k: Id| (#[trigger] post.issue(k)) matches Some(i) ==> post.request_ok(
        i.asset_id,
    ) by {
        if post.issue(k) is Some {
            let ii = post.issue(k).unwrap();
            assert(pre.issue(k) == post.issue(k));
            assert(pre.request_ok(ii.asset_id));
            assert(post.asset(ii.asset_id) == pre.asset(ii.asset_id));
        }
    }
    assert forall|k: Id| (#[trigger] post.burn(k)) matches Some(b) ==> post.request_ok(
        b.asset_id,
    ) by {
        if post.burn(k) is Some {
            let bb = post.burn(k).unwrap();
            assert(pre.burn(k) == post.burn(k));
            assert(pre.request_ok(bb.asset_id));
            assert(post.asset(bb.asset_id) == pre.asset(bb.asset_id));
        }
    }
    if pre.supply_exact() {
        assert forall|k: Id| (#[trigger] post.asset(k)) matches Some(a) ==> post.circulating(k)
            == a.total_supply as int by {
            assert(pre.asset(k) == post.asset(k));
            assert(post.circulating(k) == pre.circulating(k));
        }
    }
}

/// Adding a fresh pending asset with zero total supply under an approved
/// project preserves well-formedness: it contributes nothing to any sum.
proof fn lemma_wf_after_new_asset(pre: &Registry, post: &Registry, id: Id)
    requires
        pre.wf(),
        pre.asset(id) is None,
        post.assets.wf(),
        post.asset_additionals.wf(),
        post.asset(id) matches Some(a) && a.total_supply == 0 && a.status is Pending && (
        pre.project(a.project_id) matches Some(p) && p.status is Approved),
        forall|k: Id| k != id ==> #[trigger] post.asset(k) == pre.asset(k),
        post.assets@ == pre.assets@.push((id, post.asset(id).unwrap())),
        post.projects == pre.projects,
        post.issues == pre.issues,
        post.burns == pre.burns,
        post.project_additionals == pre.project_additionals,
        post.ledger == pre.ledger,
    ensures
        post.wf(),
        pre.supply_exact() ==> post.supply_exact(),
{
    let a = post.asset(id).unwrap();
    assert forall|k: Id|
        #[trigger] project_assets_total(post.assets@, k) == project_assets_total(
        pre.assets@,
        k,
    ) by {
        lemma_sum_push(pre.assets@, asset_contribution(k), (id, a));
    }
    assert forall|k: Id| (#[trigger] post.asset(k)) matches Some(x) ==> post.asset_ok(k, x) by {
        if post.asset(k) is Some {
            let aa = post.asset(k).unwrap();
            assert(post.circulating(k) == pre.circulating(k));
            if k == id {
                assert(pre.circulating(id) == 0);
                assert(post.project(aa.project_id) == pre.project(aa.project_id));
            } else {
                assert(pre.asset(k) == post.asset(k));
                assert(pre.asset_ok(k, aa));
                assert(post.project(aa.project_id) == pre.project(aa.project_id));
            }
            assert(post.asset_ok(k, aa));
        }
    }
    assert forall|k: Id| post.asset(k) is None implies #[trigger] post.circulating(k) == 0 by {
        assert(k != id);
        assert(pre.asset(k) == post.asset(k));
        assert(post.circulating(k) == pre.circulating(k));
    }
    assert forall|k: Id| (#[trigger] post.project(k)) matches Some(p) ==> post.project_ok(
        k,
        p,
    ) by {
        if post.project(k) is Some {
            let pp = post.project(k).unwrap();
            assert(pre.project(k) == post.project(k));
            assert(pre.project_ok(k, pp));
            assert(post.project_ok(k, pp));
        }
    }
    assert forall|k: Id| (#[trigger] post.issue(k)) matches Some(i) ==> post.request_ok(
        i.asset_id,
    ) by {
        if post.issue(k) is Some {
            let ii = post.issue(k).unwrap();
            assert(pre.issue(k) == post.issue(k));
            assert(pre.request_ok(ii.asset_id));
            assert(ii.asset_id != id);
            assert(post.asset(ii.asset_id) == pre.asset(ii.asset_id));
        }
    }
    assert forall|k: Id| (#[trigger] post.burn(k)) matches Some(b) ==> post.request_ok(
        b.asset_id,
    ) by {
        if post.burn(k) is Some {
            let bb = post.burn(k).unwrap();
            assert(pre.burn(k) == post.burn(k));
            assert(pre.request_ok(bb.asset_id));
            assert(bb.asset_id != id);
            assert(post.asset(bb.asset_id) == pre.asset(bb.asset_id));
        }
    }
    if pre.supply_exact() {
        assert forall|k: Id| (#[trigger] post.asset(k)) matches Some(x) ==> post.circulating(k)
            == x.total_supply as int by {
            assert(post.circulating(k) == pre.circulating(k));
            if k != id {
                assert(pre.asset(k) == post.asset(k));
            } else {
                assert(pre.circulating(id) == 0);
            }
        }
    }
}

/// Approving a pending asset moves its initial supply into the asset's
/// and its project's totals and into the owner's balance consistently.
proof fn lemma_wf_after_asset_approve(
    pre: &Registry,
    post: &Registry,
    asset_id: Id,
    pid: Id,
    initial: u64,
    owner: u64,
)
    requires
        pre.wf(),
        pre.asset(asset_id) matches Some(a0) && a0.status is Pending && a0.project_id == pid
            && a0.initial_supply == initial,
        pre.project(pid) matches Some(p0) && p0.owner == owner && initial + p0.total_supply
            <= p0.max_supply,
        post.assets.wf(),
        post.projects.wf(),
        post.ledger.wf(),
        post.asset(asset_id) matches Some(a) && a.project_id == pid && a.total_supply == initial
            && a.status is Approved,
        forall|k: Id| k != asset_id ==> #[trigger] post.asset(k) == pre.asset(k),
        post.project(pid) matches Some(p) && pre.project(pid) matches Some(p0) && p.max_supply
            == p0.max_supply && p.status == p0.status && p.total_supply == p0.total_supply
            + initial,
        forall|k: Id| k != pid ==> #[trigger] post.project(k) == pre.project(k),
        forall|k: Id|
            #[trigger] project_assets_total(post.assets@, k) == project_assets_total(pre.assets@, k)
                + if k == pid {
                initial as int
            } else {
                0
            },
        forall|a2: Id|
            #[trigger] post.circulating(a2) == pre.circulating(a2) + if a2 == asset_id {
                initial as int
            } else {
                0
            },
        post.issues == pre.issues,
        post.burns == pre.burns,
        post.project_additionals == pre.project_additionals,
        post.asset_additionals == pre.asset_additionals,
    ensures
        post.wf(),
        pre.supply_exact() ==> post.supply_exact(),
{
    assert(pre.asset_ok(asset_id, pre.asset(asset_id).unwrap()));
    lemma_circulating_nonneg(pre, asset_id);
    assert(pre.circulating(asset_id) == 0);
    assert forall|k: Id| (#[trigger] post.asset(k)) matches Some(x) ==> post.asset_ok(k, x) by {
        if post.asset(k) is Some {
            let aa = post.asset(k).unwrap();
            if k == asset_id {
                assert(post.circulating(k) == initial as int);
                assert(post.project(pid) is Some);
            } else {
                assert(pre.asset(k) == post.asset(k));
                assert(pre.asset_ok(k, aa));
                assert(post.circulating(k) == pre.circulating(k));
                if aa.project_id == pid {
                    assert(post.project(pid) is Some);
                    assert(pre.project(pid).unwrap().status is Approved);
                } else {
                    assert(post.project(aa.project_id) == pre.project(aa.project_id));
                }
            }
            assert(post.asset_ok(k, aa));
        }
    }
    assert forall|k: Id| post.asset(k) is None implies #[trigger] post.circulating(k) == 0 by {
        assert(k != asset_id);
        assert(pre.asset(k) == post.asset(k));
        assert(post.circulating(k) == pre.circulating(k));
    }
    assert forall|k: Id| (#[trigger] post.project(k)) matches Some(p) ==> post.project_ok(
        k,
        p,
    ) by {
        if post.project(k) is Some {
            let pp = post.project(k).unwrap();
            if k == pid {
                assert(pre.project_ok(pid, pre.project(pid).unwrap()));
            } else {
                assert(pre.project(k) == post.project(k));
                assert(pre.project_ok(k, pp));
            }
            assert(post.project_ok(k, pp));
        }
    }
    assert forall|k: Id| (#[trigger] post.issue(k)) matches Some(i) ==> post.request_ok(
        i.asset_id,
    ) by {
        if post.issue(k) is Some {
            let ii = post.issue(k).unwrap();
            assert(pre.issue(k) == post.issue(k));
            assert(pre.request_ok(ii.asset_id));
            if ii.asset_id != asset_id {
                assert(post.asset(ii.asset_id) == pre.asset(ii.asset_id));
            }
        }
    }
    assert forall|k: Id| (#[trigger] post.burn(k)) matches Some(b) ==> post.request_ok(
        b.asset_id,
    ) by {
        if post.burn(k) is Some {
            let bb = post.burn(k).unwrap();
            assert(pre.burn(k) == post.burn(k));
            assert(pre.request_ok(bb.asset_id));
            if bb.asset_id != asset_id {
                assert(post.asset(bb.asset_id) == pre.asset(bb.asset_id));
            }
        }
    }
    if pre.supply_exact() {
        assert forall|k: Id| (#[trigger] post.asset(k)) matches Some(x) ==> post.circulating(k)
            == x.total_supply as int by {
            if post.asset(k) is Some {
                if k != asset_id {
                    assert(pre.asset(k) == post.asset(k));
                    assert(post.circulating(k) == pre.circulating(k));
                }
            }
        }
    }
}

/// Under well-formedness an asset's total supply is bounded by its
/// project's: it is one contribution to the project's sum.
proof fn lemma_asset_le_project(r: &Registry, asset_id: Id)
    requires
        r.wf(),
        r.asset(asset_id) is Some,
    ensures
        r.project(r.asset(asset_id).unwrap().project_id) matches Some(p) && r.asset(
            asset_id,
        ).unwrap().total_supply <= p.total_supply,
{
    let a = r.asset(asset_id).unwrap();
    let pid = a.project_id;
    assert(r.asset_ok(asset_id, a));
    assert(r.project_ok(pid, r.project(pid).unwrap()));
    lemma_get_index(r.assets@, asset_id);
    let i = choose|i: int|
        0 <= i < r.assets@.len() && (#[trigger] r.assets@[i]).0 == asset_id && table_get(
            r.assets@,
            asset_id,
        ) == Some(r.assets@[i].1);
    assert((asset_contribution(pid))(r.assets@[i]) == a.total_supply as int);
    lemma_element_le_sum(r.assets@, asset_contribution(pid), i);
}

/// Adding or flipping an issue or burn request that names an approved
/// asset preserves well-formedness when nothing else changes.
proof fn lemma_wf_after_new_request(pre: &Registry, post: &Registry)
    requires
        pre.wf(),
        post.issues.wf(),
        post.burns.wf(),
        forall|k: Id|
            (#[trigger] post.issue(k)) matches Some(i) ==> (pre.request_ok(i.asset_id) || (
            pre.issue(k) matches Some(i0) && i0.asset_id == i.asset_id)),
        forall|k: Id|
            (#[trigger] post.burn(k)) matches Some(b) ==> (pre.request_ok(b.asset_id) || (
            pre.burn(k) matches Some(b0) && b0.asset_id == b.asset_id)),
        post.projects == pre.projects,
        post.assets == pre.assets,
        post.project_additionals == pre.project_additionals,
        post.asset_additionals == pre.asset_additionals,
        post.ledger == pre.ledger,
    ensures
        post.wf(),
        pre.supply_exact() ==> post.supply_exact(),
{
    assert(post.assets@ == pre.assets@);
    assert forall|k: Id| (#[trigger] post.asset(k)) matches Some(x) ==> post.asset_ok(k, x) by {
        if post.asset(k) is Some {
            let aa = post.asset(k).unwrap();
            assert(pre.asset(k) == post.asset(k));
            assert(pre.asset_ok(k, aa));
            assert(post.circulating(k) == pre.circulating(k));
            assert(post.project(aa.project_id) == pre.project(aa.project_id));
            assert(post.asset_ok(k, aa));
        }
    }
    assert forall|k: Id| post.asset(k) is None implies #[trigger] post.circulating(k) == 0 by {
        assert(pre.asset(k) == post.asset(k));
        assert(post.circulating(k) == pre.circulating(k));
    }
    assert forall|k: Id| (#[trigger] post.project(k)) matches Some(p) ==> post.project_ok(
        k,
        p,
    ) by {
        if post.project(k) is Some {
            let pp = post.project(k).unwrap();
            assert(pre.project(k) == post.project(k));
            assert(pre.project_ok(k, pp));
        }
    }
    assert forall|k: Id| (#[trigger] post.issue(k)) matches Some(i) ==> post.request_ok(
        i.asset_id,
    ) by {
        if post.issue(k) is Some {
            let ii = post.issue(k).unwrap();
            if pre.issue(k) matches Some(i0) && i0.asset_id == ii.asset_id {
                assert(pre.request_ok(ii.asset_id));
            }
            assert(post.asset(ii.asset_id) == pre.asset(ii.asset_id));
        }
    }
    assert forall|k: Id| (#[trigger] post.burn(k)) matches Some(b) ==> post.request_ok(
        b.asset_id,
    ) by {
        if post.burn(k) is Some {
            let bb = post.burn(k).unwrap();
            if pre.burn(k) matches Some(b0) && b0.asset_id == bb.asset_id {
                assert(pre.request_ok(bb.asset_id));
            }
            assert(post.asset(bb.asset_id) == pre.asset(bb.asset_id));
        }
    }
    if pre.supply_exact() {
        assert forall|k: Id| (#[trigger] post.asset(k)) matches Some(x) ==> post.circulating(k)
            == x.total_supply as int by {
            assert(pre.asset(k) == post.asset(k));
            assert(post.circulating(k) == pre.circulating(k));
        }
    }
}

/// Shifting one approved asset's total, its project's total, and its
/// circulating sum by the same delta preserves well-formedness.
proof fn lemma_wf_after_supply_delta(
    pre: &Registry,
    post: &Registry,
    asset_id: Id,
    pid: Id,
    delta: int,
)
    requires
        pre.wf(),
        pre.asset(asset_id) matches Some(a0) && a0.project_id == pid,
        pre.project(pid) is Some,
        0 <= pre.circulating(asset_id) + delta,
        pre.asset(asset_id).unwrap().total_supply + delta >= 0,
        post.assets.wf(),
        post.projects.wf(),
        post.issues.wf(),
        post.burns.wf(),
        post.ledger.wf(),
        post.asset(asset_id) matches Some(a) && a.project_id == pid && a.status is Approved
            && a.total_supply == pre.asset(asset_id).unwrap().total_supply + delta,
        forall|k: Id| k != asset_id ==> #[trigger] post.asset(k) == pre.asset(k),
        post.project(pid) matches Some(p) && pre.project(pid) matches Some(p0) && p.max_supply
            == p0.max_supply && p.status == p0.status && p.total_supply == p0.total_supply + delta
            && p.total_supply <= p.max_supply,
        forall|k: Id| k != pid ==> #[trigger] post.project(k) == pre.project(k),
        forall|k: Id|
            #[trigger] project_assets_total(post.assets@, k) == project_assets_total(pre.assets@, k)
                + if k == pid {
                delta
            } else {
                0
            },
        forall|a2: Id|
            #[trigger] post.circulating(a2) == pre.circulating(a2) + if a2 == asset_id {
                delta
            } else {
                0
            },
        pre.circulating(asset_id) + delta <= pre.asset(asset_id).unwrap().total_supply + delta,
        forall|k: Id|
            (#[trigger] post.issue(k)) matches Some(i) ==> (pre.issue(k) matches Some(i0)
                && i0.asset_id == i.asset_id),
        forall|k: Id|
            (#[trigger] post.burn(k)) matches Some(b) ==> (pre.burn(k) matches Some(b0)
                && b0.asset_id == b.asset_id),
        post.project_additionals == pre.project_additionals,
        post.asset_additionals == pre.asset_additionals,
    ensures
        post.wf(),
        pre.supply_exact() ==> post.supply_exact(),
{
    assert(pre.asset_ok(asset_id, pre.asset(asset_id).unwrap()));
    assert forall|k: Id| (#[trigger] post.asset(k)) matches Some(x) ==> post.asset_ok(k, x) by {
        if post.asset(k) is Some {
            let aa = post.asset(k).unwrap();
            if k == asset_id {
                assert(post.project(pid) is Some);
            } else {
                assert(pre.asset(k) == post.asset(k));
                assert(pre.asset_ok(k, aa));
                assert(post.circulating(k) == pre.circulating(k));
                if aa.project_id == pid {
                    assert(pre.project(pid).unwrap().status is Approved);
                } else {
                    assert(post.project(aa.project_id) == pre.project(aa.project_id));
                }
            }
            assert(post.asset_ok(k, aa));
        }
    }
    assert forall|k: Id| post.asset(k) is None implies #[trigger] post.circulating(k) == 0 by {
        assert(k != asset_id);
        assert(pre.asset(k) == post.asset(k));
        assert(post.circulating(k) == pre.circulating(k));
    }
    assert forall|k: Id| (#[trigger] post.project(k)) matches Some(p) ==> post.project_ok(
        k,
        p,
    ) by {
        if post.project(k) is Some {
            let pp = post.project(k).unwrap();
            if k == pid {
                assert(pre.project_ok(pid, pre.project(pid).unwrap()));
            } else {
                assert(pre.project(k) == post.project(k));
                assert(pre.project_ok(k, pp));
            }
            assert(post.project_ok(k, pp));
        }
    }
    assert forall|k: Id| (#[trigger] post.issue(k)) matches Some(i) ==> post.request_ok(
        i.asset_id,
    ) by {
        if post.issue(k) is Some {
            let ii = post.issue(k).unwrap();
            assert(pre.request_ok(ii.asset_id));
            if ii.asset_id != asset_id {
                assert(post.asset(ii.asset_id) == pre.asset(ii.asset_id));
            }
        }
    }
    assert forall|k: Id| (#[trigger] post.burn(k)) matches Some(b) ==> post.request_ok(
        b.asset_id,
    ) by {
        if post.burn(k) is Some {
            let bb = post.burn(k).unwrap();
            assert(pre.request_ok(bb.asset_id));
            if bb.asset_id != asset_id {
                assert(post.asset(bb.asset_id) == pre.asset(bb.asset_id));
            }
        }
    }
    if pre.supply_exact() {
        assert forall|k: Id| (#[trigger] post.asset(k)) matches Some(x) ==> post.circulating(k)
            == x.total_supply as int by {
            if post.asset(k) is Some {
                if k != asset_id {
                    assert(pre.asset(k) == post.asset(k));
                    assert(post.circulating(k) == pre.circulating(k));
                }
            }
        }
    }
}

/// Both states hold the same records; only ledger balances may differ.
pub open spec fn same_records(a: &Registry, b: &Registry) -> bool {
    &&& a.projects == b.projects
    &&& a.assets == b.assets
    &&& a.issues == b.issues
    &&& a.burns == b.burns
    &&& a.project_additionals == b.project_additionals
    &&& a.asset_additionals == b.asset_additionals
}

/// How a successful transfer relates the new state to the old one: the
/// moved amount leaves the caller and reaches the target, every other
/// balance and every circulating sum stays.
pub open spec fn transfer_applied(
    pre: &Registry,
    post: &Registry,
    caller: u64,
    asset_id: Id,
    to: u64,
    amount: u64,
) -> bool {
    &&& same_records(pre, post)
    &&& caller == to ==> post.ledger == pre.ledger
    &&& caller != to ==> {
        &&& post.balance(asset_id, caller) == pre.balance(asset_id, caller) - amount
        &&& post.balance(asset_id, to) == pre.balance(asset_id, to) + amount
        &&& forall|a2: Id, acct2: u64|
            !(a2 == asset_id && (acct2 == caller || acct2 == to)) ==> #[trigger] post.balance(
                a2,
                acct2,
            ) == pre.balance(a2, acct2)
    }
    &&& forall|a2: Id| #[trigger] post.circulating(a2) == pre.circulating(a2)
}

} // verus!
