//! The settlement currency: a transferable-balance service with a fixed
//! total issuance, the quote side of every trade. It is the sole
//! supported quote currency and is denoted by the all-zero identifier.

use vstd::prelude::*;

use crate::errors::Error;
use crate::ids::Id;
use crate::ledger::Ledger;

verus! {

/// Account balances of the settlement currency.
pub struct MoneyLedger {
    pub ledger: Ledger,
}

impl MoneyLedger {
    /// The balance of `account`.
    pub open spec fn balance(&self, account: u64) -> int {
        self.ledger.balance(Id::zero_spec(), account)
    }

    /// The total issuance: the sum of all balances.
    pub open spec fn total(&self) -> int {
        self.ledger.supply(Id::zero_spec())
    }

    /// Balances are well defined and the issuance fits in a word.
    pub open spec fn wf(&self) -> bool {
        &&& self.ledger.wf()
        &&& self.total() <= u64::MAX
    }

    /// An empty ledger: every balance is zero.
    pub fn new() -> (r: Self)
        ensures
            r.wf(),
            r.total() == 0,
            forall|acct: u64| #[trigger] r.balance(acct) == 0,
    {
        MoneyLedger { ledger: Ledger::new() }
    }

    /// Read a balance.
    pub fn get(&self, account: u64) -> (r: u64)
        requires
            self.wf(),
        ensures
            r as int == self.balance(account),
    {
        self.ledger.get(Id::zero(), account)
    }

    /// Issue `amount` new units to `account`, raising the total issuance.
    pub fn deposit(&mut self, account: u64, amount: u64)
        requires
            old(self).wf(),
            old(self).total() + amount <= u64::MAX,
        ensures
            final(self).wf(),
            final(self).balance(account) == old(self).balance(account) + amount,
            forall|acct: u64|
                acct != account ==> #[trigger] final(self).balance(acct) == old(self).balance(acct),
            final(self).total() == old(self).total() + amount,
    {
        proof {
            crate::ledger::lemma_balance_le_sum(self.ledger@, Id::zero_spec(), account);
        }
        self.ledger.credit(Id::zero(), account, amount);
    }

    /// Move `amount` between two accounts: a no-op when they coincide,
    /// otherwise a debit and a matching credit. Succeeds exactly when the
    /// source balance covers the amount.
    pub fn transfer(&mut self, from: u64, to: u64, amount: u64) -> (r: Result<(), Error>)
        requires
            old(self).wf(),
        ensures
            final(self).wf(),
            r is Ok <==> (from == to || old(self).balance(from) >= amount),
            r matches Err(e) ==> e == Error::InsuffientMoney && *final(self) == *old(self),
            from == to ==> *final(self) == *old(self),
            r is Ok && from != to ==> {
                &&& final(self).balance(from) == old(self).balance(from) - amount
                &&& final(self).balance(to) == old(self).balance(to) + amount
                &&& forall|acct: u64|
                    acct != from && acct != to ==> #[trigger] final(self).balance(acct) == old(
                        self,
                    ).balance(acct)
            },
            final(self).total() == old(self).total(),
    {
        match self.ledger.transfer(Id::zero(), from, to, amount) {
            Ok(()) => Ok(()),
            Err(_) => Err(Error::InsuffientMoney),
        }
    }
}

} // verus!
