//! The balance ledger: per-asset, per-account unsigned balances with an
//! atomic transfer primitive. Balances default to zero; a debit below
//! the current balance fails rather than flooring at zero.

use vstd::prelude::*;

use crate::errors::Error;
use crate::ids::Id;
use crate::sums::{lemma_sum_nonneg, lemma_sum_push, lemma_sum_update, weighted_sum};

verus! {

/// One (asset, account) balance.
#[derive(Clone, Copy, PartialEq, Eq, Structural, Debug)]
pub struct LedgerEntry {
    pub asset: Id,
    pub account: u64,
    pub amount: u64,
}

/// Whether `e` is the balance of `account` for `asset`.
pub open spec fn key_match(e: LedgerEntry, asset: Id, account: u64) -> bool {
    e.asset == asset && e.account == account
}

/// No two entries share an (asset, account) key.
pub open spec fn entries_unique(s: Seq<LedgerEntry>) -> bool {
    forall|i: int, j: int|
        0 <= i < j < s.len() ==> !((#[trigger] s[i]).asset == (#[trigger] s[j]).asset
            && s[i].account == s[j].account)
}

/// The balance of `account` for `asset`; zero when no entry carries the key.
pub open spec fn balance_of(s: Seq<LedgerEntry>, asset: Id, account: u64) -> int
    decreases s.len(),
{
    if s.len() == 0 {
        0
    } else if key_match(s.last(), asset, account) {
        s.last().amount as int
    } else {
        balance_of(s.drop_last(), asset, account)
    }
}

/// The weight an entry contributes to `asset`'s circulating total.
pub open spec fn asset_weight(asset: Id) -> spec_fn(LedgerEntry) -> int {
    |e: LedgerEntry| if e.asset == asset { e.amount as int } else { 0 }
}

/// The sum of all account balances for `asset`.
pub open spec fn asset_sum(s: Seq<LedgerEntry>, asset: Id) -> int {
    weighted_sum(s, asset_weight(asset))
}

/// The entry at `i` holds exactly its key's balance.
pub proof fn lemma_balance_present(s: Seq<LedgerEntry>, i: int)
    requires
        entries_unique(s),
        0 <= i < s.len(),
    ensures
        balance_of(s, s[i].asset, s[i].account) == s[i].amount as int,
    decreases s.len(),
{
    if i < s.len() - 1 {
        assert(!key_match(s.last(), s[i].asset, s[i].account));
        assert(s.drop_last()[i] == s[i]);
        lemma_balance_present(s.drop_last(), i);
    }
}

/// A key no entry carries has balance zero.
pub proof fn lemma_balance_absent(s: Seq<LedgerEntry>, asset: Id, account: u64)
    requires
        forall|i: int| 0 <= i < s.len() ==> !key_match(#[trigger] s[i], asset, account),
    ensures
        balance_of(s, asset, account) == 0,
    decreases s.len(),
{
    if s.len() > 0 {
        assert(forall|i: int|
            0 <= i < s.len() - 1 ==> !key_match(#[trigger] s.drop_last()[i], asset, account));
        lemma_balance_absent(s.drop_last(), asset, account);
    }
}

/// Changing the amount of the entry at `i` changes only its key's balance.
pub proof fn lemma_balance_update(s: Seq<LedgerEntry>, i: int, amt: u64)
    requires
        entries_unique(s),
        0 <= i < s.len(),
    ensures
        entries_unique(
            s.update(i, LedgerEntry { asset: s[i].asset, account: s[i].account, amount: amt }),
        ),
        forall|a2: Id, acct2: u64|
            #[trigger] balance_of(
                s.update(i, LedgerEntry { asset: s[i].asset, account: s[i].account, amount: amt }),
                a2,
                acct2,
            ) == if key_match(s[i], a2, acct2) {
                amt as int
            } else {
                balance_of(s, a2, acct2)
            },
    decreases s.len(),
{
    let e2 = LedgerEntry { asset: s[i].asset, account: s[i].account, amount: amt };
    let t = s.update(i, e2);
    assert(forall|j: int|
        0 <= j < s.len() ==> (#[trigger] t[j]).asset == s[j].asset && t[j].account
            == s[j].account);
    if i == s.len() - 1 {
        assert(t.drop_last() =~= s.drop_last());
        assert forall|a2: Id, acct2: u64|
            #[trigger] balance_of(t, a2, acct2) == if key_match(s[i], a2, acct2) {
                amt as int
            } else {
                balance_of(s, a2, acct2)
            } by {
            if !key_match(s[i], a2, acct2) {
                assert(balance_of(t, a2, acct2) == balance_of(t.drop_last(), a2, acct2));
            }
        }
    } else {
        assert(t.drop_last() =~= s.drop_last().update(
            i,
            LedgerEntry { amount: amt, ..s.drop_last()[i] },
        ));
        lemma_balance_update(s.drop_last(), i, amt);
        assert forall|a2: Id, acct2: u64|
            #[trigger] balance_of(t, a2, acct2) == if key_match(s[i], a2, acct2) {
                amt as int
            } else {
                balance_of(s, a2, acct2)
            } by {
            assert(t.last() == s.last());
            assert(!key_match(s.last(), s[i].asset, s[i].account));
            if !key_match(s.last(), a2, acct2) {
                assert(balance_of(t, a2, acct2) == balance_of(t.drop_last(), a2, acct2));
                assert(balance_of(s, a2, acct2) == balance_of(s.drop_last(), a2, acct2));
            }
        }
    }
}

/// Appending an entry with a fresh key adds only that key's balance.
pub proof fn lemma_balance_push(s: Seq<LedgerEntry>, e: LedgerEntry)
    requires
        entries_unique(s),
        forall|i: int| 0 <= i < s.len() ==> !key_match(#[trigger] s[i], e.asset, e.account),
    ensures
        entries_unique(s.push(e)),
        forall|a2: Id, acct2: u64|
            #[trigger] balance_of(s.push(e), a2, acct2) == if key_match(e, a2, acct2) {
                e.amount as int
            } else {
                balance_of(s, a2, acct2)
            },
{
    let t = s.push(e);
    assert(forall|i: int| 0 <= i < s.len() ==> t[i] == s[i]);
    assert(t.drop_last() =~= s);
}

/// A balance never exceeds the asset's circulating total, which is nonnegative.
pub proof fn lemma_balance_le_sum(s: Seq<LedgerEntry>, asset: Id, account: u64)
    requires
        entries_unique(s),
    ensures
        0 <= balance_of(s, asset, account),
        balance_of(s, asset, account) <= asset_sum(s, asset),
    decreases s.len(),
{
    if s.len() > 0 {
        lemma_balance_le_sum(s.drop_last(), asset, account);
        if key_match(s.last(), asset, account) {
            lemma_sum_nonneg(s.drop_last(), asset_weight(asset));
        }
    }
}

/// Two distinct accounts together hold at most the asset's circulating total.
pub proof fn lemma_two_balances_le_sum(s: Seq<LedgerEntry>, asset: Id, acct1: u64, acct2: u64)
    requires
        entries_unique(s),
        acct1 != acct2,
    ensures
        balance_of(s, asset, acct1) + balance_of(s, asset, acct2) <= asset_sum(s, asset),
    decreases s.len(),
{
    if s.len() == 0 {
    } else {
        lemma_two_balances_le_sum(s.drop_last(), asset, acct1, acct2);
        if key_match(s.last(), asset, acct1) {
            lemma_balance_le_sum(s.drop_last(), asset, acct2);
        } else if key_match(s.last(), asset, acct2) {
            lemma_balance_le_sum(s.drop_last(), asset, acct1);
        }
    }
}

/// The balance ledger.
pub struct Ledger {
    entries: Vec<LedgerEntry>,
}

impl View for Ledger {
    type V = Seq<LedgerEntry>;

    closed spec fn view(&self) -> Seq<LedgerEntry> {
        self.entries@
    }
}

impl Ledger {
    /// Keys are unique, so balances are well defined.
    pub open spec fn wf(&self) -> bool {
        entries_unique(self@)
    }

    /// The balance of `account` for `asset` (zero by default).
    pub open spec fn balance(&self, asset: Id, account: u64) -> int {
        balance_of(self@, asset, account)
    }

    /// The sum of all account balances for `asset`.
    pub open spec fn supply(&self, asset: Id) -> int {
        asset_sum(self@, asset)
    }

    /// An empty ledger: every balance is zero.
    pub fn new() -> (r: Self)
        ensures
            r@.len() == 0,
            r.wf(),
            forall|a: Id, acct: u64| #[trigger] r.balance(a, acct) == 0,
            forall|a: Id| #[trigger] r.supply(a) == 0,
    {
        let r = Ledger { entries: Vec::new() };
        proof {
            assert forall|a: Id, acct: u64| #[trigger] r.balance(a, acct) == 0 by {
                lemma_balance_absent(r@, a, acct);
            }
        }
        r
    }

    /// The index of the entry carrying the key, if any.
    fn find(&self, asset: Id, account: u64) -> (r: Option<usize>)
        ensures
            match r {
                Some(i) => i < self@.len() && key_match(self@[i as int], asset, account),
                None => forall|i: int|
                    0 <= i < self@.len() ==> !key_match(#[trigger] self@[i], asset, account),
            },
    {
        let mut i: usize = 0;
        while i < self.entries.len()
            invariant
                i <= self.entries.len(),
                forall|j: int| 0 <= j < i ==> !key_match(#[trigger] self.entries@[j], asset, account),
            decreases self.entries.len() - i,
        {
            let e = &self.entries[i];
            if e.asset == asset && e.account == account {
                return Some(i);
            }
            i += 1;
        }
        None
    }

    /// Read a balance. Never fails; an unknown key reads as zero.
    pub fn get(&self, asset: Id, account: u64) -> (r: u64)
        requires
            self.wf(),
        ensures
            r as int == self.balance(asset, account),
    {
        match self.find(asset, account) {
            Some(i) => {
                proof {
                    lemma_balance_present(self@, i as int);
                }
                self.entries[i].amount
            },
            None => {
                proof {
                    lemma_balance_absent(self@, asset, account);
                }
                0
            },
        }
    }

    /// Add `amount` to one balance.
    pub fn credit(&mut self, asset: Id, account: u64, amount: u64)
        requires
            old(self).wf(),
            old(self).balance(asset, account) + amount <= u64::MAX,
        ensures
            final(self).wf(),
            final(self).balance(asset, account) == old(self).balance(asset, account) + amount,
            forall|a2: Id, acct2: u64|
                !(a2 == asset && acct2 == account) ==> #[trigger] final(self).balance(a2, acct2)
                    == old(self).balance(a2, acct2),
            forall|a2: Id|
                #[trigger] final(self).supply(a2) == old(self).supply(a2) + if a2 == asset {
                    amount as int
                } else {
                    0
                },
    {
        let ghost s0 = self@;
        match self.find(asset, account) {
            Some(i) => {
                proof {
                    lemma_balance_present(s0, i as int);
                }
                let cur = self.entries[i];
                let e2 = LedgerEntry { amount: cur.amount + amount, ..cur };
                self.entries[i] = e2;
                proof {
                    assert(self@ =~= s0.update(i as int, e2));
                    lemma_balance_update(s0, i as int, e2.amount);
                    assert forall|a2: Id|
                        #[trigger] asset_sum(self@, a2) == asset_sum(s0, a2) + if a2 == asset {
                            amount as int
                        } else {
                            0
                        } by {
                        lemma_sum_update(s0, asset_weight(a2), i as int, e2);
                    }
                }
            },
            None => {
                proof {
                    lemma_balance_absent(s0, asset, account);
                }
                let e = LedgerEntry { asset, account, amount };
                self.entries.push(e);
                proof {
                    lemma_balance_push(s0, e);
                    assert forall|a2: Id|
                        #[trigger] asset_sum(self@, a2) == asset_sum(s0, a2) + if a2 == asset {
                            amount as int
                        } else {
                            0
                        } by {
                        lemma_sum_push(s0, asset_weight(a2), e);
                    }
                }
            },
        }
    }

    /// Take `amount` from one balance; the caller has checked it is covered.
    pub fn debit(&mut self, asset: Id, account: u64, amount: u64)
        requires
            old(self).wf(),
            old(self).balance(asset, account) >= amount,
        ensures
            final(self).wf(),
            final(self).balance(asset, account) == old(self).balance(asset, account) - amount,
            forall|a2: Id, acct2: u64|
                !(a2 == asset && acct2 == account) ==> #[trigger] final(self).balance(a2, acct2)
                    == old(self).balance(a2, acct2),
            forall|a2: Id|
                #[trigger] final(self).supply(a2) == old(self).supply(a2) - if a2 == asset {
                    amount as int
                } else {
                    0
                },
    {
        let ghost s0 = self@;
        match self.find(asset, account) {
            Some(i) => {
                proof {
                    lemma_balance_present(s0, i as int);
                }
                let cur = self.entries[i];
                let e2 = LedgerEntry { amount: cur.amount - amount, ..cur };
                self.entries[i] = e2;
                proof {
                    assert(self@ =~= s0.update(i as int, e2));
                    lemma_balance_update(s0, i as int, e2.amount);
                    assert forall|a2: Id|
                        #[trigger] asset_sum(self@, a2) == asset_sum(s0, a2) - if a2 == asset {
                            amount as int
                        } else {
                            0
                        } by {
                        lemma_sum_update(s0, asset_weight(a2), i as int, e2);
                    }
                }
            },
            None => {
                proof {
                    lemma_balance_absent(s0, asset, account);
                    assert(amount == 0);
                }
            },
        }
    }

    /// Move `amount` between two accounts of one asset: a no-op when the
    /// accounts coincide, otherwise a debit and a matching credit.
    /// Succeeds exactly when the source balance covers the amount.
    pub fn transfer(&mut self, asset: Id, from: u64, to: u64, amount: u64) -> (r: Result<
        (),
        Error,
    >)
        requires
            old(self).wf(),
            old(self).supply(asset) <= u64::MAX,
        ensures
            final(self).wf(),
            r is Ok <==> (from == to || old(self).balance(asset, from) >= amount),
            r matches Err(e) ==> e == Error::BalanceLow && *final(self) == *old(self),
            from == to ==> *final(self) == *old(self),
            r is Ok && from != to ==> {
                &&& final(self).balance(asset, from) == old(self).balance(asset, from) - amount
                &&& final(self).balance(asset, to) == old(self).balance(asset, to) + amount
                &&& forall|a2: Id, acct2: u64|
                    !(a2 == asset && (acct2 == from || acct2 == to))
                        ==> #[trigger] final(self).balance(a2, acct2) == old(self).balance(
                        a2,
                        acct2,
                    )
            },
            forall|a2: Id| #[trigger] final(self).supply(a2) == old(self).supply(a2),
    {
        if from == to {
            return Ok(());
        }
        let b = self.get(asset, from);
        if b < amount {
            return Err(Error::BalanceLow);
        }
        proof {
            lemma_two_balances_le_sum(self@, asset, from, to);
            lemma_balance_le_sum(self@, asset, to);
        }
        self.debit(asset, from, amount);
        self.credit(asset, to, amount);
        Ok(())
    }
}

} // verus!
