//! The exchange engine: a bilateral escrowed-swap order book. A maker
//! places an ask (offering asset units) or a bid (offering settlement
//! currency); the offered side is escrowed into the pot account. A taker
//! fills a named order in part or in full; the maker may cancel and be
//! refunded what is still escrowed.
//!
//! Well-formedness keeps every order plausible (a positive price, a
//! positive remainder within the original amount, a locked balance that
//! covers the bid's remaining payout) and [`Exchange::escrow_covered`]
//! keeps the pot holdings at least the outstanding escrow, so a cancel
//! or a covered fill can always be paid out.

use vstd::prelude::*;

use vstd::arithmetic::div_mod::{
    lemma_div_is_ordered, lemma_fundamental_div_mod, lemma_fundamental_div_mod_converse_div,
    lemma_mod_division_less_than_divisor,
};
use vstd::arithmetic::mul::lemma_mul_is_distributive_add;

use crate::errors::Error;
use crate::events::Event;
use crate::ids::{derive_order_id, order_id_of, Id};
use crate::money::MoneyLedger;
use crate::registry::{same_records, Registry};
use crate::sums::{lemma_element_le_sum, lemma_sum_push, lemma_sum_remove, weighted_sum};
use crate::table::{lemma_get_index, table_get, Table};

verus! {

/// The sell-side direction: the maker offers asset units.
pub const ASK: u8 = 0;

/// The buy-side direction: the maker offers settlement currency.
pub const BID: u8 = 1;

/// The escrow account all open orders' funds sit in. It is derived, not
/// a real keypair: the word is the little-endian reading of the
/// exchange's eight-byte pot tag, so no caller can be it.
pub const POT_ACCOUNT: u64 = 0x746f_702f_7865_6263;

/// The account ID of the exchange pot.
pub fn pot_account_id() -> (r: u64)
    ensures
        r == POT_ACCOUNT,
{
    POT_ACCOUNT
}

/// An open order.
#[derive(Clone, Copy, PartialEq, Eq, Structural, Debug)]
pub struct Order {
    pub asset_id: Id,
    pub money_id: Id,
    pub maker: u64,
    pub amount: u64,
    pub price: u64,
    pub left_amount: u64,
    pub direction: u8,
    pub locked_balance: u64,
    pub salt: u64,
}

/// What every stored order satisfies.
pub open spec fn order_ok(o: Order) -> bool {
    &&& 0 < o.left_amount
    &&& o.left_amount <= o.amount
    &&& o.price > 0
    &&& (o.direction == ASK || o.direction == BID)
    &&& (o.direction == ASK ==> o.locked_balance == 0)
    &&& (o.direction == BID ==> o.left_amount as int / o.price as int <= o.locked_balance as int)
    &&& o.maker != POT_ACCOUNT
    &&& o.money_id == Id::zero_spec()
}

/// What an ask order escrows of `asset` in the pot.
pub open spec fn ask_weight(asset: Id) -> spec_fn((Id, Order)) -> int {
    |p: (Id, Order)|
        if p.1.direction == ASK && p.1.asset_id == asset {
            p.1.left_amount as int
        } else {
            0
        }
}

/// The asset units all open asks on `asset` have escrowed.
pub open spec fn ask_escrow(s: Seq<(Id, Order)>, asset: Id) -> int {
    weighted_sum(s, ask_weight(asset))
}

/// What a bid order escrows of settlement currency in the pot.
pub open spec fn bid_weight() -> spec_fn((Id, Order)) -> int {
    |p: (Id, Order)| if p.1.direction == BID { p.1.locked_balance as int } else { 0 }
}

/// The settlement units all open bids have escrowed.
pub open spec fn bid_escrow(s: Seq<(Id, Order)>) -> int {
    weighted_sum(s, bid_weight())
}

/// The settlement currency an order initially escrows or pays per fill:
/// the truncating quotient of the asset amount by the unit price.
pub open spec fn initial_locked(direction: u8, amount: u64, price: u64) -> u64 {
    if direction == BID {
        (amount as int / price as int) as u64
    } else {
        0
    }
}

/// The order book.
pub struct Exchange {
    pub orders: Table<Order>,
}

impl Exchange {
    /// The order stored under `id`, if any.
    pub open spec fn order(&self, id: Id) -> Option<Order> {
        self.orders.spec_get(id)
    }

    /// Every stored order is plausible.
    pub open spec fn wf(&self) -> bool {
        &&& self.orders.wf()
        &&& forall|k: Id| (#[trigger] self.order(k)) matches Some(o) ==> order_ok(o)
    }

    /// The pot covers all outstanding escrow: the asset escrow of the
    /// open asks per asset, and the settlement escrow of the open bids.
    pub open spec fn escrow_covered(&self, reg: &Registry, money: &MoneyLedger) -> bool {
        &&& forall|a: Id| #[trigger] ask_escrow(self.orders@, a) <= reg.balance(a, POT_ACCOUNT)
        &&& bid_escrow(self.orders@) <= money.balance(POT_ACCOUNT)
    }

    /// An empty order book.
    pub fn new() -> (r: Self)
        ensures
            r.wf(),
            forall|k: Id| #[trigger] r.order(k) is None,
            r.orders@.len() == 0,
    {
        Exchange { orders: Table::new() }
    }

    /// Look up an order.
    pub fn get_order(&self, id: Id) -> (r: Option<&Order>)
        requires
            self.wf(),
        ensures
            match r {
                Some(o) => self.order(id) == Some(*o),
                None => self.order(id) is None,
            },
    {
        self.orders.get(id)
    }

    /// Why an order placement would be rejected, if it would be.
    pub open spec fn make_order_check(
        &self,
        reg: &Registry,
        money: &MoneyLedger,
        maker: u64,
        asset_id: Id,
        money_id: Id,
        price: u64,
        amount: u64,
        direction: u8,
        salt: u64,
    ) -> Option<Error> {
        if money_id != Id::zero_spec() {
            Some(Error::InvalidMoneyID)
        } else if price == 0 {
            Some(Error::PriceZero)
        } else if amount == 0 {
            Some(Error::AmountZero)
        } else if reg.asset(asset_id) is None {
            Some(Error::AssetNotExist)
        } else if self.order(order_id_of(maker, asset_id, money_id, price, amount, direction, salt))
            is Some {
            Some(Error::DuplicatedKey)
        } else if direction == ASK {
            if reg.balance(asset_id, maker) < amount {
                Some(Error::InsuffientAsset)
            } else {
                None
            }
        } else if direction == BID {
            if money.balance(maker) < amount as int / price as int {
                Some(Error::InsuffientMoney)
            } else {
                None
            }
        } else {
            Some(Error::InvalidDirection)
        }
    }

    /// Place an order. The maker's offered side is escrowed into the pot:
    /// the full asset amount for an ask, the truncated settlement value
    /// for a bid. The stored order starts with its whole amount left.
    pub fn make_order(
        &mut self,
        reg: &mut Registry,
        money: &mut MoneyLedger,
        maker: u64,
        asset_id: Id,
        money_id: Id,
        price: u64,
        amount: u64,
        direction: u8,
        salt: u64,
        now: u64,
    ) -> (r: Result<(Id, Event), Error>)
        requires
            old(self).wf(),
            old(reg).wf(),
            old(money).wf(),
            old(self).escrow_covered(old(reg), old(money)),
            maker != POT_ACCOUNT,
        ensures
            final(self).wf(),
            final(reg).wf(),
            final(money).wf(),
            final(self).escrow_covered(final(reg), final(money)),
            old(reg).supply_exact() ==> final(reg).supply_exact(),
            r is Err <==> old(self).make_order_check(
                old(reg),
                old(money),
                maker,
                asset_id,
                money_id,
                price,
                amount,
                direction,
                salt,
            ) is Some,
            r matches Err(e) ==> Some(e) == old(self).make_order_check(
                old(reg),
                old(money),
                maker,
                asset_id,
                money_id,
                price,
                amount,
                direction,
                salt,
            ) && *final(self) == *old(self) && *final(reg) == *old(reg) && *final(money) == *old(
                money,
            ),
            r matches Ok((oid, ev)) ==> make_order_applied(
                old(self),
                old(reg),
                old(money),
                final(self),
                final(reg),
                final(money),
                maker,
                asset_id,
                money_id,
                price,
                amount,
                direction,
                salt,
                oid,
            ) && (ev matches Event::NewOrder { order_id, maker: mk, asset_id: aid, money_id: mid, timestamp }
                && order_id == oid && mk == maker && aid == asset_id && mid == money_id
                && timestamp == now),
    {
        if !(money_id == Id::zero()) {
            return Err(Error::InvalidMoneyID);
        }
        if price == 0 {
            return Err(Error::PriceZero);
        }
        if amount == 0 {
            return Err(Error::AmountZero);
        }
        if !reg.has_asset(asset_id) {
            return Err(Error::AssetNotExist);
        }
        let order_id = derive_order_id(maker, asset_id, money_id, price, amount, direction, salt);
        if self.orders.contains_key(order_id) {
            return Err(Error::DuplicatedKey);
        }
        if !(direction == ASK || direction == BID) {
            return Err(Error::InvalidDirection);
        }
        let mut locked: u64 = 0;
        if direction == ASK {
            let bal = reg.get_balance(asset_id, maker);
            if bal < amount {
                return Err(Error::InsuffientAsset);
            }
            match reg.make_transfer(asset_id, maker, POT_ACCOUNT, amount) {
                Ok(()) => {},
                Err(e) => {
                    proof {
                        assert(false);
                    }
                    return Err(e);
                },
            }
        } else {
            locked = amount / price;
            let mbal = money.get(maker);
            if mbal < locked {
                return Err(Error::InsuffientMoney);
            }
            match money.transfer(maker, POT_ACCOUNT, locked) {
                Ok(()) => {},
                Err(e) => {
                    proof {
                        assert(false);
                    }
                    return Err(e);
                },
            }
        }
        let order = Order {
            asset_id,
            money_id,
            maker,
            amount,
            price,
            left_amount: amount,
            direction,
            locked_balance: locked,
            salt,
        };
        let ghost orders0 = self.orders@;
        self.orders.insert(order_id, order);
        proof {
            assert(self.orders@ == orders0.push((order_id, order)));
            assert forall|a: Id|
                #[trigger] ask_escrow(self.orders@, a) == ask_escrow(orders0, a) + if direction
                    == ASK && asset_id == a {
                    amount as int
                } else {
                    0
                } by {
                lemma_sum_push(orders0, ask_weight(a), (order_id, order));
            }
            lemma_sum_push(orders0, bid_weight(), (order_id, order));
            assert(order_ok(order));
            assert forall|k: Id| (#[trigger] self.order(k)) matches Some(x) ==> order_ok(x) by {
                if self.order(k) is Some && k != order_id {
                    assert(self.order(k) == old(self).order(k));
                    let xx = self.order(k).unwrap();
                    assert(old(self).order(k) matches Some(y) && order_ok(y));
                }
            }
            assert forall|a: Id|
                #[trigger] ask_escrow(self.orders@, a) <= reg.balance(a, POT_ACCOUNT) by {
                assert(ask_escrow(orders0, a) <= old(reg).balance(a, POT_ACCOUNT));
                if !(direction == ASK && asset_id == a) {
                    assert(reg.balance(a, POT_ACCOUNT) == old(reg).balance(a, POT_ACCOUNT));
                }
            }
            assert(bid_escrow(self.orders@) <= money.balance(POT_ACCOUNT));
        }
        Ok(
            (
                order_id,
                Event::NewOrder { order_id, maker, asset_id, money_id, timestamp: now },
            ),
        )
    }

    /// Why a fill would be rejected, if it would be.
    pub open spec fn take_order_check(
        &self,
        reg: &Registry,
        money: &MoneyLedger,
        taker: u64,
        order_id: Id,
        amount: u64,
    ) -> Option<Error> {
        match self.order(order_id) {
            Option::None => Some(Error::InvalidIndex),
            Option::Some(o) => if o.left_amount < amount {
                Some(Error::AmountHigh)
            } else if o.direction == ASK {
                if reg.balance(o.asset_id, POT_ACCOUNT) < amount {
                    Some(Error::InsuffientPotAsset)
                } else if money.balance(taker) < amount as int / o.price as int {
                    Some(Error::InsuffientMoney)
                } else {
                    None
                }
            } else {
                if reg.balance(o.asset_id, taker) < amount {
                    Some(Error::InsuffientAsset)
                } else {
                    None
                }
            },
        }
    }

    /// Fill a named order by `amount` asset units. For an ask, the taker
    /// pays the maker the truncated settlement value and receives the
    /// asset from the pot; for a bid, the taker hands the maker the asset
    /// directly and is paid from the pot's escrow. A full fill deletes
    /// the order and reports it finished.
    pub fn take_order(
        &mut self,
        reg: &mut Registry,
        money: &mut MoneyLedger,
        taker: u64,
        order_id: Id,
        amount: u64,
        now: u64,
    ) -> (r: Result<(Event, Option<Event>), Error>)
        requires
            old(self).wf(),
            old(reg).wf(),
            old(money).wf(),
            old(self).escrow_covered(old(reg), old(money)),
            taker != POT_ACCOUNT,
        ensures
            final(self).wf(),
            final(reg).wf(),
            final(money).wf(),
            final(self).escrow_covered(final(reg), final(money)),
            old(reg).supply_exact() ==> final(reg).supply_exact(),
            r is Err <==> old(self).take_order_check(old(reg), old(money), taker, order_id, amount)
                is Some,
            r matches Err(e) ==> Some(e) == old(self).take_order_check(
                old(reg),
                old(money),
                taker,
                order_id,
                amount,
            ) && *final(self) == *old(self) && *final(reg) == *old(reg) && *final(money) == *old(
                money,
            ),
            r is Ok ==> take_order_applied(
                old(self),
                old(reg),
                old(money),
                final(self),
                final(reg),
                final(money),
                taker,
                order_id,
                amount,
            ),
            r matches Ok((deal, fin)) ==> (old(self).order(order_id) matches Some(o) && (
            deal matches Event::NewDeal {
                order_id: oid,
                asset_id,
                money_id,
                maker,
                taker: tk,
                price,
                amount: m,
                direction,
                timestamp,
            } && oid == order_id && asset_id == o.asset_id && money_id == o.money_id && maker
                == o.maker && tk == taker && price == o.price && m == amount && direction
                == o.direction && timestamp == now) && (match fin {
                Option::Some(ev) => amount == o.left_amount && (ev matches Event::OrderFinished {
                    order_id: fid,
                } && fid == order_id),
                Option::None => amount < o.left_amount,
            })),
    {
        let o = match self.orders.get(order_id) {
            Option::None => {
                return Err(Error::InvalidIndex);
            },
            Option::Some(o) => *o,
        };
        proof {
            assert(order_ok(o));
        }
        if o.left_amount < amount {
            return Err(Error::AmountHigh);
        }
        let money_amount = amount / o.price;
        proof {
            lemma_div_is_ordered(amount as int, o.left_amount as int, o.price as int);
        }
        if o.direction == ASK {
            let pot_bal = reg.get_balance(o.asset_id, POT_ACCOUNT);
            if pot_bal < amount {
                return Err(Error::InsuffientPotAsset);
            }
            let taker_money = money.get(taker);
            if taker_money < money_amount {
                return Err(Error::InsuffientMoney);
            }
            match money.transfer(taker, o.maker, money_amount) {
                Ok(()) => {},
                Err(e) => {
                    proof {
                        assert(false);
                    }
                    return Err(e);
                },
            }
            match reg.make_transfer(o.asset_id, POT_ACCOUNT, taker, amount) {
                Ok(()) => {},
                Err(e) => {
                    proof {
                        assert(false);
                    }
                    return Err(e);
                },
            }
        } else {
            let taker_asset = reg.get_balance(o.asset_id, taker);
            if taker_asset < amount {
                return Err(Error::InsuffientAsset);
            }
            match reg.make_transfer(o.asset_id, taker, o.maker, amount) {
                Ok(()) => {},
                Err(e) => {
                    proof {
                        assert(false);
                    }
                    return Err(e);
                },
            }
            proof {
                lemma_get_index(self.orders@, order_id);
                let i = choose|i: int|
                    0 <= i < self.orders@.len() && (#[trigger] self.orders@[i]).0 == order_id
                        && table_get(self.orders@, order_id) == Some(self.orders@[i].1);
                lemma_element_le_sum(self.orders@, bid_weight(), i);
            }
            match money.transfer(POT_ACCOUNT, taker, money_amount) {
                Ok(()) => {},
                Err(e) => {
                    proof {
                        assert(false);
                    }
                    return Err(e);
                },
            }
        }
        let ghost orders0 = self.orders@;
        let fin: Option<Event>;
        if amount < o.left_amount {
            let mut o2 = o;
            o2.left_amount = o.left_amount - amount;
            if o.direction == BID {
                o2.locked_balance = o.locked_balance - money_amount;
            }
            proof {
                if o.direction == BID {
                    lemma_div_parts(
                        amount as int,
                        (o.left_amount - amount) as int,
                        o.price as int,
                    );
                }
            }
            let _ = self.orders.take(order_id);
            let ghost i_o = choose|i: int|
                0 <= i < orders0.len() && (#[trigger] orders0[i]).0 == order_id && self.orders@
                    == orders0.remove(i);
            let ghost mid = self.orders@;
            self.orders.insert(order_id, o2);
            proof {
                crate::table::lemma_get_present(orders0, i_o);
                assert(orders0[i_o].1 == o);
                assert(self.orders@ == mid.push((order_id, o2)));
                assert forall|a: Id|
                    #[trigger] ask_escrow(self.orders@, a) == ask_escrow(orders0, a) - if o.direction
                        == ASK && o.asset_id == a {
                        amount as int
                    } else {
                        0
                    } by {
                    lemma_sum_remove(orders0, ask_weight(a), i_o);
                    lemma_sum_push(mid, ask_weight(a), (order_id, o2));
                }
                lemma_sum_remove(orders0, bid_weight(), i_o);
                lemma_sum_push(mid, bid_weight(), (order_id, o2));
                assert(order_ok(o2));
                assert forall|k: Id| (#[trigger] self.order(k)) matches Some(x) ==> order_ok(
                    x,
                ) by {
                    if self.order(k) is Some && k != order_id {
                        assert(self.order(k) == old(self).order(k));
                        assert(old(self).order(k) matches Some(y) && order_ok(y));
                    }
                }
            }
            fin = Option::None;
        } else {
            let _ = self.orders.take(order_id);
            let ghost i_o = choose|i: int|
                0 <= i < orders0.len() && (#[trigger] orders0[i]).0 == order_id && self.orders@
                    == orders0.remove(i);
            proof {
                crate::table::lemma_get_present(orders0, i_o);
                assert(orders0[i_o].1 == o);
                assert forall|a: Id|
                    #[trigger] ask_escrow(self.orders@, a) == ask_escrow(orders0, a) - if o.direction
                        == ASK && o.asset_id == a {
                        o.left_amount as int
                    } else {
                        0
                    } by {
                    lemma_sum_remove(orders0, ask_weight(a), i_o);
                }
                lemma_sum_remove(orders0, bid_weight(), i_o);
                assert forall|k: Id| (#[trigger] self.order(k)) matches Some(x) ==> order_ok(
                    x,
                ) by {
                    if self.order(k) is Some {
                        assert(self.order(k) == old(self).order(k));
                        assert(old(self).order(k) matches Some(y) && order_ok(y));
                    }
                }
            }
            fin = Option::Some(Event::OrderFinished { order_id });
        }
        proof {
            assert forall|a: Id|
                #[trigger] ask_escrow(self.orders@, a) <= reg.balance(a, POT_ACCOUNT) by {
                assert(ask_escrow(orders0, a) <= old(reg).balance(a, POT_ACCOUNT));
                if !(o.direction == ASK && o.asset_id == a) {
                    assert(reg.balance(a, POT_ACCOUNT) == old(reg).balance(a, POT_ACCOUNT));
                }
            }
            assert(bid_escrow(self.orders@) <= money.balance(POT_ACCOUNT));
        }
        let deal = Event::NewDeal {
            order_id,
            asset_id: o.asset_id,
            money_id: o.money_id,
            maker: o.maker,
            taker,
            price: o.price,
            amount,
            direction: o.direction,
            timestamp: now,
        };
        Ok((deal, fin))
    }

    /// Why a cancellation would be rejected, if it would be.
    pub open spec fn cancel_order_check(&self, caller: u64, order_id: Id) -> Option<Error> {
        match self.order(order_id) {
            Option::None => Some(Error::InvalidIndex),
            Option::Some(o) => if o.maker != caller {
                Some(Error::PermissionDenied)
            } else {
                None
            },
        }
    }

    /// Cancel an order. Only its maker may; the maker's full remaining
    /// escrow comes back from the pot (the remaining asset units for an
    /// ask, the locked settlement balance for a bid) and the order is
    /// deleted.
    pub fn cancel_order(
        &mut self,
        reg: &mut Registry,
        money: &mut MoneyLedger,
        caller: u64,
        order_id: Id,
    ) -> (r: Result<Event, Error>)
        requires
            old(self).wf(),
            old(reg).wf(),
            old(money).wf(),
            old(self).escrow_covered(old(reg), old(money)),
        ensures
            final(self).wf(),
            final(reg).wf(),
            final(money).wf(),
            final(self).escrow_covered(final(reg), final(money)),
            old(reg).supply_exact() ==> final(reg).supply_exact(),
            r is Err <==> old(self).cancel_order_check(caller, order_id) is Some,
            r matches Err(e) ==> Some(e) == old(self).cancel_order_check(caller, order_id)
                && *final(self) == *old(self) && *final(reg) == *old(reg) && *final(money) == *old(
                money,
            ),
            r is Ok ==> cancel_order_applied(
                old(self),
                old(reg),
                old(money),
                final(self),
                final(reg),
                final(money),
                caller,
                order_id,
            ),
            r matches Ok(ev) ==> ev matches Event::OrderCanceled { order_id: oid } && oid
                == order_id,
    {
        let o = match self.orders.get(order_id) {
            Option::None => {
                return Err(Error::InvalidIndex);
            },
            Option::Some(o) => *o,
        };
        if o.maker != caller {
            return Err(Error::PermissionDenied);
        }
        proof {
            assert(order_ok(o));
            lemma_get_index(self.orders@, order_id);
            let i = choose|i: int|
                0 <= i < self.orders@.len() && (#[trigger] self.orders@[i]).0 == order_id
                    && table_get(self.orders@, order_id) == Some(self.orders@[i].1);
            assert(self.orders@[i].1 == o);
            if o.direction == ASK {
                assert((ask_weight(o.asset_id))(self.orders@[i]) == o.left_amount as int);
                lemma_element_le_sum(self.orders@, ask_weight(o.asset_id), i);
                assert(o.left_amount as int <= ask_escrow(self.orders@, o.asset_id));
                assert(ask_escrow(self.orders@, o.asset_id) <= reg.balance(
                    o.asset_id,
                    POT_ACCOUNT,
                ));
            } else {
                assert((bid_weight())(self.orders@[i]) == o.locked_balance as int);
                lemma_element_le_sum(self.orders@, bid_weight(), i);
                assert(o.locked_balance as int <= money.balance(POT_ACCOUNT));
            }
        }
        if o.direction == ASK {
            proof {
                assert(caller != POT_ACCOUNT);
                assert(reg.balance(o.asset_id, POT_ACCOUNT) >= o.left_amount as int);
            }
            match reg.make_transfer(o.asset_id, POT_ACCOUNT, caller, o.left_amount) {
                Ok(()) => {},
                Err(e) => {
                    proof {
                        assert(false);
                    }
                    return Err(e);
                },
            }
        } else {
            match money.transfer(POT_ACCOUNT, caller, o.locked_balance) {
                Ok(()) => {},
                Err(e) => {
                    proof {
                        assert(false);
                    }
                    return Err(e);
                },
            }
        }
        let ghost orders0 = self.orders@;
        let _ = self.orders.take(order_id);
        proof {
            let i_o = choose|i: int|
                0 <= i < orders0.len() && (#[trigger] orders0[i]).0 == order_id && self.orders@
                    == orders0.remove(i);
            crate::table::lemma_get_present(orders0, i_o);
            assert(orders0[i_o].1 == o);
            assert forall|a: Id|
                #[trigger] ask_escrow(self.orders@, a) == ask_escrow(orders0, a) - if o.direction
                    == ASK && o.asset_id == a {
                    o.left_amount as int
                } else {
                    0
                } by {
                lemma_sum_remove(orders0, ask_weight(a), i_o);
            }
            lemma_sum_remove(orders0, bid_weight(), i_o);
            assert forall|k: Id| (#[trigger] self.order(k)) matches Some(x) ==> order_ok(x) by {
                if self.order(k) is Some {
                    assert(self.order(k) == old(self).order(k));
                    assert(old(self).order(k) matches Some(y) && order_ok(y));
                }
            }
            assert forall|a: Id|
                #[trigger] ask_escrow(self.orders@, a) <= reg.balance(a, POT_ACCOUNT) by {
                assert(ask_escrow(orders0, a) <= old(reg).balance(a, POT_ACCOUNT));
                if !(o.direction == ASK && o.asset_id == a) {
                    assert(reg.balance(a, POT_ACCOUNT) == old(reg).balance(a, POT_ACCOUNT));
                }
            }
            assert(bid_escrow(self.orders@) <= money.balance(POT_ACCOUNT));
        }
        Ok(Event::OrderCanceled { order_id })
    }
}

/// How a successful order placement relates the new state to the old
/// one: the order is stored whole, the maker's offered side has moved
/// into the pot, and nothing else has changed.
pub open spec fn make_order_applied(
    ex0: &Exchange,
    reg0: &Registry,
    m0: &MoneyLedger,
    ex1: &Exchange,
    reg1: &Registry,
    m1: &MoneyLedger,
    maker: u64,
    asset_id: Id,
    money_id: Id,
    price: u64,
    amount: u64,
    direction: u8,
    salt: u64,
    oid: Id,
) -> bool {
    let locked = initial_locked(direction, amount, price);
    &&& oid == order_id_of(maker, asset_id, money_id, price, amount, direction, salt)
    &&& ex0.order(oid) is None
    &&& ex1.order(oid) == Some(
        Order {
            asset_id,
            money_id,
            maker,
            amount,
            price,
            left_amount: amount,
            direction,
            locked_balance: locked,
            salt,
        },
    )
    &&& forall|k: Id| k != oid ==> #[trigger] ex1.order(k) == ex0.order(k)
    &&& same_records(reg0, reg1)
    &&& forall|a2: Id| #[trigger] reg1.circulating(a2) == reg0.circulating(a2)
    &&& if direction == ASK {
        &&& reg1.balance(asset_id, maker) == reg0.balance(asset_id, maker) - amount
        &&& reg1.balance(asset_id, POT_ACCOUNT) == reg0.balance(asset_id, POT_ACCOUNT) + amount
        &&& forall|a2: Id, acct2: u64|
            !(a2 == asset_id && (acct2 == maker || acct2 == POT_ACCOUNT)) ==> #[trigger] reg1.balance(
                a2,
                acct2,
            ) == reg0.balance(a2, acct2)
        &&& *m1 == *m0
    } else {
        &&& *reg1 == *reg0
        &&& m1.balance(maker) == m0.balance(maker) - locked
        &&& m1.balance(POT_ACCOUNT) == m0.balance(POT_ACCOUNT) + locked
        &&& forall|acct: u64|
            acct != maker && acct != POT_ACCOUNT ==> #[trigger] m1.balance(acct) == m0.balance(acct)
        &&& m1.total() == m0.total()
    }
}

/// How a successful fill relates the new state to the old one: the order
/// shrinks by the filled amount (or disappears when filled whole), asset
/// and settlement currency move between taker, maker and pot as the
/// direction dictates, and nothing else changes.
pub open spec fn take_order_applied(
    ex0: &Exchange,
    reg0: &Registry,
    m0: &MoneyLedger,
    ex1: &Exchange,
    reg1: &Registry,
    m1: &MoneyLedger,
    taker: u64,
    order_id: Id,
    amount: u64,
) -> bool {
    &&& ex0.order(order_id) matches Some(o) && {
        let pay = amount as int / o.price as int;
        &&& amount <= o.left_amount
        &&& if amount < o.left_amount {
            ex1.order(order_id) == Some(
                Order {
                    left_amount: (o.left_amount - amount) as u64,
                    locked_balance: if o.direction == BID {
                        (o.locked_balance - pay) as u64
                    } else {
                        o.locked_balance
                    },
                    ..o
                },
            )
        } else {
            ex1.order(order_id) is None
        }
        &&& forall|k: Id| k != order_id ==> #[trigger] ex1.order(k) == ex0.order(k)
        &&& same_records(reg0, reg1)
        &&& forall|a2: Id| #[trigger] reg1.circulating(a2) == reg0.circulating(a2)
        &&& m1.total() == m0.total()
        &&& if o.direction == ASK {
            &&& (taker != o.maker ==> m1.balance(taker) == m0.balance(taker) - pay && m1.balance(
                o.maker,
            ) == m0.balance(o.maker) + pay && (forall|acct: u64|
                acct != taker && acct != o.maker ==> #[trigger] m1.balance(acct) == m0.balance(
                    acct,
                )))
            &&& (taker == o.maker ==> *m1 == *m0)
            &&& reg1.balance(o.asset_id, POT_ACCOUNT) == reg0.balance(o.asset_id, POT_ACCOUNT)
                - amount
            &&& reg1.balance(o.asset_id, taker) == reg0.balance(o.asset_id, taker) + amount
            &&& forall|a2: Id, acct2: u64|
                !(a2 == o.asset_id && (acct2 == POT_ACCOUNT || acct2 == taker))
                    ==> #[trigger] reg1.balance(a2, acct2) == reg0.balance(a2, acct2)
        } else {
            &&& (taker != o.maker ==> reg1.balance(o.asset_id, taker) == reg0.balance(
                o.asset_id,
                taker,
            ) - amount && reg1.balance(o.asset_id, o.maker) == reg0.balance(o.asset_id, o.maker)
                + amount && (forall|a2: Id, acct2: u64|
                !(a2 == o.asset_id && (acct2 == taker || acct2 == o.maker))
                    ==> #[trigger] reg1.balance(a2, acct2) == reg0.balance(a2, acct2)))
            &&& (taker == o.maker ==> reg1.ledger == reg0.ledger)
            &&& m1.balance(POT_ACCOUNT) == m0.balance(POT_ACCOUNT) - pay
            &&& m1.balance(taker) == m0.balance(taker) + pay
            &&& forall|acct: u64|
                acct != POT_ACCOUNT && acct != taker ==> #[trigger] m1.balance(acct) == m0.balance(
                    acct,
                )
        }
    }
}

/// How a successful cancellation relates the new state to the old one:
/// the order is gone and its remaining escrow is back with the maker.
pub open spec fn cancel_order_applied(
    ex0: &Exchange,
    reg0: &Registry,
    m0: &MoneyLedger,
    ex1: &Exchange,
    reg1: &Registry,
    m1: &MoneyLedger,
    caller: u64,
    order_id: Id,
) -> bool {
    &&& ex0.order(order_id) matches Some(o) && o.maker == caller && {
        &&& ex1.order(order_id) is None
        &&& forall|k: Id| k != order_id ==> #[trigger] ex1.order(k) == ex0.order(k)
        &&& same_records(reg0, reg1)
        &&& forall|a2: Id| #[trigger] reg1.circulating(a2) == reg0.circulating(a2)
        &&& m1.total() == m0.total()
        &&& if o.direction == ASK {
            &&& reg1.balance(o.asset_id, caller) == reg0.balance(o.asset_id, caller)
                + o.left_amount
            &&& reg1.balance(o.asset_id, POT_ACCOUNT) == reg0.balance(o.asset_id, POT_ACCOUNT)
                - o.left_amount
            &&& forall|a2: Id, acct2: u64|
                !(a2 == o.asset_id && (acct2 == caller || acct2 == POT_ACCOUNT))
                    ==> #[trigger] reg1.balance(a2, acct2) == reg0.balance(a2, acct2)
            &&& *m1 == *m0
        } else {
            &&& *reg1 == *reg0
            &&& m1.balance(caller) == m0.balance(caller) + o.locked_balance
            &&& m1.balance(POT_ACCOUNT) == m0.balance(POT_ACCOUNT) - o.locked_balance
            &&& forall|acct: u64|
                acct != caller && acct != POT_ACCOUNT ==> #[trigger] m1.balance(acct) == m0.balance(
                    acct,
                )
        }
    }
}

/// Division by a positive divisor is superadditive over nonnegative
/// parts: the floors of the parts sum to at most the floor of the whole.
proof fn lemma_div_parts(a: int, b: int, p: int)
    requires
        0 <= a,
        0 <= b,
        0 < p,
    ensures
        a / p + b / p <= (a + b) / p,
{
    lemma_fundamental_div_mod(a, p);
    lemma_fundamental_div_mod(b, p);
    lemma_mod_division_less_than_divisor(a, p);
    lemma_mod_division_less_than_divisor(b, p);
    let q = a / p + b / p;
    let r = a % p + b % p;
    lemma_mul_is_distributive_add(p, a / p, b / p);
    assert(a + b == p * q + r);
    assert(q * p == p * q) by {
        vstd::arithmetic::mul::lemma_mul_is_commutative(q, p);
    }
    if r < p {
        lemma_fundamental_div_mod_converse_div(a + b, p, q, r);
    } else {
        assert(a + b == (q + 1) * p + (r - p)) by {
            vstd::arithmetic::mul::lemma_mul_is_distributive_add_other_way(p, q, 1);
        }
        lemma_fundamental_div_mod_converse_div(a + b, p, q + 1, r - p);
    }
}

} // verus!
