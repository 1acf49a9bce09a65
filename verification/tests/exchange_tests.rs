use eco2_core::errors::Error;
use eco2_core::events::Event;
use eco2_core::exchange::{pot_account_id, Exchange, ASK, BID};
use eco2_core::ids::Id;
use eco2_core::money::MoneyLedger;
use eco2_core::registry::Registry;

const MAKER: u64 = 1;
const TAKER: u64 = 2;
const APPROVER: bool = true;
const NOW: u64 = 9;

fn setup(asset_to_maker: u64, money_each: u64) -> (Registry, MoneyLedger, Exchange, Id) {
    let mut reg = Registry::new();
    let (pid, _) = reg
        .submit_project(MAKER, b"ECO".to_vec(), 1_000_000, b"p".to_vec(), NOW)
        .unwrap();
    reg.approve_project(APPROVER, pid).unwrap();
    let (aid, _) = reg
        .submit_asset(MAKER, pid, b"2020".to_vec(), asset_to_maker, b"a".to_vec(), NOW)
        .unwrap();
    reg.approve_asset(APPROVER, aid).unwrap();
    let mut money = MoneyLedger::new();
    money.deposit(MAKER, money_each);
    money.deposit(TAKER, money_each);
    (reg, money, Exchange::new(), aid)
}

#[test]
fn ask_escrows_and_partial_fill_pays_out() {
    // make_order(Ask, amount=100, price=5) escrows 100 asset units in the
    // pot; take_order(40) pays the maker 40/5 = 8 settlement units and
    // moves 40 asset units pot -> taker; 60 are left on the order.
    let (mut reg, mut money, mut ex, aid) = setup(100, 1000);
    let (oid, _) = ex
        .make_order(&mut reg, &mut money, MAKER, aid, Id::zero(), 5, 100, ASK, 77, NOW)
        .unwrap();
    assert_eq!(reg.get_balance(aid, MAKER), 0);
    assert_eq!(reg.get_balance(aid, pot_account_id()), 100);

    let (deal, fin) = ex
        .take_order(&mut reg, &mut money, TAKER, oid, 40, NOW)
        .unwrap();
    assert!(fin.is_none());
    match deal {
        Event::NewDeal { order_id, amount, price, direction, maker, taker, .. } => {
            assert_eq!(order_id, oid);
            assert_eq!(amount, 40);
            assert_eq!(price, 5);
            assert_eq!(direction, ASK);
            assert_eq!(maker, MAKER);
            assert_eq!(taker, TAKER);
        },
        other => panic!("unexpected event {:?}", other),
    }
    assert_eq!(money.get(MAKER), 1008);
    assert_eq!(money.get(TAKER), 992);
    assert_eq!(reg.get_balance(aid, TAKER), 40);
    assert_eq!(reg.get_balance(aid, pot_account_id()), 60);
    assert_eq!(ex.get_order(oid).unwrap().left_amount, 60);
}

#[test]
fn full_fill_finishes_and_deletes_the_order() {
    let (mut reg, mut money, mut ex, aid) = setup(100, 1000);
    let (oid, _) = ex
        .make_order(&mut reg, &mut money, MAKER, aid, Id::zero(), 5, 100, ASK, 77, NOW)
        .unwrap();
    ex.take_order(&mut reg, &mut money, TAKER, oid, 40, NOW).unwrap();
    let (_deal, fin) = ex
        .take_order(&mut reg, &mut money, TAKER, oid, 60, NOW)
        .unwrap();
    match fin {
        Some(Event::OrderFinished { order_id }) => assert_eq!(order_id, oid),
        other => panic!("expected a finished order, got {:?}", other),
    }
    assert!(ex.get_order(oid).is_none());
    assert_eq!(reg.get_balance(aid, pot_account_id()), 0);
    assert_eq!(reg.get_balance(aid, TAKER), 100);
    assert_eq!(money.get(MAKER), 1020);
}

#[test]
fn overfill_is_rejected_and_changes_nothing() {
    let (mut reg, mut money, mut ex, aid) = setup(100, 1000);
    let (oid, _) = ex
        .make_order(&mut reg, &mut money, MAKER, aid, Id::zero(), 5, 100, ASK, 77, NOW)
        .unwrap();
    let r = ex.take_order(&mut reg, &mut money, TAKER, oid, 101, NOW);
    assert_eq!(r.unwrap_err(), Error::AmountHigh);
    assert_eq!(ex.get_order(oid).unwrap().left_amount, 100);
    assert_eq!(reg.get_balance(aid, pot_account_id()), 100);
}

#[test]
fn cancel_restores_the_ask_maker_exactly() {
    let (mut reg, mut money, mut ex, aid) = setup(100, 1000);
    let (oid, _) = ex
        .make_order(&mut reg, &mut money, MAKER, aid, Id::zero(), 5, 100, ASK, 77, NOW)
        .unwrap();
    let ev = ex.cancel_order(&mut reg, &mut money, MAKER, oid).unwrap();
    assert!(matches!(ev, Event::OrderCanceled { order_id } if order_id == oid));
    assert_eq!(reg.get_balance(aid, MAKER), 100);
    assert_eq!(reg.get_balance(aid, pot_account_id()), 0);
    assert_eq!(money.get(MAKER), 1000);
    assert!(ex.get_order(oid).is_none());
}

#[test]
fn cancel_restores_the_bid_maker_exactly() {
    let (mut reg, mut money, mut ex, aid) = setup(100, 1000);
    let (oid, _) = ex
        .make_order(&mut reg, &mut money, MAKER, aid, Id::zero(), 5, 100, BID, 77, NOW)
        .unwrap();
    // 100 / 5 = 20 settlement units escrowed
    assert_eq!(money.get(MAKER), 980);
    assert_eq!(money.get(pot_account_id()), 20);
    ex.cancel_order(&mut reg, &mut money, MAKER, oid).unwrap();
    assert_eq!(money.get(MAKER), 1000);
    assert_eq!(money.get(pot_account_id()), 0);
    assert_eq!(reg.get_balance(aid, MAKER), 100);
}

#[test]
fn only_the_maker_may_cancel() {
    let (mut reg, mut money, mut ex, aid) = setup(100, 1000);
    let (oid, _) = ex
        .make_order(&mut reg, &mut money, MAKER, aid, Id::zero(), 5, 100, ASK, 77, NOW)
        .unwrap();
    let r = ex.cancel_order(&mut reg, &mut money, TAKER, oid);
    assert_eq!(r.unwrap_err(), Error::PermissionDenied);
    assert!(ex.get_order(oid).is_some());
}

#[test]
fn bid_fill_moves_asset_to_maker_and_pays_taker_from_escrow() {
    let (mut reg, mut money, mut ex, aid) = setup(100, 1000);
    // the taker holds the asset for a bid fill
    reg.transfer(MAKER, aid, TAKER, 100, NOW).unwrap();
    let (oid, _) = ex
        .make_order(&mut reg, &mut money, MAKER, aid, Id::zero(), 5, 100, BID, 77, NOW)
        .unwrap();
    assert_eq!(money.get(pot_account_id()), 20);
    let (_deal, fin) = ex
        .take_order(&mut reg, &mut money, TAKER, oid, 40, NOW)
        .unwrap();
    assert!(fin.is_none());
    assert_eq!(reg.get_balance(aid, MAKER), 40);
    assert_eq!(reg.get_balance(aid, TAKER), 60);
    assert_eq!(money.get(TAKER), 1008);
    assert_eq!(money.get(pot_account_id()), 12);
    let o = *ex.get_order(oid).unwrap();
    assert_eq!(o.left_amount, 60);
    assert_eq!(o.locked_balance, 12);
}

#[test]
fn make_order_validates_its_inputs() {
    let (mut reg, mut money, mut ex, aid) = setup(100, 1000);
    let bad_money = Id { w0: 1, w1: 0, w2: 0, w3: 0 };
    assert_eq!(
        ex.make_order(&mut reg, &mut money, MAKER, aid, bad_money, 5, 100, ASK, 1, NOW)
            .unwrap_err(),
        Error::InvalidMoneyID
    );
    assert_eq!(
        ex.make_order(&mut reg, &mut money, MAKER, aid, Id::zero(), 0, 100, ASK, 1, NOW)
            .unwrap_err(),
        Error::PriceZero
    );
    assert_eq!(
        ex.make_order(&mut reg, &mut money, MAKER, aid, Id::zero(), 5, 0, ASK, 1, NOW)
            .unwrap_err(),
        Error::AmountZero
    );
    let no_asset = Id { w0: 8, w1: 8, w2: 8, w3: 8 };
    assert_eq!(
        ex.make_order(&mut reg, &mut money, MAKER, no_asset, Id::zero(), 5, 100, ASK, 1, NOW)
            .unwrap_err(),
        Error::AssetNotExist
    );
    assert_eq!(
        ex.make_order(&mut reg, &mut money, MAKER, aid, Id::zero(), 5, 100, 7, 1, NOW)
            .unwrap_err(),
        Error::InvalidDirection
    );
    assert_eq!(
        ex.make_order(&mut reg, &mut money, MAKER, aid, Id::zero(), 5, 101, ASK, 1, NOW)
            .unwrap_err(),
        Error::InsuffientAsset
    );
    assert_eq!(
        ex.make_order(&mut reg, &mut money, 3, aid, Id::zero(), 1, 2000, BID, 1, NOW)
            .unwrap_err(),
        Error::InsuffientMoney
    );
}

#[test]
fn placing_the_same_order_twice_is_a_duplicate_key() {
    let (mut reg, mut money, mut ex, aid) = setup(100, 1000);
    ex.make_order(&mut reg, &mut money, MAKER, aid, Id::zero(), 5, 10, ASK, 1, NOW)
        .unwrap();
    let r = ex.make_order(&mut reg, &mut money, MAKER, aid, Id::zero(), 5, 10, ASK, 1, NOW);
    assert_eq!(r.unwrap_err(), Error::DuplicatedKey);
}

#[test]
fn taking_an_unknown_order_is_invalid_index() {
    let (mut reg, mut money, mut ex, _aid) = setup(100, 1000);
    let no_id = Id { w0: 3, w1: 3, w2: 3, w3: 3 };
    assert_eq!(
        ex.take_order(&mut reg, &mut money, TAKER, no_id, 1, NOW).unwrap_err(),
        Error::InvalidIndex
    );
    assert_eq!(
        ex.cancel_order(&mut reg, &mut money, MAKER, no_id).unwrap_err(),
        Error::InvalidIndex
    );
}

#[test]
fn bid_fill_needs_the_takers_asset() {
    let (mut reg, mut money, mut ex, aid) = setup(100, 1000);
    let (oid, _) = ex
        .make_order(&mut reg, &mut money, MAKER, aid, Id::zero(), 5, 100, BID, 77, NOW)
        .unwrap();
    // the taker holds no asset units
    let r = ex.take_order(&mut reg, &mut money, TAKER, oid, 40, NOW);
    assert_eq!(r.unwrap_err(), Error::InsuffientAsset);
}

#[test]
fn ask_fill_needs_the_takers_money() {
    let (mut reg, mut money, mut ex, aid) = setup(100, 0);
    let (oid, _) = ex
        .make_order(&mut reg, &mut money, MAKER, aid, Id::zero(), 5, 100, ASK, 77, NOW)
        .unwrap();
    let r = ex.take_order(&mut reg, &mut money, TAKER, oid, 40, NOW);
    assert_eq!(r.unwrap_err(), Error::InsuffientMoney);
}

#[test]
fn drained_pot_is_reported_on_an_ask_fill() {
    // Nothing inside the exchange drains the pot, but a collaborator
    // holding the ledger could; the fill must then refuse rather than
    // underflow the escrow.
    let (mut reg, mut money, mut ex, aid) = setup(100, 1000);
    let (oid, _) = ex
        .make_order(&mut reg, &mut money, MAKER, aid, Id::zero(), 5, 100, ASK, 77, NOW)
        .unwrap();
    reg.transfer(pot_account_id(), aid, 3, 90, NOW).unwrap();
    let r = ex.take_order(&mut reg, &mut money, TAKER, oid, 40, NOW);
    assert_eq!(r.unwrap_err(), Error::InsuffientPotAsset);
}

#[test]
fn truncating_settlement_rounds_down_to_zero_for_small_fills() {
    let (mut reg, mut money, mut ex, aid) = setup(100, 1000);
    let (oid, _) = ex
        .make_order(&mut reg, &mut money, MAKER, aid, Id::zero(), 5, 100, ASK, 77, NOW)
        .unwrap();
    // 3 / 5 truncates to 0: the taker gets 3 units for nothing
    ex.take_order(&mut reg, &mut money, TAKER, oid, 3, NOW).unwrap();
    assert_eq!(money.get(MAKER), 1000);
    assert_eq!(reg.get_balance(aid, TAKER), 3);
    assert_eq!(ex.get_order(oid).unwrap().left_amount, 97);
}
