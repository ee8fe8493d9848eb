use tangle_pallets::ledger::{Ledger, LedgerError};
use tangle_pallets::orderbook::book::{Error, Event, Orderbook, OrderbookConfig};
use tangle_pallets::orderbook::hashing::order_id;
use tangle_pallets::orderbook::types::{
    OrderType, PricePoint, ResourceRequest, ResourceType,
};

const OPERATOR: u64 = 1;
const USER: u64 = 2;
const POOR: u64 = 3;

fn config() -> OrderbookConfig {
    OrderbookConfig {
        max_orders_per_user: 10,
        max_orders_per_resource: 10,
        max_resources_per_order: 10,
        min_service_duration: 10,
        min_operator_collateral: 1_000,
    }
}

fn book_with(cfg: OrderbookConfig) -> Orderbook {
    let mut ledger = Ledger::new();
    ledger.deposit_creating(OPERATOR, 100_000);
    ledger.deposit_creating(USER, 100_000);
    ledger.deposit_creating(POOR, 10);
    Orderbook::new(cfg, ledger)
}

fn book() -> Orderbook {
    book_with(config())
}

/// One request of every kind of resource, at `price`.
fn every_kind(amount: u128, price: u128) -> Vec<ResourceRequest> {
    ResourceType::all()
        .into_iter()
        .map(|resource_type| ResourceRequest { resource_type, amount, price })
        .collect()
}

fn compute(amount: u128, price: u128) -> Vec<ResourceRequest> {
    vec![ResourceRequest { resource_type: ResourceType::Compute, amount, price }]
}

fn ids_of(b: &Orderbook, who: u64) -> Vec<[u8; 32]> {
    b.user_orders.get(&who).cloned().unwrap_or_default()
}

#[test]
fn resource_types_are_listed_in_order() {
    assert_eq!(
        ResourceType::all(),
        vec![ResourceType::Compute, ResourceType::Memory, ResourceType::Storage, ResourceType::Network]
    );
    for (i, t) in ResourceType::all().iter().enumerate() {
        assert_eq!(t.index() as usize, i);
    }
}

#[test]
fn register_operator_reserves_collateral() {
    let mut b = book();
    assert_eq!(b.register_operator(OPERATOR, every_kind(10, 5), 10, 1_000), Ok(()));
    assert_eq!(b.ledger.reserved_balance(OPERATOR), 1_000);
    assert_eq!(b.ledger.free_balance(OPERATOR), 99_000);
    assert_eq!(
        b.events.last(),
        Some(&Event::OperatorRegistered { operator_id: OPERATOR, collateral: 1_000 })
    );
    assert_eq!(
        b.register_operator(OPERATOR, every_kind(10, 5), 10, 1_000),
        Err(Error::OperatorAlreadyRegistered)
    );
}

#[test]
fn register_operator_checks_its_terms() {
    let mut b = book();
    assert_eq!(
        b.register_operator(OPERATOR, every_kind(10, 5), 9, 1_000),
        Err(Error::InvalidServiceDuration)
    );
    assert_eq!(
        b.register_operator(OPERATOR, every_kind(10, 5), 10, 999),
        Err(Error::InsufficientCollateral)
    );
    assert_eq!(
        b.register_operator(OPERATOR, compute(10, 5), 10, 1_000),
        Err(Error::InvalidOrderParameters)
    );
    assert_eq!(
        b.register_operator(POOR, every_kind(10, 5), 10, 1_000),
        Err(Error::Balances(LedgerError::InsufficientBalance))
    );
    assert!(b.operator_offerings.get(&OPERATOR).is_none());
    assert_eq!(b.ledger.reserved_balance(OPERATOR), 0);
}

#[test]
fn update_and_unregister_operator() {
    let mut b = book();
    assert_eq!(b.update_operator(OPERATOR, every_kind(1, 1), 10, None), Err(Error::OperatorNotRegistered));
    assert_eq!(b.unregister_operator(OPERATOR), Err(Error::OperatorNotRegistered));
    assert_eq!(b.register_operator(OPERATOR, every_kind(10, 5), 10, 1_000), Ok(()));
    assert_eq!(b.update_operator(OPERATOR, every_kind(20, 5), 10, Some(2_000)), Ok(()));
    assert_eq!(b.ledger.reserved_balance(OPERATOR), 2_000);
    assert_eq!(b.operator_offerings.get(&OPERATOR).unwrap().collateral, 2_000);
    assert_eq!(
        b.events.last(),
        Some(&Event::OperatorUpdated { operator_id: OPERATOR, collateral: 2_000 })
    );
    assert_eq!(b.unregister_operator(OPERATOR), Ok(()));
    assert_eq!(b.ledger.reserved_balance(OPERATOR), 0);
    assert_eq!(b.ledger.free_balance(OPERATOR), 100_000);
    assert!(b.operator_offerings.get(&OPERATOR).is_none());
    assert_eq!(b.events.last(), Some(&Event::OperatorUnregistered { operator_id: OPERATOR }));
}

#[test]
fn place_ask_needs_a_registered_operator_and_every_kind() {
    let mut b = book();
    assert_eq!(b.place_ask(OPERATOR, every_kind(10, 5), 100), Err(Error::OperatorNotRegistered));
    assert_eq!(b.register_operator(OPERATOR, every_kind(10, 5), 10, 1_000), Ok(()));
    assert_eq!(b.place_ask(OPERATOR, compute(10, 5), 100), Err(Error::InvalidOrderParameters));
    assert_eq!(b.place_ask(OPERATOR, every_kind(10, 5), 0), Err(Error::InvalidOrderParameters));
    assert_eq!(b.place_ask(OPERATOR, vec![], 100), Err(Error::InvalidOrderParameters));
    assert!(ids_of(&b, OPERATOR).is_empty());
}

#[test]
fn place_ask_lists_the_order() {
    let mut b = book();
    assert_eq!(b.register_operator(OPERATOR, every_kind(10, 5), 10, 1_000), Ok(()));
    b.set_block_number(7);
    let resources = every_kind(10, 5);
    assert_eq!(b.place_ask(OPERATOR, resources.clone(), 100), Ok(()));
    let ids = ids_of(&b, OPERATOR);
    assert_eq!(ids.len(), 1);
    let id = ids[0];
    // The id is the hash of the owner, the block and the resources.
    assert_eq!(id, order_id(OPERATOR, 7, &resources));
    let o = b.order(OPERATOR, id).unwrap();
    assert_eq!(o.order_type, OrderType::Ask);
    assert_eq!(o.total_amount, 100);
    assert_eq!(o.filled_amount, 0);
    assert_eq!(o.created_at, 7);
    assert_eq!(o.operator_id, Some(OPERATOR));
    for t in ResourceType::all() {
        let listed = b.resource_orders.get(&PricePoint { resource_type: t, price: 5 }).unwrap();
        assert_eq!(listed, &vec![id]);
    }
    assert_eq!(
        b.events.last(),
        Some(&Event::OrderPlaced { owner: OPERATOR, order_id: id, order_type: OrderType::Ask })
    );
    // An ask reserves nothing beyond the collateral.
    assert_eq!(b.ledger.reserved_balance(OPERATOR), 1_000);
}

#[test]
fn cancel_order_removes_it_everywhere() {
    let mut b = book();
    assert_eq!(b.register_operator(OPERATOR, every_kind(10, 5), 10, 1_000), Ok(()));
    assert_eq!(b.place_ask(OPERATOR, every_kind(10, 5), 100), Ok(()));
    let id = ids_of(&b, OPERATOR)[0];
    assert_eq!(b.cancel_order(USER, id), Err(Error::OrderNotFound));
    assert_eq!(b.cancel_order(OPERATOR, id), Ok(()));
    assert!(b.order(OPERATOR, id).is_none());
    assert!(ids_of(&b, OPERATOR).is_empty());
    for t in ResourceType::all() {
        let listed = b.resource_orders.get(&PricePoint { resource_type: t, price: 5 }).unwrap();
        assert!(listed.is_empty());
    }
    assert_eq!(b.events.last(), Some(&Event::OrderCancelled { owner: OPERATOR, order_id: id }));
    assert_eq!(b.cancel_order(OPERATOR, id), Err(Error::OrderNotFound));
}

#[test]
fn bid_without_a_match_reserves_and_cancel_returns_it() {
    let mut b = book();
    assert_eq!(b.place_bid(USER, compute(10, 5), 500, None), Ok(()));
    let id = ids_of(&b, USER)[0];
    assert_eq!(b.ledger.reserved_balance(USER), 500);
    assert_eq!(b.order(USER, id).unwrap().order_type, OrderType::Bid);
    assert_eq!(b.cancel_order(USER, id), Ok(()));
    assert_eq!(b.ledger.reserved_balance(USER), 0);
    assert_eq!(b.ledger.free_balance(USER), 100_000);
}

#[test]
fn bid_beyond_the_balance_is_refused() {
    let mut b = book();
    assert_eq!(
        b.place_bid(POOR, compute(10, 5), 500, None),
        Err(Error::Balances(LedgerError::InsufficientBalance))
    );
    assert!(ids_of(&b, POOR).is_empty());
    assert!(b.events.is_empty());
}

#[test]
fn bid_that_meets_an_ask_fills_it() {
    let mut b = book();
    assert_eq!(b.register_operator(OPERATOR, every_kind(10, 5), 10, 1_000), Ok(()));
    assert_eq!(b.place_ask(OPERATOR, every_kind(10, 5), 100), Ok(()));
    let ask = ids_of(&b, OPERATOR)[0];
    assert_eq!(b.place_bid(USER, compute(10, 5), 500, None), Ok(()));
    // The ask's remaining 100 meet the bid at price 5: the bidder pays 500
    // out of its reserve to the operator.
    assert_eq!(b.ledger.free_balance(USER), 99_500);
    assert_eq!(b.ledger.reserved_balance(USER), 0);
    assert_eq!(b.ledger.free_balance(OPERATOR), 99_500);
    // The filled ask is cleaned up; the bid stays with 100 of 500 filled.
    assert!(b.order(OPERATOR, ask).is_none());
    assert!(ids_of(&b, OPERATOR).is_empty());
    let bid = ids_of(&b, USER)[0];
    assert_eq!(b.order(USER, bid).unwrap().filled_amount, 100);
    assert!(b.events.contains(&Event::OrderCancelled { owner: OPERATOR, order_id: ask }));
}

#[test]
fn a_partly_filled_ask_stays_listed() {
    let mut b = book();
    assert_eq!(b.register_operator(OPERATOR, every_kind(10, 5), 10, 1_000), Ok(()));
    assert_eq!(b.place_ask(OPERATOR, every_kind(10, 5), 100), Ok(()));
    let ask = ids_of(&b, OPERATOR)[0];
    assert_eq!(b.place_bid(USER, compute(10, 5), 30, None), Ok(()));
    // The bid is filled and cleaned up; the ask keeps 70 to offer.
    assert!(ids_of(&b, USER).is_empty());
    assert_eq!(b.order(OPERATOR, ask).unwrap().filled_amount, 30);
    assert_eq!(b.ledger.free_balance(OPERATOR), 100_000 - 1_000 + 150);
    assert_eq!(b.ledger.free_balance(USER), 100_000 - 150);
}

#[test]
fn the_same_order_twice_in_a_block_is_refused() {
    let mut b = book();
    assert_eq!(b.place_bid(USER, compute(10, 6), 10, None), Ok(()));
    assert_eq!(b.place_bid(USER, compute(10, 6), 10, None), Err(Error::OrderAlreadyExists));
    assert_eq!(ids_of(&b, USER).len(), 1);
    assert_eq!(b.ledger.reserved_balance(USER), 10);
    b.set_block_number(1);
    assert_eq!(b.place_bid(USER, compute(10, 6), 10, None), Ok(()));
    assert_eq!(ids_of(&b, USER).len(), 2);
}

#[test]
fn find_matching_operator_orders_names_the_ask() {
    let mut b = book();
    assert_eq!(b.register_operator(OPERATOR, every_kind(10, 5), 10, 1_000), Ok(()));
    assert_eq!(b.place_ask(OPERATOR, every_kind(10, 5), 100), Ok(()));
    let ask = ids_of(&b, OPERATOR)[0];
    assert_eq!(b.place_bid(USER, compute(10, 6), 30, None), Ok(()));
    let bid_id = ids_of(&b, USER)[0];
    let bid = b.order(USER, bid_id).unwrap();
    let pp = PricePoint { resource_type: ResourceType::Compute, price: 5 };
    let m = b.find_matching_operator_orders(bid, bid_id, pp).unwrap();
    assert_eq!(m.maker_id, ask);
    assert_eq!(m.maker_owner, OPERATOR);
    assert_eq!(m.taker_owner, USER);
    assert_eq!(m.taker_id, bid_id);
    // The amount is the smaller of what is left of both orders.
    assert_eq!(m.resources, vec![(ResourceType::Compute, 30, 5)]);
    assert_eq!(m.total_price, 150);
    let none = PricePoint { resource_type: ResourceType::Compute, price: 6 };
    // At the bid's own price only the bid itself is listed, of the same type.
    assert!(b.find_matching_operator_orders(bid, bid_id, none).is_none());
}

#[test]
fn too_many_orders_for_a_user() {
    let mut cfg = config();
    cfg.max_orders_per_user = 1;
    let mut b = book_with(cfg);
    assert_eq!(b.place_bid(USER, compute(10, 5), 10, None), Ok(()));
    b.set_block_number(1);
    assert_eq!(b.place_bid(USER, compute(10, 5), 10, None), Err(Error::TooManyOrdersForUser));
}

#[test]
fn too_many_orders_at_a_price() {
    let mut cfg = config();
    cfg.max_orders_per_resource = 1;
    let mut b = book_with(cfg);
    assert_eq!(b.place_bid(USER, compute(10, 5), 10, None), Ok(()));
    assert_eq!(b.place_bid(OPERATOR, compute(10, 5), 10, None), Err(Error::TooManyOrdersForResource));
    assert!(ids_of(&b, OPERATOR).is_empty());
}

#[test]
fn order_ids_depend_on_owner_block_and_resources() {
    let r = compute(10, 5);
    assert_eq!(order_id(USER, 3, &r), order_id(USER, 3, &r));
    assert_ne!(order_id(USER, 3, &r), order_id(USER, 4, &r));
    assert_ne!(order_id(USER, 3, &r), order_id(OPERATOR, 3, &r));
    assert_ne!(order_id(USER, 3, &r), order_id(USER, 3, &compute(10, 6)));
    assert_ne!(order_id(USER, 3, &r), [0u8; 32]);
}
