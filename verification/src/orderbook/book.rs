//! The order book's storage and calls: placing, matching and cancelling
//! orders, and registering operators.
use super::hashing::{order_id, order_id_of};
use super::types::{
    all_resource_types, copy_ids, copy_requests, same_id, AccountId, Balance, BlockNumber, Order,
    OrderId, OrderKey, OrderMatch, OrderMatchView, OrderType, OrderView, PricePoint,
    ResourceOffering, ResourceOfferingView, ResourceRequest, ResourceType,
};
use crate::keyed_map::{Duplicate, KeyedMap, MapKey};
use crate::ledger::{bal, moved, Ledger, LedgerError};
use crate::seq_search::{first_match, lemma_first_match};
use super::wf::{book_wf, lemma_orders_kept_wf, lemma_cancelled_wf, lemma_executed_wf, lemma_matched_wf, lemma_placed_wf};
use vstd::prelude::*;

verus! {

/// The constants the order book is configured with.
#[derive(Clone, Copy, Debug, PartialEq, Eq)]
pub struct OrderbookConfig {
    pub max_orders_per_user: u32,
    pub max_orders_per_resource: u32,
    pub max_resources_per_order: u32,
    pub min_service_duration: BlockNumber,
    pub min_operator_collateral: Balance,
}

/// Why a call of the order book was refused.
#[derive(Clone, Copy, Debug, PartialEq, Eq)]
pub enum Error {
    OrderNotFound,
    InvalidOrderParameters,
    OrderAlreadyExists,
    InsufficientBalance,
    TooManyOrdersForUser,
    TooManyOrdersForResource,
    TooManyResources,
    NotOrderOwner,
    OrderCannotBeFilled,
    PriceMismatch,
    ResourceTypeMismatch,
    InvalidServiceDuration,
    InsufficientCollateral,
    OperatorNotRegistered,
    OperatorAlreadyRegistered,
    /// An amount overflowed.
    Overflow,
    /// A balance operation was refused.
    Balances(LedgerError),
}

/// What the order book reports of the calls it executed.
#[derive(Clone, Copy, Debug, PartialEq, Eq)]
pub enum Event {
    OrderPlaced { owner: AccountId, order_id: OrderId, order_type: OrderType },
    OrderCancelled { owner: AccountId, order_id: OrderId },
    OrderFilled {
        maker: AccountId,
        taker: AccountId,
        order_id: OrderId,
        amount: Balance,
        remaining: Balance,
    },
    OrdersMatched {
        maker_id: OrderId,
        taker_id: OrderId,
        resource_type: ResourceType,
        amount: Balance,
        price: Balance,
    },
    OperatorRegistered { operator_id: AccountId, collateral: Balance },
    OperatorUpdated { operator_id: AccountId, collateral: Balance },
    OperatorUnregistered { operator_id: AccountId },
}

/// The order book: its storage and the balances it moves.
#[derive(Debug)]
pub struct Orderbook {
    pub config: OrderbookConfig,
    pub block_number: BlockNumber,
    /// Orders by owner and id, in the order they were first stored.
    pub orders: KeyedMap<OrderKey, Order>,
    /// The ids of the orders listed at each price point.
    pub resource_orders: KeyedMap<PricePoint, Vec<OrderId>>,
    /// The ids of each user's orders.
    pub user_orders: KeyedMap<AccountId, Vec<OrderId>>,
    /// The offerings of registered operators.
    pub operator_offerings: KeyedMap<AccountId, ResourceOffering>,
    /// The balances of all accounts.
    pub ledger: Ledger,
    /// The events deposited so far.
    pub events: Vec<Event>,
}

/// What the order calls read and change.
pub struct BookView {
    pub order_keys: Seq<OrderKey>,
    pub orders: Map<OrderKey, OrderView>,
    pub resource_orders: Map<PricePoint, Seq<OrderId>>,
    pub user_orders: Map<AccountId, Seq<OrderId>>,
    pub free: Map<AccountId, u128>,
    pub reserved: Map<AccountId, u128>,
    pub events: Seq<Event>,
}

/// The ids stored under `k`; none where nothing is stored.
pub open spec fn ids_at<K>(m: Map<K, Seq<OrderId>>, k: K) -> Seq<OrderId> {
    if m.contains_key(k) {
        m[k]
    } else {
        Seq::empty()
    }
}

/// `s` without any occurrence of `id`.
pub open spec fn without_id(s: Seq<OrderId>, id: OrderId) -> Seq<OrderId>
    decreases s.len(),
{
    if s.len() == 0 {
        s
    } else if s.last() == id {
        without_id(s.drop_last(), id)
    } else {
        without_id(s.drop_last(), id).push(s.last())
    }
}

/// The price point under which a request is listed.
pub open spec fn price_point_of(r: ResourceRequest) -> PricePoint {
    PricePoint { resource_type: r.resource_type, price: r.price }
}

/// The listings after taking `id` off the price points of the first `n`
/// requests.
pub open spec fn unlisted(
    ro: Map<PricePoint, Seq<OrderId>>,
    rs: Seq<ResourceRequest>,
    id: OrderId,
    n: int,
) -> Map<PricePoint, Seq<OrderId>>
    decreases n,
{
    if n <= 0 {
        ro
    } else {
        let prev = unlisted(ro, rs, id, n - 1);
        let pp = price_point_of(rs[n - 1]);
        prev.insert(pp, without_id(ids_at(prev, pp), id))
    }
}

/// The book after moving up to `amount` of `who`'s reserve back to the
/// free balance.
pub open spec fn unreserved(b: BookView, who: AccountId, amount: Balance) -> BookView {
    let r = bal(b.reserved, who);
    let m = if amount <= r {
        amount as int
    } else {
        r
    };
    BookView {
        reserved: b.reserved.insert(who, (r - m) as u128),
        free: b.free.insert(
            who,
            (if bal(b.free, who) + m > u128::MAX {
                u128::MAX as int
            } else {
                bal(b.free, who) + m
            }) as u128,
        ),
        ..b
    }
}

/// The free balances after a transfer, or why it is refused.
pub open spec fn transferred(free: Map<AccountId, u128>, from: AccountId, to: AccountId, amount: Balance) -> Result<
    Map<AccountId, u128>,
    LedgerError,
> {
    if bal(free, from) < amount {
        Err(LedgerError::InsufficientBalance)
    } else if from != to && bal(free, to) + amount > u128::MAX {
        Err(LedgerError::Overflow)
    } else {
        Ok(moved(free, from, to, amount))
    }
}

/// The book after cancelling order `id` of `owner`, or why that is refused.
pub open spec fn cancelled(b: BookView, owner: AccountId, id: OrderId) -> Result<BookView, Error> {
    let key = OrderKey { owner, id };
    let o = b.orders[key];
    if !b.orders.contains_key(key) {
        Err(Error::OrderNotFound)
    } else if o.owner != owner {
        Err(Error::NotOrderOwner)
    } else {
        let b1 = BookView {
            order_keys: b.order_keys.remove(b.order_keys.index_of(key)),
            orders: b.orders.remove(key),
            user_orders: b.user_orders.insert(owner, without_id(ids_at(b.user_orders, owner), id)),
            resource_orders: unlisted(b.resource_orders, o.resources, id, o.resources.len() as int),
            ..b
        };
        let b2 = if o.order_type == OrderType::Bid {
            unreserved(
                b1,
                owner,
                (if o.total_amount >= o.filled_amount {
                    o.total_amount - o.filled_amount
                } else {
                    0
                }) as u128,
            )
        } else {
            b1
        };
        Ok(BookView { events: b2.events.push(Event::OrderCancelled { owner, order_id: id }), ..b2 })
    }
}

/// The book and the taker order after filling the first `n` matched
/// resources; each fill raises the maker's stored filled amount over its
/// amount when the match began, raises the taker's, and pays the price from
/// the bidder's reserve to the other side.
pub open spec fn filled(
    b: BookView,
    m: OrderMatchView,
    maker: OrderView,
    taker: OrderView,
    n: int,
) -> Result<(BookView, OrderView), Error>
    decreases n,
{
    if n <= 0 {
        Ok((b, taker))
    } else {
        match filled(b, m, maker, taker, n - 1) {
            Err(e) => Err(e),
            Ok((b1, t1)) => {
                let (rt, amount, price) = m.resources[n - 1];
                let mk = OrderKey { owner: m.maker_owner, id: m.maker_id };
                if maker.filled_amount + amount > u128::MAX {
                    Err(Error::Overflow)
                } else if t1.filled_amount + amount > u128::MAX {
                    Err(Error::Overflow)
                } else if amount * price > u128::MAX {
                    Err(Error::Overflow)
                } else {
                    let um = OrderView { filled_amount: (maker.filled_amount + amount) as u128, ..maker };
                    let t2 = OrderView { filled_amount: (t1.filled_amount + amount) as u128, ..t1 };
                    let pay = (amount * price) as u128;
                    let (payer, payee) = if t2.order_type == OrderType::Bid {
                        (m.taker_owner, m.maker_owner)
                    } else {
                        (m.maker_owner, m.taker_owner)
                    };
                    let b2 = BookView { orders: b1.orders.insert(mk, um), ..b1 };
                    let b3 = unreserved(b2, payer, pay);
                    match transferred(b3.free, payer, payee, pay) {
                        Err(e) => Err(Error::Balances(e)),
                        Ok(free) => Ok(
                            (
                                BookView {
                                    free,
                                    events: b3.events.push(
                                        Event::OrderFilled {
                                            maker: m.maker_owner,
                                            taker: m.taker_owner,
                                            order_id: m.maker_id,
                                            amount,
                                            remaining: (if maker.total_amount >= um.filled_amount {
                                                maker.total_amount - um.filled_amount
                                            } else {
                                                0
                                            }) as u128,
                                        },
                                    ).push(
                                        Event::OrdersMatched {
                                            maker_id: m.maker_id,
                                            taker_id: m.taker_id,
                                            resource_type: rt,
                                            amount,
                                            price,
                                        },
                                    ),
                                    ..b3
                                },
                                t2,
                            ),
                        ),
                    }
                }
            },
        }
    }
}

/// The book after executing match `m`, or why that is refused.
pub open spec fn executed(b: BookView, m: OrderMatchView) -> Result<BookView, Error> {
    let mk = OrderKey { owner: m.maker_owner, id: m.maker_id };
    let tk = OrderKey { owner: m.taker_owner, id: m.taker_id };
    if !b.orders.contains_key(mk) || !b.orders.contains_key(tk) {
        Err(Error::OrderNotFound)
    } else {
        let maker = b.orders[mk];
        match filled(b, m, maker, b.orders[tk], m.resources.len() as int) {
            Err(e) => Err(e),
            Ok((b1, taker)) => {
                let b2 = BookView { orders: b1.orders.insert(tk, taker), ..b1 };
                let stored_maker = b2.orders[mk];
                let r3 = if stored_maker.filled_amount == stored_maker.total_amount {
                    cancelled(b2, m.maker_owner, m.maker_id)
                } else {
                    Ok(b2)
                };
                match r3 {
                    Err(e) => Err(e),
                    Ok(b3) => if taker.filled_amount == taker.total_amount {
                        cancelled(b3, m.taker_owner, m.taker_id)
                    } else {
                        Ok(b3)
                    },
                }
            },
        }
    }
}

/// A resource of the same kind.
pub open spec fn of_kind(t: ResourceType) -> spec_fn(ResourceRequest) -> bool {
    |r: ResourceRequest| r.resource_type == t
}

/// `min` of two balances.
pub open spec fn min_balance(a: int, b: int) -> int {
    if a <= b {
        a
    } else {
        b
    }
}

/// `a - b`, or zero.
pub open spec fn sat_diff(a: Balance, b: Balance) -> int {
    if a >= b {
        a - b
    } else {
        0
    }
}

/// `x`, saturated at the largest balance.
pub open spec fn sat_max(x: int) -> int {
    if x > u128::MAX {
        u128::MAX as int
    } else {
        x
    }
}

/// The matched resources and total price of the first `n` resources of the
/// taker against a maker; `None` where a resource has no counterpart or
/// nothing is left to fill.
pub open spec fn resources_matched(taker: OrderView, maker: OrderView, n: int) -> Option<
    (Seq<(ResourceType, Balance, Balance)>, Balance),
>
    decreases n,
{
    if n <= 0 {
        Some((Seq::empty(), 0))
    } else {
        match resources_matched(taker, maker, n - 1) {
            None => None,
            Some((rs, total)) => {
                let tr = taker.resources[n - 1];
                match first_match(maker.resources, of_kind(tr.resource_type)) {
                    None => None,
                    Some(j) => {
                        let amount = min_balance(
                            sat_diff(maker.total_amount, maker.filled_amount),
                            sat_diff(taker.total_amount, taker.filled_amount),
                        );
                        if amount == 0 {
                            None
                        } else {
                            let price = maker.resources[j].price;
                            Some(
                                (
                                    rs.push((tr.resource_type, amount as u128, price)),
                                    sat_max(total + sat_max(amount * price)) as u128,
                                ),
                            )
                        }
                    },
                }
            },
        }
    }
}

/// A stored order with id `maker_id` on the other side of `taker` that
/// matches it on every resource.
pub open spec fn maker_for(b: BookView, taker: OrderView, maker_id: OrderId) -> spec_fn(OrderKey) -> bool {
    |k: OrderKey|
        k.id == maker_id && b.orders.contains_key(k) && b.orders[k].order_type != taker.order_type
            && resources_matched(taker, b.orders[k], taker.resources.len() as int) is Some
}

/// An id for which some stored order matches `taker`.
pub open spec fn matchable(b: BookView, taker: OrderView) -> spec_fn(OrderId) -> bool {
    |id: OrderId| first_match(b.order_keys, maker_for(b, taker, id)) is Some
}

/// The first match for `taker`, stored under `taker_id`, among the orders
/// listed under `ids`: the first listed id that some stored order matches,
/// and the first such order in storage order.
pub open spec fn found_match(
    b: BookView,
    taker: OrderView,
    taker_id: OrderId,
    ids: Seq<OrderId>,
) -> Option<OrderMatchView> {
    match first_match(ids, matchable(b, taker)) {
        None => None,
        Some(i) => {
            let k = b.order_keys[first_match(b.order_keys, maker_for(b, taker, ids[i]))->0];
            let (rs, total) = resources_matched(
                taker,
                b.orders[k],
                taker.resources.len() as int,
            )->0;
            Some(
                OrderMatchView {
                    maker_id: ids[i],
                    maker_owner: k.owner,
                    taker_id,
                    taker_owner: taker.owner,
                    resources: rs,
                    total_price: total,
                },
            )
        },
    }
}

/// The book after trying to match the first `n` resources of `taker`,
/// stored under `taker_id`, each against the orders listed at its price
/// point.
pub open spec fn match_rounds(b: BookView, taker: OrderView, taker_id: OrderId, n: int) -> Result<
    BookView,
    Error,
>
    decreases n,
{
    if n <= 0 {
        Ok(b)
    } else {
        match match_rounds(b, taker, taker_id, n - 1) {
            Err(e) => Err(e),
            Ok(b1) => {
                let pp = price_point_of(taker.resources[n - 1]);
                match found_match(b1, taker, taker_id, ids_at(b1.resource_orders, pp)) {
                    None => Ok(b1),
                    Some(m) => executed(b1, m),
                }
            },
        }
    }
}

/// The book after trying to match order `id` of `owner`.
pub open spec fn matched(b: BookView, owner: AccountId, id: OrderId) -> Result<BookView, Error> {
    let key = OrderKey { owner, id };
    if !b.orders.contains_key(key) {
        Err(Error::OrderNotFound)
    } else {
        let taker = b.orders[key];
        match_rounds(b, taker, id, taker.resources.len() as int)
    }
}

impl Orderbook {
    /// What the order calls read and change.
    pub open spec fn book(&self) -> BookView {
        BookView {
            order_keys: self.orders.key_seq(),
            orders: self.orders@,
            resource_orders: self.resource_orders@,
            user_orders: self.user_orders@,
            free: self.ledger.free@,
            reserved: self.ledger.reserved@,
            events: self.events@,
        }
    }

    /// What the order calls do not change.
    pub open spec fn same_rest(&self, other: &Self) -> bool {
        &&& self.config == other.config
        &&& self.block_number == other.block_number
        &&& self.operator_offerings@ == other.operator_offerings@
        &&& self.ledger.locks@ == other.ledger.locks@
        &&& self.ledger.assets@ == other.ledger.assets@
        &&& self.ledger.tokens@ == other.ledger.tokens@
    }
}

/// `v` without any occurrence of `id`.
fn retain_id(v: &Vec<OrderId>, id: &OrderId) -> (r: Vec<OrderId>)
    ensures
        r@ == without_id(v@, *id),
{
    let mut out: Vec<OrderId> = Vec::new();
    let mut i: usize = 0;
    while i < v.len()
        invariant
            i <= v@.len(),
            out@ == without_id(v@.take(i as int), *id),
        decreases v@.len() - i,
    {
        proof {
            assert(v@.take(i as int + 1).drop_last() =~= v@.take(i as int));
        }
        if !same_id(&v[i], id) {
            out.push(v[i]);
        }
        i = i + 1;
    }
    proof {
        assert(v@.take(v@.len() as int) =~= v@);
    }
    out
}

proof fn lemma_filled_err(b: BookView, m: OrderMatchView, maker: OrderView, taker: OrderView, n: int, len: int)
    requires
        0 <= n <= len,
        filled(b, m, maker, taker, n) is Err,
    ensures
        filled(b, m, maker, taker, len) == filled(b, m, maker, taker, n),
    decreases len - n,
{
    if n < len {
        lemma_filled_err(b, m, maker, taker, n, len - 1);
    }
}

proof fn lemma_rounds_err(b: BookView, taker: OrderView, taker_id: OrderId, n: int, len: int)
    requires
        0 <= n <= len,
        match_rounds(b, taker, taker_id, n) is Err,
    ensures
        match_rounds(b, taker, taker_id, len) == match_rounds(b, taker, taker_id, n),
    decreases len - n,
{
    if n < len {
        lemma_rounds_err(b, taker, taker_id, n, len - 1);
    }
}

/// `a * b`, saturated at the largest balance.
fn saturating_product(a: Balance, b: Balance) -> (r: Balance)
    ensures
        r == sat_max(a * b),
{
    match a.checked_mul(b) {
        Some(x) => x,
        None => u128::MAX,
    }
}

/// The first resource of `rs` of kind `t`.
fn find_kind(rs: &Vec<ResourceRequest>, t: ResourceType) -> (r: Option<usize>)
    ensures
        first_match(rs@, of_kind(t)) == match r {
            Some(i) => Some(i as int),
            None => None::<int>,
        },
        r is Some ==> r->0 < rs@.len(),
{
    let ghost p = of_kind(t);
    let mut i: usize = 0;
    while i < rs.len()
        invariant
            p == of_kind(t),
            i <= rs@.len(),
            forall|j: int| 0 <= j < i ==> !p(#[trigger] rs@[j]),
        decreases rs@.len() - i,
    {
        if rs[i].resource_type == t {
            proof {
                lemma_first_match(rs@, p, Some(i as int));
            }
            return Some(i);
        }
        i = i + 1;
    }
    proof {
        lemma_first_match(rs@, p, None);
    }
    None
}

/// The resources of `taker` matched against `maker`, with the total price.
fn match_resources(taker: &Order, maker: &Order) -> (r: Option<
    (Vec<(ResourceType, Balance, Balance)>, Balance),
>)
    ensures
        match resources_matched(taker@, maker@, taker@.resources.len() as int) {
            None => r is None,
            Some((rs, total)) => r matches Some((v, t)) && v@ == rs && t == total,
        },
{
    let mut out: Vec<(ResourceType, Balance, Balance)> = Vec::new();
    let mut total: Balance = 0;
    let mut i: usize = 0;
    let maker_left = maker.total_amount.saturating_sub(maker.filled_amount);
    let taker_left = taker.total_amount.saturating_sub(taker.filled_amount);
    let amount = if maker_left <= taker_left {
        maker_left
    } else {
        taker_left
    };
    while i < taker.resources.len()
        invariant
            i <= taker@.resources.len(),
            amount == min_balance(
                sat_diff(maker.total_amount, maker.filled_amount),
                sat_diff(taker.total_amount, taker.filled_amount),
            ),
            resources_matched(taker@, maker@, i as int) == Some((out@, total)),
        decreases taker@.resources.len() - i,
    {
        let tr = taker.resources[i];
        match find_kind(&maker.resources, tr.resource_type) {
            None => {
                proof {
                    lemma_matched_none(taker@, maker@, i as int + 1, taker@.resources.len() as int);
                }
                return None;
            },
            Some(j) => {
                if amount == 0 {
                    proof {
                        lemma_matched_none(
                            taker@,
                            maker@,
                            i as int + 1,
                            taker@.resources.len() as int,
                        );
                    }
                    return None;
                }
                let price = maker.resources[j].price;
                out.push((tr.resource_type, amount, price));
                total = total.saturating_add(saturating_product(amount, price));
            },
        }
        i = i + 1;
    }
    Some((out, total))
}

proof fn lemma_matched_none(taker: OrderView, maker: OrderView, n: int, len: int)
    requires
        0 <= n <= len,
        resources_matched(taker, maker, n) is None,
    ensures
        resources_matched(taker, maker, len) is None,
    decreases len - n,
{
    if n < len {
        lemma_matched_none(taker, maker, n, len - 1);
    }
}

/// Whether `resources` has a request of kind `t`.
pub open spec fn has_kind(resources: Seq<ResourceRequest>, t: ResourceType) -> bool {
    exists|j: int| 0 <= j < resources.len() && (#[trigger] resources[j]).resource_type == t
}

/// Whether `resources` has a request of every kind.
pub open spec fn covers_all(resources: Seq<ResourceRequest>) -> bool {
    forall|t: ResourceType| #[trigger] has_kind(resources, t)
}

/// Whether `resources` has a request of every kind.
fn covers_all_kinds(resources: &Vec<ResourceRequest>) -> (r: bool)
    ensures
        r == covers_all(resources@),
{
    let all = ResourceType::all();
    let mut i: usize = 0;
    while i < all.len()
        invariant
            all@ == all_resource_types(),
            i <= all@.len(),
            forall|j: int| 0 <= j < i ==> first_match(resources@, of_kind(#[trigger] all@[j])) is Some,
        decreases all@.len() - i,
    {
        if find_kind(resources, all[i]).is_none() {
            proof {
                let t = all@[i as int];
                if has_kind(resources@, t) {
                    let j = choose|j: int| 0 <= j < resources@.len() && (#[trigger] resources@[j]).resource_type == t;
                    lemma_kind_present(resources@, t, j);
                }
            }
            return false;
        }
        i = i + 1;
    }
    proof {
        assert forall|t: ResourceType| #[trigger] has_kind(resources@, t) by {
            let x: int = match t {
                ResourceType::Compute => 0,
                ResourceType::Memory => 1,
                ResourceType::Storage => 2,
                ResourceType::Network => 3,
            };
            assert(all@[x] == t);
            let j = first_match(resources@, of_kind(t))->0;
            lemma_first_match_is(resources@, of_kind(t));
            assert(resources@[j].resource_type == t);
            assert(has_kind(resources@, t));
        }
    }
    true
}

proof fn lemma_kind_present(rs: Seq<ResourceRequest>, t: ResourceType, j: int)
    requires
        0 <= j < rs.len(),
        rs[j].resource_type == t,
    ensures
        first_match(rs, of_kind(t)) is Some,
    decreases j,
{
    let p = of_kind(t);
    if exists|i: int| 0 <= i < j && p(rs[i]) {
        let i = choose|i: int| 0 <= i < j && p(rs[i]);
        lemma_kind_present(rs, t, i);
    } else {
        assert(crate::seq_search::is_first(rs, p, j));
    }
}

proof fn lemma_first_match_is<A>(s: Seq<A>, p: spec_fn(A) -> bool)
    requires
        first_match(s, p) is Some,
    ensures
        0 <= first_match(s, p)->0 < s.len(),
        p(s[first_match(s, p)->0]),
{
    let i = choose|i: int| crate::seq_search::is_first(s, p, i);
    assert(crate::seq_search::is_first(s, p, i));
}

impl Orderbook {
    /// An order book with empty storage and the given balances.
    pub fn new(config: OrderbookConfig, ledger: Ledger) -> (r: Orderbook)
        ensures
            r.config == config,
            r.block_number == 0,
            r.orders@ == Map::<OrderKey, OrderView>::empty(),
            r.orders.key_seq().len() == 0,
            r.resource_orders@ == Map::<PricePoint, Seq<OrderId>>::empty(),
            r.user_orders@ == Map::<AccountId, Seq<OrderId>>::empty(),
            r.operator_offerings@ == Map::<AccountId, ResourceOfferingView>::empty(),
            r.ledger == ledger,
            r.events@ == Seq::<Event>::empty(),
            book_wf(r.book()),
    {
        let r = Orderbook {
            config,
            block_number: 0,
            orders: KeyedMap::new(),
            resource_orders: KeyedMap::new(),
            user_orders: KeyedMap::new(),
            operator_offerings: KeyedMap::new(),
            ledger,
            events: Vec::new(),
        };
        proof {
            assert(r.orders.key_seq() =~= Seq::<OrderKey>::empty());
            assert(r.orders.key_seq().to_set() =~= r.orders@.dom());
        }
        r
    }

    /// Sets the current block number.
    pub fn set_block_number(&mut self, n: BlockNumber)
        ensures
            book_wf(old(self).book()) ==> book_wf(final(self).book()),
            final(self).block_number == n,
            final(self).book() == old(self).book(),
            final(self).config == old(self).config,
            final(self).operator_offerings@ == old(self).operator_offerings@,
            final(self).ledger == old(self).ledger,
    {
        self.block_number = n;
    }

    /// The order `id` of `owner`.
    pub fn order(&self, owner: AccountId, id: OrderId) -> (r: Option<&Order>)
        ensures
            match r {
                Some(o) => self.orders@.contains_key(OrderKey { owner, id }) && o@ == self.orders@[OrderKey { owner, id }],
                None => !self.orders@.contains_key(OrderKey { owner, id }),
            },
    {
        self.orders.get(&OrderKey { owner, id })
    }

    /// A copy of all storage and balances.
    fn duplicate(&self) -> (r: Orderbook)
        ensures
            r.book() == self.book(),
            r.same_rest(self),
    {
        let mut events: Vec<Event> = Vec::new();
        let mut i: usize = 0;
        while i < self.events.len()
            invariant
                i <= self.events@.len(),
                events@ == self.events@.take(i as int),
            decreases self.events@.len() - i,
        {
            events.push(self.events[i]);
            proof {
                assert(self.events@.take(i as int + 1) =~= self.events@.take(i as int).push(
                    self.events@[i as int],
                ));
            }
            i = i + 1;
        }
        proof {
            assert(self.events@.take(self.events@.len() as int) =~= self.events@);
        }
        Orderbook {
            config: self.config,
            block_number: self.block_number,
            orders: self.orders.duplicate(),
            resource_orders: self.resource_orders.duplicate(),
            user_orders: self.user_orders.duplicate(),
            operator_offerings: self.operator_offerings.duplicate(),
            ledger: self.ledger.duplicate(),
            events,
        }
    }

    /// Cancels order `id` of `owner`: the order is removed and taken off
    /// its owner's and its price points' lists, and what is left of a bid
    /// returns from reserve.
    pub fn do_cancel_order(&mut self, owner: AccountId, id: OrderId) -> (r: Result<(), Error>)
        ensures
            book_wf(old(self).book()) ==> book_wf(final(self).book()),
            match cancelled(old(self).book(), owner, id) {
                Ok(b) => r is Ok && final(self).book() == b,
                Err(e) => r == Err::<(), Error>(e) && final(self).book() == old(self).book(),
            },
            final(self).same_rest(old(self)),
    {
        proof {
            if book_wf(self.book()) && cancelled(self.book(), owner, id) is Ok {
                lemma_cancelled_wf(self.book(), owner, id);
            }
        }
        let key = OrderKey { owner, id };
        let (kind, remaining, resources) = match self.orders.get(&key) {
            None => {
                return Err(Error::OrderNotFound);
            },
            Some(o) => {
                if o.owner != owner {
                    return Err(Error::NotOrderOwner);
                }
                (o.order_type, o.total_amount.saturating_sub(o.filled_amount), copy_requests(&o.resources))
            },
        };
        let ghost b0 = self.book();
        self.orders.remove(&key);
        let ids = match self.user_orders.get(&owner) {
            Some(v) => retain_id(v, &id),
            None => Vec::new(),
        };
        self.user_orders.insert(owner, ids);
        let ghost ro0 = self.resource_orders@;
        let ghost s1 = *self;
        let mut i: usize = 0;
        while i < resources.len()
            invariant
                i <= resources@.len(),
                self.resource_orders@ == unlisted(ro0, resources@, id, i as int),
                self.orders@ == s1.orders@,
                self.orders.key_seq() == s1.orders.key_seq(),
                self.user_orders@ == s1.user_orders@,
                self.ledger == s1.ledger,
                self.events@ == s1.events@,
                self.same_rest(&s1),
            decreases resources@.len() - i,
        {
            let pp = PricePoint { resource_type: resources[i].resource_type, price: resources[i].price };
            let ids = match self.resource_orders.get(&pp) {
                Some(v) => retain_id(v, &id),
                None => Vec::new(),
            };
            self.resource_orders.insert(pp, ids);
            i = i + 1;
        }
        if kind == OrderType::Bid {
            let _ = self.ledger.unreserve(owner, remaining);
        }
        self.events.push(Event::OrderCancelled { owner, order_id: id });
        Ok(())
    }

    /// Executes a match: fills each matched resource of the maker and the
    /// taker and pays its price, stores the taker, and cancels a side that
    /// the match filled completely.
    pub fn execute_match(&mut self, m: &OrderMatch) -> (r: Result<(), Error>)
        ensures
            book_wf(old(self).book()) ==> book_wf(final(self).book()),
            r is Err ==> final(self).book() == old(self).book(),
            match executed(old(self).book(), m@) {
                Ok(b) => r is Ok && final(self).book() == b,
                Err(e) => r == Err::<(), Error>(e),
            },
            final(self).same_rest(old(self)),
    {
        proof {
            if book_wf(self.book()) && executed(self.book(), m@) is Ok {
                lemma_executed_wf(self.book(), m@);
            }
        }
        let saved = self.duplicate();
        let r = self.execute_match_steps(m);
        if r.is_err() {
            *self = saved;
        }
        r
    }

    /// The steps of `execute_match`, which may leave part of their work done
    /// when they refuse.
    fn execute_match_steps(&mut self, m: &OrderMatch) -> (r: Result<(), Error>)
        ensures
            match executed(old(self).book(), m@) {
                Ok(b) => r is Ok && final(self).book() == b,
                Err(e) => r == Err::<(), Error>(e),
            },
            final(self).same_rest(old(self)),
    {
        let mk = OrderKey { owner: m.maker_owner, id: m.maker_id };
        let tk = OrderKey { owner: m.taker_owner, id: m.taker_id };
        let maker = match self.orders.get(&mk) {
            None => {
                return Err(Error::OrderNotFound);
            },
            Some(o) => o.duplicate(),
        };
        let mut taker = match self.orders.get(&tk) {
            None => {
                return Err(Error::OrderNotFound);
            },
            Some(o) => o.duplicate(),
        };
        let ghost b0 = self.book();
        let ghost n = m.resources@.len() as int;
        let mut i: usize = 0;
        while i < m.resources.len()
            invariant
                i <= m.resources@.len(),
                n == m.resources@.len(),
                mk == (OrderKey { owner: m.maker_owner, id: m.maker_id }),
                tk == (OrderKey { owner: m.taker_owner, id: m.taker_id }),
                b0 == old(self).book(),
                b0.orders.contains_key(mk) && b0.orders.contains_key(tk),
                self.orders@.contains_key(mk) && self.orders@.contains_key(tk),
                maker@ == b0.orders[mk],
                filled(b0, m@, maker@, b0.orders[tk], i as int) == Ok::<(BookView, OrderView), Error>(
                    (self.book(), taker@),
                ),
                self.same_rest(old(self)),
            decreases m.resources@.len() - i,
        {
            let (rt, amount, price) = m.resources[i];
            if maker.filled_amount > u128::MAX - amount || taker.filled_amount > u128::MAX - amount {
                proof {
                    assert(m.resources@[i as int] == (rt, amount, price));
                    assert(filled(b0, m@, maker@, b0.orders[tk], i as int + 1) == Err::<
                        (BookView, OrderView),
                        Error,
                    >(Error::Overflow));
                    lemma_filled_err(b0, m@, maker@, b0.orders[tk], i as int + 1, n);
                }
                return Err(Error::Overflow);
            }
            let pay = match amount.checked_mul(price) {
                None => {
                    proof {
                        assert(filled(b0, m@, maker@, b0.orders[tk], i as int + 1) == Err::<
                            (BookView, OrderView),
                            Error,
                        >(Error::Overflow));
                        lemma_filled_err(b0, m@, maker@, b0.orders[tk], i as int + 1, n);
                    }
                    return Err(Error::Overflow);
                },
                Some(p) => p,
            };
            let mut um = maker.duplicate();
            um.filled_amount = maker.filled_amount + amount;
            let remaining = maker.total_amount.saturating_sub(um.filled_amount);
            self.orders.insert(mk, um);
            taker.filled_amount = taker.filled_amount + amount;
            let (payer, payee) = if taker.order_type == OrderType::Bid {
                (m.taker_owner, m.maker_owner)
            } else {
                (m.maker_owner, m.taker_owner)
            };
            let _ = self.ledger.unreserve(payer, pay);
            match self.ledger.transfer(payer, payee, pay) {
                Err(e) => {
                    proof {
                        assert(filled(b0, m@, maker@, b0.orders[tk], i as int + 1) == Err::<
                            (BookView, OrderView),
                            Error,
                        >(Error::Balances(e)));
                        lemma_filled_err(b0, m@, maker@, b0.orders[tk], i as int + 1, n);
                    }
                    return Err(Error::Balances(e));
                },
                Ok(()) => {},
            }
            self.events.push(
                Event::OrderFilled {
                    maker: m.maker_owner,
                    taker: m.taker_owner,
                    order_id: m.maker_id,
                    amount,
                    remaining,
                },
            );
            self.events.push(
                Event::OrdersMatched {
                    maker_id: m.maker_id,
                    taker_id: m.taker_id,
                    resource_type: rt,
                    amount,
                    price,
                },
            );
            i = i + 1;
        }
        let taker_done = taker.filled_amount == taker.total_amount;
        self.orders.insert(tk, taker);
        let maker_done = match self.orders.get(&mk) {
            Some(o) => o.filled_amount == o.total_amount,
            None => false,
        };
        if maker_done {
            self.do_cancel_order(m.maker_owner, m.maker_id)?;
        }
        if taker_done {
            self.do_cancel_order(m.taker_owner, m.taker_id)?;
        }
        Ok(())
    }

    /// The first match for `taker`, stored under `taker_id`, among the
    /// orders listed at `pp`.
    pub fn find_matching_operator_orders(&self, taker: &Order, taker_id: OrderId, pp: PricePoint) -> (r:
        Option<OrderMatch>)
        ensures
            match found_match(self.book(), taker@, taker_id, ids_at(self.resource_orders@, pp)) {
                None => r is None,
                Some(mv) => r matches Some(x) && x@ == mv,
            },
    {
        let ghost b = self.book();
        let ids = match self.resource_orders.get(&pp) {
            None => {
                proof {
                    lemma_first_match(Seq::<OrderId>::empty(), matchable(b, taker@), None);
                }
                return None;
            },
            Some(v) => copy_ids(v),
        };
        let n = self.orders.len();
        let mut i: usize = 0;
        while i < ids.len()
            invariant
                b == self.book(),
                ids@ == ids_at(self.resource_orders@, pp),
                n == self.orders.key_seq().len(),
                i <= ids@.len(),
                forall|j: int| 0 <= j < i ==> !matchable(b, taker@)(#[trigger] ids@[j]),
            decreases ids@.len() - i,
        {
            let maker_id = ids[i];
            let ghost p = maker_for(b, taker@, maker_id);
            let mut k: usize = 0;
            while k < n
                invariant
                    b == self.book(),
                    n == self.orders.key_seq().len(),
                    p == maker_for(b, taker@, maker_id),
                    i < ids@.len(),
                    maker_id == ids@[i as int],
                    ids@ == ids_at(self.resource_orders@, pp),
                    forall|j: int| 0 <= j < i ==> !matchable(b, taker@)(#[trigger] ids@[j]),
                    k <= n,
                    forall|j: int| 0 <= j < k ==> !p(#[trigger] b.order_keys[j]),
                decreases n - k,
            {
                let key = self.orders.key_at(k);
                let mo = self.orders.value_at(k);
                if same_id(&key.id, &maker_id) && mo.order_type != taker.order_type {
                    match match_resources(taker, mo) {
                        Some((rs, total)) => {
                            proof {
                                lemma_first_match(b.order_keys, p, Some(k as int));
                                assert(maker_id == ids@[i as int]);
                                assert(matchable(b, taker@)(ids@[i as int]));
                                lemma_first_match(ids@, matchable(b, taker@), Some(i as int));
                            }
                            return Some(
                                OrderMatch {
                                    maker_id,
                                    maker_owner: key.owner,
                                    taker_id,
                                    taker_owner: taker.owner,
                                    resources: rs,
                                    total_price: total,
                                },
                            );
                        },
                        None => {},
                    }
                }
                k = k + 1;
            }
            proof {
                lemma_first_match(b.order_keys, p, None);
            }
            i = i + 1;
        }
        proof {
            lemma_first_match(ids@, matchable(b, taker@), None);
        }
        None
    }

    /// Tries to match order `id` of `owner`, resource by resource, against
    /// the orders listed at each resource's price point.
    pub fn do_try_match_orders(&mut self, owner: AccountId, id: OrderId) -> (r: Result<(), Error>)
        ensures
            book_wf(old(self).book()) ==> book_wf(final(self).book()),
            r is Err ==> final(self).book() == old(self).book(),
            match matched(old(self).book(), owner, id) {
                Ok(b) => r is Ok && final(self).book() == b,
                Err(e) => r == Err::<(), Error>(e),
            },
            final(self).same_rest(old(self)),
    {
        proof {
            if book_wf(self.book()) && matched(self.book(), owner, id) is Ok {
                lemma_matched_wf(self.book(), owner, id);
            }
        }
        let saved = self.duplicate();
        let r = self.try_match_steps(owner, id);
        if r.is_err() {
            *self = saved;
        }
        r
    }

    /// The steps of `do_try_match_orders`, which may leave part of their work done
    /// when they refuse.
    fn try_match_steps(&mut self, owner: AccountId, id: OrderId) -> (r: Result<(), Error>)
        ensures
            match matched(old(self).book(), owner, id) {
                Ok(b) => r is Ok && final(self).book() == b,
                Err(e) => r == Err::<(), Error>(e),
            },
            final(self).same_rest(old(self)),
    {
        let key = OrderKey { owner, id };
        let taker = match self.orders.get(&key) {
            None => {
                return Err(Error::OrderNotFound);
            },
            Some(o) => o.duplicate(),
        };
        let ghost b0 = self.book();
        let ghost s0 = *self;
        let ghost n = taker@.resources.len() as int;
        let mut i: usize = 0;
        while i < taker.resources.len()
            invariant
                i <= taker@.resources.len(),
                n == taker@.resources.len(),
                match_rounds(b0, taker@, id, i as int) == Ok::<BookView, Error>(self.book()),
                b0 == old(self).book(),
                key == (OrderKey { owner, id }),
                b0.orders.contains_key(key) && b0.orders[key] == taker@,
                self.same_rest(old(self)),
            decreases taker@.resources.len() - i,
        {
            let pp = PricePoint {
                resource_type: taker.resources[i].resource_type,
                price: taker.resources[i].price,
            };
            match self.find_matching_operator_orders(&taker, id, pp) {
                None => {},
                Some(m) => {
                    match self.execute_match(&m) {
                        Err(e) => {
                            proof {
                                lemma_rounds_err(b0, taker@, id, i as int + 1, n);
                            }
                            return Err(e);
                        },
                        Ok(()) => {},
                    }
                },
            }
            i = i + 1;
        }
        Ok(())
    }
}

/// The listings after adding `id` at the price points of the first `n`
/// requests, or the refusal where a list is full.
pub open spec fn listed(
    ro: Map<PricePoint, Seq<OrderId>>,
    rs: Seq<ResourceRequest>,
    id: OrderId,
    max: u32,
    n: int,
) -> Result<Map<PricePoint, Seq<OrderId>>, Error>
    decreases n,
{
    if n <= 0 {
        Ok(ro)
    } else {
        match listed(ro, rs, id, max, n - 1) {
            Err(e) => Err(e),
            Ok(prev) => {
                let pp = price_point_of(rs[n - 1]);
                let ids = ids_at(prev, pp);
                if ids.len() >= max {
                    Err(Error::TooManyOrdersForResource)
                } else {
                    Ok(prev.insert(pp, ids.push(id)))
                }
            },
        }
    }
}

/// The book after moving `amount` of `who`'s free balance into reserve, or
/// why that is refused.
pub open spec fn reserved_for(b: BookView, who: AccountId, amount: Balance) -> Result<BookView, Error> {
    if bal(b.free, who) < amount {
        Err(Error::Balances(LedgerError::InsufficientBalance))
    } else if bal(b.reserved, who) + amount > u128::MAX {
        Err(Error::Balances(LedgerError::Overflow))
    } else {
        Ok(
            BookView {
                free: b.free.insert(who, (bal(b.free, who) - amount) as u128),
                reserved: b.reserved.insert(who, (bal(b.reserved, who) + amount) as u128),
                ..b
            },
        )
    }
}

/// The book after placing an order, with the order's id, or why placing is
/// refused. A bid reserves its total amount and is matched right away.
pub open spec fn placed(
    b: BookView,
    cfg: OrderbookConfig,
    now: BlockNumber,
    owner: AccountId,
    kind: OrderType,
    resources: Seq<ResourceRequest>,
    total: Balance,
    operator_id: Option<AccountId>,
) -> Result<(BookView, OrderId), Error> {
    if resources.len() == 0 || total == 0 {
        Err(Error::InvalidOrderParameters)
    } else if kind == OrderType::Ask && !covers_all(resources) {
        Err(Error::InvalidOrderParameters)
    } else if ids_at(b.user_orders, owner).len() >= cfg.max_orders_per_user {
        Err(Error::TooManyOrdersForUser)
    } else if b.orders.contains_key(OrderKey { owner, id: order_id_of(owner, now, resources) }) {
        Err(Error::OrderAlreadyExists)
    } else {
        let id = order_id_of(owner, now, resources);
        let key = OrderKey { owner, id };
        let order = OrderView {
            owner,
            order_type: kind,
            resources,
            total_amount: total,
            filled_amount: 0,
            created_at: now,
            operator_id,
        };
        let b1 = BookView {
            order_keys: b.order_keys.push(key),
            orders: b.orders.insert(key, order),
            user_orders: b.user_orders.insert(owner, ids_at(b.user_orders, owner).push(id)),
            ..b
        };
        match listed(
            b1.resource_orders,
            resources,
            id,
            cfg.max_orders_per_resource,
            resources.len() as int,
        ) {
            Err(e) => Err(e),
            Ok(ro) => {
                let b2 = BookView { resource_orders: ro, ..b1 };
                let r3 = if kind == OrderType::Bid {
                    reserved_for(b2, owner, total)
                } else {
                    Ok(b2)
                };
                match r3 {
                    Err(e) => Err(e),
                    Ok(b3) => {
                        let b4 = BookView {
                            events: b3.events.push(
                                Event::OrderPlaced { owner, order_id: id, order_type: kind },
                            ),
                            ..b3
                        };
                        if kind == OrderType::Bid {
                            match matched(b4, owner, id) {
                                Err(e) => Err(e),
                                Ok(b5) => Ok((b5, id)),
                            }
                        } else {
                            Ok((b4, id))
                        }
                    },
                }
            },
        }
    }
}

proof fn lemma_listed_err(
    ro: Map<PricePoint, Seq<OrderId>>,
    rs: Seq<ResourceRequest>,
    id: OrderId,
    max: u32,
    n: int,
    len: int,
)
    requires
        0 <= n <= len,
        listed(ro, rs, id, max, n) is Err,
    ensures
        listed(ro, rs, id, max, len) == listed(ro, rs, id, max, n),
    decreases len - n,
{
    if n < len {
        lemma_listed_err(ro, rs, id, max, n, len - 1);
    }
}

impl Orderbook {
    /// Places an order; a bid reserves its total amount and is matched
    /// right away. Returns the order's id.
    pub fn do_place_order(
        &mut self,
        owner: AccountId,
        kind: OrderType,
        resources: Vec<ResourceRequest>,
        total: Balance,
        operator_id: Option<AccountId>,
    ) -> (r: Result<OrderId, Error>)
        ensures
            book_wf(old(self).book()) ==> book_wf(final(self).book()),
            r is Err ==> final(self).book() == old(self).book(),
            match placed(
                old(self).book(),
                old(self).config,
                old(self).block_number,
                owner,
                kind,
                resources@,
                total,
                operator_id,
            ) {
                Ok((b, id)) => r == Ok::<OrderId, Error>(id) && final(self).book() == b,
                Err(e) => r == Err::<OrderId, Error>(e),
            },
            final(self).same_rest(old(self)),
    {
        proof {
            let b = self.book();
            let (cfg, now) = (self.config, self.block_number);
            if book_wf(b) && placed(b, cfg, now, owner, kind, resources@, total, operator_id) is Ok {
                lemma_placed_wf(b, cfg, now, owner, kind, resources@, total, operator_id);
            }
        }
        let saved = self.duplicate();
        let r = self.place_order_steps(owner, kind, resources, total, operator_id);
        if r.is_err() {
            *self = saved;
        }
        r
    }

    /// The steps of `do_place_order`, which may leave part of their work done
    /// when they refuse.
    fn place_order_steps(
        &mut self,
        owner: AccountId,
        kind: OrderType,
        resources: Vec<ResourceRequest>,
        total: Balance,
        operator_id: Option<AccountId>,
    ) -> (r: Result<OrderId, Error>)
        ensures
            match placed(
                old(self).book(),
                old(self).config,
                old(self).block_number,
                owner,
                kind,
                resources@,
                total,
                operator_id,
            ) {
                Ok((b, id)) => r == Ok::<OrderId, Error>(id) && final(self).book() == b,
                Err(e) => r == Err::<OrderId, Error>(e),
            },
            final(self).same_rest(old(self)),
    {
        if resources.len() == 0 || total == 0 {
            return Err(Error::InvalidOrderParameters);
        }
        if kind == OrderType::Ask && !covers_all_kinds(&resources) {
            return Err(Error::InvalidOrderParameters);
        }
        let count = match self.user_orders.get(&owner) {
            Some(v) => v.len(),
            None => 0,
        };
        if count >= self.config.max_orders_per_user as usize {
            return Err(Error::TooManyOrdersForUser);
        }
        let now = self.block_number;
        let id = order_id(owner, now, &resources);
        let key = OrderKey { owner, id };
        if self.orders.contains_key(&key) {
            return Err(Error::OrderAlreadyExists);
        }
        let order = Order {
            owner,
            order_type: kind,
            resources: copy_requests(&resources),
            total_amount: total,
            filled_amount: 0,
            created_at: now,
            operator_id,
        };
        self.orders.insert(key, order);
        let mut ids = match self.user_orders.get(&owner) {
            Some(v) => copy_ids(v),
            None => Vec::new(),
        };
        ids.push(id);
        self.user_orders.insert(owner, ids);
        let ghost ro0 = self.resource_orders@;
        let ghost s1 = *self;
        let max = self.config.max_orders_per_resource;
        let mut i: usize = 0;
        while i < resources.len()
            invariant
                i <= resources@.len(),
                max == self.config.max_orders_per_resource,
                listed(ro0, resources@, id, max, i as int) == Ok::<
                    Map<PricePoint, Seq<OrderId>>,
                    Error,
                >(self.resource_orders@),
                self.orders@ == s1.orders@,
                self.orders.key_seq() == s1.orders.key_seq(),
                self.user_orders@ == s1.user_orders@,
                self.ledger == s1.ledger,
                self.events@ == s1.events@,
                self.same_rest(old(self)),
                ro0 == old(self).resource_orders@,
                resources@.len() > 0 && total != 0,
                kind == OrderType::Ask ==> covers_all(resources@),
                ids_at(old(self).user_orders@, owner).len() < old(self).config.max_orders_per_user,
                id == order_id_of(owner, old(self).block_number, resources@),
                !old(self).orders@.contains_key(OrderKey { owner, id }),
            decreases resources@.len() - i,
        {
            let pp = PricePoint { resource_type: resources[i].resource_type, price: resources[i].price };
            let mut cur = match self.resource_orders.get(&pp) {
                Some(v) => copy_ids(v),
                None => Vec::new(),
            };
            if cur.len() >= max as usize {
                proof {
                    lemma_listed_err(ro0, resources@, id, max, i as int + 1, resources@.len() as int);
                }
                return Err(Error::TooManyOrdersForResource);
            }
            cur.push(id);
            self.resource_orders.insert(pp, cur);
            i = i + 1;
        }
        if kind == OrderType::Bid {
            match self.ledger.reserve(owner, total) {
                Err(e) => {
                    return Err(Error::Balances(e));
                },
                Ok(()) => {},
            }
        }
        self.events.push(Event::OrderPlaced { owner, order_id: id, order_type: kind });
        if kind == OrderType::Bid {
            self.do_try_match_orders(owner, id)?;
        }
        Ok(id)
    }

    /// `place_bid`: places a bid; on refusal nothing changes.
    pub fn place_bid(
        &mut self,
        who: AccountId,
        resources: Vec<ResourceRequest>,
        total: Balance,
        operator_id: Option<AccountId>,
    ) -> (r: Result<(), Error>)
        ensures
            book_wf(old(self).book()) ==> book_wf(final(self).book()),
            match placed(
                old(self).book(),
                old(self).config,
                old(self).block_number,
                who,
                OrderType::Bid,
                resources@,
                total,
                operator_id,
            ) {
                Ok((b, _)) => r is Ok && final(self).book() == b,
                Err(e) => r == Err::<(), Error>(e) && final(self).book() == old(self).book(),
            },
            final(self).same_rest(old(self)),
    {
        match self.do_place_order(who, OrderType::Bid, resources, total, operator_id) {
            Ok(_) => Ok(()),
            Err(e) => Err(e),
        }
    }

    /// `place_ask`: a registered operator offers resources; on refusal
    /// nothing changes.
    pub fn place_ask(&mut self, who: AccountId, resources: Vec<ResourceRequest>, total: Balance) -> (r:
        Result<(), Error>)
        ensures
            book_wf(old(self).book()) ==> book_wf(final(self).book()),
            !old(self).operator_offerings@.contains_key(who) ==> r == Err::<(), Error>(
                Error::OperatorNotRegistered,
            ) && final(self).book() == old(self).book(),
            old(self).operator_offerings@.contains_key(who) ==> match placed(
                old(self).book(),
                old(self).config,
                old(self).block_number,
                who,
                OrderType::Ask,
                resources@,
                total,
                Some(who),
            ) {
                Ok((b, _)) => r is Ok && final(self).book() == b,
                Err(e) => r == Err::<(), Error>(e) && final(self).book() == old(self).book(),
            },
            final(self).same_rest(old(self)),
    {
        if !self.operator_offerings.contains_key(&who) {
            return Err(Error::OperatorNotRegistered);
        }
        match self.do_place_order(who, OrderType::Ask, resources, total, Some(who)) {
            Ok(_) => Ok(()),
            Err(e) => Err(e),
        }
    }

    /// `cancel_order`: cancels an order of `who`.
    pub fn cancel_order(&mut self, who: AccountId, id: OrderId) -> (r: Result<(), Error>)
        ensures
            book_wf(old(self).book()) ==> book_wf(final(self).book()),
            match cancelled(old(self).book(), who, id) {
                Ok(b) => r is Ok && final(self).book() == b,
                Err(e) => r == Err::<(), Error>(e) && final(self).book() == old(self).book(),
            },
            final(self).same_rest(old(self)),
    {
        self.do_cancel_order(who, id)
    }
}

impl Orderbook {
    /// `register_operator`: registers `who` as an operator offering
    /// `resources` (of every kind) for at least `min_duration` blocks, and
    /// reserves its collateral.
    pub fn register_operator(
        &mut self,
        who: AccountId,
        resources: Vec<ResourceRequest>,
        min_duration: BlockNumber,
        collateral: Balance,
    ) -> (r: Result<(), Error>)
        ensures
            book_wf(old(self).book()) ==> book_wf(final(self).book()),
            ({
                let cfg = old(self).config;
                let reserve = reserved_for(old(self).book(), who, collateral);
                let e = if old(self).operator_offerings@.contains_key(who) {
                    Some(Error::OperatorAlreadyRegistered)
                } else if min_duration < cfg.min_service_duration {
                    Some(Error::InvalidServiceDuration)
                } else if collateral < cfg.min_operator_collateral {
                    Some(Error::InsufficientCollateral)
                } else if !covers_all(resources@) {
                    Some(Error::InvalidOrderParameters)
                } else if reserve is Err {
                    Some(reserve->Err_0)
                } else {
                    None
                };
                &&& e is Some ==> r == Err::<(), Error>(e->0) && final(self).book() == old(
                    self,
                ).book() && final(self).operator_offerings@ == old(self).operator_offerings@
                &&& e is None ==> r is Ok && final(self).book() == (BookView {
                    events: reserve->Ok_0.events.push(
                        Event::OperatorRegistered { operator_id: who, collateral },
                    ),
                    ..reserve->Ok_0
                }) && final(self).operator_offerings@ == old(self).operator_offerings@.insert(
                    who,
                    ResourceOfferingView {
                        operator_id: who,
                        resources: resources@,
                        min_duration,
                        collateral,
                    },
                )
                &&& final(self).config == old(self).config
                &&& final(self).block_number == old(self).block_number
                &&& final(self).ledger.locks@ == old(self).ledger.locks@
                &&& final(self).ledger.assets@ == old(self).ledger.assets@
                &&& final(self).ledger.tokens@ == old(self).ledger.tokens@
            }),
    {
        let ghost b0 = self.book();
        if self.operator_offerings.contains_key(&who) {
            return Err(Error::OperatorAlreadyRegistered);
        }
        if min_duration < self.config.min_service_duration {
            return Err(Error::InvalidServiceDuration);
        }
        if collateral < self.config.min_operator_collateral {
            return Err(Error::InsufficientCollateral);
        }
        if !covers_all_kinds(&resources) {
            return Err(Error::InvalidOrderParameters);
        }
        match self.ledger.reserve(who, collateral) {
            Err(e) => {
                return Err(Error::Balances(e));
            },
            Ok(()) => {},
        }
        self.operator_offerings.insert(
            who,
            ResourceOffering { operator_id: who, resources, min_duration, collateral },
        );
        self.events.push(Event::OperatorRegistered { operator_id: who, collateral });
        proof {
            if book_wf(b0) {
                lemma_orders_kept_wf(b0, self.book());
            }
        }
        Ok(())
    }

    /// `update_operator`: replaces the offering of `who`; with a new
    /// collateral, the old one returns from reserve and the new one is
    /// reserved.
    pub fn update_operator(
        &mut self,
        who: AccountId,
        resources: Vec<ResourceRequest>,
        min_duration: BlockNumber,
        new_collateral: Option<Balance>,
    ) -> (r: Result<(), Error>)
        ensures
            book_wf(old(self).book()) ==> book_wf(final(self).book()),
            ({
                let cfg = old(self).config;
                let offering = old(self).operator_offerings@[who];
                let swapped = match new_collateral {
                    None => Ok(old(self).book()),
                    Some(c) => reserved_for(
                        unreserved(old(self).book(), who, offering.collateral),
                        who,
                        c,
                    ),
                };
                let collateral = match new_collateral {
                    None => offering.collateral,
                    Some(c) => c,
                };
                let e = if !old(self).operator_offerings@.contains_key(who) {
                    Some(Error::OperatorNotRegistered)
                } else if min_duration < cfg.min_service_duration {
                    Some(Error::InvalidServiceDuration)
                } else if !covers_all(resources@) {
                    Some(Error::InvalidOrderParameters)
                } else if new_collateral matches Some(c) && c < cfg.min_operator_collateral {
                    Some(Error::InsufficientCollateral)
                } else if swapped is Err {
                    Some(swapped->Err_0)
                } else {
                    None
                };
                &&& e is Some ==> r == Err::<(), Error>(e->0) && final(self).book() == old(
                    self,
                ).book() && final(self).operator_offerings@ == old(self).operator_offerings@
                &&& e is None ==> r is Ok && final(self).book() == (BookView {
                    events: swapped->Ok_0.events.push(
                        Event::OperatorUpdated { operator_id: who, collateral },
                    ),
                    ..swapped->Ok_0
                }) && final(self).operator_offerings@ == old(self).operator_offerings@.insert(
                    who,
                    ResourceOfferingView {
                        resources: resources@,
                        min_duration,
                        collateral,
                        ..offering
                    },
                )
                &&& final(self).config == old(self).config
                &&& final(self).block_number == old(self).block_number
                &&& final(self).ledger.locks@ == old(self).ledger.locks@
                &&& final(self).ledger.assets@ == old(self).ledger.assets@
                &&& final(self).ledger.tokens@ == old(self).ledger.tokens@
            }),
    {
        let ghost b0 = self.book();
        let mut offering = match self.operator_offerings.get(&who) {
            None => {
                return Err(Error::OperatorNotRegistered);
            },
            Some(o) => ResourceOffering {
                operator_id: o.operator_id,
                resources: copy_requests(&o.resources),
                min_duration: o.min_duration,
                collateral: o.collateral,
            },
        };
        if min_duration < self.config.min_service_duration {
            return Err(Error::InvalidServiceDuration);
        }
        if !covers_all_kinds(&resources) {
            return Err(Error::InvalidOrderParameters);
        }
        if let Some(new_amount) = new_collateral {
            if new_amount < self.config.min_operator_collateral {
                return Err(Error::InsufficientCollateral);
            }
            let saved = self.ledger.duplicate();
            let _ = self.ledger.unreserve(who, offering.collateral);
            match self.ledger.reserve(who, new_amount) {
                Err(e) => {
                    self.ledger = saved;
                    return Err(Error::Balances(e));
                },
                Ok(()) => {},
            }
            offering.collateral = new_amount;
        }
        offering.resources = resources;
        offering.min_duration = min_duration;
        let collateral = offering.collateral;
        self.operator_offerings.insert(who, offering);
        self.events.push(Event::OperatorUpdated { operator_id: who, collateral });
        proof {
            if book_wf(b0) {
                lemma_orders_kept_wf(b0, self.book());
            }
        }
        Ok(())
    }

    /// `unregister_operator`: removes the offering of `who` and returns its
    /// collateral from reserve.
    pub fn unregister_operator(&mut self, who: AccountId) -> (r: Result<(), Error>)
        ensures
            book_wf(old(self).book()) ==> book_wf(final(self).book()),
            !old(self).operator_offerings@.contains_key(who) ==> r == Err::<(), Error>(
                Error::OperatorNotRegistered,
            ) && final(self).book() == old(self).book() && final(self).operator_offerings@ == old(
                self,
            ).operator_offerings@,
            old(self).operator_offerings@.contains_key(who) ==> {
                let b = unreserved(
                    old(self).book(),
                    who,
                    old(self).operator_offerings@[who].collateral,
                );
                &&& r is Ok
                &&& final(self).book() == (BookView {
                    events: b.events.push(Event::OperatorUnregistered { operator_id: who }),
                    ..b
                })
                &&& final(self).operator_offerings@ == old(self).operator_offerings@.remove(who)
            },
            final(self).config == old(self).config,
            final(self).block_number == old(self).block_number,
            final(self).ledger.locks@ == old(self).ledger.locks@,
            final(self).ledger.assets@ == old(self).ledger.assets@,
            final(self).ledger.tokens@ == old(self).ledger.tokens@,
    {
        let ghost b0 = self.book();
        let offering = match self.operator_offerings.remove(&who) {
            None => {
                return Err(Error::OperatorNotRegistered);
            },
            Some(o) => o,
        };
        let _ = self.ledger.unreserve(who, offering.collateral);
        self.events.push(Event::OperatorUnregistered { operator_id: who });
        proof {
            if book_wf(b0) {
                lemma_orders_kept_wf(b0, self.book());
            }
        }
        Ok(())
    }
}

} // verus!
