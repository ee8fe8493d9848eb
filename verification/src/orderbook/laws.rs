//! Properties of the order book that relate several calls.
use super::book::{
    filled, resources_matched, sat_diff, cancelled, ids_at, listed, placed, price_point_of, reserved_for, unlisted, unreserved,
    without_id, BookView, Error, Event, OrderbookConfig,
};
use super::hashing::order_id_of;
use super::wf::{book_wf, offers_at};
use super::types::{
    AccountId, Balance, BlockNumber, OrderId, OrderKey, OrderMatchView, OrderType, OrderView, PricePoint,
    ResourceRequest,
};
use crate::ledger::bal;
use vstd::prelude::*;

verus! {

/// Reserving an amount and returning it from reserve leaves every free and
/// reserved balance as it was.
pub proof fn law_reserve_then_unreserve(b: BookView, who: AccountId, amount: Balance)
    requires
        reserved_for(b, who, amount) is Ok,
    ensures
        ({
            let after = unreserved(reserved_for(b, who, amount)->Ok_0, who, amount);
            &&& forall|k: AccountId| bal(#[trigger] after.free, k) == bal(b.free, k)
            &&& forall|k: AccountId| bal(#[trigger] after.reserved, k) == bal(b.reserved, k)
            &&& after.orders == b.orders
            &&& after.events == b.events
        }),
{
    let after = unreserved(reserved_for(b, who, amount)->Ok_0, who, amount);
    assert forall|k: AccountId| bal(#[trigger] after.free, k) == bal(b.free, k) by {}
    assert forall|k: AccountId| bal(#[trigger] after.reserved, k) == bal(b.reserved, k) by {}
}

/// Taking an id off a list that does not hold it keeps the list.
pub proof fn lemma_without_absent(s: Seq<OrderId>, id: OrderId)
    requires
        !s.contains(id),
    ensures
        without_id(s, id) == s,
    decreases s.len(),
{
    if s.len() > 0 {
        assert(!s.drop_last().contains(id)) by {
            if s.drop_last().contains(id) {
                let j = choose|j: int| 0 <= j < s.drop_last().len() && s.drop_last()[j] == id;
                assert(s[j] == id);
            }
        }
        lemma_without_absent(s.drop_last(), id);
        assert(s.last() != id) by {
            assert(s[s.len() - 1] == s.last());
        }
        assert(s.drop_last().push(s.last()) =~= s);
    }
}

/// Taking an id off a list removes the copies that were appended to it.
pub proof fn lemma_without_appended(s: Seq<OrderId>, id: OrderId)
    ensures
        without_id(s.push(id), id) == without_id(s, id),
{
    assert(s.push(id).drop_last() =~= s);
}

/// Listing an order at its price points and taking it off again gives every
/// list back, where no list held it.
pub proof fn lemma_listed_then_unlisted(
    ro: Map<PricePoint, Seq<OrderId>>,
    rs: Seq<ResourceRequest>,
    id: OrderId,
    max: u32,
    n: int,
)
    requires
        0 <= n <= rs.len(),
        listed(ro, rs, id, max, n) is Ok,
        forall|pp: PricePoint| !(#[trigger] ids_at(ro, pp)).contains(id),
    ensures
        forall|pp: PricePoint|
            without_id(ids_at(#[trigger] listed(ro, rs, id, max, n)->Ok_0, pp), id) == ids_at(ro, pp),
        forall|pp: PricePoint|
            #[trigger] ids_at(unlisted(listed(ro, rs, id, max, n)->Ok_0, rs, id, n), pp) == if exists|j: int|
                0 <= j < n && price_point_of(rs[j]) == pp {
                ids_at(ro, pp)
            } else {
                ids_at(listed(ro, rs, id, max, n)->Ok_0, pp)
            },
    decreases n,
{
    if n == 0 {
        assert forall|pp: PricePoint|
            without_id(ids_at(#[trigger] listed(ro, rs, id, max, n)->Ok_0, pp), id) == ids_at(ro, pp) by {
            lemma_without_absent(ids_at(ro, pp), id);
        }
    } else {
        lemma_listed_then_unlisted(ro, rs, id, max, n - 1);
        let prev = listed(ro, rs, id, max, n - 1)->Ok_0;
        let cur = listed(ro, rs, id, max, n)->Ok_0;
        let pn = price_point_of(rs[n - 1]);
        assert(cur == prev.insert(pn, ids_at(prev, pn).push(id)));
        assert forall|pp: PricePoint| without_id(ids_at(#[trigger] listed(ro, rs, id, max, n)->Ok_0, pp), id) == ids_at(ro, pp) by {
            if pp == pn {
                lemma_without_appended(ids_at(prev, pn), id);
            }
            assert(without_id(ids_at(listed(ro, rs, id, max, n - 1)->Ok_0, pp), id) == ids_at(ro, pp));
        }
        lemma_unlisted_frame(cur, rs, id, n - 1, prev, ro);
        assert forall|pp: PricePoint|
            #[trigger] ids_at(unlisted(cur, rs, id, n), pp) == if exists|j: int|
                0 <= j < n && price_point_of(rs[j]) == pp {
                ids_at(ro, pp)
            } else {
                ids_at(cur, pp)
            } by {
            let u = unlisted(cur, rs, id, n - 1);
            assert(unlisted(cur, rs, id, n) == u.insert(pn, without_id(ids_at(u, pn), id)));
            if pp == pn {
                assert(exists|j: int| 0 <= j < n && price_point_of(rs[j]) == pp) by {
                    assert(price_point_of(rs[n - 1]) == pp);
                }
                assert(without_id(ids_at(u, pn), id) == ids_at(ro, pn)) by {
                    if exists|j: int| 0 <= j < n - 1 && price_point_of(rs[j]) == pn {
                        assert(ids_at(u, pn) == ids_at(ro, pn));
                        lemma_without_absent(ids_at(ro, pn), id);
                    } else {
                        assert(ids_at(u, pn) == ids_at(cur, pn));
                    }
                }
            } else {
                assert(ids_at(unlisted(cur, rs, id, n), pp) == ids_at(u, pp));
                if exists|j: int| 0 <= j < n && price_point_of(rs[j]) == pp {
                    let j = choose|j: int| 0 <= j < n && price_point_of(rs[j]) == pp;
                    assert(j < n - 1);
                }
            }
        }
    }
}

proof fn lemma_unlisted_frame(
    cur: Map<PricePoint, Seq<OrderId>>,
    rs: Seq<ResourceRequest>,
    id: OrderId,
    k: int,
    prev: Map<PricePoint, Seq<OrderId>>,
    ro: Map<PricePoint, Seq<OrderId>>,
)
    requires
        0 <= k < rs.len(),
        forall|pp: PricePoint| without_id(#[trigger] ids_at(cur, pp), id) == ids_at(ro, pp),
    ensures
        forall|pp: PricePoint|
            #[trigger] ids_at(unlisted(cur, rs, id, k), pp) == if exists|j: int|
                0 <= j < k && price_point_of(rs[j]) == pp {
                ids_at(ro, pp)
            } else {
                ids_at(cur, pp)
            },
    decreases k,
{
    if k > 0 {
        lemma_unlisted_frame(cur, rs, id, k - 1, prev, ro);
        let u = unlisted(cur, rs, id, k - 1);
        let pk = price_point_of(rs[k - 1]);
        assert forall|pp: PricePoint|
            #[trigger] ids_at(unlisted(cur, rs, id, k), pp) == if exists|j: int|
                0 <= j < k && price_point_of(rs[j]) == pp {
                ids_at(ro, pp)
            } else {
                ids_at(cur, pp)
            } by {
            assert(unlisted(cur, rs, id, k) == u.insert(pk, without_id(ids_at(u, pk), id)));
            if pp == pk {
                assert(price_point_of(rs[k - 1]) == pp);
                assert(without_id(ids_at(cur, pk), id) == ids_at(ro, pk));
                if exists|j: int| 0 <= j < k - 1 && price_point_of(rs[j]) == pk {
                    assert(ids_at(u, pk) == ids_at(ro, pk));
                    lemma_without_absent_twice(ids_at(cur, pk), id);
                    assert(without_id(ids_at(u, pk), id) == ids_at(ro, pk));
                } else {
                    assert(ids_at(u, pk) == ids_at(cur, pk));
                    assert(without_id(ids_at(u, pk), id) == ids_at(ro, pk));
                }
                assert(ids_at(unlisted(cur, rs, id, k), pp) == ids_at(ro, pp));
                assert(exists|j: int| 0 <= j < k && price_point_of(rs[j]) == pp);
            } else {
                assert(ids_at(unlisted(cur, rs, id, k), pp) == ids_at(u, pp));
                if exists|j: int| 0 <= j < k && price_point_of(rs[j]) == pp {
                    let j = choose|j: int| 0 <= j < k && price_point_of(rs[j]) == pp;
                    assert(j < k - 1);
                    assert(exists|j: int| 0 <= j < k - 1 && price_point_of(rs[j]) == pp);
                } else {
                    assert(!exists|j: int| 0 <= j < k - 1 && price_point_of(rs[j]) == pp);
                }
            }
        }
    }
}

/// Taking an id off a list twice is taking it off once.
pub proof fn lemma_without_absent_twice(s: Seq<OrderId>, id: OrderId)
    ensures
        without_id(without_id(s, id), id) == without_id(s, id),
{
    lemma_without_has_none(s, id);
    lemma_without_absent(without_id(s, id), id);
}

/// A list with an id taken off does not hold it.
pub proof fn lemma_without_has_none(s: Seq<OrderId>, id: OrderId)
    ensures
        !without_id(s, id).contains(id),
    decreases s.len(),
{
    if s.len() > 0 {
        lemma_without_has_none(s.drop_last(), id);
        let w = without_id(s.drop_last(), id);
        if s.last() != id {
            assert forall|j: int| 0 <= j < w.push(s.last()).len() implies w.push(s.last())[j] != id by {
                if j < w.len() {
                    assert(w.push(s.last())[j] == w[j]);
                }
            }
        }
    }
}

/// Placing an ask and cancelling it right away gives the book back: the
/// same orders in the same order, the same lists of ids (a list that was
/// missing may now be stored empty), the same balances; only the two events
/// are new. This holds for any operator named in the ask, on a consistent
/// book where no stored order has the new order's id.
pub proof fn law_place_ask_then_cancel(
    b: BookView,
    cfg: OrderbookConfig,
    now: BlockNumber,
    owner: AccountId,
    resources: Seq<ResourceRequest>,
    total: Balance,
    operator_id: Option<AccountId>,
)
    requires
        placed(b, cfg, now, owner, OrderType::Ask, resources, total, operator_id) is Ok,
        book_wf(b),
        forall|k: OrderKey| #[trigger]
            b.orders.contains_key(k) ==> k.id != order_id_of(owner, now, resources),
    ensures
        ({
            let id = order_id_of(owner, now, resources);
            let (b1, placed_id) = placed(
                b,
                cfg,
                now,
                owner,
                OrderType::Ask,
                resources,
                total,
                operator_id,
            )->Ok_0;
            let b2 = cancelled(b1, owner, id)->Ok_0;
            &&& placed_id == id
            &&& cancelled(b1, owner, id) is Ok
            &&& b2.orders == b.orders
            &&& b2.order_keys == b.order_keys
            &&& forall|o: AccountId| ids_at(#[trigger] b2.user_orders, o) == ids_at(b.user_orders, o)
            &&& forall|pp: PricePoint| #[trigger] ids_at(b2.resource_orders, pp) == ids_at(
                b.resource_orders,
                pp,
            )
            &&& b2.free == b.free
            &&& b2.reserved == b.reserved
            &&& b2.events == b.events.push(
                Event::OrderPlaced { owner, order_id: id, order_type: OrderType::Ask },
            ).push(Event::OrderCancelled { owner, order_id: id })
        }),
{
    let id = order_id_of(owner, now, resources);
    let key = OrderKey { owner, id };
    let n = resources.len() as int;
    assert(!b.order_keys.contains(key)) by {
        if b.order_keys.contains(key) {
            assert(b.order_keys.to_set().contains(key));
        }
    }
    assert(!ids_at(b.user_orders, owner).contains(id)) by {
        if ids_at(b.user_orders, owner).contains(id) {
            assert(b.orders.contains_key(key));
        }
    }
    assert forall|pp: PricePoint| !(#[trigger] ids_at(b.resource_orders, pp)).contains(id) by {
        if ids_at(b.resource_orders, pp).contains(id) {
            let k = choose|k: OrderKey|
                #![trigger b.orders[k]]
                b.orders.contains_key(k) && k.id == id && offers_at(b.orders[k], pp);
        }
    }
    lemma_listed_then_unlisted(b.resource_orders, resources, id, cfg.max_orders_per_resource, n);
    let ro1 = listed(b.resource_orders, resources, id, cfg.max_orders_per_resource, n)->Ok_0;
    let b1 = placed(b, cfg, now, owner, OrderType::Ask, resources, total, operator_id)->Ok_0.0;
    assert(b1.orders == b.orders.insert(key, b1.orders[key]));
    assert(b1.order_keys == b.order_keys.push(key));
    assert(b1.resource_orders == ro1);
    let ks = b.order_keys.push(key);
    assert(ks.index_of(key) == b.order_keys.len()) by {
        assert(ks[b.order_keys.len() as int] == key);
        let i = ks.index_of(key);
        if i != b.order_keys.len() {
            assert(b.order_keys[i] == key);
            assert(b.order_keys.contains(key));
        }
    }
    assert(ks.remove(b.order_keys.len() as int) =~= b.order_keys);
    let b2 = cancelled(b1, owner, id)->Ok_0;
    assert(b2.orders =~= b.orders);
    lemma_without_appended(ids_at(b.user_orders, owner), id);
    lemma_without_absent(ids_at(b.user_orders, owner), id);
    assert forall|o: AccountId| ids_at(#[trigger] b2.user_orders, o) == ids_at(b.user_orders, o) by {}
    assert forall|pp: PricePoint| #[trigger] ids_at(b2.resource_orders, pp) == ids_at(b.resource_orders, pp) by {
        if exists|j: int| 0 <= j < n && price_point_of(resources[j]) == pp {
        } else {
            assert(ids_at(ro1, pp) == ids_at(b.resource_orders, pp)) by {
                lemma_listed_untouched(b.resource_orders, resources, id, cfg.max_orders_per_resource, n, pp);
            }
        }
    }
}

/// A price point that none of the first `n` requests lists keeps its list.
pub proof fn lemma_listed_untouched(
    ro: Map<PricePoint, Seq<OrderId>>,
    rs: Seq<ResourceRequest>,
    id: OrderId,
    max: u32,
    n: int,
    pp: PricePoint,
)
    requires
        0 <= n <= rs.len(),
        listed(ro, rs, id, max, n) is Ok,
        !exists|j: int| 0 <= j < n && price_point_of(rs[j]) == pp,
    ensures
        ids_at(listed(ro, rs, id, max, n)->Ok_0, pp) == ids_at(ro, pp),
    decreases n,
{
    if n > 0 {
        lemma_listed_untouched(ro, rs, id, max, n - 1, pp);
        assert(price_point_of(rs[n - 1]) != pp);
    }
}


/// A match is settled at the maker's prices: each matched resource is of
/// the taker's resource type at its position, for the amount both orders
/// still have open (the smaller of the two), and at the price of the
/// maker's first resource of that type, whatever price the taker named.
pub proof fn law_matched_at_maker_prices(taker: OrderView, maker: OrderView, n: int)
    requires
        0 <= n <= taker.resources.len(),
        resources_matched(taker, maker, n) is Some,
    ensures
        ({
            let rs = resources_matched(taker, maker, n)->Some_0.0;
            let open_maker = sat_diff(maker.total_amount, maker.filled_amount);
            let open_taker = sat_diff(taker.total_amount, taker.filled_amount);
            &&& rs.len() == n
            &&& forall|i: int| #![trigger rs[i]] 0 <= i < n ==> {
                &&& rs[i].0 == taker.resources[i].resource_type
                &&& rs[i].1 > 0
                &&& rs[i].1 <= open_maker && rs[i].1 <= open_taker
                &&& (rs[i].1 == open_maker || rs[i].1 == open_taker)
                &&& exists|j: int|
                    #![trigger maker.resources[j]]
                    0 <= j < maker.resources.len() && maker.resources[j].resource_type == rs[i].0
                        && rs[i].2 == maker.resources[j].price && forall|k: int|
                        0 <= k < j ==> (#[trigger] maker.resources[k]).resource_type != rs[i].0
            }
        }),
    decreases n,
{
    if n > 0 {
        law_matched_at_maker_prices(taker, maker, n - 1);
        let tr = taker.resources[n - 1];
        let p = super::book::of_kind(tr.resource_type);
        let j = crate::seq_search::first_match(maker.resources, p)->0;
        assert(crate::seq_search::is_first(maker.resources, p, j)) by {
            assert(exists|i: int| crate::seq_search::is_first(maker.resources, p, i));
        }
        let prev = resources_matched(taker, maker, n - 1)->Some_0.0;
        let rs = resources_matched(taker, maker, n)->Some_0.0;
        assert(rs == prev.push(rs[n - 1]));
        assert forall|k: int| 0 <= k < j implies (#[trigger] maker.resources[k]).resource_type
            != tr.resource_type by {
            assert(!p(maker.resources[k]));
        }
        assert(maker.resources[j].resource_type == tr.resource_type);
    }
}


proof fn lemma_filled_keeps_side(
    b: BookView,
    m: OrderMatchView,
    maker: OrderView,
    taker: OrderView,
    n: int,
)
    requires
        filled(b, m, maker, taker, n) is Ok,
    ensures
        filled(b, m, maker, taker, n)->Ok_0.1.order_type == taker.order_type,
    decreases n,
{
    if n > 0 {
        lemma_filled_keeps_side(b, m, maker, taker, n - 1);
    }
}

/// Each matched resource is paid at its matched price: filling it raises
/// the taker's filled amount by the matched amount, and moves the amount
/// times the price out of the bidder's reserve to the other side's free
/// balance, the bidder's free balance staying as it was (where the two
/// sides are distinct accounts and the bidder's reserve covers the
/// payment).
pub proof fn law_fill_pays_matched_price(
    b: BookView,
    m: OrderMatchView,
    maker: OrderView,
    taker: OrderView,
    n: int,
)
    requires
        0 <= n < m.resources.len(),
        filled(b, m, maker, taker, n + 1) is Ok,
    ensures
        ({
            let before = filled(b, m, maker, taker, n)->Ok_0;
            let after = filled(b, m, maker, taker, n + 1)->Ok_0;
            let amount = m.resources[n].1;
            let pay = amount * m.resources[n].2;
            let payer = if taker.order_type == OrderType::Bid {
                m.taker_owner
            } else {
                m.maker_owner
            };
            let payee = if taker.order_type == OrderType::Bid {
                m.maker_owner
            } else {
                m.taker_owner
            };
            &&& filled(b, m, maker, taker, n) is Ok
            &&& after.1.filled_amount == before.1.filled_amount + amount
            &&& (payer != payee && bal(before.0.reserved, payer) >= pay && bal(before.0.free, payer)
                + pay <= u128::MAX) ==> {
                &&& bal(after.0.reserved, payer) == bal(before.0.reserved, payer) - pay
                &&& bal(after.0.free, payer) == bal(before.0.free, payer)
                &&& bal(after.0.free, payee) == bal(before.0.free, payee) + pay
            }
        }),
{
    lemma_filled_keeps_side(b, m, maker, taker, n);
}


/// A maker matches a taker on its first `n` resources exactly where both
/// orders still have something open and the maker offers every resource
/// type among them; the prices the two name play no part.
pub proof fn law_match_needs_every_kind(taker: OrderView, maker: OrderView, n: int)
    requires
        0 < n <= taker.resources.len(),
    ensures
        resources_matched(taker, maker, n) is Some <==> {
            &&& sat_diff(maker.total_amount, maker.filled_amount) > 0
            &&& sat_diff(taker.total_amount, taker.filled_amount) > 0
            &&& forall|i: int|
                #![trigger taker.resources[i]]
                0 <= i < n ==> exists|j: int|
                    #![trigger maker.resources[j]]
                    0 <= j < maker.resources.len() && maker.resources[j].resource_type
                        == taker.resources[i].resource_type
        },
    decreases n,
{
    let tr = taker.resources[n - 1];
    let p = super::book::of_kind(tr.resource_type);
    let offered = exists|j: int|
        #![trigger maker.resources[j]]
        0 <= j < maker.resources.len() && maker.resources[j].resource_type == tr.resource_type;
    if offered {
        let j0 = choose|j: int|
            #![trigger maker.resources[j]]
            0 <= j < maker.resources.len() && maker.resources[j].resource_type == tr.resource_type;
        lemma_has_first(maker.resources, p, j0);
    } else {
        assert forall|j: int| 0 <= j < maker.resources.len() implies !p(
            #[trigger] maker.resources[j],
        ) by {}
        crate::seq_search::lemma_first_match(maker.resources, p, None);
    }
    if n > 1 {
        law_match_needs_every_kind(taker, maker, n - 1);
    }
}

/// Where `p` holds somewhere, a first position exists.
proof fn lemma_has_first(
    s: Seq<ResourceRequest>,
    p: spec_fn(ResourceRequest) -> bool,
    j: int,
)
    requires
        0 <= j < s.len(),
        p(s[j]),
    ensures
        crate::seq_search::first_match(s, p) is Some,
    decreases j,
{
    if exists|l: int| 0 <= l < j && p(s[l]) {
        let l = choose|l: int| 0 <= l < j && p(s[l]);
        lemma_has_first(s, p, l);
    } else {
        assert(crate::seq_search::is_first(s, p, j));
    }
}

} // verus!
