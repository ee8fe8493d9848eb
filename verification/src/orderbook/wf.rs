//! The consistency of the order book's lists with its orders, and that every
//! call keeps it: an id listed for a user is an order of that user, an id
//! listed at a price point is an order offering or asking at that price
//! point, and the storage order of the orders holds exactly the stored keys.
use super::book::{
    cancelled, executed, filled, found_match, ids_at, listed, match_rounds, matched, placed,
    price_point_of, reserved_for, unlisted, without_id, BookView, OrderbookConfig,
};
use super::types::{
    AccountId, Balance, BlockNumber, OrderId, OrderKey, OrderMatchView, OrderType, OrderView,
    PricePoint, ResourceRequest,
};
use vstd::prelude::*;

verus! {

/// Whether order `o` has a resource at price point `pp`.
pub open spec fn offers_at(o: OrderView, pp: PricePoint) -> bool {
    exists|j: int| 0 <= j < o.resources.len() && price_point_of(o.resources[j]) == pp
}

/// Every listed id belongs to a stored order: a user's ids to orders of that
/// user, a price point's ids to orders with a resource there.
pub open spec fn lists_wf(b: BookView) -> bool {
    &&& forall|o: AccountId, x: OrderId|
        #[trigger] ids_at(b.user_orders, o).contains(x) ==> b.orders.contains_key(
            OrderKey { owner: o, id: x },
        )
    &&& forall|pp: PricePoint, x: OrderId|
        #[trigger] ids_at(b.resource_orders, pp).contains(x) ==> exists|k: OrderKey|
            #![trigger b.orders[k]]
            b.orders.contains_key(k) && k.id == x && offers_at(b.orders[k], pp)
}

/// The storage order of the orders holds each stored key once, and nothing
/// else.
pub open spec fn keys_wf(b: BookView) -> bool {
    &&& b.order_keys.no_duplicates()
    &&& b.order_keys.to_set() == b.orders.dom()
}

/// The order book is consistent: its lists belong to stored orders, and the
/// storage order of the orders holds exactly the stored keys.
pub open spec fn book_wf(b: BookView) -> bool {
    &&& lists_wf(b)
    &&& keys_wf(b)
}

proof fn lemma_key_removed(ks: Seq<OrderKey>, key: OrderKey)
    requires
        ks.no_duplicates(),
        ks.contains(key),
    ensures
        ks.remove(ks.index_of(key)).no_duplicates(),
        ks.remove(ks.index_of(key)).to_set() == ks.to_set().remove(key),
{
    let i = ks.index_of(key);
    ks.index_of_first_ensures(key);
    ks.remove_ensures(i);
    let r = ks.remove(i);
    assert forall|a: int, c: int| 0 <= a < r.len() && 0 <= c < r.len() && a != c implies r[a] != r[c] by {
        let a2 = if a < i { a } else { a + 1 };
        let c2 = if c < i { c } else { c + 1 };
        assert(r[a] == ks[a2]);
        assert(r[c] == ks[c2]);
    }
    assert forall|x: OrderKey| r.to_set().contains(x) <==> ks.to_set().remove(key).contains(x) by {
        if r.to_set().contains(x) {
            let a = choose|a: int| 0 <= a < r.len() && r[a] == x;
            let a2 = if a < i { a } else { a + 1 };
            assert(ks[a2] == x);
            assert(a2 != i);
        }
        if ks.to_set().remove(key).contains(x) {
            let a = choose|a: int| 0 <= a < ks.len() && ks[a] == x;
            assert(a != i);
            if a < i {
                assert(r[a] == x);
            } else {
                assert(r[a - 1] == x);
            }
        }
    }
    assert(r.to_set() =~= ks.to_set().remove(key));
}

proof fn lemma_key_pushed(ks: Seq<OrderKey>, key: OrderKey)
    requires
        ks.no_duplicates(),
        !ks.contains(key),
    ensures
        ks.push(key).no_duplicates(),
        ks.push(key).to_set() == ks.to_set().insert(key),
{
    let r = ks.push(key);
    assert forall|a: int, c: int| 0 <= a < r.len() && 0 <= c < r.len() && a != c implies r[a] != r[c] by {
        if a < ks.len() && c < ks.len() {
            assert(r[a] == ks[a] && r[c] == ks[c]);
        } else if a < ks.len() {
            assert(r[a] == ks[a]);
        } else {
            assert(r[c] == ks[c]);
        }
    }
    assert forall|x: OrderKey| r.to_set().contains(x) <==> ks.to_set().insert(key).contains(x) by {
        if r.to_set().contains(x) {
            let a = choose|a: int| 0 <= a < r.len() && r[a] == x;
            if a < ks.len() {
                assert(ks[a] == x);
            }
        }
        if ks.to_set().contains(x) {
            let a = choose|a: int| 0 <= a < ks.len() && ks[a] == x;
            assert(r[a] == x);
        }
        if x == key {
            assert(r[ks.len() as int] == x);
        }
    }
    assert(r.to_set() =~= ks.to_set().insert(key));
}

/// `c` has the orders of `b`, with the same resources, and the same lists.
pub open spec fn same_skeleton(b: BookView, c: BookView) -> bool {
    &&& c.order_keys == b.order_keys
    &&& c.orders.dom() == b.orders.dom()
    &&& forall|k: OrderKey| #[trigger]
        b.orders.contains_key(k) ==> c.orders[k].resources == b.orders[k].resources
    &&& c.resource_orders == b.resource_orders
    &&& c.user_orders == b.user_orders
}

pub proof fn lemma_skeleton_wf(b: BookView, c: BookView)
    requires
        book_wf(b),
        same_skeleton(b, c),
    ensures
        book_wf(c),
{
    assert forall|o: AccountId, x: OrderId| #[trigger]
        ids_at(c.user_orders, o).contains(x) implies c.orders.contains_key(
        OrderKey { owner: o, id: x },
    ) by {
        assert(b.orders.contains_key(OrderKey { owner: o, id: x }));
        assert(b.orders.dom().contains(OrderKey { owner: o, id: x }));
    }
    assert forall|pp: PricePoint, x: OrderId| #[trigger]
        ids_at(c.resource_orders, pp).contains(x) implies exists|k: OrderKey|
        #![trigger c.orders[k]]
        c.orders.contains_key(k) && k.id == x && offers_at(c.orders[k], pp) by {
        assert(ids_at(b.resource_orders, pp).contains(x));
        let k = choose|k: OrderKey|
            #![trigger b.orders[k]]
            b.orders.contains_key(k) && k.id == x && offers_at(b.orders[k], pp);
        assert(b.orders.dom().contains(k));
        assert(c.orders.contains_key(k));
        assert(c.orders[k].resources == b.orders[k].resources);
        assert(offers_at(c.orders[k], pp));
    }
}

/// A call that leaves the orders and their lists alone keeps the book
/// consistent.
pub proof fn lemma_orders_kept_wf(b: BookView, c: BookView)
    requires
        book_wf(b),
        c.order_keys == b.order_keys,
        c.orders == b.orders,
        c.resource_orders == b.resource_orders,
        c.user_orders == b.user_orders,
    ensures
        book_wf(c),
{
    lemma_skeleton_wf(b, c);
}

proof fn lemma_without_id_contains(s: Seq<OrderId>, id: OrderId, x: OrderId)
    ensures
        without_id(s, id).contains(x) ==> s.contains(x) && x != id,
    decreases s.len(),
{
    if s.len() > 0 {
        lemma_without_id_contains(s.drop_last(), id, x);
        let w = without_id(s.drop_last(), id);
        if without_id(s, id).contains(x) {
            if s.last() == id {
                assert(without_id(s, id) == w);
            } else {
                assert(without_id(s, id) == w.push(s.last()));
                let j = choose|j: int| 0 <= j < w.push(s.last()).len() && w.push(s.last())[j] == x;
                if j < w.len() {
                    assert(w[j] == x);
                    assert(w.contains(x));
                    let i = choose|i: int| 0 <= i < s.drop_last().len() && s.drop_last()[i] == x;
                    assert(s[i] == x);
                } else {
                    assert(s[s.len() - 1] == x);
                }
            }
        }
    }
}

proof fn lemma_unlisted_contains(
    ro: Map<PricePoint, Seq<OrderId>>,
    rs: Seq<ResourceRequest>,
    id: OrderId,
    n: int,
    pp: PricePoint,
    x: OrderId,
)
    requires
        0 <= n <= rs.len(),
    ensures
        ids_at(unlisted(ro, rs, id, n), pp).contains(x) ==> ids_at(ro, pp).contains(x) && (x == id
            ==> forall|j: int| 0 <= j < n ==> price_point_of(rs[j]) != pp),
    decreases n,
{
    if n > 0 {
        lemma_unlisted_contains(ro, rs, id, n - 1, pp, x);
        let prev = unlisted(ro, rs, id, n - 1);
        let pn = price_point_of(rs[n - 1]);
        if pp == pn {
            lemma_without_id_contains(ids_at(prev, pn), id, x);
        }
    }
}

proof fn lemma_listed_contains(
    ro: Map<PricePoint, Seq<OrderId>>,
    rs: Seq<ResourceRequest>,
    id: OrderId,
    max: u32,
    n: int,
    pp: PricePoint,
    x: OrderId,
)
    requires
        0 <= n <= rs.len(),
        listed(ro, rs, id, max, n) is Ok,
    ensures
        ids_at(listed(ro, rs, id, max, n)->Ok_0, pp).contains(x) ==> ids_at(ro, pp).contains(x) || (
        x == id && exists|j: int| 0 <= j < n && price_point_of(rs[j]) == pp),
    decreases n,
{
    if n > 0 {
        lemma_listed_contains(ro, rs, id, max, n - 1, pp, x);
        let prev = listed(ro, rs, id, max, n - 1)->Ok_0;
        let pn = price_point_of(rs[n - 1]);
        let cur = listed(ro, rs, id, max, n)->Ok_0;
        if ids_at(cur, pp).contains(x) {
            if pp == pn {
                let s = ids_at(prev, pn);
                assert(ids_at(cur, pp) == s.push(id));
                let j = choose|j: int| 0 <= j < s.push(id).len() && s.push(id)[j] == x;
                if j < s.len() {
                    assert(s[j] == x);
                    assert(s.contains(x));
                } else {
                    assert(x == id);
                    assert(price_point_of(rs[n - 1]) == pp);
                }
            } else {
                assert(ids_at(cur, pp) == ids_at(prev, pp));
            }
        }
    }
}

/// Cancelling an order keeps the book consistent.
pub proof fn lemma_cancelled_wf(b: BookView, owner: AccountId, id: OrderId)
    requires
        book_wf(b),
        cancelled(b, owner, id) is Ok,
    ensures
        book_wf(cancelled(b, owner, id)->Ok_0),
{
    let key = OrderKey { owner, id };
    let o = b.orders[key];
    let c = cancelled(b, owner, id)->Ok_0;
    let n = o.resources.len() as int;
    assert(c.orders == b.orders.remove(key));
    assert(c.user_orders == b.user_orders.insert(owner, without_id(ids_at(b.user_orders, owner), id)));
    assert(c.resource_orders == unlisted(b.resource_orders, o.resources, id, n));
    assert(b.order_keys.to_set().contains(key));
    lemma_key_removed(b.order_keys, key);
    assert(c.order_keys == b.order_keys.remove(b.order_keys.index_of(key)));
    assert(c.orders.dom() =~= b.orders.dom().remove(key));
    assert forall|u: AccountId, x: OrderId| #[trigger]
        ids_at(c.user_orders, u).contains(x) implies c.orders.contains_key(
        OrderKey { owner: u, id: x },
    ) by {
        if u == owner {
            assert(ids_at(c.user_orders, owner) == without_id(ids_at(b.user_orders, owner), id));
            lemma_without_id_contains(ids_at(b.user_orders, owner), id, x);
            assert(ids_at(b.user_orders, u).contains(x));
            assert(x != id);
        } else {
            assert(ids_at(c.user_orders, u) == ids_at(b.user_orders, u));
            assert(ids_at(b.user_orders, u).contains(x));
        }
        assert(b.orders.contains_key(OrderKey { owner: u, id: x }));
        assert(OrderKey { owner: u, id: x } != key);
    }
    assert forall|pp: PricePoint, x: OrderId| #[trigger]
        ids_at(c.resource_orders, pp).contains(x) implies exists|k: OrderKey|
        #![trigger c.orders[k]]
        c.orders.contains_key(k) && k.id == x && offers_at(c.orders[k], pp) by {
        lemma_unlisted_contains(b.resource_orders, o.resources, id, n, pp, x);
        let k = choose|k: OrderKey|
            #![trigger b.orders[k]]
            b.orders.contains_key(k) && k.id == x && offers_at(b.orders[k], pp);
        if k == key {
            let j = choose|j: int| 0 <= j < o.resources.len() && price_point_of(o.resources[j]) == pp;
            assert(price_point_of(o.resources[j]) != pp);
        }
        assert(c.orders.contains_key(k));
        assert(c.orders[k] == b.orders[k]);
    }
}

/// Filling a match keeps the orders, their resources and the lists.
proof fn lemma_filled_skeleton(
    b: BookView,
    m: OrderMatchView,
    maker: OrderView,
    taker: OrderView,
    n: int,
)
    requires
        b.orders.contains_key(OrderKey { owner: m.maker_owner, id: m.maker_id }),
        maker.resources == b.orders[OrderKey { owner: m.maker_owner, id: m.maker_id }].resources,
        filled(b, m, maker, taker, n) is Ok,
    ensures
        same_skeleton(b, filled(b, m, maker, taker, n)->Ok_0.0),
        filled(b, m, maker, taker, n)->Ok_0.1.resources == taker.resources,
    decreases n,
{
    if n > 0 {
        lemma_filled_skeleton(b, m, maker, taker, n - 1);
        let mk = OrderKey { owner: m.maker_owner, id: m.maker_id };
        let b1 = filled(b, m, maker, taker, n - 1)->Ok_0.0;
        let c = filled(b, m, maker, taker, n)->Ok_0.0;
        assert(c.orders.dom() =~= b.orders.dom());
        assert forall|k: OrderKey| #[trigger] b.orders.contains_key(k) implies c.orders[k].resources
            == b.orders[k].resources by {
            assert(b1.orders.contains_key(k));
        }
    } else {
        assert(filled(b, m, maker, taker, n)->Ok_0.0.orders.dom() =~= b.orders.dom());
    }
}

/// Executing a match keeps the book consistent.
pub proof fn lemma_executed_wf(b: BookView, m: OrderMatchView)
    requires
        book_wf(b),
        executed(b, m) is Ok,
    ensures
        book_wf(executed(b, m)->Ok_0),
{
    let mk = OrderKey { owner: m.maker_owner, id: m.maker_id };
    let tk = OrderKey { owner: m.taker_owner, id: m.taker_id };
    let maker = b.orders[mk];
    let n = m.resources.len() as int;
    lemma_filled_skeleton(b, m, maker, b.orders[tk], n);
    let (b1, taker) = filled(b, m, maker, b.orders[tk], n)->Ok_0;
    let b2 = BookView { orders: b1.orders.insert(tk, taker), ..b1 };
    assert(same_skeleton(b, b2)) by {
        assert(b2.orders.dom() =~= b.orders.dom());
        assert forall|k: OrderKey| #[trigger] b.orders.contains_key(k) implies b2.orders[k].resources
            == b.orders[k].resources by {
            assert(b1.orders.contains_key(k));
        }
    }
    lemma_skeleton_wf(b, b2);
    let stored_maker = b2.orders[mk];
    if stored_maker.filled_amount == stored_maker.total_amount {
        if cancelled(b2, m.maker_owner, m.maker_id) is Ok {
            lemma_cancelled_wf(b2, m.maker_owner, m.maker_id);
            let b3 = cancelled(b2, m.maker_owner, m.maker_id)->Ok_0;
            if taker.filled_amount == taker.total_amount && cancelled(b3, m.taker_owner, m.taker_id) is Ok {
                lemma_cancelled_wf(b3, m.taker_owner, m.taker_id);
            }
        }
    } else {
        if taker.filled_amount == taker.total_amount && cancelled(b2, m.taker_owner, m.taker_id) is Ok {
            lemma_cancelled_wf(b2, m.taker_owner, m.taker_id);
        }
    }
}

/// Matching an order round by round keeps the book consistent.
pub proof fn lemma_match_rounds_wf(b: BookView, taker: OrderView, taker_id: OrderId, n: int)
    requires
        book_wf(b),
        match_rounds(b, taker, taker_id, n) is Ok,
    ensures
        book_wf(match_rounds(b, taker, taker_id, n)->Ok_0),
    decreases n,
{
    if n > 0 {
        lemma_match_rounds_wf(b, taker, taker_id, n - 1);
        let b1 = match_rounds(b, taker, taker_id, n - 1)->Ok_0;
        let pp = price_point_of(taker.resources[n - 1]);
        match found_match(b1, taker, taker_id, ids_at(b1.resource_orders, pp)) {
            None => {},
            Some(mm) => {
                lemma_executed_wf(b1, mm);
            },
        }
    }
}

/// Matching an order keeps the book consistent.
pub proof fn lemma_matched_wf(b: BookView, owner: AccountId, id: OrderId)
    requires
        book_wf(b),
        matched(b, owner, id) is Ok,
    ensures
        book_wf(matched(b, owner, id)->Ok_0),
{
    let taker = b.orders[OrderKey { owner, id }];
    lemma_match_rounds_wf(b, taker, id, taker.resources.len() as int);
}

/// Placing an order keeps the book consistent.
pub proof fn lemma_placed_wf(
    b: BookView,
    cfg: OrderbookConfig,
    now: BlockNumber,
    owner: AccountId,
    kind: OrderType,
    resources: Seq<ResourceRequest>,
    total: Balance,
    operator_id: Option<AccountId>,
)
    requires
        book_wf(b),
        placed(b, cfg, now, owner, kind, resources, total, operator_id) is Ok,
    ensures
        book_wf(placed(b, cfg, now, owner, kind, resources, total, operator_id)->Ok_0.0),
{
    let id = super::hashing::order_id_of(owner, now, resources);
    let key = OrderKey { owner, id };
    let order = OrderView {
        owner,
        order_type: kind,
        resources,
        total_amount: total,
        filled_amount: 0,
        created_at: now,
        operator_id,
    };
    let n = resources.len() as int;
    assert(!b.orders.contains_key(key));
    let b1 = BookView {
        order_keys: b.order_keys.push(key),
        orders: b.orders.insert(key, order),
        user_orders: b.user_orders.insert(owner, ids_at(b.user_orders, owner).push(id)),
        ..b
    };
    let ro = listed(b1.resource_orders, resources, id, cfg.max_orders_per_resource, n)->Ok_0;
    let b2 = BookView { resource_orders: ro, ..b1 };
    assert(!b.order_keys.contains(key)) by {
        if b.order_keys.contains(key) {
            assert(b.order_keys.to_set().contains(key));
        }
    }
    lemma_key_pushed(b.order_keys, key);
    assert(b2.orders.dom() =~= b.orders.dom().insert(key));
    assert(book_wf(b2)) by {
        assert forall|u: AccountId, x: OrderId| #[trigger]
            ids_at(b2.user_orders, u).contains(x) implies b2.orders.contains_key(
            OrderKey { owner: u, id: x },
        ) by {
            if u == owner {
                let s = ids_at(b.user_orders, owner);
                let j = choose|j: int| 0 <= j < s.push(id).len() && s.push(id)[j] == x;
                if j < s.len() {
                    assert(s[j] == x);
                    assert(s.contains(x));
                }
            } else {
                assert(ids_at(b2.user_orders, u) == ids_at(b.user_orders, u));
            }
        }
        assert forall|pp: PricePoint, x: OrderId| #[trigger]
            ids_at(b2.resource_orders, pp).contains(x) implies exists|k: OrderKey|
            #![trigger b2.orders[k]]
            b2.orders.contains_key(k) && k.id == x && offers_at(b2.orders[k], pp) by {
            lemma_listed_contains(
                b.resource_orders,
                resources,
                id,
                cfg.max_orders_per_resource,
                n,
                pp,
                x,
            );
            if ids_at(b.resource_orders, pp).contains(x) {
                let k = choose|k: OrderKey|
                    #![trigger b.orders[k]]
                    b.orders.contains_key(k) && k.id == x && offers_at(b.orders[k], pp);
                assert(k != key);
                assert(b2.orders[k] == b.orders[k]);
            } else {
                assert(b2.orders[key] == order);
                assert(offers_at(b2.orders[key], pp));
            }
        }
    }
    let r3 = if kind == OrderType::Bid {
        reserved_for(b2, owner, total)
    } else {
        Ok(b2)
    };
    let b3 = r3->Ok_0;
    let b4 = BookView {
        events: b3.events.push(
            super::book::Event::OrderPlaced { owner, order_id: id, order_type: kind },
        ),
        ..b3
    };
    assert(same_skeleton(b2, b4)) by {
        assert(b4.orders.dom() =~= b2.orders.dom());
    }
    lemma_skeleton_wf(b2, b4);
    if kind == OrderType::Bid {
        lemma_matched_wf(b4, owner, id);
    }
}

} // verus!
