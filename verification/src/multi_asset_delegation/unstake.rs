//! Executing the ready requests to reduce regular delegations: the ready
//! requests are grouped by operator and asset, the deposits, delegations and
//! operator records are lowered, and the executed requests are dropped.
use super::delegate::{
    find_regular_delegation, operator_bond_changed, regular_delegation, request_sum, with_amount,
};
use super::pallet::{same_ledger, Error, Event, MultiAssetDelegation};
use super::types::{
    sat_sub, AccountId, Balance, BondInfoDelegator, BondInfoDelegatorView, BondLessRequest,
    BondLessRequestView, DelegatorMetadata, DelegatorMetadataView, DepositView, OperatorMetadata,
    OperatorMetadataView, RoundIndex,
};
use crate::asset::Asset;
use crate::key_order::{key_less, key_lt, lemma_key_order, strictly_sorted};
use crate::keyed_map::MapKey;
use crate::seq_search::first_match;
use vstd::prelude::*;

verus! {

/// Whether request `q` can be executed in `round` when requests wait `delay`
/// rounds.
pub open spec fn unstake_ready(q: BondLessRequestView, round: RoundIndex, delay: RoundIndex) -> bool {
    round >= delay + q.requested_round
}

/// Every request.
pub open spec fn any_request() -> spec_fn(BondLessRequestView) -> bool {
    |q: BondLessRequestView| true
}

/// The ready requests to `operator` in `asset`.
pub open spec fn ready_unstake_of(
    operator: AccountId,
    asset: Asset,
    round: RoundIndex,
    delay: RoundIndex,
) -> spec_fn(BondLessRequestView) -> bool {
    |q: BondLessRequestView| unstake_ready(q, round, delay) && q.operator == operator && q.asset == asset
}

/// The ready requests in `asset`.
pub open spec fn ready_in_asset(asset: Asset, round: RoundIndex, delay: RoundIndex) -> spec_fn(
    BondLessRequestView,
) -> bool {
    |q: BondLessRequestView| unstake_ready(q, round, delay) && q.asset == asset
}

/// One of the first `n` requests is ready and concerns key `k`.
pub open spec fn ready_key_before(
    qs: Seq<BondLessRequestView>,
    n: int,
    k: (AccountId, Asset),
    round: RoundIndex,
    delay: RoundIndex,
) -> bool {
    exists|j: int|
        0 <= j < n && j < qs.len() && unstake_ready(#[trigger] qs[j], round, delay) && qs[j].operator
            == k.0 && qs[j].asset == k.1
}

/// Some request is ready and concerns key `k`.
pub open spec fn has_ready(
    qs: Seq<BondLessRequestView>,
    k: (AccountId, Asset),
    round: RoundIndex,
    delay: RoundIndex,
) -> bool {
    ready_key_before(qs, qs.len() as int, k, round, delay)
}

/// `ks` lists the keys of the ready requests, each once, in key order.
pub open spec fn ready_keys(
    ks: Seq<(AccountId, Asset)>,
    qs: Seq<BondLessRequestView>,
    round: RoundIndex,
    delay: RoundIndex,
) -> bool {
    &&& strictly_sorted(ks)
    &&& forall|k: (AccountId, Asset)| ks.contains(k) <==> has_ready(qs, k, round, delay)
}

/// The keys of the ready requests, each once, in key order.
pub open spec fn ready_key_list(
    qs: Seq<BondLessRequestView>,
    round: RoundIndex,
    delay: RoundIndex,
) -> Seq<(AccountId, Asset)> {
    choose|ks: Seq<(AccountId, Asset)>| ready_keys(ks, qs, round, delay)
}

/// Each key with the sum of its ready requests.
pub open spec fn key_totals(
    ks: Seq<(AccountId, Asset)>,
    qs: Seq<BondLessRequestView>,
    round: RoundIndex,
    delay: RoundIndex,
) -> Seq<(AccountId, Asset, Balance)> {
    ks.map_values(
        |k: (AccountId, Asset)|
            (k.0, k.1, request_sum(qs, ready_unstake_of(k.0, k.1, round, delay)) as u128),
    )
}

/// Two strictly sorted lists with the same elements are equal.
pub proof fn lemma_sorted_unique(a: Seq<(AccountId, Asset)>, b: Seq<(AccountId, Asset)>)
    requires
        strictly_sorted(a),
        strictly_sorted(b),
        forall|k: (AccountId, Asset)| a.contains(k) <==> b.contains(k),
    ensures
        a == b,
    decreases a.len(),
{
    if a.len() == 0 {
        if b.len() > 0 {
            assert(b.contains(b[0]));
        }
        assert(a =~= b);
    } else {
        assert(a.contains(a[0]));
        assert(b.len() > 0);
        assert(b.contains(b[0]));
        let i = choose|i: int| 0 <= i < a.len() && a[i] == b[0];
        let j = choose|j: int| 0 <= j < b.len() && b[j] == a[0];
        lemma_key_order(a[0], b[0], a[0]);
        if i > 0 && j > 0 {
            assert(key_lt(a[0], a[i]));
            assert(key_lt(b[0], b[j]));
        }
        assert(a[0] == b[0]);
        let a1 = a.drop_first();
        let b1 = b.drop_first();
        assert forall|k: (AccountId, Asset)| a1.contains(k) implies b1.contains(k) by {
            let x = choose|x: int| 0 <= x < a1.len() && a1[x] == k;
            assert(a[x + 1] == k);
            assert(key_lt(a[0], a[x + 1]));
            lemma_key_order(a[0], k, a[0]);
            assert(b.contains(k));
            let y = choose|y: int| 0 <= y < b.len() && b[y] == k;
            assert(y != 0);
            assert(b1[y - 1] == k);
        }
        assert forall|k: (AccountId, Asset)| b1.contains(k) implies a1.contains(k) by {
            let x = choose|x: int| 0 <= x < b1.len() && b1[x] == k;
            assert(b[x + 1] == k);
            assert(key_lt(b[0], b[x + 1]));
            lemma_key_order(b[0], k, b[0]);
            assert(a.contains(k));
            let y = choose|y: int| 0 <= y < a.len() && a[y] == k;
            assert(y != 0);
            assert(a1[y - 1] == k);
        }
        assert forall|x: int, y: int| 0 <= x < y < a1.len() implies key_lt(
            #[trigger] a1[x],
            #[trigger] a1[y],
        ) by {
            assert(key_lt(a[x + 1], a[y + 1]));
        }
        assert forall|x: int, y: int| 0 <= x < y < b1.len() implies key_lt(
            #[trigger] b1[x],
            #[trigger] b1[y],
        ) by {
            assert(key_lt(b[x + 1], b[y + 1]));
        }
        lemma_sorted_unique(a1, b1);
        assert(a =~= b) by {
            assert forall|x: int| 0 <= x < a.len() implies a[x] == b[x] by {
                if x > 0 {
                    assert(a[x] == a1[x - 1]);
                    assert(b[x] == b1[x - 1]);
                }
            }
        }
    }
}

/// A list that meets `ready_keys` is the list of ready keys.
pub proof fn lemma_ready_key_list(
    ks: Seq<(AccountId, Asset)>,
    qs: Seq<BondLessRequestView>,
    round: RoundIndex,
    delay: RoundIndex,
)
    requires
        ready_keys(ks, qs, round, delay),
    ensures
        ready_key_list(qs, round, delay) == ks,
{
    let c = ready_key_list(qs, round, delay);
    assert(ready_keys(c, qs, round, delay));
    lemma_sorted_unique(c, ks);
}

/// Inserts `k` into the strictly sorted `ks`, unless it is there.
pub(crate) fn insert_key(ks: &mut Vec<(AccountId, Asset)>, k: (AccountId, Asset))
    requires
        strictly_sorted(old(ks)@),
    ensures
        strictly_sorted(final(ks)@),
        forall|x: (AccountId, Asset)| final(ks)@.contains(x) <==> (old(ks)@.contains(x) || x == k),
{
    let mut p: usize = 0;
    while p < ks.len() && key_less(&ks[p], &k)
        invariant
            p <= ks@.len(),
            ks@ == old(ks)@,
            strictly_sorted(ks@),
            forall|x: int| 0 <= x < p ==> key_lt(#[trigger] ks@[x], k),
        decreases ks@.len() - p,
    {
        p = p + 1;
    }
    if p < ks.len() && ks[p].0 == k.0 && ks[p].1.same(&k.1) {
        assert(ks@[p as int] == k);
        return;
    }
    let ghost old_ks = ks@;
    proof {
        if p < old_ks.len() {
            lemma_key_order(k, old_ks[p as int], k);
            assert(key_lt(k, old_ks[p as int]));
        }
    }
    ks.insert(p, k);
    proof {
        assert(ks@ =~= old_ks.subrange(0, p as int).push(k) + old_ks.subrange(
            p as int,
            old_ks.len() as int,
        ));
        assert forall|x: int, y: int| 0 <= x < y < ks@.len() implies key_lt(
            #[trigger] ks@[x],
            #[trigger] ks@[y],
        ) by {
            if y < p {
                assert(key_lt(old_ks[x], old_ks[y]));
            } else if y == p {
                assert(key_lt(old_ks[x], k));
            } else if x < p {
                assert(key_lt(old_ks[x], k));
                if y - 1 > p {
                    assert(key_lt(old_ks[p as int], old_ks[y - 1]));
                    lemma_key_order(k, old_ks[p as int], old_ks[y - 1]);
                }
                lemma_key_order(old_ks[x], k, old_ks[y - 1]);
            } else if x == p {
                if y - 1 > p {
                    assert(key_lt(old_ks[p as int], old_ks[y - 1]));
                    lemma_key_order(k, old_ks[p as int], old_ks[y - 1]);
                }
            } else {
                assert(key_lt(old_ks[x - 1], old_ks[y - 1]));
            }
        }
        assert forall|x: (AccountId, Asset)| #[trigger] ks@.contains(x) <==> (old_ks.contains(x)
            || x == k) by {
            if ks@.contains(x) {
                let y = choose|y: int| 0 <= y < ks@.len() && ks@[y] == x;
                if y < p {
                    assert(old_ks[y] == x);
                } else if y > p {
                    assert(old_ks[y - 1] == x);
                }
            }
            if x == k {
                assert(ks@[p as int] == k);
            } else if old_ks.contains(x) {
                let y = choose|y: int| 0 <= y < old_ks.len() && old_ks[y] == x;
                if y < p {
                    assert(ks@[y] == x);
                } else {
                    assert(ks@[y + 1] == x);
                }
            }
        }
        assert(old_ks == old(ks)@);
    }
}

/// The sum over the requests matching `p` is at most the sum over all.
pub proof fn lemma_request_sum_bound(qs: Seq<BondLessRequestView>, p: spec_fn(BondLessRequestView) -> bool)
    ensures
        0 <= request_sum(qs, p) <= request_sum(qs, any_request()),
    decreases qs.len(),
{
    if qs.len() > 0 {
        lemma_request_sum_bound(qs.drop_last(), p);
    }
}

/// The sum over a prefix is at most the sum over the whole sequence.
pub proof fn lemma_request_sum_prefix(
    qs: Seq<BondLessRequestView>,
    p: spec_fn(BondLessRequestView) -> bool,
    n: int,
)
    requires
        0 <= n <= qs.len(),
    ensures
        request_sum(qs.subrange(0, n), p) <= request_sum(qs, p),
    decreases qs.len(),
{
    if n == qs.len() {
        assert(qs.subrange(0, n) =~= qs);
    } else {
        assert(qs.drop_last().subrange(0, n) =~= qs.subrange(0, n));
        lemma_request_sum_prefix(qs.drop_last(), p, n);
        crate::multi_asset_delegation::delegate::lemma_request_sum_nonneg(qs, p);
    }
}

/// The sum of the ready requests of a key (`by_key`) or of an asset, and
/// whether there is any.
fn ready_sum(
    qs: &Vec<BondLessRequest>,
    by_key: bool,
    operator: AccountId,
    asset: Asset,
    round: RoundIndex,
    delay: RoundIndex,
) -> (r: (bool, Balance))
    requires
        request_sum(qs@.map_values(|q: BondLessRequest| q@), any_request()) <= u128::MAX,
    ensures
        ({
            let vs = qs@.map_values(|q: BondLessRequest| q@);
            let p = if by_key {
                ready_unstake_of(operator, asset, round, delay)
            } else {
                ready_in_asset(asset, round, delay)
            };
            &&& r.1 == request_sum(vs, p)
            &&& r.0 == exists|j: int| 0 <= j < vs.len() && p(#[trigger] vs[j])
        }),
{
    let ghost vs = qs@.map_values(|q: BondLessRequest| q@);
    let ghost p = if by_key {
        ready_unstake_of(operator, asset, round, delay)
    } else {
        ready_in_asset(asset, round, delay)
    };
    let mut acc: u128 = 0;
    let mut found = false;
    let mut i: usize = 0;
    while i < qs.len()
        invariant
            vs == qs@.map_values(|q: BondLessRequest| q@),
            p == (if by_key {
                ready_unstake_of(operator, asset, round, delay)
            } else {
                ready_in_asset(asset, round, delay)
            }),
            request_sum(vs, any_request()) <= u128::MAX,
            i <= qs@.len(),
            acc == request_sum(vs.subrange(0, i as int), p),
            found == exists|j: int| 0 <= j < i && p(#[trigger] vs[j]),
        decreases qs@.len() - i,
    {
        proof {
            let s = vs.subrange(0, i as int + 1);
            assert(s.drop_last() =~= vs.subrange(0, i as int));
            assert(s.last() == vs[i as int]);
            lemma_request_sum_prefix(vs, p, i as int + 1);
            lemma_request_sum_bound(vs, p);
            crate::multi_asset_delegation::delegate::lemma_request_sum_nonneg(vs.subrange(0, i as int), p);
        }
        let q = &qs[i];
        let ready = round as u64 >= delay as u64 + q.requested_round as u64;
        let hit = if by_key {
            ready && q.operator == operator && q.asset.same(&asset)
        } else {
            ready && q.asset.same(&asset)
        };
        if hit {
            acc = acc + q.amount;
            found = true;
        }
        proof {
            assert(hit == p(vs[i as int]));
        }
        i = i + 1;
    }
    proof {
        assert(vs.subrange(0, vs.len() as int) =~= vs);
    }
    (found, acc)
}

/// Some ready request has no regular delegation to reduce.
pub open spec fn ready_without_delegation(
    m: DelegatorMetadataView,
    round: RoundIndex,
    delay: RoundIndex,
) -> bool {
    let qs = m.delegator_unstake_requests;
    exists|j: int|
        0 <= j < qs.len() && unstake_ready(#[trigger] qs[j], round, delay) && first_match(
            m.delegations,
            regular_delegation(qs[j].operator, qs[j].asset),
        ) is None
}

/// The keys of the ready requests in key order; refused where a ready
/// request has no regular delegation.
fn collect_ready_keys(m: &DelegatorMetadata, round: RoundIndex, delay: RoundIndex) -> (r: Result<
    Vec<(AccountId, Asset)>,
    Error,
>)
    ensures
        r is Err <==> ready_without_delegation(m@, round, delay),
        r is Err ==> r == Err::<Vec<(AccountId, Asset)>, Error>(Error::NoActiveDelegation),
        r is Ok ==> ready_keys(r->Ok_0@, m@.delegator_unstake_requests, round, delay),
{
    let ghost vs = m@.delegator_unstake_requests;
    let mut keys: Vec<(AccountId, Asset)> = Vec::new();
    let mut i: usize = 0;
    while i < m.delegator_unstake_requests.len()
        invariant
            vs == m@.delegator_unstake_requests,
            vs.len() == m.delegator_unstake_requests@.len(),
            i <= vs.len(),
            strictly_sorted(keys@),
            forall|k: (AccountId, Asset)|
                keys@.contains(k) <==> ready_key_before(vs, i as int, k, round, delay),
            forall|j: int|
                0 <= j < i && unstake_ready(#[trigger] vs[j], round, delay) ==> first_match(
                    m@.delegations,
                    regular_delegation(vs[j].operator, vs[j].asset),
                ) is Some,
        decreases vs.len() - i,
    {
        let q = &m.delegator_unstake_requests[i];
        assert(q@ == vs[i as int]);
        let ready = round as u64 >= delay as u64 + q.requested_round as u64;
        let ghost old_keys = keys@;
        if ready {
            if find_regular_delegation(&m.delegations, q.operator, q.asset).is_none() {
                assert(unstake_ready(vs[i as int], round, delay));
                return Err(Error::NoActiveDelegation);
            }
            insert_key(&mut keys, (q.operator, q.asset));
        }
        proof {
            assert forall|k: (AccountId, Asset)|
                keys@.contains(k) <==> ready_key_before(vs, i as int + 1, k, round, delay) by {
                if ready_key_before(vs, i as int + 1, k, round, delay) {
                    let j = choose|j: int|
                        0 <= j < i + 1 && j < vs.len() && unstake_ready(
                            #[trigger] vs[j],
                            round,
                            delay,
                        ) && vs[j].operator == k.0 && vs[j].asset == k.1;
                    if j < i {
                        assert(ready_key_before(vs, i as int, k, round, delay));
                    }
                }
                if keys@.contains(k) && (!ready || k != (q.operator, q.asset)) {
                    assert(old_keys.contains(k));
                    let j = choose|j: int|
                        0 <= j < i && j < vs.len() && unstake_ready(#[trigger] vs[j], round, delay)
                            && vs[j].operator == k.0 && vs[j].asset == k.1;
                    assert(ready_key_before(vs, i as int + 1, k, round, delay));
                }
                if ready && k == (q.operator, q.asset) {
                    assert(unstake_ready(vs[i as int], round, delay));
                    assert(ready_key_before(vs, i as int + 1, k, round, delay));
                }
            }
        }
        i = i + 1;
    }
    proof {
        assert forall|j: int|
            0 <= j < vs.len() && unstake_ready(#[trigger] vs[j], round, delay) implies first_match(
            m@.delegations,
            regular_delegation(vs[j].operator, vs[j].asset),
        ) is Some by {}
    }
    Ok(keys)
}

/// One of the first `n` requests is ready and in `asset`.
pub open spec fn ready_asset_before(
    qs: Seq<BondLessRequestView>,
    n: int,
    asset: Asset,
    round: RoundIndex,
    delay: RoundIndex,
) -> bool {
    exists|j: int|
        0 <= j < n && j < qs.len() && unstake_ready(#[trigger] qs[j], round, delay) && qs[j].asset
            == asset
}

/// Some ready request has no deposit of its asset.
pub open spec fn ready_without_deposit(
    m: DelegatorMetadataView,
    round: RoundIndex,
    delay: RoundIndex,
) -> bool {
    let qs = m.delegator_unstake_requests;
    exists|j: int|
        0 <= j < qs.len() && unstake_ready(#[trigger] qs[j], round, delay)
            && !m.deposits.contains_key(qs[j].asset)
}

/// The deposits with the ready requests of each asset no longer delegated.
pub open spec fn deposits_unstaked(
    deps: Map<Asset, DepositView>,
    qs: Seq<BondLessRequestView>,
    round: RoundIndex,
    delay: RoundIndex,
) -> Map<Asset, DepositView> {
    deposits_unstaked_before(deps, qs, qs.len() as int, round, delay)
}

/// The deposits with the assets of the ready requests among the first `n`
/// no longer delegated.
pub open spec fn deposits_unstaked_before(
    deps: Map<Asset, DepositView>,
    qs: Seq<BondLessRequestView>,
    n: int,
    round: RoundIndex,
    delay: RoundIndex,
) -> Map<Asset, DepositView> {
    Map::new(
        |a: Asset| deps.contains_key(a),
        |a: Asset|
            if ready_asset_before(qs, n, a, round, delay) {
                DepositView {
                    delegated_amount: sat_sub(
                        deps[a].delegated_amount as int,
                        request_sum(qs, ready_in_asset(a, round, delay)),
                    ) as u128,
                    ..deps[a]
                }
            } else {
                deps[a]
            },
    )
}

/// Whether every ready request has a deposit of its asset.
fn ready_deposits_present(m: &DelegatorMetadata, round: RoundIndex, delay: RoundIndex) -> (r: bool)
    ensures
        r == !ready_without_deposit(m@, round, delay),
{
    let ghost vs = m@.delegator_unstake_requests;
    let mut i: usize = 0;
    while i < m.delegator_unstake_requests.len()
        invariant
            vs == m@.delegator_unstake_requests,
            vs.len() == m.delegator_unstake_requests@.len(),
            i <= vs.len(),
            forall|j: int|
                0 <= j < i && unstake_ready(#[trigger] vs[j], round, delay)
                    ==> m@.deposits.contains_key(vs[j].asset),
        decreases vs.len() - i,
    {
        let q = &m.delegator_unstake_requests[i];
        assert(q@ == vs[i as int]);
        if round as u64 >= delay as u64 + q.requested_round as u64 && !m.deposits.contains_key(
            &q.asset,
        ) {
            assert(unstake_ready(vs[i as int], round, delay));
            return false;
        }
        i = i + 1;
    }
    true
}

/// Whether one of the first `n` requests is ready and in `asset`.
fn ready_asset_seen(
    qs: &Vec<BondLessRequest>,
    n: usize,
    asset: Asset,
    round: RoundIndex,
    delay: RoundIndex,
) -> (r: bool)
    requires
        n <= qs@.len(),
    ensures
        r == ready_asset_before(
            qs@.map_values(|q: BondLessRequest| q@),
            n as int,
            asset,
            round,
            delay,
        ),
{
    let ghost vs = qs@.map_values(|q: BondLessRequest| q@);
    let mut i: usize = 0;
    while i < n
        invariant
            vs == qs@.map_values(|q: BondLessRequest| q@),
            n <= qs@.len(),
            i <= n,
            !ready_asset_before(vs, i as int, asset, round, delay),
        decreases n - i,
    {
        let q = &qs[i];
        assert(q@ == vs[i as int]);
        if round as u64 >= delay as u64 + q.requested_round as u64 && q.asset.same(&asset) {
            assert(unstake_ready(vs[i as int], round, delay));
            return true;
        }
        proof {
            if ready_asset_before(vs, i as int + 1, asset, round, delay) {
                let j = choose|j: int|
                    0 <= j < i + 1 && j < vs.len() && unstake_ready(#[trigger] vs[j], round, delay)
                        && vs[j].asset == asset;
                assert(j != i);
                assert(ready_asset_before(vs, i as int, asset, round, delay));
            }
        }
        i = i + 1;
    }
    false
}

/// Marks the ready requests of each asset as no longer delegated.
fn unstake_deposits(m: &mut DelegatorMetadata, round: RoundIndex, delay: RoundIndex)
    requires
        !ready_without_deposit(old(m)@, round, delay),
        request_sum(old(m)@.delegator_unstake_requests, any_request()) <= u128::MAX,
    ensures
        final(m)@ == (DelegatorMetadataView {
            deposits: deposits_unstaked(
                old(m)@.deposits,
                old(m)@.delegator_unstake_requests,
                round,
                delay,
            ),
            ..old(m)@
        }),
{
    let ghost m0 = m@;
    let ghost vs = m0.delegator_unstake_requests;
    let mut i: usize = 0;
    proof {
        assert(m@.deposits =~= deposits_unstaked_before(m0.deposits, vs, 0, round, delay));
    }
    while i < m.delegator_unstake_requests.len()
        invariant
            vs == m0.delegator_unstake_requests,
            vs == m@.delegator_unstake_requests,
            vs.len() == m.delegator_unstake_requests@.len(),
            !ready_without_deposit(m0, round, delay),
            request_sum(vs, any_request()) <= u128::MAX,
            i <= vs.len(),
            m@ == (DelegatorMetadataView {
                deposits: deposits_unstaked_before(m0.deposits, vs, i as int, round, delay),
                ..m0
            }),
        decreases vs.len() - i,
    {
        let q = &m.delegator_unstake_requests[i];
        assert(q@ == vs[i as int]);
        let asset = q.asset;
        let ready = round as u64 >= delay as u64 + q.requested_round as u64;
        let ghost before = m@.deposits;
        if ready && !ready_asset_seen(&m.delegator_unstake_requests, i, asset, round, delay) {
            assert(unstake_ready(vs[i as int], round, delay));
            let (_, total) = ready_sum(&m.delegator_unstake_requests, false, 0, asset, round, delay);
            let mut d = m.deposits.remove(&asset).unwrap();
            let _ = d.decrease_delegated_amount(total);
            m.deposits.insert(asset, d);
            proof {
                assert forall|a: Asset| #[trigger] ready_asset_before(vs, i as int + 1, a, round, delay)
                    == (ready_asset_before(vs, i as int, a, round, delay) || a == asset) by {
                    if ready_asset_before(vs, i as int + 1, a, round, delay) && a != asset {
                        let j = choose|j: int|
                            0 <= j < i + 1 && j < vs.len() && unstake_ready(
                                #[trigger] vs[j],
                                round,
                                delay,
                            ) && vs[j].asset == a;
                        assert(ready_asset_before(vs, i as int, a, round, delay));
                    }
                    if a == asset {
                        assert(unstake_ready(vs[i as int], round, delay) && vs[i as int].asset == a);
                    }
                }
                assert(m@.deposits =~= deposits_unstaked_before(
                    m0.deposits,
                    vs,
                    i as int + 1,
                    round,
                    delay,
                ));
            }
        } else {
            proof {
                assert forall|a: Asset| #[trigger] ready_asset_before(vs, i as int + 1, a, round, delay)
                    == ready_asset_before(vs, i as int, a, round, delay) by {
                    if ready_asset_before(vs, i as int + 1, a, round, delay) {
                        let j = choose|j: int|
                            0 <= j < i + 1 && j < vs.len() && unstake_ready(
                                #[trigger] vs[j],
                                round,
                                delay,
                            ) && vs[j].asset == a;
                        if j == i {
                            assert(ready && a == asset);
                        } else {
                            assert(ready_asset_before(vs, i as int, a, round, delay));
                        }
                    }
                }
                assert(m@.deposits =~= deposits_unstaked_before(
                    m0.deposits,
                    vs,
                    i as int + 1,
                    round,
                    delay,
                ));
            }
        }
        i = i + 1;
    }
}

/// The sum of the ready requests to reduce the delegation with key `k`.
pub open spec fn unstake_total(
    qs: Seq<BondLessRequestView>,
    k: (AccountId, Asset),
    round: RoundIndex,
    delay: RoundIndex,
) -> int {
    request_sum(qs, ready_unstake_of(k.0, k.1, round, delay))
}

/// Delegation `i` is the one that the ready requests of its key reduce.
pub open spec fn delegation_unstaked(
    ds: Seq<BondInfoDelegatorView>,
    qs: Seq<BondLessRequestView>,
    i: int,
    round: RoundIndex,
    delay: RoundIndex,
) -> bool {
    &&& !ds[i].is_nomination
    &&& first_match(ds, regular_delegation(ds[i].operator, ds[i].asset)) == Some(i)
    &&& has_ready(qs, (ds[i].operator, ds[i].asset), round, delay)
}

/// Some delegation holds less than the ready requests to reduce it.
pub open spec fn delegation_short(m: DelegatorMetadataView, round: RoundIndex, delay: RoundIndex) -> bool {
    let ds = m.delegations;
    let qs = m.delegator_unstake_requests;
    exists|i: int|
        0 <= i < ds.len() && #[trigger] delegation_unstaked(ds, qs, i, round, delay) && ds[i].amount
            < unstake_total(qs, (ds[i].operator, ds[i].asset), round, delay)
}

/// The first `n` delegations after the ready requests: each reduced one is
/// lowered by the sum of its requests, and dropped where nothing is left.
pub open spec fn delegations_unstaked(
    ds: Seq<BondInfoDelegatorView>,
    qs: Seq<BondLessRequestView>,
    n: int,
    round: RoundIndex,
    delay: RoundIndex,
) -> Seq<BondInfoDelegatorView>
    decreases n,
{
    if n <= 0 {
        Seq::empty()
    } else {
        let rest = delegations_unstaked(ds, qs, n - 1, round, delay);
        let d = ds[n - 1];
        if delegation_unstaked(ds, qs, n - 1, round, delay) {
            let left = d.amount - unstake_total(qs, (d.operator, d.asset), round, delay);
            if left == 0 {
                rest
            } else {
                rest.push(with_amount(d, left as u128))
            }
        } else {
            rest.push(d)
        }
    }
}

/// The delegations after the ready requests, or `Err` where one of them
/// holds less than its requests.
fn unstake_delegations(m: &DelegatorMetadata, round: RoundIndex, delay: RoundIndex) -> (r: Result<
    Vec<BondInfoDelegator>,
    (),
>)
    requires
        request_sum(m@.delegator_unstake_requests, any_request()) <= u128::MAX,
    ensures
        r is Err <==> delegation_short(m@, round, delay),
        r is Ok ==> r->Ok_0@.map_values(|d: BondInfoDelegator| d@) == delegations_unstaked(
            m@.delegations,
            m@.delegator_unstake_requests,
            m@.delegations.len() as int,
            round,
            delay,
        ),
{
    let ghost ds = m@.delegations;
    let ghost qs = m@.delegator_unstake_requests;
    let mut out: Vec<BondInfoDelegator> = Vec::new();
    let mut i: usize = 0;
    while i < m.delegations.len()
        invariant
            ds == m@.delegations,
            qs == m@.delegator_unstake_requests,
            ds.len() == m.delegations@.len(),
            request_sum(qs, any_request()) <= u128::MAX,
            i <= ds.len(),
            out@.map_values(|d: BondInfoDelegator| d@) == delegations_unstaked(
                ds,
                qs,
                i as int,
                round,
                delay,
            ),
            forall|j: int|
                0 <= j < i && #[trigger] delegation_unstaked(ds, qs, j, round, delay) ==> ds[j].amount
                    >= unstake_total(qs, (ds[j].operator, ds[j].asset), round, delay),
        decreases ds.len() - i,
    {
        let d = &m.delegations[i];
        assert(d@ == ds[i as int]);
        let ghost before = out@.map_values(|d: BondInfoDelegator| d@);
        let first = find_regular_delegation(&m.delegations, d.operator, d.asset);
        let is_first = match first {
            Some(f) => f == i,
            None => false,
        };
        let (found, total) = ready_sum(
            &m.delegator_unstake_requests,
            true,
            d.operator,
            d.asset,
            round,
            delay,
        );
        proof {
            let k = (ds[i as int].operator, ds[i as int].asset);
            let p = ready_unstake_of(k.0, k.1, round, delay);
            if found {
                let j = choose|j: int| 0 <= j < qs.len() && p(#[trigger] qs[j]);
                assert(unstake_ready(qs[j], round, delay));
                assert(has_ready(qs, k, round, delay));
            }
            if has_ready(qs, k, round, delay) {
                let j = choose|j: int|
                    0 <= j < qs.len() && j < qs.len() && unstake_ready(#[trigger] qs[j], round, delay)
                        && qs[j].operator == k.0 && qs[j].asset == k.1;
                assert(p(qs[j]));
            }
        }
        let touched = !d.is_nomination && is_first && found;
        assert(touched == delegation_unstaked(ds, qs, i as int, round, delay));
        if touched {
            if d.amount < total {
                return Err(());
            }
            let left = d.amount - total;
            if left != 0 {
                let mut c = d.copy();
                c.amount = left;
                out.push(c);
                proof {
                    assert(out@.map_values(|d: BondInfoDelegator| d@) =~= before.push(
                        with_amount(ds[i as int], left),
                    ));
                }
            }
        } else {
            out.push(d.copy());
            proof {
                assert(out@.map_values(|d: BondInfoDelegator| d@) =~= before.push(ds[i as int]));
            }
        }
        i = i + 1;
    }
    Ok(out)
}

/// The requests that are not ready, in their order.
pub open spec fn requests_left(
    qs: Seq<BondLessRequestView>,
    round: RoundIndex,
    delay: RoundIndex,
) -> Seq<BondLessRequestView>
    decreases qs.len(),
{
    if qs.len() == 0 {
        qs
    } else {
        let rest = requests_left(qs.drop_last(), round, delay);
        if unstake_ready(qs.last(), round, delay) {
            rest
        } else {
            rest.push(qs.last())
        }
    }
}

/// The requests that are not ready.
fn pending_requests(qs: &Vec<BondLessRequest>, round: RoundIndex, delay: RoundIndex) -> (r: Vec<
    BondLessRequest,
>)
    ensures
        r@.map_values(|q: BondLessRequest| q@) == requests_left(
            qs@.map_values(|q: BondLessRequest| q@),
            round,
            delay,
        ),
{
    let ghost vs = qs@.map_values(|q: BondLessRequest| q@);
    let mut out: Vec<BondLessRequest> = Vec::new();
    let mut i: usize = 0;
    while i < qs.len()
        invariant
            vs == qs@.map_values(|q: BondLessRequest| q@),
            i <= qs@.len(),
            out@.map_values(|q: BondLessRequest| q@) == requests_left(
                vs.subrange(0, i as int),
                round,
                delay,
            ),
        decreases qs@.len() - i,
    {
        let q = &qs[i];
        assert(q@ == vs[i as int]);
        let ghost before = out@.map_values(|q: BondLessRequest| q@);
        proof {
            assert(vs.subrange(0, i as int + 1).drop_last() =~= vs.subrange(0, i as int));
        }
        if !(round as u64 >= delay as u64 + q.requested_round as u64) {
            out.push(q.copy());
            proof {
                assert(out@.map_values(|q: BondLessRequest| q@) =~= before.push(vs[i as int]));
            }
        }
        i = i + 1;
    }
    proof {
        assert(vs.subrange(0, vs.len() as int) =~= vs);
    }
    out
}

/// The operators after lowering, in order, the bond of `who` in each
/// `(operator, asset, amount)`, or the first refusal.
pub open spec fn operators_unstaked(
    ops: Map<AccountId, OperatorMetadataView>,
    who: AccountId,
    ts: Seq<(AccountId, Asset, Balance)>,
    max: u32,
) -> Result<Map<AccountId, OperatorMetadataView>, Error>
    decreases ts.len(),
{
    if ts.len() == 0 {
        Ok(ops)
    } else {
        match operators_unstaked(ops, who, ts.drop_last(), max) {
            Err(e) => Err(e),
            Ok(o) => {
                let t = ts.last();
                if !o.contains_key(t.0) {
                    Err(Error::NotAnOperator)
                } else {
                    match operator_bond_changed(o[t.0], who, t.1, t.2, false, max) {
                        Err(e) => Err(e),
                        Ok(v) => Ok(o.insert(t.0, v)),
                    }
                }
            },
        }
    }
}

/// `ops` with the staged records written in order.
pub open spec fn staged_applied(
    ops: Map<AccountId, OperatorMetadataView>,
    s: Seq<(AccountId, OperatorMetadataView)>,
) -> Map<AccountId, OperatorMetadataView>
    decreases s.len(),
{
    if s.len() == 0 {
        ops
    } else {
        staged_applied(ops, s.drop_last()).insert(s.last().0, s.last().1)
    }
}

/// The abstract value of staged operator records.
pub open spec fn staged_view(s: Seq<(AccountId, OperatorMetadata)>) -> Seq<
    (AccountId, OperatorMetadataView),
> {
    s.map_values(|p: (AccountId, OperatorMetadata)| (p.0, p.1@))
}

proof fn lemma_staged_absent(
    ops: Map<AccountId, OperatorMetadataView>,
    s: Seq<(AccountId, OperatorMetadataView)>,
    k: AccountId,
)
    requires
        forall|x: int| 0 <= x < s.len() ==> (#[trigger] s[x]).0 != k,
    ensures
        staged_applied(ops, s).contains_key(k) == ops.contains_key(k),
        staged_applied(ops, s)[k] == ops[k],
    decreases s.len(),
{
    if s.len() > 0 {
        assert forall|x: int| 0 <= x < s.drop_last().len() implies (#[trigger] s.drop_last()[x]).0
            != k by {
            assert(s.drop_last()[x] == s[x]);
        }
        lemma_staged_absent(ops, s.drop_last(), k);
        assert(s.last() == s[s.len() - 1]);
    }
}

proof fn lemma_operators_unstaked_err(
    ops: Map<AccountId, OperatorMetadataView>,
    who: AccountId,
    ts: Seq<(AccountId, Asset, Balance)>,
    n: int,
    max: u32,
)
    requires
        0 <= n <= ts.len(),
        operators_unstaked(ops, who, ts.take(n), max) is Err,
    ensures
        operators_unstaked(ops, who, ts, max) == operators_unstaked(ops, who, ts.take(n), max),
    decreases ts.len(),
{
    if n == ts.len() {
        assert(ts.take(n) =~= ts);
    } else {
        assert(ts.drop_last().take(n) =~= ts.take(n));
        lemma_operators_unstaked_err(ops, who, ts.drop_last(), n, max);
    }
}

/// A copy of an operator record.
fn copy_operator(m: &OperatorMetadata) -> (r: OperatorMetadata)
    ensures
        r@ == m@,
{
    OperatorMetadata {
        stake: m.stake,
        delegation_count: m.delegation_count,
        request: m.request,
        delegations: super::types::copy_bonds(&m.delegations),
        status: m.status,
        blueprint_ids: super::types::copy_ids(&m.blueprint_ids),
    }
}

impl MultiAssetDelegation {
    /// The records of the operators after lowering, in order, the bond of
    /// `who` in each entry of `ts`; one record per operator, in order.
    fn unstake_operators(&self, who: AccountId, ts: &Vec<(AccountId, Asset, Balance)>) -> (r: Result<
        Vec<(AccountId, OperatorMetadata)>,
        Error,
    >)
        requires
            forall|x: int, y: int| 0 <= x < y < ts@.len() ==> (#[trigger] ts@[x]).0 <= (
            #[trigger] ts@[y]).0,
        ensures
            match operators_unstaked(self.operators@, who, ts@, self.config.max_delegations) {
                Ok(o) => r is Ok && staged_applied(self.operators@, staged_view(r->Ok_0@)) == o,
                Err(e) => r == Err::<Vec<(AccountId, OperatorMetadata)>, Error>(e),
            },
    {
        let ghost ops = self.operators@;
        let max = self.config.max_delegations;
        let mut staged: Vec<(AccountId, OperatorMetadata)> = Vec::new();
        let mut j: usize = 0;
        proof {
            assert(ts@.take(0) =~= Seq::<(AccountId, Asset, Balance)>::empty());
        }
        while j < ts.len()
            invariant
                ops == self.operators@,
                max == self.config.max_delegations,
                forall|x: int, y: int| 0 <= x < y < ts@.len() ==> (#[trigger] ts@[x]).0 <= (
                #[trigger] ts@[y]).0,
                j <= ts@.len(),
                operators_unstaked(ops, who, ts@.take(j as int), max) == Ok::<
                    Map<AccountId, OperatorMetadataView>,
                    Error,
                >(staged_applied(ops, staged_view(staged@))),
                j == 0 ==> staged@.len() == 0,
                j > 0 ==> staged@.len() > 0 && staged@.last().0 == ts@[j - 1].0,
                j > 0 ==> forall|x: int| 0 <= x < staged@.len() ==> (#[trigger] staged@[x]).0 <= ts@[j
                    - 1].0,
            decreases ts@.len() - j,
        {
            let (op, asset, amount) = ts[j];
            let ghost sv = staged_view(staged@);
            let ghost o = staged_applied(ops, sv);
            proof {
                assert(ts@.take(j as int + 1).drop_last() =~= ts@.take(j as int));
                assert(ts@.take(j as int + 1).last() == ts@[j as int]);
            }
            let same = j > 0 && staged[staged.len() - 1].0 == op;
            let mut cur = if same {
                let (_, c) = staged.pop().unwrap();
                proof {
                    assert(staged_view(staged@) =~= sv.drop_last());
                    assert(sv.last() == (op, c@));
                }
                c
            } else {
                proof {
                    if j > 0 {
                        assert(ts@[j - 1].0 <= ts@[j as int].0);
                    }
                    assert forall|x: int| 0 <= x < sv.len() implies (#[trigger] sv[x]).0 != op by {
                        assert(sv[x].0 == staged@[x].0);
                    }
                    lemma_staged_absent(ops, sv, op);
                }
                match self.operators.get(&op) {
                    None => {
                        proof {
                            lemma_operators_unstaked_err(ops, who, ts@, j as int + 1, max);
                        }
                        return Err(Error::NotAnOperator);
                    },
                    Some(om) => copy_operator(om),
                }
            };
            assert(o.contains_key(op) && o[op] == cur@);
            let res = super::delegate::change_operator_bond(&mut cur, who, asset, amount, false, max);
            if let Err(e) = res {
                proof {
                    lemma_operators_unstaked_err(ops, who, ts@, j as int + 1, max);
                }
                return Err(e);
            }
            let ghost prev = staged_view(staged@);
            staged.push((op, cur));
            proof {
                let np = prev.push((op, cur@));
                assert(staged_view(staged@) =~= np);
                assert(np.drop_last() =~= prev);
                assert(np.last() == (op, cur@));
                assert(staged_applied(ops, np) == staged_applied(ops, prev).insert(op, cur@));
                if same {
                    assert(sv.drop_last() =~= prev);
                    assert(o == staged_applied(ops, prev).insert(sv.last().0, sv.last().1));
                    assert(staged_applied(ops, np) =~= o.insert(op, cur@));
                } else {
                    assert(prev =~= sv);
                }
            }
            j = j + 1;
        }
        proof {
            assert(ts@.take(ts@.len() as int) =~= ts@);
        }
        Ok(staged)
    }
}

/// Writes the staged operator records.
fn apply_staged(
    ops: &mut crate::keyed_map::KeyedMap<AccountId, OperatorMetadata>,
    staged: Vec<(AccountId, OperatorMetadata)>,
)
    ensures
        final(ops)@ == staged_applied(old(ops)@, staged_view(staged@)),
{
    let ghost sv = staged_view(staged@);
    let ghost o0 = ops@;
    let n = staged.len();
    let mut rest = staged;
    let mut x: usize = 0;
    proof {
        assert(sv.take(0) =~= Seq::<(AccountId, OperatorMetadataView)>::empty());
        assert(staged_view(rest@) =~= sv.skip(0));
    }
    while rest.len() > 0
        invariant
            x <= sv.len(),
            sv.len() == n,
            staged_view(rest@) == sv.skip(x as int),
            ops@ == staged_applied(o0, sv.take(x as int)),
        decreases rest@.len(),
    {
        let ghost before = staged_view(rest@);
        let ghost raw = rest@;
        let (k, v) = rest.remove(0);
        proof {
            assert(before.len() == sv.len() - x);
            assert(before[0] == (k, v@));
            assert(sv.skip(x as int)[0] == sv[x as int]);
            assert(sv[x as int] == before[0]);
            assert(rest@ =~= raw.subrange(1, raw.len() as int));
            assert(staged_view(rest@) =~= before.subrange(1, before.len() as int));
            assert(staged_view(rest@) =~= sv.skip(x as int + 1));
            assert(sv.take(x as int + 1).drop_last() =~= sv.take(x as int));
        }
        ops.insert(k, v);
        x = x + 1;
    }
    proof {
        assert(sv.skip(x as int).len() == 0);
        assert(sv.take(x as int) =~= sv);
    }
}

/// Each key with the sum of its ready requests.
fn totals_of(
    keys: &Vec<(AccountId, Asset)>,
    qs: &Vec<BondLessRequest>,
    round: RoundIndex,
    delay: RoundIndex,
) -> (r: Vec<(AccountId, Asset, Balance)>)
    requires
        request_sum(qs@.map_values(|q: BondLessRequest| q@), any_request()) <= u128::MAX,
    ensures
        r@ == key_totals(keys@, qs@.map_values(|q: BondLessRequest| q@), round, delay),
{
    let ghost vs = qs@.map_values(|q: BondLessRequest| q@);
    let mut out: Vec<(AccountId, Asset, Balance)> = Vec::new();
    let mut j: usize = 0;
    while j < keys.len()
        invariant
            vs == qs@.map_values(|q: BondLessRequest| q@),
            request_sum(vs, any_request()) <= u128::MAX,
            j <= keys@.len(),
            out@ == key_totals(keys@.take(j as int), vs, round, delay),
        decreases keys@.len() - j,
    {
        let (op, asset) = keys[j];
        let (_, total) = ready_sum(qs, true, op, asset, round, delay);
        out.push((op, asset, total));
        proof {
            assert(keys@.take(j as int + 1) =~= keys@.take(j as int).push(keys@[j as int]));
            assert(out@ =~= key_totals(keys@.take(j as int + 1), vs, round, delay));
        }
        j = j + 1;
    }
    proof {
        assert(keys@.take(keys@.len() as int) =~= keys@);
    }
    out
}

/// Why executing the ready unstake requests of a delegator is refused.
pub open spec fn execute_unstake_error(
    m: DelegatorMetadataView,
    ops: Map<AccountId, OperatorMetadataView>,
    who: AccountId,
    round: RoundIndex,
    delay: RoundIndex,
    max: u32,
) -> Option<Error> {
    let qs = m.delegator_unstake_requests;
    if qs.len() == 0 {
        Some(Error::NoBondLessRequest)
    } else if ready_without_delegation(m, round, delay) {
        Some(Error::NoActiveDelegation)
    } else if !(exists|j: int| 0 <= j < qs.len() && unstake_ready(#[trigger] qs[j], round, delay)) {
        Some(Error::BondLessNotReady)
    } else if ready_without_deposit(m, round, delay) || delegation_short(m, round, delay) {
        Some(Error::InsufficientBalance)
    } else {
        match operators_unstaked(
            ops,
            who,
            key_totals(ready_key_list(qs, round, delay), qs, round, delay),
            max,
        ) {
            Err(e) => Some(e),
            Ok(_) => None,
        }
    }
}

/// The delegator's record after executing its ready unstake requests.
pub open spec fn delegator_unstaked(m: DelegatorMetadataView, round: RoundIndex, delay: RoundIndex) -> DelegatorMetadataView {
    let qs = m.delegator_unstake_requests;
    DelegatorMetadataView {
        deposits: deposits_unstaked(m.deposits, qs, round, delay),
        delegations: delegations_unstaked(m.delegations, qs, m.delegations.len() as int, round, delay),
        delegator_unstake_requests: requests_left(qs, round, delay),
        ..m
    }
}

/// The sums of the ready requests of every request fit in a balance.
pub open spec fn unstake_sums_fit(dels: Map<AccountId, DelegatorMetadataView>, who: AccountId) -> bool {
    dels.contains_key(who) ==> request_sum(dels[who].delegator_unstake_requests, any_request())
        <= u128::MAX
}

impl MultiAssetDelegation {
    /// Executes every ready unstake request of `who`: the requests are
    /// grouped by operator and asset, the deposits stop counting them as
    /// delegated, the delegations and the operators' bonds are lowered, and
    /// the requests are dropped. Returns each operator and asset with the
    /// amount unstaked, in key order.
    pub fn process_execute_delegator_unstake(&mut self, who: AccountId) -> (r: Result<
        Vec<(AccountId, Asset, Balance)>,
        Error,
    >)
        requires
            unstake_sums_fit(old(self).delegators@, who),
        ensures
            ({
                let dels = old(self).delegators@;
                let ops = old(self).operators@;
                let m = dels[who];
                let qs = m.delegator_unstake_requests;
                let round = old(self).current_round;
                let delay = old(self).config.delegation_bond_less_delay;
                let max = old(self).config.max_delegations;
                let ts = key_totals(ready_key_list(qs, round, delay), qs, round, delay);
                let e = execute_unstake_error(m, ops, who, round, delay, max);
                &&& !dels.contains_key(who) ==> r == Err::<Vec<(AccountId, Asset, Balance)>, Error>(
                    Error::NotDelegator,
                )
                &&& dels.contains_key(who) && e is Some ==> r == Err::<
                    Vec<(AccountId, Asset, Balance)>,
                    Error,
                >(e->0)
                &&& r is Ok <==> dels.contains_key(who) && e is None
                &&& r is Err ==> final(self).same_state(old(self))
                &&& r is Ok ==> {
                    &&& r->Ok_0@ == ts
                    &&& final(self).delegators@ == dels.insert(who, delegator_unstaked(m, round, delay))
                    &&& final(self).operators@ == operators_unstaked(ops, who, ts, max)->Ok_0
                    &&& final(self).same_settings(old(self))
                    &&& final(self).at_stake@ == old(self).at_stake@
                    &&& same_ledger(final(self).ledger, old(self).ledger)
                    &&& final(self).events@ == old(self).events@
                }
            }),
    {
        let round = self.current_round;
        let delay = self.config.delegation_bond_less_delay;
        let ghost ops = self.operators@;
        let ghost m0 = self.delegators@[who];
        let ghost qs = m0.delegator_unstake_requests;
        let (ts, new_ds, new_qs) = match self.delegators.get(&who) {
            None => {
                return Err(Error::NotDelegator);
            },
            Some(m) => {
                if m.delegator_unstake_requests.len() == 0 {
                    return Err(Error::NoBondLessRequest);
                }
                let keys = match collect_ready_keys(m, round, delay) {
                    Err(e) => {
                        return Err(e);
                    },
                    Ok(k) => k,
                };
                proof {
                    lemma_ready_key_list(keys@, qs, round, delay);
                }
                if keys.len() == 0 {
                    proof {
                        if exists|j: int| 0 <= j < qs.len() && unstake_ready(#[trigger] qs[j], round, delay) {
                            let j = choose|j: int|
                                0 <= j < qs.len() && unstake_ready(#[trigger] qs[j], round, delay);
                            let k = (qs[j].operator, qs[j].asset);
                            assert(has_ready(qs, k, round, delay));
                            assert(keys@.contains(k));
                        }
                    }
                    return Err(Error::BondLessNotReady);
                }
                proof {
                    assert(keys@.contains(keys@[0]));
                    let k = keys@[0];
                    assert(has_ready(qs, k, round, delay));
                    let j = choose|j: int|
                        0 <= j < qs.len() && j < qs.len() && unstake_ready(#[trigger] qs[j], round, delay)
                            && qs[j].operator == k.0 && qs[j].asset == k.1;
                    assert(exists|j: int| 0 <= j < qs.len() && unstake_ready(#[trigger] qs[j], round, delay));
                }
                if !ready_deposits_present(m, round, delay) {
                    return Err(Error::InsufficientBalance);
                }
                let new_ds = match unstake_delegations(m, round, delay) {
                    Err(_) => {
                        return Err(Error::InsufficientBalance);
                    },
                    Ok(d) => d,
                };
                let ts = totals_of(&keys, &m.delegator_unstake_requests, round, delay);
                proof {
                    assert forall|x: int, y: int| 0 <= x < y < ts@.len() implies (
                    #[trigger] ts@[x]).0 <= (#[trigger] ts@[y]).0 by {
                        assert(key_lt(keys@[x], keys@[y]));
                    }
                }
                let new_qs = pending_requests(&m.delegator_unstake_requests, round, delay);
                (ts, new_ds, new_qs)
            },
        };
        let staged = match self.unstake_operators(who, &ts) {
            Err(e) => {
                return Err(e);
            },
            Ok(s) => s,
        };
        apply_staged(&mut self.operators, staged);
        let mut m = self.delegators.remove(&who).unwrap();
        unstake_deposits(&mut m, round, delay);
        m.delegations = new_ds;
        m.delegator_unstake_requests = new_qs;
        proof {
            assert(m@ == delegator_unstaked(m0, round, delay));
        }
        self.delegators.insert(who, m);
        Ok(ts)
    }

    /// `execute_delegator_unstake`: executes the ready requests and reports
    /// each operator and asset unstaked, in key order.
    pub fn execute_delegator_unstake(&mut self, who: AccountId) -> (r: Result<(), Error>)
        requires
            unstake_sums_fit(old(self).delegators@, who),
        ensures
            ({
                let dels = old(self).delegators@;
                let m = dels[who];
                let qs = m.delegator_unstake_requests;
                let round = old(self).current_round;
                let delay = old(self).config.delegation_bond_less_delay;
                let max = old(self).config.max_delegations;
                let ts = key_totals(ready_key_list(qs, round, delay), qs, round, delay);
                let e = execute_unstake_error(m, old(self).operators@, who, round, delay, max);
                &&& r is Ok <==> dels.contains_key(who) && e is None
                &&& r is Err ==> final(self).same_state(old(self))
                &&& r is Ok ==> {
                    &&& final(self).delegators@ == dels.insert(who, delegator_unstaked(m, round, delay))
                    &&& final(self).operators@ == operators_unstaked(
                        old(self).operators@,
                        who,
                        ts,
                        max,
                    )->Ok_0
                    &&& same_ledger(final(self).ledger, old(self).ledger)
                    &&& final(self).events@ == old(self).events@ + ts.map_values(
                        |t: (AccountId, Asset, Balance)|
                            Event::DelegatorUnstakeExecuted {
                                who,
                                operator: t.0,
                                asset: t.1,
                                amount: t.2,
                            },
                    )
                }
            }),
    {
        let ts = self.process_execute_delegator_unstake(who)?;
        let ghost e0 = self.events@;
        let ghost s0 = *self;
        let mut j: usize = 0;
        while j < ts.len()
            invariant
                j <= ts@.len(),
                self.operators@ == s0.operators@,
                self.delegators@ == s0.delegators@,
                self.ledger == s0.ledger,
                self.events@ == e0 + ts@.take(j as int).map_values(
                    |t: (AccountId, Asset, Balance)|
                        Event::DelegatorUnstakeExecuted { who, operator: t.0, asset: t.1, amount: t.2 },
                ),
            decreases ts@.len() - j,
        {
            let (operator, asset, amount) = ts[j];
            self.deposit_event(Event::DelegatorUnstakeExecuted { who, operator, asset, amount });
            proof {
                assert(ts@.take(j as int + 1) =~= ts@.take(j as int).push(ts@[j as int]));
                assert(self.events@ =~= e0 + ts@.take(j as int + 1).map_values(
                    |t: (AccountId, Asset, Balance)|
                        Event::DelegatorUnstakeExecuted { who, operator: t.0, asset: t.1, amount: t.2 },
                ));
            }
            j = j + 1;
        }
        proof {
            assert(ts@.take(ts@.len() as int) =~= ts@);
        }
        Ok(())
    }
}

} // verus!
