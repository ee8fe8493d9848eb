//! Choosing the operators of a round and the delegations that earn rewards.
use super::types::{AccountId, Balance, CountedDelegations};
use crate::parachain_staking::delegation_requests::{Bond, DelegationAction, ScheduledRequest};
use vstd::prelude::*;

verus! {

/// Whether `a` ranks above `b` among operators: more stake first and, of
/// equal stake, the greater account first.
pub open spec fn ranks_above(a: Bond, b: Bond) -> bool {
    a.amount > b.amount || (a.amount == b.amount && a.owner > b.owner)
}

/// How many of the first `n` bonds of `pool` rank above `b`.
pub open spec fn count_above(pool: Seq<Bond>, b: Bond, n: int) -> int
    decreases n,
{
    if n <= 0 {
        0
    } else {
        count_above(pool, b, n - 1) + if ranks_above(pool[n - 1], b) {
            1int
        } else {
            0int
        }
    }
}

/// The rank of `b` in `pool`: how many of its bonds rank above it.
pub open spec fn rank(pool: Seq<Bond>, b: Bond) -> int {
    count_above(pool, b, pool.len() as int)
}

/// The owners, in pool order, of those of the first `n` bonds whose rank is
/// below `top`.
pub open spec fn top_owners(pool: Seq<Bond>, top: int, n: int) -> Seq<AccountId>
    decreases n,
{
    if n <= 0 {
        Seq::empty()
    } else {
        top_owners(pool, top, n - 1) + if rank(pool, pool[n - 1]) < top {
            seq![pool[n - 1].owner]
        } else {
            Seq::<AccountId>::empty()
        }
    }
}

/// The owners of the bonds of `pool`, in order.
pub open spec fn owners(pool: Seq<Bond>) -> Seq<AccountId> {
    pool.map_values(|b: Bond| b.owner)
}

/// The operators chosen from `pool` when `top_n` are chosen: none where
/// `top_n` is zero, all where the pool has no more than `top_n`, and else
/// those that rank among the top `top_n`, in pool order.
pub open spec fn chosen_operators(pool: Seq<Bond>, top_n: u32) -> Seq<AccountId> {
    if top_n == 0 {
        Seq::empty()
    } else if pool.len() <= top_n {
        owners(pool)
    } else {
        top_owners(pool, top_n as int, pool.len() as int)
    }
}

/// The bonds of the pool are ordered by owner, without repetition, as in an
/// ordered set of bonds.
pub open spec fn pool_ordered(pool: Seq<Bond>) -> bool {
    forall|i: int, j: int| 0 <= i < j < pool.len() ==> pool[i].owner < pool[j].owner
}

/// Accounts in strictly increasing order.
pub open spec fn ascending(s: Seq<AccountId>) -> bool {
    forall|i: int, j: int| 0 <= i < j < s.len() ==> s[i] < s[j]
}

proof fn lemma_top_owners_below(pool: Seq<Bond>, top: int, n: int, m: int)
    requires
        pool_ordered(pool),
        0 <= n <= m < pool.len(),
    ensures
        forall|k: int| 0 <= k < top_owners(pool, top, n).len() ==> #[trigger] top_owners(pool, top, n)[k]
            < pool[m].owner,
    decreases n,
{
    if n > 0 {
        lemma_top_owners_below(pool, top, n - 1, m);
        let prev = top_owners(pool, top, n - 1);
        let cur = top_owners(pool, top, n);
        assert forall|k: int| 0 <= k < cur.len() implies #[trigger] cur[k] < pool[m].owner by {
            if k < prev.len() {
                assert(cur[k] == prev[k]);
            } else {
                assert(cur[k] == pool[n - 1].owner);
            }
        }
    }
}

proof fn lemma_top_owners_ascending(pool: Seq<Bond>, top: int, n: int)
    requires
        pool_ordered(pool),
        0 <= n <= pool.len(),
    ensures
        ascending(top_owners(pool, top, n)),
    decreases n,
{
    if n > 0 {
        lemma_top_owners_ascending(pool, top, n - 1);
        lemma_top_owners_below(pool, top, n - 1, n - 1);
        let prev = top_owners(pool, top, n - 1);
        let cur = top_owners(pool, top, n);
        assert forall|i: int, j: int| 0 <= i < j < cur.len() implies cur[i] < cur[j] by {
            if j < prev.len() {
                assert(cur[i] == prev[i] && cur[j] == prev[j]);
            } else {
                assert(cur[i] == prev[i]);
                assert(cur[j] == pool[n - 1].owner);
            }
        }
    }
}

/// The top `top_n` operators of the pool, by stake and then by account,
/// listed by account; all of them where there are no more than `top_n`, and
/// none where `top_n` is zero (the previous operators are kept then).
pub fn compute_top_operator(pool: &Vec<Bond>, top_n: u32) -> (r: Vec<AccountId>)
    requires
        pool_ordered(pool@),
    ensures
        r@ == chosen_operators(pool@, top_n),
        ascending(r@),
{
    if top_n == 0 {
        return Vec::new();
    }
    let n = pool.len();
    let mut r: Vec<AccountId> = Vec::new();
    if n > top_n as usize {
        let mut i: usize = 0;
        while i < n
            invariant
                n == pool@.len(),
                n > top_n,
                i <= n,
                r@ == top_owners(pool@, top_n as int, i as int),
            decreases n - i,
        {
            let b = pool[i];
            let mut count: usize = 0;
            let mut j: usize = 0;
            while j < n
                invariant
                    n == pool@.len(),
                    i < n,
                    b == pool@[i as int],
                    j <= n,
                    count <= j,
                    count == count_above(pool@, b, j as int),
                decreases n - j,
            {
                let x = pool[j];
                if x.amount > b.amount || (x.amount == b.amount && x.owner > b.owner) {
                    count = count + 1;
                }
                j = j + 1;
            }
            if count < top_n as usize {
                r.push(b.owner);
            }
            i = i + 1;
        }
        proof {
            lemma_top_owners_ascending(pool@, top_n as int, n as int);
        }
    } else {
        let mut i: usize = 0;
        while i < n
            invariant
                n == pool@.len(),
                i <= n,
                r@ == owners(pool@).take(i as int),
            decreases n - i,
        {
            r.push(pool[i].owner);
            proof {
                assert(owners(pool@).take(i as int + 1) =~= owners(pool@).take(i as int).push(
                    pool@[i as int].owner,
                ));
            }
            i = i + 1;
        }
        proof {
            assert(owners(pool@).take(n as int) =~= owners(pool@));
        }
    }
    r
}

/// The action of the last request of `delegator` among the first `n`.
pub open spec fn last_action_of(
    reqs: Seq<ScheduledRequest<AccountId, Balance>>,
    delegator: AccountId,
    n: int,
) -> Option<DelegationAction<Balance>>
    decreases n,
{
    if n <= 0 {
        None
    } else if reqs[n - 1].delegator == delegator {
        Some(reqs[n - 1].action)
    } else {
        last_action_of(reqs, delegator, n - 1)
    }
}

/// The pending action on the delegation of `delegator`.
pub open spec fn pending_action(
    reqs: Seq<ScheduledRequest<AccountId, Balance>>,
    delegator: AccountId,
) -> Option<DelegationAction<Balance>> {
    last_action_of(reqs, delegator, reqs.len() as int)
}

/// The amount of a bond once its pending action is applied: none after a
/// revoke, less the decrease after a decrease.
pub open spec fn intended_amount(amount: Balance, a: Option<DelegationAction<Balance>>) -> Balance {
    match a {
        None => amount,
        Some(DelegationAction::Revoke(_)) => 0,
        Some(DelegationAction::Decrease(x)) => if amount > x {
            (amount - x) as u128
        } else {
            0
        },
    }
}

/// The stake that a pending action takes out of a bond.
pub open spec fn uncounted_part(amount: Balance, a: Option<DelegationAction<Balance>>) -> int {
    match a {
        None => 0,
        Some(DelegationAction::Revoke(_)) => amount as int,
        Some(DelegationAction::Decrease(x)) => x as int,
    }
}

/// The saturating sum of what the pending actions take out of the first `n`
/// bonds.
pub open spec fn uncounted_upto(
    top: Seq<Bond>,
    reqs: Seq<ScheduledRequest<AccountId, Balance>>,
    n: int,
) -> int
    decreases n,
{
    if n <= 0 {
        0
    } else {
        let s = uncounted_upto(top, reqs, n - 1) + uncounted_part(
            top[n - 1].amount,
            pending_action(reqs, top[n - 1].owner),
        );
        if s > u128::MAX {
            u128::MAX as int
        } else {
            s
        }
    }
}

/// The bonds with their pending actions applied.
pub open spec fn rewardable(top: Seq<Bond>, reqs: Seq<ScheduledRequest<AccountId, Balance>>) -> Seq<
    Bond,
> {
    top.map_values(
        |b: Bond| Bond { owner: b.owner, amount: intended_amount(b.amount, pending_action(reqs, b.owner)) },
    )
}

/// The pending action on the delegation of `delegator`, if any.
fn find_pending_action(reqs: &Vec<ScheduledRequest<AccountId, Balance>>, delegator: AccountId) -> (r:
    Option<DelegationAction<Balance>>)
    ensures
        r == pending_action(reqs@, delegator),
{
    let mut found: Option<DelegationAction<Balance>> = None;
    let mut j: usize = 0;
    while j < reqs.len()
        invariant
            j <= reqs@.len(),
            found == last_action_of(reqs@, delegator, j as int),
        decreases reqs@.len() - j,
    {
        if reqs[j].delegator == delegator {
            found = Some(reqs[j].action);
        }
        j = j + 1;
    }
    found
}

/// The top delegations of an operator with the pending revokes and
/// decreases applied, and the stake those take out (saturating).
pub fn get_rewardable_delegators(
    top: &Vec<Bond>,
    reqs: &Vec<ScheduledRequest<AccountId, Balance>>,
) -> (r: CountedDelegations)
    ensures
        r.uncounted_stake == uncounted_upto(top@, reqs@, top@.len() as int),
        r.rewardable_delegations@ == rewardable(top@, reqs@),
{
    let mut uncounted: Balance = 0;
    let mut out: Vec<Bond> = Vec::new();
    let mut i: usize = 0;
    while i < top.len()
        invariant
            i <= top@.len(),
            uncounted == uncounted_upto(top@, reqs@, i as int),
            out@ == rewardable(top@, reqs@).take(i as int),
        decreases top@.len() - i,
    {
        let b = top[i];
        let action = find_pending_action(reqs, b.owner);
        let amount = match action {
            None => b.amount,
            Some(DelegationAction::Revoke(_)) => {
                uncounted = uncounted.saturating_add(b.amount);
                0
            },
            Some(DelegationAction::Decrease(x)) => {
                uncounted = uncounted.saturating_add(x);
                b.amount.saturating_sub(x)
            },
        };
        out.push(Bond { owner: b.owner, amount });
        proof {
            assert(rewardable(top@, reqs@).take(i as int + 1) =~= rewardable(top@, reqs@).take(
                i as int,
            ).push(Bond { owner: b.owner, amount }));
        }
        i = i + 1;
    }
    proof {
        assert(rewardable(top@, reqs@).take(top@.len() as int) =~= rewardable(top@, reqs@));
    }
    CountedDelegations { uncounted_stake: uncounted, rewardable_delegations: out }
}

proof fn lemma_count_above_monotone(pool: Seq<Bond>, a: Bond, b: Bond, n: int)
    requires
        ranks_above(a, b),
        0 <= n <= pool.len(),
    ensures
        count_above(pool, a, n) <= count_above(pool, b, n),
        (exists|k: int| 0 <= k < n && pool[k] == a) ==> count_above(pool, a, n) < count_above(
            pool,
            b,
            n,
        ),
    decreases n,
{
    if n > 0 {
        lemma_count_above_monotone(pool, a, b, n - 1);
        if exists|k: int| 0 <= k < n && pool[k] == a {
            let k = choose|k: int| 0 <= k < n && pool[k] == a;
            if k < n - 1 {
                assert(exists|k: int| 0 <= k < n - 1 && pool[k] == a);
            }
        }
    }
}

/// Choosing keeps the top: an operator of the pool that ranks above a chosen
/// operator (more stake, or as much and a greater account) is chosen too.
pub proof fn law_top_operators_upward_closed(pool: Seq<Bond>, top: int, i: int, j: int)
    requires
        0 <= i < pool.len(),
        0 <= j < pool.len(),
        ranks_above(pool[i], pool[j]),
        rank(pool, pool[j]) < top,
    ensures
        rank(pool, pool[i]) < rank(pool, pool[j]),
        rank(pool, pool[i]) < top,
{
    lemma_count_above_monotone(pool, pool[i], pool[j], pool.len() as int);
    assert(0 <= i < pool.len() && pool[i] == pool[i]);
}

} // verus!
