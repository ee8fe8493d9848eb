//! Starting a round: choosing its operators and recording what each of them
//! has at stake.
use super::selection::{
    chosen_operators, compute_top_operator, get_rewardable_delegators, pool_ordered, rewardable,
    uncounted_upto,
};
use super::types::{
    AccountId, AutoCompoundConfig, Balance, BondWithAutoCompound, OperatorSnapshot,
    OperatorSnapshotView, OperatorState, RoundIndex,
};
use crate::keyed_map::{Duplicate, KeyedMap};
use crate::multi_asset_delegation::snapshot::listed_before;
use crate::parachain_staking::delegation_requests::{Bond, ScheduledRequest};
use vstd::prelude::*;

verus! {

/// What starting a round reports.
#[derive(Clone, Copy, Debug, PartialEq, Eq)]
pub enum Event {
    OperatorChosen { round: RoundIndex, operator_account: AccountId, total_exposed_amount: Balance },
}

/// The storage that choosing operators reads and writes.
#[derive(Debug)]
pub struct OperatorSelection {
    /// How many operators a round has.
    pub total_selected: u32,
    /// The operators with their total stake, ordered by account.
    pub operator_pool: Vec<Bond>,
    /// The record of each operator.
    pub operator_info: KeyedMap<AccountId, OperatorState>,
    /// The top delegations of each operator.
    pub top_delegations: KeyedMap<AccountId, Vec<Bond>>,
    /// The pending delegation requests towards each operator.
    pub scheduled_requests: KeyedMap<AccountId, Vec<ScheduledRequest<AccountId, Balance>>>,
    /// The auto-compound settings of the delegators of each operator.
    pub auto_compounding: KeyedMap<AccountId, Vec<AutoCompoundConfig>>,
    /// What each chosen operator had at stake, by round.
    pub at_stake: KeyedMap<RoundIndex, KeyedMap<AccountId, OperatorSnapshot>>,
    /// The operators of the current round, ordered by account.
    pub selected_operators: Vec<AccountId>,
    /// The events deposited so far.
    pub events: Vec<Event>,
}

/// The value of `m` at `k`, or an empty sequence.
pub open spec fn seq_at<T>(m: Map<AccountId, Seq<T>>, k: AccountId) -> Seq<T> {
    if m.contains_key(k) {
        m[k]
    } else {
        Seq::empty()
    }
}

/// The snapshots of round `r`, none where there are none.
pub open spec fn snapshots_at(
    at: Map<RoundIndex, Map<AccountId, OperatorSnapshotView>>,
    r: RoundIndex,
) -> Map<AccountId, OperatorSnapshotView> {
    if at.contains_key(r) {
        at[r]
    } else {
        Map::empty()
    }
}

/// The auto-compound percent of `delegator`: the last setting among the
/// first `n`, none where there is none.
pub open spec fn auto_compound_of(cs: Seq<AutoCompoundConfig>, delegator: AccountId, n: int) -> u8
    decreases n,
{
    if n <= 0 {
        0
    } else if cs[n - 1].delegator == delegator {
        cs[n - 1].value
    } else {
        auto_compound_of(cs, delegator, n - 1)
    }
}

/// What an operator has at stake for a round: its bond, its top delegations
/// with the pending requests applied and their auto-compound settings, and
/// its counted total less what the pending requests take out.
pub open spec fn operator_snapshot(
    info: OperatorState,
    top: Seq<Bond>,
    reqs: Seq<ScheduledRequest<AccountId, Balance>>,
    autos: Seq<AutoCompoundConfig>,
) -> OperatorSnapshotView {
    let uncounted = uncounted_upto(top, reqs, top.len() as int);
    OperatorSnapshotView {
        bond: info.bond,
        delegations: rewardable(top, reqs).map_values(
            |b: Bond|
                BondWithAutoCompound {
                    owner: b.owner,
                    amount: b.amount,
                    auto_compound: auto_compound_of(autos, b.owner, autos.len() as int),
                },
        ),
        total: if info.total_counted > uncounted {
            (info.total_counted - uncounted) as u128
        } else {
            0
        },
    }
}

/// The auto-compound percent of `delegator` in `cs`.
fn find_auto_compound(cs: &Vec<AutoCompoundConfig>, delegator: AccountId) -> (r: u8)
    ensures
        r == auto_compound_of(cs@, delegator, cs@.len() as int),
{
    let mut r: u8 = 0;
    let mut j: usize = 0;
    while j < cs.len()
        invariant
            j <= cs@.len(),
            r == auto_compound_of(cs@, delegator, j as int),
        decreases cs@.len() - j,
    {
        if cs[j].delegator == delegator {
            r = cs[j].value;
        }
        j = j + 1;
    }
    r
}

impl OperatorSelection {
    /// The snapshot of `operator` as the storage now stands.
    pub open spec fn snapshot_spec(&self, operator: AccountId) -> OperatorSnapshotView {
        operator_snapshot(
            self.operator_info@[operator],
            self.top_delegations@[operator],
            seq_at(self.scheduled_requests@, operator),
            seq_at(self.auto_compounding@, operator),
        )
    }

    /// What `operator` has at stake now.
    pub fn snapshot_for(&self, operator: AccountId) -> (s: OperatorSnapshot)
        requires
            self.operator_info@.contains_key(operator),
            self.top_delegations@.contains_key(operator),
        ensures
            s@ == self.snapshot_spec(operator),
    {
        let info = *self.operator_info.get(&operator).unwrap();
        let top = self.top_delegations.get(&operator).unwrap();
        let no_requests: Vec<ScheduledRequest<AccountId, Balance>> = Vec::new();
        let reqs = match self.scheduled_requests.get(&operator) {
            Some(v) => v,
            None => &no_requests,
        };
        proof {
            assert(reqs@ =~= seq_at(self.scheduled_requests@, operator));
        }
        let no_autos: Vec<AutoCompoundConfig> = Vec::new();
        let autos = match self.auto_compounding.get(&operator) {
            Some(v) => v,
            None => &no_autos,
        };
        proof {
            assert(autos@ =~= seq_at(self.auto_compounding@, operator));
        }
        let counted = get_rewardable_delegators(top, reqs);
        let ghost expected = self.snapshot_spec(operator).delegations;
        let mut ds: Vec<BondWithAutoCompound> = Vec::new();
        let mut i: usize = 0;
        while i < counted.rewardable_delegations.len()
            invariant
                i <= counted.rewardable_delegations@.len(),
                counted.rewardable_delegations@ == rewardable(top@, reqs@),
                expected == rewardable(top@, reqs@).map_values(
                    |b: Bond|
                        BondWithAutoCompound {
                            owner: b.owner,
                            amount: b.amount,
                            auto_compound: auto_compound_of(autos@, b.owner, autos@.len() as int),
                        },
                ),
                ds@ == expected.take(i as int),
            decreases counted.rewardable_delegations@.len() - i,
        {
            let b = counted.rewardable_delegations[i];
            let auto_compound = find_auto_compound(autos, b.owner);
            ds.push(BondWithAutoCompound { owner: b.owner, amount: b.amount, auto_compound });
            proof {
                assert(expected.take(i as int + 1) =~= expected.take(i as int).push(
                    BondWithAutoCompound { owner: b.owner, amount: b.amount, auto_compound },
                ));
            }
            i = i + 1;
        }
        proof {
            assert(expected.take(expected.len() as int) =~= expected);
        }
        OperatorSnapshot {
            bond: info.bond,
            delegations: ds,
            total: info.total_counted.saturating_sub(counted.uncounted_stake),
        }
    }
}

/// The snapshots `prev` with those of the first `n` operators of `ops`
/// recorded as `snap` gives them.
pub open spec fn recorded(
    prev: Map<AccountId, OperatorSnapshotView>,
    ops: Seq<AccountId>,
    n: int,
    snap: spec_fn(AccountId) -> OperatorSnapshotView,
) -> Map<AccountId, OperatorSnapshotView> {
    Map::new(
        |k: AccountId| prev.contains_key(k) || listed_before(ops, n, k),
        |k: AccountId|
            if listed_before(ops, n, k) {
                snap(k)
            } else {
                prev[k]
            },
    )
}

/// `x + y`, saturating at `max`.
pub open spec fn sat_add(x: int, y: int, max: int) -> int {
    if x + y > max {
        max
    } else {
        x + y
    }
}

/// The saturating sum of the delegation counts of the first `n` operators.
pub open spec fn count_sum(info: Map<AccountId, OperatorState>, ops: Seq<AccountId>, n: int) -> int
    decreases n,
{
    if n <= 0 {
        0
    } else {
        sat_add(count_sum(info, ops, n - 1), info[ops[n - 1]].delegation_count as int, u32::MAX as int)
    }
}

/// The saturating sum of the counted totals of the first `n` operators.
pub open spec fn total_sum(info: Map<AccountId, OperatorState>, ops: Seq<AccountId>, n: int) -> int
    decreases n,
{
    if n <= 0 {
        0
    } else {
        sat_add(total_sum(info, ops, n - 1), info[ops[n - 1]].total_counted as int, u128::MAX as int)
    }
}

/// The events announcing the first `n` chosen operators, with their exposure.
pub open spec fn chosen_events(
    ops: Seq<AccountId>,
    n: int,
    round: RoundIndex,
    exposure: spec_fn(AccountId) -> Balance,
) -> Seq<Event> {
    ops.take(n).map_values(
        |a: AccountId|
            Event::OperatorChosen { round, operator_account: a, total_exposed_amount: exposure(a) },
    )
}

/// The saturating sum of the delegation counts of the first `n` snapshots.
pub open spec fn snapshot_count_sum(
    snaps: Map<AccountId, OperatorSnapshotView>,
    ks: Seq<AccountId>,
    n: int,
) -> int
    decreases n,
{
    if n <= 0 {
        0
    } else {
        sat_add(
            snapshot_count_sum(snaps, ks, n - 1),
            snaps[ks[n - 1]].delegations.len() as int,
            u32::MAX as int,
        )
    }
}

/// The saturating sum of the totals of the first `n` snapshots.
pub open spec fn snapshot_total_sum(
    snaps: Map<AccountId, OperatorSnapshotView>,
    ks: Seq<AccountId>,
    n: int,
) -> int
    decreases n,
{
    if n <= 0 {
        0
    } else {
        sat_add(snapshot_total_sum(snaps, ks, n - 1), snaps[ks[n - 1]].total as int, u128::MAX as int)
    }
}

impl OperatorSelection {
    /// Only the snapshots and the events may differ.
    pub open spec fn keeps_records(&self, old: &Self) -> bool {
        &&& self.total_selected == old.total_selected
        &&& self.operator_pool@ == old.operator_pool@
        &&& self.operator_info@ == old.operator_info@
        &&& self.top_delegations@ == old.top_delegations@
        &&& self.scheduled_requests@ == old.scheduled_requests@
        &&& self.auto_compounding@ == old.auto_compounding@
    }
}

/// The account `x` is among the first `n` of `ks` exactly when it was among
/// the first `n - 1` or is the `n`-th.
proof fn lemma_listed_step(ks: Seq<AccountId>, n: int)
    requires
        0 <= n < ks.len(),
    ensures
        forall|x: AccountId|
            #[trigger] listed_before(ks, n + 1, x) == (listed_before(ks, n, x) || x == ks[n]),
{
    assert forall|x: AccountId|
        #[trigger] listed_before(ks, n + 1, x) == (listed_before(ks, n, x) || x == ks[n]) by {
        if x == ks[n] {
            assert(0 <= n < n + 1 && n < ks.len() && ks[n] == x);
        }
        if listed_before(ks, n + 1, x) {
            let j = choose|j: int| 0 <= j < n + 1 && j < ks.len() && ks[j] == x;
            if j < n {
                assert(listed_before(ks, n, x));
            }
        }
    }
}

/// A copy of a list of accounts.
fn copy_accounts(v: &Vec<AccountId>) -> (r: Vec<AccountId>)
    ensures
        r@ == v@,
{
    super::types::copy_vec(v)
}

impl OperatorSelection {
    /// Records the snapshots of the chosen operators `ops` for round `now`,
    /// announces them, makes them the selected operators, and returns their
    /// number, delegation count and counted total (each saturating).
    fn record_chosen(&mut self, now: RoundIndex, ops: &Vec<AccountId>) -> (r: (u32, u32, Balance))
        requires
            forall|k: int|
                0 <= k < ops@.len() ==> old(self).operator_info@.contains_key(#[trigger] ops@[k])
                    && old(self).top_delegations@.contains_key(ops@[k]),
        ensures
            final(self).keeps_records(old(self)),
            final(self).selected_operators@ == ops@,
            snapshots_at(final(self).at_stake@, now) == recorded(
                snapshots_at(old(self).at_stake@, now),
                ops@,
                ops@.len() as int,
                |a: AccountId| old(self).snapshot_spec(a),
            ),
            forall|q: RoundIndex|
                q != now ==> #[trigger] snapshots_at(final(self).at_stake@, q) == snapshots_at(
                    old(self).at_stake@,
                    q,
                ),
            final(self).events@ == old(self).events@ + chosen_events(
                ops@,
                ops@.len() as int,
                now,
                |a: AccountId| old(self).operator_info@[a].total_counted,
            ),
            r.0 == (if ops@.len() > u32::MAX {
                u32::MAX as int
            } else {
                ops@.len() as int
            }),
            r.1 == count_sum(old(self).operator_info@, ops@, ops@.len() as int),
            r.2 == total_sum(old(self).operator_info@, ops@, ops@.len() as int),
    {
        let ghost snap = |a: AccountId| self.snapshot_spec(a);
        let ghost exposure = |a: AccountId| self.operator_info@[a].total_counted;
        let ghost info0 = self.operator_info@;
        let ghost at0 = self.at_stake@;
        let ghost events0 = self.events@;
        let mut inner = match self.at_stake.remove(&now) {
            Some(m) => m,
            None => KeyedMap::new(),
        };
        let ghost inner0 = inner@;
        proof {
            assert(inner0 =~= snapshots_at(at0, now));
        }
        let mut count: u32 = 0;
        let mut dcount: u32 = 0;
        let mut total: Balance = 0;
        let mut i: usize = 0;
        while i < ops.len()
            invariant
                i <= ops@.len(),
                self.keeps_records(old(self)),
                info0 == old(self).operator_info@,
                snap == (|a: AccountId| old(self).snapshot_spec(a)),
                exposure == (|a: AccountId| old(self).operator_info@[a].total_counted),
                forall|k: int|
                    0 <= k < ops@.len() ==> old(self).operator_info@.contains_key(#[trigger] ops@[k])
                        && old(self).top_delegations@.contains_key(ops@[k]),
                self.at_stake@ == at0.remove(now),
                inner@ == recorded(inner0, ops@, i as int, snap),
                self.events@ == events0 + chosen_events(ops@, i as int, now, exposure),
                self.selected_operators@ == old(self).selected_operators@,
                count == (if i > u32::MAX {
                    u32::MAX as int
                } else {
                    i as int
                }),
                dcount == count_sum(info0, ops@, i as int),
                total == total_sum(info0, ops@, i as int),
            decreases ops@.len() - i,
        {
            let a = ops[i];
            let state = *self.operator_info.get(&a).unwrap();
            count = count.saturating_add(1);
            dcount = dcount.saturating_add(state.delegation_count);
            total = total.saturating_add(state.total_counted);
            let s = self.snapshot_for(a);
            inner.insert(a, s);
            self.events.push(
                Event::OperatorChosen { round: now, operator_account: a, total_exposed_amount: state.total_counted },
            );
            proof {
                lemma_listed_step(ops@, i as int);
                assert(inner@ =~= recorded(inner0, ops@, i as int + 1, snap));
                assert(ops@.take(i as int + 1) =~= ops@.take(i as int).push(a));
                assert(chosen_events(ops@, i as int + 1, now, exposure) =~= chosen_events(
                    ops@,
                    i as int,
                    now,
                    exposure,
                ).push(
                    Event::OperatorChosen {
                        round: now,
                        operator_account: a,
                        total_exposed_amount: state.total_counted,
                    },
                ));
            }
            i = i + 1;
        }
        self.at_stake.insert(now, inner);
        self.selected_operators = copy_accounts(ops);
        proof {
            assert forall|q: RoundIndex| q != now implies #[trigger] snapshots_at(
                self.at_stake@,
                q,
            ) == snapshots_at(old(self).at_stake@, q) by {
                assert(self.at_stake@.contains_key(q) == at0.contains_key(q));
            }
        }
        (count, dcount, total)
    }
}

/// The number of snapshots of round `r`, saturating.
pub open spec fn snapshot_number(at: KeyedMap<RoundIndex, KeyedMap<AccountId, OperatorSnapshot>>, r: RoundIndex) -> int {
    if at@.contains_key(r) {
        let n = at.stored(r).key_seq().len() as int;
        if n > u32::MAX {
            u32::MAX as int
        } else {
            n
        }
    } else {
        0
    }
}

/// The saturating sum of the delegation counts of the snapshots of round `r`.
pub open spec fn snapshot_delegations(at: KeyedMap<RoundIndex, KeyedMap<AccountId, OperatorSnapshot>>, r: RoundIndex) -> int {
    if at@.contains_key(r) {
        let ks = at.stored(r).key_seq();
        snapshot_count_sum(at@[r], ks, ks.len() as int)
    } else {
        0
    }
}

/// The saturating sum of the totals of the snapshots of round `r`.
pub open spec fn snapshot_totals(at: KeyedMap<RoundIndex, KeyedMap<AccountId, OperatorSnapshot>>, r: RoundIndex) -> int {
    if at@.contains_key(r) {
        let ks = at.stored(r).key_seq();
        snapshot_total_sum(at@[r], ks, ks.len() as int)
    } else {
        0
    }
}

/// The round before `now`, or round zero.
pub open spec fn previous_round(now: RoundIndex) -> RoundIndex {
    if now > 0 {
        (now - 1) as u32
    } else {
        0
    }
}

impl OperatorSelection {
    /// Where no operator can be chosen: the snapshots of the previous round
    /// are recorded again for round `now`, the selected operators stay and
    /// are announced again; returns the number, delegation count and total
    /// of those snapshots (each saturating).
    fn keep_last_round(&mut self, now: RoundIndex) -> (r: (u32, u32, Balance))
        requires
            forall|k: int|
                0 <= k < old(self).selected_operators@.len() ==> snapshots_at(
                    old(self).at_stake@,
                    previous_round(now),
                ).contains_key(#[trigger] old(self).selected_operators@[k]),
        ensures
            final(self).keeps_records(old(self)),
            final(self).selected_operators@ == old(self).selected_operators@,
            snapshots_at(final(self).at_stake@, now) == snapshots_at(old(self).at_stake@, now).union_prefer_right(
                snapshots_at(old(self).at_stake@, previous_round(now)),
            ),
            forall|q: RoundIndex|
                q != now ==> #[trigger] snapshots_at(final(self).at_stake@, q) == snapshots_at(
                    old(self).at_stake@,
                    q,
                ),
            final(self).events@ == old(self).events@ + chosen_events(
                old(self).selected_operators@,
                old(self).selected_operators@.len() as int,
                now,
                |a: AccountId| snapshots_at(old(self).at_stake@, previous_round(now))[a].total,
            ),
            r.0 == snapshot_number(old(self).at_stake, previous_round(now)),
            r.1 == snapshot_delegations(old(self).at_stake, previous_round(now)),
            r.2 == snapshot_totals(old(self).at_stake, previous_round(now)),
    {
        let last = now.saturating_sub(1);
        let ghost last_snaps = snapshots_at(self.at_stake@, last);
        let ghost exposure = |a: AccountId| last_snaps[a].total;
        let ghost events0 = self.events@;
        // Announce the operators that stay.
        let mut i: usize = 0;
        while i < self.selected_operators.len()
            invariant
                i <= self.selected_operators@.len(),
                self.keeps_records(old(self)),
                self.selected_operators@ == old(self).selected_operators@,
                self.at_stake == old(self).at_stake,
                last == previous_round(now),
                last_snaps == snapshots_at(old(self).at_stake@, last),
                exposure == (|a: AccountId| last_snaps[a].total),
                forall|k: int|
                    0 <= k < self.selected_operators@.len() ==> last_snaps.contains_key(
                        #[trigger] self.selected_operators@[k],
                    ),
                self.events@ == events0 + chosen_events(self.selected_operators@, i as int, now, exposure),
            decreases self.selected_operators@.len() - i,
        {
            let a = self.selected_operators[i];
            let m = self.at_stake.get(&last).unwrap();
            let t = m.get(&a).unwrap().total;
            self.events.push(Event::OperatorChosen { round: now, operator_account: a, total_exposed_amount: t });
            proof {
                assert(self.selected_operators@.take(i as int + 1) =~= self.selected_operators@.take(
                    i as int,
                ).push(a));
                assert(chosen_events(self.selected_operators@, i as int + 1, now, exposure) =~= chosen_events(
                    self.selected_operators@,
                    i as int,
                    now,
                    exposure,
                ).push(Event::OperatorChosen { round: now, operator_account: a, total_exposed_amount: t }));
            }
            i = i + 1;
        }
        // Copy the snapshots of the previous round.
        let ghost at0 = self.at_stake@;
        let mut copies: Vec<(AccountId, OperatorSnapshot)> = Vec::new();
        let mut count: u32 = 0;
        let mut dcount: u32 = 0;
        let mut total: Balance = 0;
        let ghost mut ks: Seq<AccountId> = Seq::empty();
        match self.at_stake.get(&last) {
            None => {},
            Some(m) => {
                let n = m.len();
                proof {
                    ks = m.key_seq();
                }
                let mut j: usize = 0;
                while j < n
                    invariant
                        n == m.key_seq().len(),
                        ks == m.key_seq(),
                        m.consistent(),
                        m@ == last_snaps,
                        j <= n,
                        copies@.len() == j,
                        forall|x: int|
                            0 <= x < j ==> (#[trigger] copies@[x]).0 == ks[x] && copies@[x].1@
                                == last_snaps[ks[x]],
                        count == (if j > u32::MAX {
                            u32::MAX as int
                        } else {
                            j as int
                        }),
                        dcount == snapshot_count_sum(last_snaps, ks, j as int),
                        total == snapshot_total_sum(last_snaps, ks, j as int),
                    decreases n - j,
                {
                    let k = m.key_at(j);
                    let v = m.value_at(j);
                    count = count.saturating_add(1);
                    let dl = v.delegations.len();
                    let dl32: u32 = if dl > u32::MAX as usize {
                        u32::MAX
                    } else {
                        dl as u32
                    };
                    dcount = dcount.saturating_add(dl32);
                    total = total.saturating_add(v.total);
                    copies.push((k, v.duplicate()));
                    j = j + 1;
                }
                proof {
                    assert(*m == old(self).at_stake.stored(last));
                    assert(ks == old(self).at_stake.stored(last).key_seq());
                }
            },
        }
        let mut inner = match self.at_stake.remove(&now) {
            Some(m) => m,
            None => KeyedMap::new(),
        };
        let ghost inner0 = inner@;
        proof {
            assert(inner0 =~= snapshots_at(at0, now));
        }
        let mut j: usize = 0;
        while j < copies.len()
            invariant
                j <= copies@.len(),
                forall|x: int|
                    0 <= x < copies@.len() ==> (#[trigger] copies@[x]).0 == ks[x] && copies@[x].1@
                        == last_snaps[ks[x]],
                copies@.len() <= ks.len(),
                inner@ == inner0.union_prefer_right(
                    Map::new(|k: AccountId| listed_before(ks, j as int, k), |k: AccountId| last_snaps[k]),
                ),
            decreases copies@.len() - j,
        {
            let k = copies[j].0;
            let v = copies[j].1.duplicate();
            inner.insert(k, v);
            proof {
                lemma_listed_step(ks, j as int);
                assert(inner@ =~= inner0.union_prefer_right(
                    Map::new(|x: AccountId| listed_before(ks, j as int + 1, x), |x: AccountId| last_snaps[x]),
                ));
            }
            j = j + 1;
        }
        self.at_stake.insert(now, inner);
        proof {
            assert(Map::new(|k: AccountId| listed_before(ks, copies@.len() as int, k), |k: AccountId| last_snaps[k])
                =~= last_snaps) by {
                if at0.contains_key(last) {
                    assert forall|k: AccountId| listed_before(ks, copies@.len() as int, k)
                        <==> last_snaps.contains_key(k) by {
                        if last_snaps.contains_key(k) {
                            assert(ks.to_set().contains(k));
                            let x = choose|x: int| 0 <= x < ks.len() && ks[x] == k;
                        }
                    }
                }
            }
            assert forall|q: RoundIndex| q != now implies #[trigger] snapshots_at(
                self.at_stake@,
                q,
            ) == snapshots_at(old(self).at_stake@, q) by {
                assert(self.at_stake@.contains_key(q) == at0.contains_key(q));
            }
        }
        (count, dcount, total)
    }
}

impl OperatorSelection {
    /// Starts round `now`: chooses its operators from the pool
    /// ([`compute_top_operator`]), records what each has at stake, announces
    /// them and makes them the selected operators; where none can be chosen,
    /// the previous round's snapshots and operators are kept. Returns the
    /// number of operators, their delegation count and their counted total,
    /// each saturating.
    pub fn select_top_operators(&mut self, now: RoundIndex) -> (r: (u32, u32, Balance))
        requires
            pool_ordered(old(self).operator_pool@),
            forall|k: int|
                0 <= k < chosen_operators(old(self).operator_pool@, old(self).total_selected).len()
                    ==> old(self).operator_info@.contains_key(
                    #[trigger] chosen_operators(old(self).operator_pool@, old(self).total_selected)[k],
                ) && old(self).top_delegations@.contains_key(
                    chosen_operators(old(self).operator_pool@, old(self).total_selected)[k],
                ),
            chosen_operators(old(self).operator_pool@, old(self).total_selected).len() == 0
                ==> forall|k: int|
                0 <= k < old(self).selected_operators@.len() ==> snapshots_at(
                    old(self).at_stake@,
                    previous_round(now),
                ).contains_key(#[trigger] old(self).selected_operators@[k]),
        ensures
            ({
                let ops = chosen_operators(old(self).operator_pool@, old(self).total_selected);
                let last = previous_round(now);
                &&& final(self).keeps_records(old(self))
                &&& forall|q: RoundIndex|
                    q != now ==> #[trigger] snapshots_at(final(self).at_stake@, q) == snapshots_at(
                        old(self).at_stake@,
                        q,
                    )
                &&& ops.len() > 0 ==> {
                    &&& final(self).selected_operators@ == ops
                    &&& snapshots_at(final(self).at_stake@, now) == recorded(
                        snapshots_at(old(self).at_stake@, now),
                        ops,
                        ops.len() as int,
                        |a: AccountId| old(self).snapshot_spec(a),
                    )
                    &&& final(self).events@ == old(self).events@ + chosen_events(
                        ops,
                        ops.len() as int,
                        now,
                        |a: AccountId| old(self).operator_info@[a].total_counted,
                    )
                    &&& r.0 == (if ops.len() > u32::MAX {
                        u32::MAX as int
                    } else {
                        ops.len() as int
                    })
                    &&& r.1 == count_sum(old(self).operator_info@, ops, ops.len() as int)
                    &&& r.2 == total_sum(old(self).operator_info@, ops, ops.len() as int)
                }
                &&& ops.len() == 0 ==> {
                    &&& final(self).selected_operators@ == old(self).selected_operators@
                    &&& snapshots_at(final(self).at_stake@, now) == snapshots_at(
                        old(self).at_stake@,
                        now,
                    ).union_prefer_right(snapshots_at(old(self).at_stake@, last))
                    &&& final(self).events@ == old(self).events@ + chosen_events(
                        old(self).selected_operators@,
                        old(self).selected_operators@.len() as int,
                        now,
                        |a: AccountId| snapshots_at(old(self).at_stake@, last)[a].total,
                    )
                    &&& r.0 == snapshot_number(old(self).at_stake, last)
                    &&& r.1 == snapshot_delegations(old(self).at_stake, last)
                    &&& r.2 == snapshot_totals(old(self).at_stake, last)
                }
            }),
    {
        let ops = compute_top_operator(&self.operator_pool, self.total_selected);
        if ops.len() == 0 {
            self.keep_last_round(now)
        } else {
            self.record_chosen(now, &ops)
        }
    }
}

/// The pool with the bond of `operator` replaced by one of `total`.
pub open spec fn pool_updated(pool: Seq<Bond>, operator: AccountId, total: Balance) -> Set<Bond> {
    pool.to_set().filter(|b: Bond| b.owner != operator).insert(Bond { owner: operator, amount: total })
}

/// The bonds below `operator`, its new bond and the bonds above it, in
/// order, make the updated pool.
proof fn lemma_pool_rebuilt(pool: Seq<Bond>, lo: Seq<Bond>, up: Seq<Bond>, operator: AccountId, total: Balance)
    requires
        pool_ordered(lo),
        pool_ordered(up),
        forall|k: int| 0 <= k < lo.len() ==> (#[trigger] lo[k]).owner < operator,
        forall|k: int| 0 <= k < up.len() ==> (#[trigger] up[k]).owner > operator,
        forall|k: int| 0 <= k < lo.len() ==> pool.contains(#[trigger] lo[k]),
        forall|k: int| 0 <= k < up.len() ==> pool.contains(#[trigger] up[k]),
        forall|m: int| 0 <= m < pool.len() && (#[trigger] pool[m]).owner < operator ==> lo.contains(pool[m]),
        forall|m: int| 0 <= m < pool.len() && (#[trigger] pool[m]).owner > operator ==> up.contains(pool[m]),
    ensures
        pool_ordered(lo.push(Bond { owner: operator, amount: total }) + up),
        (lo.push(Bond { owner: operator, amount: total }) + up).to_set() == pool_updated(pool, operator, total),
{
    let nb = Bond { owner: operator, amount: total };
    let o = lo.push(nb) + up;
    assert forall|x: int, y: int| 0 <= x < y < o.len() implies o[x].owner < o[y].owner by {
        if y < lo.len() {
            assert(o[x] == lo[x] && o[y] == lo[y]);
        } else if y == lo.len() {
            assert(o[x] == lo[x]);
        } else if x < lo.len() {
            assert(o[x] == lo[x] && o[y] == up[y - lo.len() - 1]);
        } else if x == lo.len() {
            assert(o[y] == up[y - lo.len() - 1]);
        } else {
            assert(o[x] == up[x - lo.len() - 1] && o[y] == up[y - lo.len() - 1]);
        }
    }
    assert forall|b: Bond| #[trigger] o.to_set().contains(b) == pool_updated(pool, operator, total).contains(b) by {
        if o.contains(b) {
            let x = choose|x: int| 0 <= x < o.len() && o[x] == b;
            if x < lo.len() {
                assert(lo[x] == b);
            } else if x > lo.len() {
                assert(up[x - lo.len() - 1] == b);
            }
        }
        if pool_updated(pool, operator, total).contains(b) {
            if b == nb {
                assert(o[lo.len() as int] == b);
            } else {
                assert(pool.contains(b) && b.owner != operator);
                let m = choose|m: int| 0 <= m < pool.len() && pool[m] == b;
                if b.owner < operator {
                    assert(lo.contains(pool[m]));
                    let x = choose|x: int| 0 <= x < lo.len() && lo[x] == b;
                    assert(o[x] == b);
                } else {
                    assert(up.contains(pool[m]));
                    let x = choose|x: int| 0 <= x < up.len() && up[x] == b;
                    assert(o[x + lo.len() + 1] == b);
                }
            }
        }
    }
    assert(o.to_set() =~= pool_updated(pool, operator, total));
}

impl OperatorSelection {
    /// Sets the total stake of `operator` in the pool to `total`, adding it
    /// where it is missing; the pool stays ordered by account.
    pub fn update_active(&mut self, operator: AccountId, total: Balance)
        requires
            pool_ordered(old(self).operator_pool@),
        ensures
            pool_ordered(final(self).operator_pool@),
            final(self).operator_pool@.to_set() == pool_updated(old(self).operator_pool@, operator, total),
            final(self).total_selected == old(self).total_selected,
            final(self).operator_info@ == old(self).operator_info@,
            final(self).top_delegations@ == old(self).top_delegations@,
            final(self).scheduled_requests@ == old(self).scheduled_requests@,
            final(self).auto_compounding@ == old(self).auto_compounding@,
            final(self).at_stake@ == old(self).at_stake@,
            final(self).selected_operators@ == old(self).selected_operators@,
            final(self).events@ == old(self).events@,
    {
        let ghost pool = self.operator_pool@;
        let nb = Bond { owner: operator, amount: total };
        let mut lower: Vec<Bond> = Vec::new();
        let mut upper: Vec<Bond> = Vec::new();
        let n = self.operator_pool.len();
        let mut i: usize = 0;
        while i < n
            invariant
                n == pool.len(),
                pool == self.operator_pool@,
                pool_ordered(pool),
                i <= n,
                pool_ordered(lower@),
                pool_ordered(upper@),
                forall|k: int| 0 <= k < lower@.len() ==> (#[trigger] lower@[k]).owner < operator,
                forall|k: int| 0 <= k < upper@.len() ==> (#[trigger] upper@[k]).owner > operator,
                forall|k: int, j: int|
                    0 <= k < lower@.len() && i <= j < n ==> (#[trigger] lower@[k]).owner < (
                    #[trigger] pool[j]).owner,
                forall|k: int, j: int|
                    0 <= k < upper@.len() && i <= j < n ==> (#[trigger] upper@[k]).owner < (
                    #[trigger] pool[j]).owner,
                forall|k: int| 0 <= k < lower@.len() ==> pool.contains(#[trigger] lower@[k]),
                forall|k: int| 0 <= k < upper@.len() ==> pool.contains(#[trigger] upper@[k]),
                forall|m: int|
                    0 <= m < i && (#[trigger] pool[m]).owner < operator ==> lower@.contains(pool[m]),
                forall|m: int|
                    0 <= m < i && (#[trigger] pool[m]).owner > operator ==> upper@.contains(pool[m]),
            decreases n - i,
        {
            let b = self.operator_pool[i];
            let ghost lo0 = lower@;
            let ghost up0 = upper@;
            if b.owner < operator {
                lower.push(b);
                proof {
                    assert(lower@.last() == b);
                    assert(lower@[lower@.len() - 1] == b);
                }
            } else if b.owner > operator {
                upper.push(b);
                proof {
                    assert(upper@[upper@.len() - 1] == b);
                }
            }
            proof {
                assert(pool.contains(pool[i as int]));
                assert forall|m: int|
                    0 <= m < i + 1 && (#[trigger] pool[m]).owner < operator implies lower@.contains(
                    pool[m],
                ) by {
                    if m == i {
                        assert(lower@[lower@.len() - 1] == pool[m]);
                    } else {
                        assert(lo0.contains(pool[m]));
                        let x = choose|x: int| 0 <= x < lo0.len() && lo0[x] == pool[m];
                        assert(lower@[x] == pool[m]);
                    }
                }
                assert forall|m: int|
                    0 <= m < i + 1 && (#[trigger] pool[m]).owner > operator implies upper@.contains(
                    pool[m],
                ) by {
                    if m == i {
                        assert(upper@[upper@.len() - 1] == pool[m]);
                    } else {
                        assert(up0.contains(pool[m]));
                        let x = choose|x: int| 0 <= x < up0.len() && up0[x] == pool[m];
                        assert(upper@[x] == pool[m]);
                    }
                }
            }
            i = i + 1;
        }
        let mut out = lower;
        let ghost lo = out@;
        out.push(nb);
        let ghost up = upper@;
        let mut j: usize = 0;
        while j < upper.len()
            invariant
                j <= up.len(),
                up == upper@,
                out@ == lo.push(nb) + up.take(j as int),
            decreases up.len() - j,
        {
            out.push(upper[j]);
            proof {
                assert(up.take(j as int + 1) =~= up.take(j as int).push(up[j as int]));
            }
            j = j + 1;
        }
        proof {
            assert(up.take(up.len() as int) =~= up);
            lemma_pool_rebuilt(pool, lo, up, operator, total);
        }
        self.operator_pool = out;
    }
}

} // verus!
