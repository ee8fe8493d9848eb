//! Properties that relate several calls of the delegation pallet: what one
//! call undoes of another, and what every execution keeps.
use super::delegate::{
    schedule_unstake_error, unstake_cancelled, unstake_scheduled, exact_unstake_of, nomination_unstake_of, operator_bond_changed, regular_delegation,
    unstake_request, with_amount,
};
use super::operator::with_status;
use super::pallet::Error;
use super::rewards::VaultId;
use super::snapshot::{snapshot_of, snapshots_taken};
use super::types::{
    AccountId, Balance, BlueprintSelectionView, BondLessRequestView, DelegatorMetadataView,
    DelegatorStatus, DepositView, WithdrawRequest,
    OperatorBondLessRequest, OperatorMetadataView, OperatorSnapshotView, OperatorStatus,
    RoundIndex,
};
use super::delegate::request_sum;
use super::deposit::{
    deposit_added, deposit_of, is_first_withdraw_match, withdraw_cancelled_at, withdraw_scheduled,
};
use super::unstake::{any_request, execute_unstake_error, requests_left, unstake_ready};
use super::deposit::{asset_move_ok, token_move_ok, withdraw_step, WithdrawProgress};
use super::pallet::{DelegationConfig, Event};
use super::slash::{slash_delegator_step, slashable, SlashView, UnappliedSlash};
use crate::asset::{Asset, H160};
use crate::ledger::{bal, AssetHolder, TokenHolder};
use crate::percent::clamped_percent;
use crate::seq_search::{first_match, lemma_first_match};
use vstd::prelude::*;

verus! {

/// Going offline and then online again gives an active operator back its
/// record.
pub proof fn law_offline_then_online(ops: Map<AccountId, OperatorMetadataView>, who: AccountId)
    requires
        ops.contains_key(who),
        ops[who].status == OperatorStatus::Active,
    ensures
        ({
            let offline = ops.insert(who, with_status(ops[who], OperatorStatus::Inactive));
            offline.insert(who, with_status(offline[who], OperatorStatus::Active))
        }) == ops,
{
    let offline = ops.insert(who, with_status(ops[who], OperatorStatus::Inactive));
    assert(offline.insert(who, with_status(offline[who], OperatorStatus::Active)) =~= ops);
}

/// Scheduling to leave and then cancelling gives an active operator back
/// its record.
pub proof fn law_leave_then_cancel(
    ops: Map<AccountId, OperatorMetadataView>,
    who: AccountId,
    until: RoundIndex,
)
    requires
        ops.contains_key(who),
        ops[who].status == OperatorStatus::Active,
    ensures
        ({
            let leaving = ops.insert(who, with_status(ops[who], OperatorStatus::Leaving(until)));
            leaving.insert(who, with_status(leaving[who], OperatorStatus::Active))
        }) == ops,
{
    let leaving = ops.insert(who, with_status(ops[who], OperatorStatus::Leaving(until)));
    assert(leaving.insert(who, with_status(leaving[who], OperatorStatus::Active)) =~= ops);
}

/// Scheduling a decrease of an operator's stake and then cancelling it
/// gives an operator without a pending request back its record.
pub proof fn law_operator_unstake_then_cancel(
    ops: Map<AccountId, OperatorMetadataView>,
    who: AccountId,
    request: OperatorBondLessRequest,
)
    requires
        ops.contains_key(who),
        ops[who].request is None,
    ensures
        ({
            let scheduled = ops.insert(
                who,
                OperatorMetadataView { request: Some(request), ..ops[who] },
            );
            scheduled.insert(who, OperatorMetadataView { request: None, ..scheduled[who] })
        }) == ops,
{
    let scheduled = ops.insert(who, OperatorMetadataView { request: Some(request), ..ops[who] });
    assert(scheduled.insert(who, OperatorMetadataView { request: None, ..scheduled[who] }) =~= ops);
}

/// Cancelling an unstake request right after scheduling it removes exactly
/// that request, where no equal request was pending: the requests are
/// back as they were.
pub proof fn law_delegator_unstake_then_cancel(
    qs: Seq<BondLessRequestView>,
    operator: AccountId,
    asset: Asset,
    amount: Balance,
    round: RoundIndex,
    selection: BlueprintSelectionView,
)
    requires
        first_match(qs, exact_unstake_of(operator, asset, amount)) is None,
    ensures
        ({
            let pushed = qs.push(unstake_request(operator, asset, amount, round, selection, false));
            &&& first_match(pushed, exact_unstake_of(operator, asset, amount)) == Some(
                qs.len() as int,
            )
            &&& pushed.remove(qs.len() as int) == qs
        }),
{
    let p = exact_unstake_of(operator, asset, amount);
    let pushed = qs.push(unstake_request(operator, asset, amount, round, selection, false));
    assert forall|j: int| 0 <= j < qs.len() implies !p(#[trigger] pushed[j]) by {
        assert(pushed[j] == qs[j]);
        if p(qs[j]) {
            lemma_first_match_found(qs, p, j);
        }
    }
    lemma_first_match(pushed, p, Some(qs.len() as int));
    assert(pushed.remove(qs.len() as int) =~= qs);
}

/// Scheduling an unstake of a delegation and cancelling the same amount
/// right after gives every delegator record back, where no equal request was
/// pending: after a schedule call that succeeded, the cancel call succeeds
/// and restores the delegators.
pub proof fn law_schedule_then_cancel_delegator_unstake(
    dels: Map<AccountId, DelegatorMetadataView>,
    who: AccountId,
    operator: AccountId,
    asset: Asset,
    amount: Balance,
    round: RoundIndex,
    max: u32,
)
    requires
        amount != 0,
        dels.contains_key(who),
        schedule_unstake_error(dels[who], operator, asset, amount, max) is None,
        first_match(dels[who].delegator_unstake_requests, exact_unstake_of(operator, asset, amount))
            is None,
    ensures
        ({
            let scheduled = unstake_scheduled(dels, who, operator, asset, amount, round);
            &&& scheduled.contains_key(who)
            &&& first_match(
                scheduled[who].delegator_unstake_requests,
                exact_unstake_of(operator, asset, amount),
            ) is Some
            &&& unstake_cancelled(scheduled, who, operator, asset, amount) == dels
        }),
{
    let m = dels[who];
    let i = first_match(m.delegations, regular_delegation(operator, asset))->0;
    let sel = m.delegations[i].blueprint_selection;
    law_delegator_unstake_then_cancel(m.delegator_unstake_requests, operator, asset, amount, round, sel);
    let pushed = m.delegator_unstake_requests.push(
        unstake_request(operator, asset, amount, round, sel, false),
    );
    let m1 = DelegatorMetadataView { delegator_unstake_requests: pushed, ..m };
    let scheduled = dels.insert(who, m1);
    assert(scheduled == unstake_scheduled(dels, who, operator, asset, amount, round));
    assert(scheduled[who] == m1);
    assert(DelegatorMetadataView {
        delegator_unstake_requests: pushed.remove(m.delegator_unstake_requests.len() as int),
        ..m1
    } == m);
    assert(scheduled.insert(who, m) =~= dels);
}

/// Changing a delegation in an operator's record keeps its delegation count
/// equal to the number of delegations it lists: a new delegator and asset
/// adds one, a raise or a partial decrease adds none, and a decrease to zero
/// removes the entry and takes one off.
pub proof fn law_bond_change_keeps_count(
    m: OperatorMetadataView,
    who: AccountId,
    asset: Asset,
    amount: Balance,
    is_increase: bool,
    max: u32,
)
    requires
        m.delegation_count == m.delegations.len(),
    ensures
        operator_bond_changed(m, who, asset, amount, is_increase, max) matches Ok(v)
            ==> v.delegation_count == v.delegations.len(),
{
    let p = super::delegate::bond_of(who, asset);
    if first_match(m.delegations, p) is Some {
        let i = first_match(m.delegations, p)->0;
        assert(crate::seq_search::is_first(m.delegations, p, i));
    }
}

/// Scheduling a withdraw and cancelling the same amount right after gives
/// the delegator's record back, with the deposit as it was (amount and
/// locks), where no equal request was pending; a delegator without
/// delegations is active again. After a schedule call that succeeded, the
/// cancel call finds exactly the new request.
pub proof fn law_schedule_then_cancel_withdraw(
    dels: Map<AccountId, DelegatorMetadataView>,
    who: AccountId,
    asset: Asset,
    amount: Balance,
    round: RoundIndex,
    now: u64,
)
    requires
        dels.contains_key(who),
        dels[who].deposits.contains_key(asset),
        dels[who].deposits[asset].amount >= amount,
        !(exists|i: int| is_first_withdraw_match(dels[who].withdraw_requests, asset, amount, i)),
    ensures
        ({
            let m = dels[who];
            let scheduled = withdraw_scheduled(dels, who, asset, amount, round);
            let i = m.withdraw_requests.len() as int;
            &&& scheduled.contains_key(who)
            &&& is_first_withdraw_match(scheduled[who].withdraw_requests, asset, amount, i)
            &&& forall|k: int| #[trigger]
                is_first_withdraw_match(scheduled[who].withdraw_requests, asset, amount, k) ==> k == i
            &&& withdraw_cancelled_at(scheduled, who, asset, amount, now, i) == dels.insert(
                who,
                DelegatorMetadataView {
                    status: if m.delegations.len() == 0 {
                        DelegatorStatus::Active
                    } else {
                        m.status
                    },
                    ..m
                },
            )
        }),
{
    let m = dels[who];
    let d = m.deposits[asset];
    let qs = m.withdraw_requests;
    let req = WithdrawRequest { asset, amount, requested_round: round };
    let pushed = qs.push(req);
    let i = qs.len() as int;
    assert forall|j: int| 0 <= j < i implies !(pushed[j].asset == asset && pushed[j].amount
        == amount) by {
        assert(pushed[j] == qs[j]);
        if qs[j].asset == asset && qs[j].amount == amount {
            lemma_withdraw_match_has_first(qs, asset, amount, j);
        }
    }
    assert(is_first_withdraw_match(pushed, asset, amount, i));
    assert(pushed.remove(i) =~= qs);
    let d1 = DepositView { amount: (d.amount - amount) as u128, ..d };
    assert(deposit_added(Some(d1), amount, None, now) == d);
    assert(m.deposits.insert(asset, d1).insert(asset, d) =~= m.deposits);
    let m1 = DelegatorMetadataView {
        deposits: m.deposits.insert(asset, d1),
        withdraw_requests: pushed,
        ..m
    };
    let scheduled = dels.insert(who, m1);
    assert(scheduled == withdraw_scheduled(dels, who, asset, amount, round));
    assert(scheduled[who] == m1);
    assert(deposit_of(m1, asset) == Some(d1));
    let back = DelegatorMetadataView {
        status: if m.delegations.len() == 0 {
            DelegatorStatus::Active
        } else {
            m.status
        },
        ..m
    };
    assert(withdraw_cancelled_at(scheduled, who, asset, amount, now, i) =~= dels.insert(who, back));
}

/// Where some withdraw request matches, a first one does.
pub proof fn lemma_withdraw_match_has_first(qs: Seq<WithdrawRequest>, asset: Asset, amount: Balance, j: int)
    requires
        0 <= j < qs.len(),
        qs[j].asset == asset && qs[j].amount == amount,
    ensures
        exists|k: int| is_first_withdraw_match(qs, asset, amount, k),
    decreases j,
{
    if exists|l: int| 0 <= l < j && qs[l].asset == asset && qs[l].amount == amount {
        let l = choose|l: int| 0 <= l < j && qs[l].asset == asset && qs[l].amount == amount;
        lemma_withdraw_match_has_first(qs, asset, amount, l);
    } else {
        assert(is_first_withdraw_match(qs, asset, amount, j));
    }
}

/// Cancelling a nomination unstake request right after scheduling it
/// removes exactly that request, where none was pending.
pub proof fn law_nomination_unstake_then_cancel(
    qs: Seq<BondLessRequestView>,
    operator: AccountId,
    amount: Balance,
    round: RoundIndex,
    selection: BlueprintSelectionView,
)
    requires
        first_match(qs, nomination_unstake_of(operator)) is None,
    ensures
        ({
            let pushed = qs.push(
                unstake_request(operator, Asset::Custom(0), amount, round, selection, true),
            );
            &&& first_match(pushed, nomination_unstake_of(operator)) == Some(qs.len() as int)
            &&& pushed.remove(qs.len() as int) == qs
        }),
{
    let p = nomination_unstake_of(operator);
    let pushed = qs.push(unstake_request(operator, Asset::Custom(0), amount, round, selection, true));
    assert forall|j: int| 0 <= j < qs.len() implies !p(#[trigger] pushed[j]) by {
        assert(pushed[j] == qs[j]);
        if p(qs[j]) {
            lemma_first_match_found(qs, p, j);
        }
    }
    lemma_first_match(pushed, p, Some(qs.len() as int));
    assert(pushed.remove(qs.len() as int) =~= qs);
}

/// Where some element matches, a first match exists.
pub proof fn lemma_first_match_found<A>(s: Seq<A>, p: spec_fn(A) -> bool, j: int)
    requires
        0 <= j < s.len(),
        p(s[j]),
    ensures
        first_match(s, p) is Some,
    decreases j,
{
    if exists|i: int| 0 <= i < j && p(s[i]) {
        let i = choose|i: int| 0 <= i < j && p(s[i]);
        lemma_first_match_found(s, p, i);
    } else {
        assert(crate::seq_search::is_first(s, p, j));
    }
}

/// No unstake request executes before its delay: where a delegator has
/// requests and none is ready, executing them is refused as not ready.
pub proof fn law_unstake_waits_for_delay(
    m: DelegatorMetadataView,
    ops: Map<AccountId, OperatorMetadataView>,
    who: AccountId,
    round: RoundIndex,
    delay: RoundIndex,
    max: u32,
)
    requires
        m.delegator_unstake_requests.len() > 0,
        forall|j: int|
            0 <= j < m.delegator_unstake_requests.len() ==> !unstake_ready(
                #[trigger] m.delegator_unstake_requests[j],
                round,
                delay,
            ),
    ensures
        execute_unstake_error(m, ops, who, round, delay, max) == Some(Error::BondLessNotReady),
{
}

/// Executing unstake requests leaves no ready request behind and keeps
/// every request that is not ready, in order.
pub proof fn law_unstake_leaves_only_pending(
    qs: Seq<BondLessRequestView>,
    round: RoundIndex,
    delay: RoundIndex,
)
    ensures
        forall|j: int|
            0 <= j < requests_left(qs, round, delay).len() ==> !unstake_ready(
                #[trigger] requests_left(qs, round, delay)[j],
                round,
                delay,
            ),
        requests_left(qs, round, delay) == qs.filter(|q: BondLessRequestView| !unstake_ready(q, round, delay)),
    decreases qs.len(),
{
    reveal(Seq::filter);
    if qs.len() > 0 {
        law_unstake_leaves_only_pending(qs.drop_last(), round, delay);
        let rest = requests_left(qs.drop_last(), round, delay);
        assert forall|j: int|
            0 <= j < requests_left(qs, round, delay).len() implies !unstake_ready(
            #[trigger] requests_left(qs, round, delay)[j],
            round,
            delay,
        ) by {
            if j < rest.len() {
                assert(requests_left(qs, round, delay)[j] == rest[j]);
            }
        }
    }
}

/// Executing unstake requests takes exactly the ready amount out of the
/// pending requests: what was requested in all is what is left pending plus
/// what was ready.
pub proof fn law_unstake_amounts_conserved(qs: Seq<BondLessRequestView>, round: RoundIndex, delay: RoundIndex)
    ensures
        request_sum(qs, any_request()) == request_sum(requests_left(qs, round, delay), any_request())
            + request_sum(qs, |q: BondLessRequestView| unstake_ready(q, round, delay)),
    decreases qs.len(),
{
    if qs.len() > 0 {
        law_unstake_amounts_conserved(qs.drop_last(), round, delay);
        let rest = requests_left(qs.drop_last(), round, delay);
        if !unstake_ready(qs.last(), round, delay) {
            assert(rest.push(qs.last()).drop_last() =~= rest);
        }
    }
}

/// A round's snapshot of an operator is the operator's record at the
/// round change.
pub proof fn law_snapshot_matches_record(
    at_stake: Map<RoundIndex, Map<AccountId, OperatorSnapshotView>>,
    ops: Map<AccountId, OperatorMetadataView>,
    round: RoundIndex,
    who: AccountId,
)
    requires
        ops.dom().finite(),
        ops.contains_key(who),
    ensures
        snapshots_taken(at_stake, ops, round).contains_key(round),
        snapshots_taken(at_stake, ops, round)[round].contains_key(who),
        snapshots_taken(at_stake, ops, round)[round][who] == snapshot_of(ops[who]),
{
    assert(ops.dom().contains(who));
    vstd::set::axiom_set_contains_len(ops.dom(), who);
}

/// Adding an asset to a vault and removing it again gives the lookup of
/// vaults back.
pub proof fn law_vault_add_then_remove(lookup: Map<Asset, VaultId>, asset: Asset, vault: VaultId)
    requires
        !lookup.contains_key(asset),
    ensures
        lookup.insert(asset, vault).remove(asset) == lookup,
{
    assert(lookup.insert(asset, vault).remove(asset) =~= lookup);
}

/// Lowering a nomination delegation by its whole amount removes it; by
/// less, it keeps the rest.
pub proof fn law_nomination_lowered(ds: Seq<super::types::BondInfoDelegatorView>, i: int, amount: Balance)
    requires
        0 <= i < ds.len(),
        amount <= ds[i].amount,
    ensures
        amount == ds[i].amount ==> super::delegate::nomination_lowered(ds, i, amount).len() == ds.len() - 1,
        amount < ds[i].amount ==> super::delegate::nomination_lowered(ds, i, amount)[i] == with_amount(
            ds[i],
            (ds[i].amount - amount) as u128,
        ),
{
}

/// Cancelling a withdraw request puts the amount back into the deposit it
/// was scheduled from: the deposit is as it was.
pub proof fn law_withdraw_then_cancel(d: super::types::DepositView, amount: Balance, now: u64)
    requires
        amount <= d.amount,
    ensures
        super::deposit::deposit_added(
            Some(super::types::DepositView { amount: (d.amount - amount) as u128, ..d }),
            amount,
            None,
            now,
        ) == d,
{
}

/// A fixed selection without `id` that has room for one more.
pub open spec fn fixed_without(s: BlueprintSelectionView, id: super::types::BlueprintId, max: u32) -> bool {
    match s {
        BlueprintSelectionView::Fixed(ids) => !ids.contains(id) && ids.len() < max,
        BlueprintSelectionView::All => false,
    }
}

/// Adding a blueprint to every fixed selection and removing it again gives
/// the delegations back, where no selection held it and each had room.
pub proof fn law_blueprint_add_then_remove(
    ds: Seq<super::types::BondInfoDelegatorView>,
    id: super::types::BlueprintId,
    max: u32,
)
    requires
        forall|i: int|
            0 <= i < ds.len() ==> fixed_without((#[trigger] ds[i]).blueprint_selection, id, max),
    ensures
        super::blueprints::blueprint_added(ds, id, max, ds.len() as int) is Ok,
        super::blueprints::blueprint_removed(
            super::blueprints::blueprint_added(ds, id, max, ds.len() as int)->Ok_0,
            id,
            ds.len() as int,
        ) == Ok::<Seq<super::types::BondInfoDelegatorView>, Error>(ds),
{
    lemma_blueprint_round_trip(ds, id, max, ds.len() as int);
    let full = lemma_added_full(ds, id, max, ds.len() as int);
    assert(super::blueprints::blueprint_removed(full, id, ds.len() as int) == Ok::<
        Seq<super::types::BondInfoDelegatorView>,
        Error,
    >(ds.take(ds.len() as int)));
    assert(ds.take(ds.len() as int) =~= ds);
}

proof fn lemma_blueprint_round_trip(
    ds: Seq<super::types::BondInfoDelegatorView>,
    id: super::types::BlueprintId,
    max: u32,
    n: int,
)
    requires
        0 <= n <= ds.len(),
        forall|i: int|
            0 <= i < ds.len() ==> fixed_without((#[trigger] ds[i]).blueprint_selection, id, max),
    ensures
        super::blueprints::blueprint_added(ds, id, max, n) is Ok,
        super::blueprints::blueprint_added(ds, id, max, n)->Ok_0.len() == n,
        forall|k: int| n <= k <= ds.len() ==> super::blueprints::blueprint_removed(
            #[trigger] lemma_added_full(ds, id, max, k),
            id,
            n,
        ) == Ok::<Seq<super::types::BondInfoDelegatorView>, Error>(ds.take(n)),
    decreases n,
{
    if n > 0 {
        lemma_blueprint_round_trip(ds, id, max, n - 1);
        let d = ds[n - 1];
        if let BlueprintSelectionView::Fixed(ids) = d.blueprint_selection {
            let prev = super::blueprints::blueprint_added(ds, id, max, n - 1)->Ok_0;
            let added = prev.push(
                super::blueprints::with_selection(d, BlueprintSelectionView::Fixed(ids.push(id))),
            );
            assert(super::blueprints::blueprint_added(ds, id, max, n) == Ok::<
                Seq<super::types::BondInfoDelegatorView>,
                Error,
            >(added));
            assert forall|k: int| n <= k <= ds.len() implies super::blueprints::blueprint_removed(
                #[trigger] lemma_added_full(ds, id, max, k),
                id,
                n,
            ) == Ok::<Seq<super::types::BondInfoDelegatorView>, Error>(ds.take(n)) by {
                let full = lemma_added_full(ds, id, max, k);
                lemma_added_prefix(ds, id, max, n, k);
                assert(full[n - 1] == super::blueprints::with_selection(
                    d,
                    BlueprintSelectionView::Fixed(ids.push(id)),
                ));
                let pushed = ids.push(id);
                assert(pushed[ids.len() as int] == id);
                assert forall|j: int| 0 <= j < ids.len() implies !super::blueprints::is_blueprint(
                    id,
                )(#[trigger] pushed[j]) by {
                    assert(pushed[j] == ids[j]);
                    if ids[j] == id {
                        assert(ids.contains(id));
                    }
                }
                lemma_first_match(pushed, super::blueprints::is_blueprint(id), Some(ids.len() as int));
                assert(pushed.remove(ids.len() as int) =~= ids);
                assert(ds.take(n) =~= ds.take(n - 1).push(d));
            }
        }
    } else {
        assert(ds.take(0) =~= Seq::<super::types::BondInfoDelegatorView>::empty());
    }
}

/// The delegations with the blueprint added to the first `k`.
pub open spec fn lemma_added_full(
    ds: Seq<super::types::BondInfoDelegatorView>,
    id: super::types::BlueprintId,
    max: u32,
    k: int,
) -> Seq<super::types::BondInfoDelegatorView> {
    super::blueprints::blueprint_added(ds, id, max, k)->Ok_0
}

proof fn lemma_added_prefix(
    ds: Seq<super::types::BondInfoDelegatorView>,
    id: super::types::BlueprintId,
    max: u32,
    n: int,
    k: int,
)
    requires
        0 < n <= k <= ds.len(),
        forall|i: int|
            0 <= i < ds.len() ==> fixed_without((#[trigger] ds[i]).blueprint_selection, id, max),
    ensures
        super::blueprints::blueprint_added(ds, id, max, k) is Ok,
        lemma_added_full(ds, id, max, k).len() == k,
        forall|j: int| 0 <= j < n ==> #[trigger] lemma_added_full(ds, id, max, k)[j] == lemma_added_full(ds, id, max, n)[j],
        lemma_added_full(ds, id, max, k)[n - 1] == (match ds[n - 1].blueprint_selection {
            BlueprintSelectionView::Fixed(ids) => super::blueprints::with_selection(
                ds[n - 1],
                BlueprintSelectionView::Fixed(ids.push(id)),
            ),
            BlueprintSelectionView::All => ds[n - 1],
        }),
    decreases k,
{
    if k > n {
        lemma_added_prefix(ds, id, max, n, k - 1);
    } else {
        if n > 1 {
            lemma_added_prefix(ds, id, max, n - 1, n - 1);
        }
        let d = ds[n - 1];
        assert(fixed_without(d.blueprint_selection, id, max));
    }
}

/// No deposit has more delegated than deposited.
pub open spec fn deposits_cover_delegations(m: DelegatorMetadataView) -> bool {
    forall|a: Asset| #[trigger] m.deposits.contains_key(a) ==> m.deposits[a].delegated_amount
        <= m.deposits[a].amount
}

/// Delegating never marks more of a deposit as delegated than was
/// deposited: the property holds after every delegation that succeeds.
pub proof fn law_delegate_within_deposit(
    m: DelegatorMetadataView,
    operator: AccountId,
    asset: Asset,
    amount: Balance,
    selection: BlueprintSelectionView,
    max: u32,
)
    requires
        deposits_cover_delegations(m),
        super::delegate::delegator_after_delegate(m, operator, asset, amount, selection, max) is Ok,
    ensures
        deposits_cover_delegations(
            super::delegate::delegator_after_delegate(m, operator, asset, amount, selection, max)->Ok_0,
        ),
{
}

/// Migrating a record within the capacities keeps every entry, and no
/// migrated delegation or unstake request is a nomination.
pub proof fn law_migration_keeps_entries(
    old: &super::migration::OldDelegatorMetadata,
    max_withdraws: u32,
    max_delegations: u32,
    max_unstakes: u32,
)
    requires
        old.withdraw_requests@.len() <= max_withdraws,
        old.delegations@.len() <= max_delegations,
        old.delegator_unstake_requests@.len() <= max_unstakes,
    ensures
        ({
            let m = super::migration::metadata_migrated(old, max_withdraws, max_delegations, max_unstakes);
            &&& m.withdraw_requests.len() == old.withdraw_requests@.len()
            &&& m.delegations.len() == old.delegations@.len()
            &&& m.delegator_unstake_requests.len() == old.delegator_unstake_requests@.len()
            &&& forall|i: int| 0 <= i < m.delegations.len() ==> !(#[trigger] m.delegations[i]).is_nomination
            &&& forall|i: int|
                0 <= i < m.delegator_unstake_requests.len()
                    ==> !(#[trigger] m.delegator_unstake_requests[i]).is_nomination
            &&& m.deposits == old.deposits@
        }),
{
}


/// What a slash cuts from a delegation is what it hands to the slash
/// recipient: a slash that goes through lowers the first delegation it
/// applies to by the slash percentage of it (rounded down), reports that
/// amount, and moves
/// exactly that amount of the delegated asset from the pallet to the slash
/// recipient (a custom asset only where that transfer can be made; an ERC20
/// token always, since a failed token transfer refuses the slash). A
/// nominated delegation moves no asset.
pub proof fn law_slash_moves_what_it_cuts(
    s: SlashView,
    cfg: DelegationConfig,
    slash: UnappliedSlash,
    delegator: AccountId,
    alert_ok: bool,
)
    requires
        s.0.contains_key(delegator),
        first_match(s.0[delegator].delegations, slashable(slash.operator, slash.blueprint_id)) is Some,
        slash_delegator_step(s, cfg, slash, delegator, alert_ok).1 is Ok,
    ensures
        ({
            let i = first_match(
                s.0[delegator].delegations,
                slashable(slash.operator, slash.blueprint_id),
            )->0;
            let d = s.0[delegator].delegations[i];
            let after = slash_delegator_step(s, cfg, slash, delegator, alert_ok).0;
            let cut = d.amount - after.0[delegator].delegations[i].amount;
            let pallet = cfg.pallet_account;
            let recipient = cfg.slash_recipient;
            let pallet_evm = cfg.pallet_evm_address;
            let recipient_evm = cfg.slash_recipient_evm_address;
            &&& after.0.contains_key(delegator)
            &&& after.0[delegator].delegations.len() == s.0[delegator].delegations.len()
            &&& cut == d.amount * clamped_percent(slash.slash_percent) / 100
            &&& after.3 == s.3.push(
                Event::DelegatorSlashed {
                    delegator,
                    amount: cut as u128,
                    asset: d.asset,
                    service_id: slash.service_id,
                    blueprint_id: slash.blueprint_id,
                    era: slash.era,
                },
            )
            &&& (!d.is_nomination && d.asset is Custom && pallet != recipient) ==> {
                let id = d.asset->Custom_0;
                if asset_move_ok(s.1, id, pallet, recipient, cut as u128) {
                    &&& bal(after.1, AssetHolder { asset: id, who: recipient }) == bal(
                        s.1,
                        AssetHolder { asset: id, who: recipient },
                    ) + cut
                    &&& bal(after.1, AssetHolder { asset: id, who: pallet }) == bal(
                        s.1,
                        AssetHolder { asset: id, who: pallet },
                    ) - cut
                } else {
                    after.1 == s.1
                }
            }
            &&& (!d.is_nomination && d.asset is Erc20 && pallet_evm != recipient_evm) ==> {
                let t = d.asset->Erc20_0;
                &&& bal(after.2, TokenHolder { token: t, holder: recipient_evm }) == bal(
                    s.2,
                    TokenHolder { token: t, holder: recipient_evm },
                ) + cut
                &&& bal(after.2, TokenHolder { token: t, holder: pallet_evm }) == bal(
                    s.2,
                    TokenHolder { token: t, holder: pallet_evm },
                ) - cut
            }
            &&& d.is_nomination ==> after.1 == s.1 && after.2 == s.2
        }),
{
    let i = first_match(s.0[delegator].delegations, slashable(slash.operator, slash.blueprint_id))->0;
    let d = s.0[delegator].delegations[i];
    let c = clamped_percent(slash.slash_percent);
    assert(0 <= d.amount * c / 100 <= d.amount) by (nonlinear_arith)
        requires
            0 <= c <= 100,
            d.amount >= 0,
    ;
}


/// Executing a withdraw request pays out exactly the ready ones that can
/// be paid: a request whose delay has passed is paid from the pallet to the
/// delegator (a custom asset to its account, an ERC20 token from the
/// pallet's EVM address to the EVM address given) and leaves the pending
/// requests, where that transfer can be made; otherwise, or before its
/// delay has passed, or for a token with no EVM address given, it stays
/// pending and no balance changes.
pub proof fn law_ready_withdraw_paid_out(
    cfg: DelegationConfig,
    round: RoundIndex,
    who: AccountId,
    evm_address: Option<H160>,
    p: WithdrawProgress,
    q: WithdrawRequest,
)
    ensures
        ({
            let r = withdraw_step(cfg, round, who, evm_address, p, q);
            let ready = round >= cfg.leave_delegators_delay + q.requested_round;
            let pallet = cfg.pallet_account;
            let pallet_evm = cfg.pallet_evm_address;
            let paid = ready && match q.asset {
                Asset::Custom(id) => asset_move_ok(p.assets, id, pallet, who, q.amount),
                Asset::Erc20(t) => evm_address matches Some(to) && token_move_ok(
                    p.tokens,
                    t,
                    pallet_evm,
                    to,
                    q.amount,
                ),
            };
            &&& !paid ==> r.kept == p.kept.push(q) && r.assets == p.assets && r.tokens == p.tokens
            &&& paid ==> r.kept == p.kept
            &&& (paid && q.asset is Custom) ==> {
                let id = q.asset->Custom_0;
                &&& r.tokens == p.tokens
                &&& pallet != who ==> {
                    &&& bal(r.assets, AssetHolder { asset: id, who }) == bal(
                        p.assets,
                        AssetHolder { asset: id, who },
                    ) + q.amount
                    &&& bal(r.assets, AssetHolder { asset: id, who: pallet }) == bal(
                        p.assets,
                        AssetHolder { asset: id, who: pallet },
                    ) - q.amount
                }
            }
            &&& (paid && q.asset is Erc20) ==> {
                let t = q.asset->Erc20_0;
                let to = evm_address->Some_0;
                &&& r.assets == p.assets
                &&& pallet_evm != to ==> {
                    &&& bal(r.tokens, TokenHolder { token: t, holder: to }) == bal(
                        p.tokens,
                        TokenHolder { token: t, holder: to },
                    ) + q.amount
                    &&& bal(r.tokens, TokenHolder { token: t, holder: pallet_evm }) == bal(
                        p.tokens,
                        TokenHolder { token: t, holder: pallet_evm },
                    ) - q.amount
                }
            }
        }),
{
}

} // verus!
