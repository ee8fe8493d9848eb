//! Migrating delegator records from the layout without nomination flags:
//! fields are renamed, the new flags are false, and entries beyond the
//! current capacities are dropped.
use super::pallet::MultiAssetDelegation;
use super::types::{
    AccountId, Balance, BlueprintSelectionView, BondInfoDelegator, BondInfoDelegatorView,
    BondLessRequest, BondLessRequestView, DelegatorBlueprintSelection, DelegatorMetadata,
    DelegatorMetadataView, DelegatorStatus, Deposit, RoundIndex, WithdrawRequest,
};
use crate::asset::Asset;
use crate::keyed_map::KeyedMap;
use vstd::prelude::*;

verus! {

/// A withdraw request in the old layout.
#[derive(Clone, Copy, Debug, PartialEq, Eq)]
pub struct OldWithdrawRequest {
    pub asset_id: Asset,
    pub amount: Balance,
    pub requested_round: RoundIndex,
}

/// An unstake request in the old layout.
#[derive(Debug)]
pub struct OldBondLessRequest {
    pub operator: AccountId,
    pub asset_id: Asset,
    pub amount: Balance,
    pub requested_round: RoundIndex,
    pub blueprint_selection: DelegatorBlueprintSelection,
}

/// A delegation in the old layout.
#[derive(Debug)]
pub struct OldBondInfoDelegator {
    pub operator: AccountId,
    pub amount: Balance,
    pub asset_id: Asset,
    pub blueprint_selection: DelegatorBlueprintSelection,
}

/// A delegator record in the old layout.
#[derive(Debug)]
pub struct OldDelegatorMetadata {
    pub deposits: KeyedMap<Asset, Deposit>,
    pub withdraw_requests: Vec<OldWithdrawRequest>,
    pub delegations: Vec<OldBondInfoDelegator>,
    pub delegator_unstake_requests: Vec<OldBondLessRequest>,
    pub status: DelegatorStatus,
}

/// The migrated withdraw request.
pub open spec fn withdraw_migrated(q: OldWithdrawRequest) -> WithdrawRequest {
    WithdrawRequest { asset: q.asset_id, amount: q.amount, requested_round: q.requested_round }
}

/// The migrated delegation: not a nomination.
pub open spec fn delegation_migrated(d: OldBondInfoDelegator) -> BondInfoDelegatorView {
    BondInfoDelegatorView {
        operator: d.operator,
        amount: d.amount,
        asset: d.asset_id,
        blueprint_selection: d.blueprint_selection@,
        is_nomination: false,
    }
}

/// The migrated unstake request: not a nomination.
pub open spec fn unstake_migrated(q: OldBondLessRequest) -> BondLessRequestView {
    BondLessRequestView {
        operator: q.operator,
        asset: q.asset_id,
        amount: q.amount,
        requested_round: q.requested_round,
        blueprint_selection: q.blueprint_selection@,
        is_nomination: false,
    }
}

/// The first `max` entries of `s` (all of them where there are fewer).
pub open spec fn capped<A>(s: Seq<A>, max: u32) -> Seq<A> {
    if s.len() <= max {
        s
    } else {
        s.take(max as int)
    }
}

/// The migrated record, given the capacities for withdraw requests,
/// delegations and unstake requests.
pub open spec fn metadata_migrated(
    old: &OldDelegatorMetadata,
    max_withdraws: u32,
    max_delegations: u32,
    max_unstakes: u32,
) -> DelegatorMetadataView {
    DelegatorMetadataView {
        deposits: old.deposits@,
        withdraw_requests: capped(old.withdraw_requests@, max_withdraws).map_values(
            |q: OldWithdrawRequest| withdraw_migrated(q),
        ),
        delegations: capped(old.delegations@, max_delegations).map_values(
            |d: OldBondInfoDelegator| delegation_migrated(d),
        ),
        delegator_unstake_requests: capped(old.delegator_unstake_requests@, max_unstakes).map_values(
            |q: OldBondLessRequest| unstake_migrated(q),
        ),
        status: old.status,
    }
}

/// Converts an old delegator record into the current layout, keeping the
/// first entries up to each capacity.
pub fn migrate_metadata(
    old: OldDelegatorMetadata,
    max_withdraws: u32,
    max_delegations: u32,
    max_unstakes: u32,
) -> (r: DelegatorMetadata)
    ensures
        r@ == metadata_migrated(&old, max_withdraws, max_delegations, max_unstakes),
{
    let ghost o = old;
    let OldDelegatorMetadata {
        deposits,
        withdraw_requests,
        delegations,
        delegator_unstake_requests,
        status,
    } = old;
    let mut ws: Vec<WithdrawRequest> = Vec::new();
    let mut i: usize = 0;
    while i < withdraw_requests.len() && i < max_withdraws as usize
        invariant
            withdraw_requests@ == o.withdraw_requests@,
            i <= withdraw_requests@.len(),
            i <= max_withdraws,
            ws@ == withdraw_requests@.take(i as int).map_values(
                |q: OldWithdrawRequest| withdraw_migrated(q),
            ),
        decreases withdraw_requests@.len() - i,
    {
        let q = withdraw_requests[i];
        ws.push(
            WithdrawRequest {
                asset: q.asset_id,
                amount: q.amount,
                requested_round: q.requested_round,
            },
        );
        proof {
            assert(withdraw_requests@.take(i as int + 1) =~= withdraw_requests@.take(i as int).push(
                q,
            ));
            assert(ws@ =~= withdraw_requests@.take(i as int + 1).map_values(
                |q: OldWithdrawRequest| withdraw_migrated(q),
            ));
        }
        i = i + 1;
    }
    proof {
        if withdraw_requests@.len() <= max_withdraws {
            assert(withdraw_requests@.take(i as int) =~= withdraw_requests@);
        }
    }
    let mut ds: Vec<BondInfoDelegator> = Vec::new();
    let mut rest = delegations;
    let ghost all_ds = rest@;
    let mut j: usize = 0;
    while rest.len() > 0 && j < max_delegations as usize
        invariant
            j <= all_ds.len(),
            j <= max_delegations,
            rest@ == all_ds.skip(j as int),
            ds@.map_values(|d: BondInfoDelegator| d@) == all_ds.take(j as int).map_values(
                |d: OldBondInfoDelegator| delegation_migrated(d),
            ),
        decreases rest@.len(),
    {
        let ghost before = ds@.map_values(|d: BondInfoDelegator| d@);
        let ghost raw = rest@;
        let d = rest.remove(0);
        proof {
            assert(raw[0] == all_ds[j as int]);
            assert(rest@ =~= all_ds.skip(j as int + 1));
        }
        let nd = BondInfoDelegator {
            operator: d.operator,
            amount: d.amount,
            asset: d.asset_id,
            blueprint_selection: d.blueprint_selection,
            is_nomination: false,
        };
        assert(nd@ == delegation_migrated(all_ds[j as int]));
        let ghost ndv = nd@;
        ds.push(nd);
        proof {
            assert(ds@.map_values(|d: BondInfoDelegator| d@) =~= before.push(ndv));
            assert(all_ds.take(j as int + 1) =~= all_ds.take(j as int).push(all_ds[j as int]));
            assert(all_ds.take(j as int + 1).map_values(
                |d: OldBondInfoDelegator| delegation_migrated(d),
            ) =~= all_ds.take(j as int).map_values(
                |d: OldBondInfoDelegator| delegation_migrated(d),
            ).push(delegation_migrated(all_ds[j as int])));
            assert(ds@.map_values(|d: BondInfoDelegator| d@) =~= all_ds.take(j as int + 1).map_values(
                |d: OldBondInfoDelegator| delegation_migrated(d),
            ));
        }
        j = j + 1;
    }
    proof {
        if all_ds.len() <= max_delegations {
            assert(all_ds.take(j as int) =~= all_ds);
        }
    }
    let mut qs: Vec<BondLessRequest> = Vec::new();
    let mut rest_q = delegator_unstake_requests;
    let ghost all_qs = rest_q@;
    let mut k: usize = 0;
    while rest_q.len() > 0 && k < max_unstakes as usize
        invariant
            k <= all_qs.len(),
            k <= max_unstakes,
            rest_q@ == all_qs.skip(k as int),
            qs@.map_values(|q: BondLessRequest| q@) == all_qs.take(k as int).map_values(
                |q: OldBondLessRequest| unstake_migrated(q),
            ),
        decreases rest_q@.len(),
    {
        let ghost before = qs@.map_values(|q: BondLessRequest| q@);
        let ghost raw = rest_q@;
        let q = rest_q.remove(0);
        proof {
            assert(raw[0] == all_qs[k as int]);
            assert(rest_q@ =~= all_qs.skip(k as int + 1));
        }
        let nq = BondLessRequest {
            operator: q.operator,
            asset: q.asset_id,
            amount: q.amount,
            requested_round: q.requested_round,
            blueprint_selection: q.blueprint_selection,
            is_nomination: false,
        };
        assert(nq@ == unstake_migrated(all_qs[k as int]));
        let ghost nqv = nq@;
        qs.push(nq);
        proof {
            assert(qs@.map_values(|q: BondLessRequest| q@) =~= before.push(nqv));
            assert(all_qs.take(k as int + 1) =~= all_qs.take(k as int).push(all_qs[k as int]));
            assert(all_qs.take(k as int + 1).map_values(
                |q: OldBondLessRequest| unstake_migrated(q),
            ) =~= all_qs.take(k as int).map_values(
                |q: OldBondLessRequest| unstake_migrated(q),
            ).push(unstake_migrated(all_qs[k as int])));
            assert(qs@.map_values(|q: BondLessRequest| q@) =~= all_qs.take(k as int + 1).map_values(
                |q: OldBondLessRequest| unstake_migrated(q),
            ));
        }
        k = k + 1;
    }
    proof {
        if all_qs.len() <= max_unstakes {
            assert(all_qs.take(k as int) =~= all_qs);
        }
    }
    DelegatorMetadata {
        deposits,
        withdraw_requests: ws,
        delegations: ds,
        delegator_unstake_requests: qs,
        status,
    }
}

/// What the upgrade of the delegator records reports: how many records were
/// migrated and how many could not be read in the old layout.
#[derive(Clone, Copy, Debug, PartialEq, Eq)]
pub struct UpgradeReport {
    pub migrated: u32,
    pub failed: u32,
}

/// The delegator records after migrating, in order, those of `recs` that
/// could be read (`Some`); a later record of an account replaces an earlier
/// one, and a record that could not be read changes nothing.
pub open spec fn records_migrated(
    dels: Map<AccountId, DelegatorMetadataView>,
    recs: Seq<(AccountId, Option<OldDelegatorMetadata>)>,
    max_withdraws: u32,
    max_delegations: u32,
    max_unstakes: u32,
) -> Map<AccountId, DelegatorMetadataView>
    decreases recs.len(),
{
    if recs.len() == 0 {
        dels
    } else {
        let prev = records_migrated(dels, recs.drop_last(), max_withdraws, max_delegations, max_unstakes);
        match recs.last().1 {
            Some(o) => prev.insert(
                recs.last().0,
                metadata_migrated(&o, max_withdraws, max_delegations, max_unstakes),
            ),
            None => prev,
        }
    }
}

/// How many of `recs` could be read in the old layout.
pub open spec fn readable_count(recs: Seq<(AccountId, Option<OldDelegatorMetadata>)>) -> nat
    decreases recs.len(),
{
    if recs.len() == 0 {
        0
    } else {
        readable_count(recs.drop_last()) + if recs.last().1 is Some {
            1nat
        } else {
            0nat
        }
    }
}

impl MultiAssetDelegation {
    /// Migrates the record of `who`, read in the old layout, and stores it.
    pub fn migrate_delegator(&mut self, who: AccountId, record: OldDelegatorMetadata)
        ensures
            final(self).delegators@ == old(self).delegators@.insert(
                who,
                metadata_migrated(
                    &record,
                    old(self).config.max_withdraw_requests,
                    old(self).config.max_delegations,
                    old(self).config.max_unstake_requests,
                ),
            ),
            final(self).same_settings(old(self)),
            final(self).operators@ == old(self).operators@,
            final(self).at_stake@ == old(self).at_stake@,
            final(self).ledger == old(self).ledger,
            final(self).events@ == old(self).events@,
    {
        let m = migrate_metadata(
            record,
            self.config.max_withdraw_requests,
            self.config.max_delegations,
            self.config.max_unstake_requests,
        );
        self.delegators.insert(who, m);
    }

    /// The runtime upgrade of the delegator records: each record that could
    /// be read in the old layout is migrated and stored, in order; one that
    /// could not is counted as failed and its account left alone.
    pub fn migrate_records(
        &mut self,
        records: Vec<(AccountId, Option<OldDelegatorMetadata>)>,
    ) -> (r: UpgradeReport)
        requires
            records@.len() <= u32::MAX,
        ensures
            final(self).delegators@ == records_migrated(
                old(self).delegators@,
                records@,
                old(self).config.max_withdraw_requests,
                old(self).config.max_delegations,
                old(self).config.max_unstake_requests,
            ),
            r.migrated == readable_count(records@),
            r.migrated + r.failed == records@.len(),
            final(self).same_settings(old(self)),
            final(self).operators@ == old(self).operators@,
            final(self).at_stake@ == old(self).at_stake@,
            final(self).ledger == old(self).ledger,
            final(self).events@ == old(self).events@,
    {
        let ghost recs = records@;
        let ghost mw = self.config.max_withdraw_requests;
        let ghost md = self.config.max_delegations;
        let ghost mu = self.config.max_unstake_requests;
        let mut rest = records;
        let mut report = UpgradeReport { migrated: 0, failed: 0 };
        let mut i: usize = 0;
        proof {
            assert(recs.take(0) =~= Seq::<(AccountId, Option<OldDelegatorMetadata>)>::empty());
            assert(recs.skip(0) =~= recs);
        }
        while rest.len() > 0
            invariant
                i <= recs.len(),
                recs.len() <= u32::MAX,
                rest@ == recs.skip(i as int),
                self.delegators@ == records_migrated(
                    old(self).delegators@,
                    recs.take(i as int),
                    mw,
                    md,
                    mu,
                ),
                report.migrated == readable_count(recs.take(i as int)),
                report.migrated + report.failed == i,
                self.same_settings(old(self)),
                mw == old(self).config.max_withdraw_requests,
                md == old(self).config.max_delegations,
                mu == old(self).config.max_unstake_requests,
                self.operators@ == old(self).operators@,
                self.at_stake@ == old(self).at_stake@,
                self.ledger == old(self).ledger,
                self.events@ == old(self).events@,
            decreases rest@.len(),
        {
            let (who, rec) = rest.remove(0);
            proof {
                assert(recs.skip(i as int)[0] == recs[i as int]);
                assert(recs.take(i as int + 1).drop_last() =~= recs.take(i as int));
                assert(recs.take(i as int + 1).last() == recs[i as int]);
                assert(recs.skip(i as int).remove(0) =~= recs.skip(i as int + 1));
            }
            match rec {
                Some(o) => {
                    self.migrate_delegator(who, o);
                    report.migrated = report.migrated + 1;
                },
                None => {
                    report.failed = report.failed + 1;
                },
            }
            i = i + 1;
        }
        proof {
            assert(recs.take(i as int) =~= recs);
        }
        report
    }
}

} // verus!
