//! Adding a blueprint to, and removing one from, the fixed blueprint
//! selections of all of a delegator's delegations.
use super::pallet::{same_ledger, Error, MultiAssetDelegation};
use super::types::{
    copy_ids, AccountId, BlueprintId, BlueprintSelectionView, BondInfoDelegator,
    BondInfoDelegatorView, DelegatorBlueprintSelection, DelegatorMetadataView,
};
use crate::seq_search::{first_match, lemma_first_match};
use vstd::prelude::*;

verus! {

/// `d` with another blueprint selection.
pub open spec fn with_selection(d: BondInfoDelegatorView, s: BlueprintSelectionView) -> BondInfoDelegatorView {
    BondInfoDelegatorView { blueprint_selection: s, ..d }
}

/// The first `n` delegations with blueprint `id` added to each fixed
/// selection, or the refusal at the first delegation that cannot take it.
pub open spec fn blueprint_added(
    ds: Seq<BondInfoDelegatorView>,
    id: BlueprintId,
    max: u32,
    n: int,
) -> Result<Seq<BondInfoDelegatorView>, Error>
    decreases n,
{
    if n <= 0 {
        Ok(Seq::empty())
    } else {
        match blueprint_added(ds, id, max, n - 1) {
            Err(e) => Err(e),
            Ok(prev) => match ds[n - 1].blueprint_selection {
                BlueprintSelectionView::Fixed(ids) => if ids.contains(id) {
                    Err(Error::DuplicateBlueprintId)
                } else if ids.len() >= max {
                    Err(Error::MaxBlueprintsExceeded)
                } else {
                    Ok(prev.push(with_selection(ds[n - 1], BlueprintSelectionView::Fixed(ids.push(id)))))
                },
                BlueprintSelectionView::All => Err(Error::NotInFixedMode),
            },
        }
    }
}

/// The blueprint `id`.
pub open spec fn is_blueprint(id: BlueprintId) -> spec_fn(BlueprintId) -> bool {
    |x: BlueprintId| x == id
}

/// The first `n` delegations with the first occurrence of blueprint `id`
/// removed from each fixed selection, or the refusal at the first
/// delegation that does not hold it.
pub open spec fn blueprint_removed(ds: Seq<BondInfoDelegatorView>, id: BlueprintId, n: int) -> Result<
    Seq<BondInfoDelegatorView>,
    Error,
>
    decreases n,
{
    if n <= 0 {
        Ok(Seq::empty())
    } else {
        match blueprint_removed(ds, id, n - 1) {
            Err(e) => Err(e),
            Ok(prev) => match ds[n - 1].blueprint_selection {
                BlueprintSelectionView::Fixed(ids) => match first_match(ids, is_blueprint(id)) {
                    None => Err(Error::BlueprintIdNotFound),
                    Some(p) => Ok(
                        prev.push(with_selection(ds[n - 1], BlueprintSelectionView::Fixed(ids.remove(p)))),
                    ),
                },
                BlueprintSelectionView::All => Err(Error::NotInFixedMode),
            },
        }
    }
}

/// The first position of `id` in `ids`.
fn find_blueprint(ids: &Vec<BlueprintId>, id: BlueprintId) -> (r: Option<usize>)
    ensures
        first_match(ids@, is_blueprint(id)) == match r {
            Some(i) => Some(i as int),
            None => None::<int>,
        },
        r is Some ==> r->0 < ids@.len(),
{
    let ghost p = is_blueprint(id);
    let mut i: usize = 0;
    while i < ids.len()
        invariant
            p == is_blueprint(id),
            i <= ids@.len(),
            forall|j: int| 0 <= j < i ==> !p(#[trigger] ids@[j]),
        decreases ids@.len() - i,
    {
        if ids[i] == id {
            proof {
                lemma_first_match(ids@, p, Some(i as int));
            }
            return Some(i);
        }
        i = i + 1;
    }
    proof {
        lemma_first_match(ids@, p, None);
    }
    None
}

/// The delegations with blueprint `id` added (`add`) to, or removed from,
/// each fixed selection.
fn change_blueprints(ds: &Vec<BondInfoDelegator>, id: BlueprintId, max: u32, add: bool) -> (r: Result<
    Vec<BondInfoDelegator>,
    Error,
>)
    ensures
        ({
            let vs = ds@.map_values(|d: BondInfoDelegator| d@);
            let spec_r = if add {
                blueprint_added(vs, id, max, vs.len() as int)
            } else {
                blueprint_removed(vs, id, vs.len() as int)
            };
            match spec_r {
                Ok(v) => r is Ok && r->Ok_0@.map_values(|d: BondInfoDelegator| d@) == v,
                Err(e) => r == Err::<Vec<BondInfoDelegator>, Error>(e),
            }
        }),
{
    let ghost vs = ds@.map_values(|d: BondInfoDelegator| d@);
    let mut out: Vec<BondInfoDelegator> = Vec::new();
    let mut i: usize = 0;
    proof {
        assert(out@.map_values(|d: BondInfoDelegator| d@) =~= Seq::<BondInfoDelegatorView>::empty());
    }
    while i < ds.len()
        invariant
            vs == ds@.map_values(|d: BondInfoDelegator| d@),
            i <= ds@.len(),
            (if add {
                blueprint_added(vs, id, max, i as int)
            } else {
                blueprint_removed(vs, id, i as int)
            }) == Ok::<Seq<BondInfoDelegatorView>, Error>(
                out@.map_values(|d: BondInfoDelegator| d@),
            ),
        decreases ds@.len() - i,
    {
        let d = &ds[i];
        assert(d@ == vs[i as int]);
        let ghost before = out@.map_values(|d: BondInfoDelegator| d@);
        let new_ids = match &d.blueprint_selection {
            DelegatorBlueprintSelection::All => {
                proof {
                    assert(vs.len() >= i + 1);
                    lemma_prefix_err(vs, id, max, add, i as int + 1);
                }
                return Err(Error::NotInFixedMode);
            },
            DelegatorBlueprintSelection::Fixed(ids) => {
                if add {
                    if d.blueprint_selection.contains(&id) {
                        proof {
                            lemma_prefix_err(vs, id, max, add, i as int + 1);
                        }
                        return Err(Error::DuplicateBlueprintId);
                    }
                    if ids.len() >= max as usize {
                        proof {
                            lemma_prefix_err(vs, id, max, add, i as int + 1);
                        }
                        return Err(Error::MaxBlueprintsExceeded);
                    }
                    let mut c = copy_ids(ids);
                    c.push(id);
                    c
                } else {
                    match find_blueprint(ids, id) {
                        None => {
                            proof {
                                lemma_prefix_err(vs, id, max, add, i as int + 1);
                            }
                            return Err(Error::BlueprintIdNotFound);
                        },
                        Some(p) => {
                            let mut c = copy_ids(ids);
                            c.remove(p);
                            c
                        },
                    }
                }
            },
        };
        let nd = BondInfoDelegator {
            operator: d.operator,
            amount: d.amount,
            asset: d.asset,
            blueprint_selection: DelegatorBlueprintSelection::Fixed(new_ids),
            is_nomination: d.is_nomination,
        };
        out.push(nd);
        proof {
            assert(out@.map_values(|d: BondInfoDelegator| d@) =~= before.push(nd@));
        }
        i = i + 1;
    }
    Ok(out)
}

proof fn lemma_prefix_err(
    vs: Seq<BondInfoDelegatorView>,
    id: BlueprintId,
    max: u32,
    add: bool,
    n: int,
)
    requires
        0 <= n <= vs.len(),
        (if add {
            blueprint_added(vs, id, max, n)
        } else {
            blueprint_removed(vs, id, n)
        }) is Err,
    ensures
        (if add {
            blueprint_added(vs, id, max, vs.len() as int)
        } else {
            blueprint_removed(vs, id, vs.len() as int)
        }) == (if add {
            blueprint_added(vs, id, max, n)
        } else {
            blueprint_removed(vs, id, n)
        }),
    decreases vs.len() - n,
{
    if n < vs.len() {
        lemma_prefix_err(vs, id, max, add, n + 1);
    }
}

impl MultiAssetDelegation {
    /// Adds blueprint `id` to the fixed selection of every delegation of
    /// `who`.
    pub fn add_blueprint_id(&mut self, who: AccountId, id: BlueprintId) -> (r: Result<(), Error>)
        ensures
            ({
                let dels = old(self).delegators@;
                let m = dels[who];
                let res = blueprint_added(
                    m.delegations,
                    id,
                    old(self).config.max_delegator_blueprints,
                    m.delegations.len() as int,
                );
                &&& !dels.contains_key(who) ==> r == Err::<(), Error>(Error::NotDelegator)
                &&& dels.contains_key(who) && res is Err ==> r == Err::<(), Error>(res->Err_0)
                &&& r is Ok <==> dels.contains_key(who) && res is Ok
                &&& r is Err ==> final(self).same_state(old(self))
                &&& r is Ok ==> {
                    &&& final(self).delegators@ == dels.insert(
                        who,
                        DelegatorMetadataView { delegations: res->Ok_0, ..m },
                    )
                    &&& final(self).keeps_all_but_delegators(old(self))
                    &&& same_ledger(final(self).ledger, old(self).ledger)
                    &&& final(self).events@ == old(self).events@
                }
            }),
    {
        self.change_blueprint_id(who, id, true)
    }

    /// Removes the first occurrence of blueprint `id` from the fixed
    /// selection of every delegation of `who`.
    pub fn remove_blueprint_id(&mut self, who: AccountId, id: BlueprintId) -> (r: Result<(), Error>)
        ensures
            ({
                let dels = old(self).delegators@;
                let m = dels[who];
                let res = blueprint_removed(m.delegations, id, m.delegations.len() as int);
                &&& !dels.contains_key(who) ==> r == Err::<(), Error>(Error::NotDelegator)
                &&& dels.contains_key(who) && res is Err ==> r == Err::<(), Error>(res->Err_0)
                &&& r is Ok <==> dels.contains_key(who) && res is Ok
                &&& r is Err ==> final(self).same_state(old(self))
                &&& r is Ok ==> {
                    &&& final(self).delegators@ == dels.insert(
                        who,
                        DelegatorMetadataView { delegations: res->Ok_0, ..m },
                    )
                    &&& final(self).keeps_all_but_delegators(old(self))
                    &&& same_ledger(final(self).ledger, old(self).ledger)
                    &&& final(self).events@ == old(self).events@
                }
            }),
    {
        self.change_blueprint_id(who, id, false)
    }

    fn change_blueprint_id(&mut self, who: AccountId, id: BlueprintId, add: bool) -> (r: Result<
        (),
        Error,
    >)
        ensures
            ({
                let dels = old(self).delegators@;
                let m = dels[who];
                let res = if add {
                    blueprint_added(
                        m.delegations,
                        id,
                        old(self).config.max_delegator_blueprints,
                        m.delegations.len() as int,
                    )
                } else {
                    blueprint_removed(m.delegations, id, m.delegations.len() as int)
                };
                &&& !dels.contains_key(who) ==> r == Err::<(), Error>(Error::NotDelegator)
                &&& dels.contains_key(who) && res is Err ==> r == Err::<(), Error>(res->Err_0)
                &&& r is Ok <==> dels.contains_key(who) && res is Ok
                &&& r is Err ==> final(self).same_state(old(self))
                &&& r is Ok ==> {
                    &&& final(self).delegators@ == dels.insert(
                        who,
                        DelegatorMetadataView { delegations: res->Ok_0, ..m },
                    )
                    &&& final(self).keeps_all_but_delegators(old(self))
                    &&& same_ledger(final(self).ledger, old(self).ledger)
                    &&& final(self).events@ == old(self).events@
                }
            }),
    {
        let max = self.config.max_delegator_blueprints;
        let new_ds = match self.delegators.get(&who) {
            None => {
                return Err(Error::NotDelegator);
            },
            Some(m) => match change_blueprints(&m.delegations, id, max, add) {
                Err(e) => {
                    return Err(e);
                },
                Ok(v) => v,
            },
        };
        let mut m = self.delegators.remove(&who).unwrap();
        m.delegations = new_ds;
        self.delegators.insert(who, m);
        Ok(())
    }
}

} // verus!
