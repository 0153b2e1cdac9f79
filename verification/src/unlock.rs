//! The unlock driver: walking a transaction's lock groups and asking the
//! matching unlocker to fill placeholder witnesses before balancing and
//! real witnesses after it.
//!
//! Unlockers only rewrite witnesses: every other list of the transaction
//! is promised unchanged, which is what lets a balanced transaction stay
//! balanced in shape while it is signed.

use vstd::prelude::*;

use crate::groups::{
    ScriptGroup, ScriptGroupV, ScriptGroups, cell_lock_at, gen_script_groups, group_has_input,
    group_views, input_covered,
};
use crate::traits::{TransactionDependencyError, TransactionDependencyProvider};
use crate::types::{
    ScriptId, ScriptIdV, ScriptV, TransactionView, TxV, clone_script, script_id_eq, script_id_of,
    spec_script_id,
};

verus! {

/// Failure while filling or replacing witnesses.
#[derive(Debug, PartialEq, Eq)]
pub enum UnlockError {
    /// A previous-cell lookup failed.
    TxDep(TransactionDependencyError),
    /// The unlocker rejected the transaction or group.
    Other,
}

/// Whether `b` is `a` with at most the witness list changed.
pub open spec fn witnesses_only_change(a: TxV, b: TxV) -> bool {
    &&& b.version == a.version
    &&& b.cell_deps == a.cell_deps
    &&& b.header_deps == a.header_deps
    &&& b.inputs == a.inputs
    &&& b.outputs == a.outputs
    &&& b.outputs_data == a.outputs_data
}

/// Produces and replaces witnesses for the script groups it recognizes.
/// Implementations live outside the crate; each witness-producing method
/// promises to change nothing but the witness list.
pub trait ScriptUnlocker<P: TransactionDependencyProvider>: Sized {
    /// Which script args this unlocker recognizes.
    spec fn matches_args(&self, args: Seq<u8>) -> bool;

    /// Test whether this unlocker recognizes the script args.
    fn match_args(&self, args: &Vec<u8>) -> (r: bool)
        ensures
            r == self.matches_args(args@),
    ;

    /// Whether the group already carries a final witness.
    fn is_unlocked(&self, tx: &TransactionView, script_group: &ScriptGroup, tx_dep_provider: &P) -> (r:
        Result<bool, UnlockError>);

    /// Insert a placeholder witness sized like a real signature.
    fn fill_placeholder_witness(
        &self,
        tx: &TransactionView,
        script_group: &ScriptGroup,
        tx_dep_provider: &P,
    ) -> (r: Result<TransactionView, UnlockError>)
        ensures
            match r {
                Ok(t) => witnesses_only_change(tx@, t@),
                Err(_) => true,
            },
    ;

    /// Replace the placeholder with a real signature-bearing witness.
    fn unlock(
        &self,
        tx: &TransactionView,
        script_group: &ScriptGroup,
        tx_dep_provider: &P,
    ) -> (r: Result<TransactionView, UnlockError>)
        ensures
            match r {
                Ok(t) => witnesses_only_change(tx@, t@),
                Err(_) => true,
            },
    ;

    /// Strip the placeholder back to its true empty form.
    fn clear_placeholder_witness(&self, tx: &TransactionView, script_group: &ScriptGroup) -> (r:
        Result<TransactionView, UnlockError>)
        ensures
            match r {
                Ok(t) => witnesses_only_change(tx@, t@),
                Err(_) => true,
            },
    ;
}

/// A copy of a list of positions.
fn clone_indices(v: &Vec<usize>) -> (r: Vec<usize>)
    ensures
        r@ == v@,
{
    let mut r: Vec<usize> = Vec::new();
    let mut i: usize = 0;
    while i < v.len()
        invariant
            i <= v@.len(),
            r@ == v@.subrange(0, i as int),
        decreases v@.len() - i,
    {
        r.push(v[i]);
        proof {
            assert(r@ =~= v@.subrange(0, i + 1 as int));
        }
        i += 1;
    }
    proof {
        assert(r@ =~= v@);
    }
    r
}

/// A copy of a script group.
pub fn clone_script_group(g: &ScriptGroup) -> (r: ScriptGroup)
    ensures
        r@ == g@,
{
    ScriptGroup {
        script: clone_script(&g.script),
        group_type: match g.group_type {
            crate::groups::ScriptGroupType::Lock => crate::groups::ScriptGroupType::Lock,
            crate::groups::ScriptGroupType::Type => crate::groups::ScriptGroupType::Type,
        },
        input_indices: clone_indices(&g.input_indices),
        output_indices: clone_indices(&g.output_indices),
    }
}

/// Whether an unlocker is registered under a script id.
pub open spec fn unlocker_registered<P: TransactionDependencyProvider, U: ScriptUnlocker<P>>(
    unlockers: Seq<(ScriptId, U)>,
    id: ScriptIdV,
) -> bool {
    exists|k: int|
        #![trigger unlockers[k]]
        0 <= k < unlockers.len() && unlockers[k].0@ == id
}

/// Whether the list holds a group equal to `g`.
pub open spec fn has_group(groups: Seq<ScriptGroupV>, g: ScriptGroupV) -> bool {
    exists|j: int|
        #![trigger groups[j]]
        0 <= j < groups.len() && groups[j] == g
}

/// Whether no unlocker registered under this script's id recognizes its
/// args. Vacuously true when none is registered at all.
pub open spec fn no_matching_unlocker<P: TransactionDependencyProvider, U: ScriptUnlocker<P>>(
    unlockers: Seq<(ScriptId, U)>,
    s: ScriptV,
) -> bool {
    forall|k: int|
        0 <= k < unlockers.len() && (#[trigger] unlockers[k]).0@ == spec_script_id(s)
            ==> !unlockers[k].1.matches_args(s.args)
}

/// Whether some unlocker registered under this script's id does not
/// recognize its args.
pub open spec fn some_non_matching<P: TransactionDependencyProvider, U: ScriptUnlocker<P>>(
    unlockers: Seq<(ScriptId, U)>,
    s: ScriptV,
) -> bool {
    exists|k: int|
        #![trigger unlockers[k]]
        0 <= k < unlockers.len() && unlockers[k].0@ == spec_script_id(s)
            && !unlockers[k].1.matches_args(s.args)
}

/// Find the unlocker registered under a script id.
fn find_unlocker<'a, P: TransactionDependencyProvider, U: ScriptUnlocker<P>>(
    unlockers: &'a Vec<(ScriptId, U)>,
    id: &ScriptId,
) -> (r: Option<&'a U>)
    ensures
        match r {
            Some(u) => exists|k: int|
                #![trigger unlockers@[k]]
                0 <= k < unlockers@.len() && unlockers@[k].0@ == id@ && unlockers@[k].1 == *u,
            None => !unlocker_registered(unlockers@, id@),
        },
{
    let mut k: usize = 0;
    while k < unlockers.len()
        invariant
            k <= unlockers@.len(),
            forall|k2: int| 0 <= k2 < k ==> (#[trigger] unlockers@[k2]).0@ != id@,
        decreases unlockers@.len() - k,
    {
        if script_id_eq(&unlockers[k].0, id) {
            let u = &unlockers[k].1;
            proof {
                assert(unlockers@[k as int].0@ == id@);
                assert(unlockers@[k as int].1 == *u);
            }
            return Some(u);
        }
        k += 1;
    }
    proof {
        if unlocker_registered(unlockers@, id@) {
            let k2 = choose|k2: int|
                #![trigger unlockers@[k2]]
                0 <= k2 < unlockers@.len() && unlockers@[k2].0@ == id@;
            assert(false);
        }
    }
    None
}

/// Fill placeholder lock script witnesses.
///
/// For every lock group with a registered unlocker that reports the group
/// not yet unlocked and whose args match, insert its placeholder witness;
/// every other lock group — no unlocker registered, already unlocked, or
/// args not matching — is recorded in the returned unmatched list. Only
/// the witness list of the transaction changes; with no unlockers the
/// transaction comes back unchanged (and the call succeeds when every
/// previous cell resolves), and every input position whose lock no
/// registered unlocker recognizes (none registered at all included) lies
/// in some returned group.
pub fn fill_placeholder_witnesses<P: TransactionDependencyProvider, U: ScriptUnlocker<P>>(
    balanced_tx: TransactionView,
    tx_dep_provider: &P,
    unlockers: &Vec<(ScriptId, U)>,
) -> (r: Result<(TransactionView, Vec<ScriptGroup>), UnlockError>)
    ensures
        match r {
            Ok(out) => {
                &&& witnesses_only_change(balanced_tx@, out.0@)
                &&& (unlockers@.len() == 0 ==> out.0@ == balanced_tx@)
                &&& forall|i: int|
                    0 <= i < balanced_tx@.inputs.len() && (match cell_lock_at(
                        tx_dep_provider,
                        balanced_tx@,
                        i,
                    ) {
                        Some(s) => no_matching_unlocker(unlockers@, s),
                        None => false,
                    }) ==> #[trigger] input_covered(group_views(out.1@), i)
            },
            Err(_) => true,
        },
        (unlockers@.len() == 0 && (forall|i: int|
            0 <= i < balanced_tx@.inputs.len() ==> #[trigger] cell_lock_at(
                tx_dep_provider,
                balanced_tx@,
                i,
            ) is Some)) ==> (r is Ok),
{
    let ghost orig = balanced_tx@;
    let groups: ScriptGroups = match gen_script_groups(&balanced_tx, tx_dep_provider) {
        Ok(g) => g,
        Err(e) => {
            return Err(UnlockError::TxDep(e));
        },
    };
    let ghost gv = group_views(groups.lock_groups@);
    let mut tx = balanced_tx;
    let mut not_matched: Vec<ScriptGroup> = Vec::new();
    let mut k: usize = 0;
    while k < groups.lock_groups.len()
        invariant
            k <= groups.lock_groups@.len(),
            gv == group_views(groups.lock_groups@),
            witnesses_only_change(orig, tx@),
            unlockers@.len() == 0 ==> tx@ == orig,
            forall|k2: int|
                0 <= k2 < k && no_matching_unlocker(
                    unlockers@,
                    (#[trigger] gv[k2]).script,
                ) ==> has_group(group_views(not_matched@), gv[k2]),
        decreases groups.lock_groups@.len() - k,
    {
        let ghost nm0 = group_views(not_matched@);
        let group = &groups.lock_groups[k];
        proof {
            assert(gv[k as int] == groups.lock_groups@[k as int]@);
        }
        let id = script_id_of(&group.script);
        let mut handled = false;
        match find_unlocker(unlockers, &id) {
            Some(unlocker) => {
                let unlocked = match unlocker.is_unlocked(&tx, group, tx_dep_provider) {
                    Ok(b) => b,
                    Err(e) => {
                        return Err(e);
                    },
                };
                if !unlocked && unlocker.match_args(&group.script.args) {
                    proof {
                        if no_matching_unlocker(unlockers@, gv[k as int].script) {
                            let kk = choose|kk: int|
                                #![trigger unlockers@[kk]]
                                0 <= kk < unlockers@.len() && unlockers@[kk].0@ == id@
                                    && unlockers@[kk].1 == *unlocker;
                            assert(id@ == spec_script_id(gv[k as int].script));
                            assert(!unlockers@[kk].1.matches_args(gv[k as int].script.args));
                            assert(group.script.args@ == gv[k as int].script.args);
                            assert(false);
                        }
                    }
                    tx = match unlocker.fill_placeholder_witness(&tx, group, tx_dep_provider) {
                        Ok(t) => t,
                        Err(e) => {
                            return Err(e);
                        },
                    };
                    handled = true;
                }
            },
            None => {},
        }
        if !handled {
            not_matched.push(clone_script_group(group));
            proof {
                assert forall|j: int| 0 <= j < nm0.len() implies #[trigger] group_views(
                    not_matched@,
                )[j] == nm0[j] by {
                    assert(group_views(not_matched@)[j] == not_matched@[j]@);
                }
                assert(group_views(not_matched@)[nm0.len() as int] == gv[k as int]);
            }
        }
        proof {
            assert forall|k2: int|
                0 <= k2 < k + 1 && no_matching_unlocker(
                    unlockers@,
                    (#[trigger] gv[k2]).script,
                ) implies has_group(group_views(not_matched@), gv[k2]) by {
                if k2 < k {
                    let j = choose|j: int|
                        #![trigger nm0[j]]
                        0 <= j < nm0.len() && nm0[j] == gv[k2];
                    assert(group_views(not_matched@)[j] == gv[k2]);
                } else {
                    assert(!handled);
                    assert(group_views(not_matched@)[nm0.len() as int] == gv[k2]);
                }
            }
        }
        k += 1;
    }
    proof {
        lemma_never_matching_covered(
            tx_dep_provider,
            orig,
            gv,
            unlockers@,
            group_views(not_matched@),
        );
    }
    Ok((tx, not_matched))
}

/// When the lock groups cover all inputs and every group whose script no
/// registered unlocker recognizes lies in the returned list, every input
/// position held by such a lock is covered by the returned list.
proof fn lemma_never_matching_covered<P: TransactionDependencyProvider, U: ScriptUnlocker<P>>(
    p: &P,
    t: TxV,
    gv: Seq<ScriptGroupV>,
    unlockers: Seq<(ScriptId, U)>,
    nm: Seq<ScriptGroupV>,
)
    requires
        crate::groups::lock_groups_ok(p, t, gv, t.inputs.len() as int),
        crate::groups::lock_groups_cover(gv, t.inputs.len() as int),
        forall|k2: int|
            0 <= k2 < gv.len() && no_matching_unlocker(
                unlockers,
                (#[trigger] gv[k2]).script,
            ) ==> has_group(nm, gv[k2]),
    ensures
        forall|i: int|
            0 <= i < t.inputs.len() && (match cell_lock_at(p, t, i) {
                Some(s) => no_matching_unlocker(unlockers, s),
                None => false,
            }) ==> #[trigger] input_covered(nm, i),
{
    assert forall|i: int|
        0 <= i < t.inputs.len() && (match cell_lock_at(p, t, i) {
            Some(s) => no_matching_unlocker(unlockers, s),
            None => false,
        }) implies #[trigger] input_covered(nm, i) by {
        assert(input_covered(gv, i));
        let kk = choose|kk: int| 0 <= kk < gv.len() && group_has_input(gv[kk], i);
        let a = choose|a: int|
            0 <= a < gv[kk].input_indices.len() && gv[kk].input_indices[a] == i;
        assert(cell_lock_at(p, t, gv[kk].input_indices[a] as int) == Some(gv[kk].script));
        assert(has_group(nm, gv[kk]));
        let j = choose|j: int|
            #![trigger nm[j]]
            0 <= j < nm.len() && nm[j] == gv[kk];
        assert(group_has_input(nm[j], i));
    }
}

/// When the lock groups cover all inputs and every group with an
/// unregistered script id lies in the returned list, every input position
/// held by an unregistered lock is covered by the returned list.
proof fn lemma_unregistered_covered<P: TransactionDependencyProvider, U: ScriptUnlocker<P>>(
    p: &P,
    t: TxV,
    gv: Seq<ScriptGroupV>,
    unlockers: Seq<(ScriptId, U)>,
    nm: Seq<ScriptGroupV>,
)
    requires
        crate::groups::lock_groups_ok(p, t, gv, t.inputs.len() as int),
        crate::groups::lock_groups_cover(gv, t.inputs.len() as int),
        forall|k2: int|
            0 <= k2 < gv.len() && !unlocker_registered(
                unlockers,
                spec_script_id((#[trigger] gv[k2]).script),
            ) ==> has_group(nm, gv[k2]),
    ensures
        forall|i: int|
            0 <= i < t.inputs.len() && (match cell_lock_at(p, t, i) {
                Some(s) => !unlocker_registered(unlockers, spec_script_id(s)),
                None => false,
            }) ==> #[trigger] input_covered(nm, i),
{
    assert forall|i: int|
        0 <= i < t.inputs.len() && (match cell_lock_at(p, t, i) {
            Some(s) => !unlocker_registered(unlockers, spec_script_id(s)),
            None => false,
        }) implies #[trigger] input_covered(nm, i) by {
        assert(input_covered(gv, i));
        let kk = choose|kk: int| 0 <= kk < gv.len() && group_has_input(gv[kk], i);
        let a = choose|a: int|
            0 <= a < gv[kk].input_indices.len() && gv[kk].input_indices[a] == i;
        assert(cell_lock_at(p, t, gv[kk].input_indices[a] as int) == Some(gv[kk].script));
        assert(has_group(nm, gv[kk]));
        let j = choose|j: int|
            #![trigger nm[j]]
            0 <= j < nm.len() && nm[j] == gv[kk];
        assert(group_has_input(nm[j], i));
    }
}

/// Unlock (sign) a balanced transaction.
///
/// For every lock group: a registered unlocker that already unlocked the
/// group is asked to clear its placeholder; one whose args match is asked
/// to unlock; every other group comes back in the not-unlocked list.
/// Only the witness list of the transaction changes; with no unlockers the
/// transaction comes back unchanged (and the call succeeds when every
/// previous cell resolves); every input position whose lock has no
/// registered unlocker lies in some returned group; and a returned group
/// with a registered unlocker is there only because some unlocker
/// registered under its id did not recognize its args.
pub fn unlock_tx<P: TransactionDependencyProvider, U: ScriptUnlocker<P>>(
    balanced_tx: TransactionView,
    tx_dep_provider: &P,
    unlockers: &Vec<(ScriptId, U)>,
) -> (r: Result<(TransactionView, Vec<ScriptGroup>), UnlockError>)
    ensures
        match r {
            Ok(out) => {
                &&& witnesses_only_change(balanced_tx@, out.0@)
                &&& (unlockers@.len() == 0 ==> out.0@ == balanced_tx@)
                &&& forall|i: int|
                    0 <= i < balanced_tx@.inputs.len() && (match cell_lock_at(
                        tx_dep_provider,
                        balanced_tx@,
                        i,
                    ) {
                        Some(s) => !unlocker_registered(unlockers@, spec_script_id(s)),
                        None => false,
                    }) ==> #[trigger] input_covered(group_views(out.1@), i)
                &&& forall|j: int|
                    0 <= j < out.1@.len() && unlocker_registered(
                        unlockers@,
                        spec_script_id((#[trigger] group_views(out.1@)[j]).script),
                    ) ==> some_non_matching(unlockers@, group_views(out.1@)[j].script)
            },
            Err(_) => true,
        },
        (unlockers@.len() == 0 && (forall|i: int|
            0 <= i < balanced_tx@.inputs.len() ==> #[trigger] cell_lock_at(
                tx_dep_provider,
                balanced_tx@,
                i,
            ) is Some)) ==> (r is Ok),
{
    let ghost orig = balanced_tx@;
    let groups: ScriptGroups = match gen_script_groups(&balanced_tx, tx_dep_provider) {
        Ok(g) => g,
        Err(e) => {
            return Err(UnlockError::TxDep(e));
        },
    };
    let ghost gv = group_views(groups.lock_groups@);
    let mut tx = balanced_tx;
    let mut not_unlocked: Vec<ScriptGroup> = Vec::new();
    let mut k: usize = 0;
    while k < groups.lock_groups.len()
        invariant
            k <= groups.lock_groups@.len(),
            gv == group_views(groups.lock_groups@),
            witnesses_only_change(orig, tx@),
            unlockers@.len() == 0 ==> tx@ == orig,
            forall|k2: int|
                0 <= k2 < k && !unlocker_registered(
                    unlockers@,
                    spec_script_id((#[trigger] gv[k2]).script),
                ) ==> has_group(group_views(not_unlocked@), gv[k2]),
            forall|j: int|
                0 <= j < group_views(not_unlocked@).len() && unlocker_registered(
                    unlockers@,
                    spec_script_id((#[trigger] group_views(not_unlocked@)[j]).script),
                ) ==> some_non_matching(unlockers@, group_views(not_unlocked@)[j].script),
        decreases groups.lock_groups@.len() - k,
    {
        let ghost nm0 = group_views(not_unlocked@);
        let group = &groups.lock_groups[k];
        proof {
            assert(gv[k as int] == groups.lock_groups@[k as int]@);
        }
        let id = script_id_of(&group.script);
        let mut handled = false;
        match find_unlocker(unlockers, &id) {
            Some(unlocker) => {
                let unlocked = match unlocker.is_unlocked(&tx, group, tx_dep_provider) {
                    Ok(b) => b,
                    Err(e) => {
                        return Err(e);
                    },
                };
                if unlocked {
                    tx = match unlocker.clear_placeholder_witness(&tx, group) {
                        Ok(t) => t,
                        Err(e) => {
                            return Err(e);
                        },
                    };
                    handled = true;
                } else if unlocker.match_args(&group.script.args) {
                    tx = match unlocker.unlock(&tx, group, tx_dep_provider) {
                        Ok(t) => t,
                        Err(e) => {
                            return Err(e);
                        },
                    };
                    handled = true;
                } else {
                    proof {
                        let kk = choose|kk: int|
                            #![trigger unlockers@[kk]]
                            0 <= kk < unlockers@.len() && unlockers@[kk].0@ == id@ && unlockers@[
                                kk
                            ].1 == *unlocker;
                        assert(id@ == spec_script_id(gv[k as int].script));
                        assert(group.script.args@ == gv[k as int].script.args);
                        assert(!unlockers@[kk].1.matches_args(gv[k as int].script.args));
                        assert(some_non_matching(unlockers@, gv[k as int].script));
                    }
                }
            },
            None => {},
        }
        if !handled {
            not_unlocked.push(clone_script_group(group));
            proof {
                assert forall|j: int| 0 <= j < nm0.len() implies #[trigger] group_views(
                    not_unlocked@,
                )[j] == nm0[j] by {
                    assert(group_views(not_unlocked@)[j] == not_unlocked@[j]@);
                }
                assert(group_views(not_unlocked@)[nm0.len() as int] == gv[k as int]);
                assert forall|j: int|
                    0 <= j < group_views(not_unlocked@).len() && unlocker_registered(
                        unlockers@,
                        spec_script_id((#[trigger] group_views(not_unlocked@)[j]).script),
                    ) implies some_non_matching(
                    unlockers@,
                    group_views(not_unlocked@)[j].script,
                ) by {
                    if j < nm0.len() {
                        assert(group_views(not_unlocked@)[j] == nm0[j]);
                    } else {
                        assert(group_views(not_unlocked@)[j] == gv[k as int]);
                        assert(id@ == spec_script_id(gv[k as int].script));
                    }
                }
            }
        }
        proof {
            assert forall|k2: int|
                0 <= k2 < k + 1 && !unlocker_registered(
                    unlockers@,
                    spec_script_id((#[trigger] gv[k2]).script),
                ) implies has_group(group_views(not_unlocked@), gv[k2]) by {
                if k2 < k {
                    let j = choose|j: int|
                        #![trigger nm0[j]]
                        0 <= j < nm0.len() && nm0[j] == gv[k2];
                    assert(group_views(not_unlocked@)[j] == gv[k2]);
                } else {
                    assert(!handled);
                    assert(group_views(not_unlocked@)[nm0.len() as int] == gv[k2]);
                }
            }
        }
        k += 1;
    }
    proof {
        lemma_unregistered_covered(
            tx_dep_provider,
            orig,
            gv,
            unlockers@,
            group_views(not_unlocked@),
        );
    }
    Ok((tx, not_unlocked))
}

} // verus!
