//! Script groups: the partition of a transaction's input and output
//! positions by the script that governs them.
//!
//! Signature checking on the ledger runs once per group, so the groups
//! must partition the inputs: every input position lands in exactly one
//! lock group, the group whose script is the lock of the cell it spends.
//! Type groups collect the positions whose cell (for inputs) or output
//! (for outputs) carries a type script.

use vstd::prelude::*;

use crate::traits::{TransactionDependencyError, TransactionDependencyProvider};
use crate::types::{CellOutput, Script, ScriptV, TransactionView, TxV, clone_script, script_eq};

verus! {

/// Whether a group collects positions by lock script or by type script.
#[derive(Debug, Clone, PartialEq, Eq)]
pub enum ScriptGroupType {
    Lock,
    Type,
}

/// The positions a single script governs: input indices whose spent cell
/// carries the script, and output indices whose output carries it.
pub struct ScriptGroup {
    pub script: Script,
    pub group_type: ScriptGroupType,
    pub input_indices: Vec<usize>,
    pub output_indices: Vec<usize>,
}

pub ghost struct ScriptGroupV {
    pub script: ScriptV,
    pub group_type: ScriptGroupType,
    pub input_indices: Seq<usize>,
    pub output_indices: Seq<usize>,
}

impl View for ScriptGroup {
    type V = ScriptGroupV;

    open spec fn view(&self) -> ScriptGroupV {
        ScriptGroupV {
            script: self.script@,
            group_type: self.group_type,
            input_indices: self.input_indices@,
            output_indices: self.output_indices@,
        }
    }
}

/// The views of a list of script groups.
pub open spec fn group_views(s: Seq<ScriptGroup>) -> Seq<ScriptGroupV> {
    s.map_values(|g: ScriptGroup| g@)
}

/// The lock and type groups of one transaction.
pub struct ScriptGroups {
    pub lock_groups: Vec<ScriptGroup>,
    pub type_groups: Vec<ScriptGroup>,
}

/// A strictly increasing list of positions.
pub open spec fn ascending(s: Seq<usize>) -> bool {
    forall|a: int, b: int| 0 <= a < b < s.len() ==> s[a] < s[b]
}

/// Whether a group lists input position `i`.
pub open spec fn group_has_input(g: ScriptGroupV, i: int) -> bool {
    exists|a: int| 0 <= a < g.input_indices.len() && g.input_indices[a] == i
}

/// Whether a group lists output position `j`.
pub open spec fn group_has_output(g: ScriptGroupV, j: int) -> bool {
    exists|a: int| 0 <= a < g.output_indices.len() && g.output_indices[a] == j
}

/// The lock of the cell input `i` spends, if the provider knows the cell.
pub open spec fn cell_lock_at<P: TransactionDependencyProvider>(p: &P, t: TxV, i: int) -> Option<
    ScriptV,
> {
    match p.cell_of(t.inputs[i].previous_output) {
        Some(c) => Some(c.lock),
        None => None,
    }
}

/// The type script of the cell input `i` spends, if the provider knows the
/// cell.
pub open spec fn cell_type_at<P: TransactionDependencyProvider>(p: &P, t: TxV, i: int) -> Option<
    ScriptV,
> {
    match p.cell_of(t.inputs[i].previous_output) {
        Some(c) => c.type_,
        None => None,
    }
}

/// Well-formedness of the lock groups over the first `bound` inputs: every
/// group is a lock group without output indices, its member positions are
/// below `bound`, strictly increasing, and each points at a cell whose
/// lock is the group's script; no two groups share a script.
pub open spec fn lock_groups_ok<P: TransactionDependencyProvider>(
    p: &P,
    t: TxV,
    gs: Seq<ScriptGroupV>,
    bound: int,
) -> bool {
    &&& forall|k: int|
        0 <= k < gs.len() ==> (#[trigger] gs[k]).group_type == ScriptGroupType::Lock
    &&& forall|k: int| 0 <= k < gs.len() ==> (#[trigger] gs[k]).output_indices.len() == 0
    &&& forall|k: int| 0 <= k < gs.len() ==> ascending((#[trigger] gs[k]).input_indices)
    &&& forall|k: int| 0 <= k < gs.len() ==> (#[trigger] gs[k]).input_indices.len() > 0
    &&& forall|k: int, a: int|
        #![trigger gs[k].input_indices[a]]
        0 <= k < gs.len() && 0 <= a < gs[k].input_indices.len() ==> {
            &&& gs[k].input_indices[a] < bound
            &&& cell_lock_at(p, t, gs[k].input_indices[a] as int) == Some(gs[k].script)
        }
    &&& forall|k1: int, k2: int|
        #![trigger gs[k1].script, gs[k2].script]
        0 <= k1 < k2 < gs.len() ==> gs[k1].script != gs[k2].script
}

/// Whether some group lists input position `i`.
pub open spec fn input_covered(gs: Seq<ScriptGroupV>, i: int) -> bool {
    exists|k: int| 0 <= k < gs.len() && group_has_input(gs[k], i)
}

/// Whether some group lists output position `j`.
pub open spec fn output_covered(gs: Seq<ScriptGroupV>, j: int) -> bool {
    exists|k: int| 0 <= k < gs.len() && group_has_output(gs[k], j)
}

/// Every input position below `bound` lies in some lock group.
pub open spec fn lock_groups_cover(gs: Seq<ScriptGroupV>, bound: int) -> bool {
    forall|i: int| 0 <= i < bound ==> #[trigger] input_covered(gs, i)
}

/// Well-formedness of the type groups over the first `in_bound` inputs and
/// `out_bound` outputs.
pub open spec fn type_groups_ok<P: TransactionDependencyProvider>(
    p: &P,
    t: TxV,
    gs: Seq<ScriptGroupV>,
    in_bound: int,
    out_bound: int,
) -> bool {
    &&& forall|k: int|
        0 <= k < gs.len() ==> (#[trigger] gs[k]).group_type == ScriptGroupType::Type
    &&& forall|k: int| 0 <= k < gs.len() ==> ascending((#[trigger] gs[k]).input_indices)
    &&& forall|k: int| 0 <= k < gs.len() ==> ascending((#[trigger] gs[k]).output_indices)
    &&& forall|k: int, a: int|
        #![trigger gs[k].input_indices[a]]
        0 <= k < gs.len() && 0 <= a < gs[k].input_indices.len() ==> {
            &&& gs[k].input_indices[a] < in_bound
            &&& cell_type_at(p, t, gs[k].input_indices[a] as int) == Some(gs[k].script)
        }
    &&& forall|k: int, a: int|
        #![trigger gs[k].output_indices[a]]
        0 <= k < gs.len() && 0 <= a < gs[k].output_indices.len() ==> {
            &&& gs[k].output_indices[a] < out_bound
            &&& gs[k].output_indices[a] < t.outputs.len()
            &&& t.outputs[gs[k].output_indices[a] as int].type_ == Some(gs[k].script)
        }
    &&& forall|k1: int, k2: int|
        #![trigger gs[k1].script, gs[k2].script]
        0 <= k1 < k2 < gs.len() ==> gs[k1].script != gs[k2].script
}

/// Every typed input position below `bound` lies in some type group.
pub open spec fn type_groups_cover_inputs<P: TransactionDependencyProvider>(
    p: &P,
    t: TxV,
    gs: Seq<ScriptGroupV>,
    bound: int,
) -> bool {
    forall|i: int|
        0 <= i < bound && cell_type_at(p, t, i) is Some ==> #[trigger] input_covered(gs, i)
}

/// Every typed output position below `bound` lies in some type group.
pub open spec fn type_groups_cover_outputs(t: TxV, gs: Seq<ScriptGroupV>, bound: int) -> bool {
    forall|j: int| 0 <= j < bound && t.outputs[j].type_ is Some ==> #[trigger] output_covered(gs, j)
}

/// Find the group holding a script, by script equality.
fn find_group(groups: &Vec<ScriptGroup>, script: &Script) -> (r: Option<usize>)
    ensures
        match r {
            Some(k) => k < groups@.len() && groups@[k as int]@.script == script@,
            None => forall|k: int|
                0 <= k < groups@.len() ==> (#[trigger] groups@[k])@.script != script@,
        },
{
    let mut k: usize = 0;
    while k < groups.len()
        invariant
            k <= groups.len(),
            forall|k2: int| 0 <= k2 < k ==> (#[trigger] groups@[k2])@.script != script@,
        decreases groups.len() - k,
    {
        if script_eq(&groups[k].script, script) {
            return Some(k);
        }
        k += 1;
    }
    None
}

/// Partition the transaction's inputs by the lock script of the cells they
/// spend, and its typed inputs and outputs by type script.
///
/// On success the lock groups partition the input positions: each position
/// appears in exactly one lock group (`lemma_lock_groups_partition` turns
/// the stated facts into that form), and groups carry the script their
/// members are locked by. The lookup of any input's previous cell failing
/// is the only failure.
pub fn gen_script_groups<P: TransactionDependencyProvider>(
    tx: &TransactionView,
    tx_dep_provider: &P,
) -> (r: Result<ScriptGroups, TransactionDependencyError>)
    ensures
        match r {
            Ok(gs) => {
                &&& lock_groups_ok(
                    tx_dep_provider,
                    tx@,
                    group_views(gs.lock_groups@),
                    tx@.inputs.len() as int,
                )
                &&& lock_groups_cover(group_views(gs.lock_groups@), tx@.inputs.len() as int)
                &&& type_groups_ok(
                    tx_dep_provider,
                    tx@,
                    group_views(gs.type_groups@),
                    tx@.inputs.len() as int,
                    tx@.outputs.len() as int,
                )
                &&& type_groups_cover_inputs(
                    tx_dep_provider,
                    tx@,
                    group_views(gs.type_groups@),
                    tx@.inputs.len() as int,
                )
                &&& type_groups_cover_outputs(
                    tx@,
                    group_views(gs.type_groups@),
                    tx@.outputs.len() as int,
                )
                &&& forall|i: int|
                    0 <= i < tx@.inputs.len() ==> #[trigger] cell_lock_at(
                        tx_dep_provider,
                        tx@,
                        i,
                    ) is Some
            },
            Err(_) => exists|i: int|
                0 <= i < tx@.inputs.len() && #[trigger] cell_lock_at(
                    tx_dep_provider,
                    tx@,
                    i,
                ) is None,
        },
{
    let mut lock_groups: Vec<ScriptGroup> = Vec::new();
    let mut type_groups: Vec<ScriptGroup> = Vec::new();
    let mut i: usize = 0;
    while i < tx.inputs.len()
        invariant
            i <= tx.inputs.len(),
            lock_groups_ok(tx_dep_provider, tx@, group_views(lock_groups@), i as int),
            lock_groups_cover(group_views(lock_groups@), i as int),
            type_groups_ok(tx_dep_provider, tx@, group_views(type_groups@), i as int, 0),
            type_groups_cover_inputs(tx_dep_provider, tx@, group_views(type_groups@), i as int),
            forall|i2: int|
                0 <= i2 < i ==> #[trigger] cell_lock_at(tx_dep_provider, tx@, i2) is Some,
        decreases tx.inputs.len() - i,
    {
        proof {
            assert(tx@.inputs[i as int] == tx.inputs@[i as int]@);
        }
        let cell: CellOutput = match tx_dep_provider.get_cell(&tx.inputs[i].previous_output) {
            Ok(c) => c,
            Err(_) => {
                proof {
                    assert(cell_lock_at(tx_dep_provider, tx@, i as int) is None);
                }
                return Err(TransactionDependencyError::NotFound);
            },
        };
        let ghost old_lock = group_views(lock_groups@);
        match find_group(&lock_groups, &cell.lock) {
            Some(k) => {
                lock_groups[k].input_indices.push(i);
                proof {
                    assert forall|k2: int|
                        #![trigger group_views(lock_groups@)[k2]]
                        0 <= k2 < old_lock.len() && k2 != k implies group_views(lock_groups@)[k2]
                        == old_lock[k2] by {
                        assert(group_views(lock_groups@)[k2] == lock_groups@[k2]@);
                    }
                    assert(group_views(lock_groups@)[k as int].input_indices == old_lock[
                        k as int
                    ].input_indices.push(i));
                    assert(group_views(lock_groups@)[k as int].script == old_lock[k as int].script);
                    assert(group_views(lock_groups@)[k as int].group_type == old_lock[
                        k as int
                    ].group_type);
                    assert(group_views(lock_groups@)[k as int].output_indices == old_lock[
                        k as int
                    ].output_indices);
                    lemma_update_preserves(old_lock, group_views(lock_groups@), k as int, i);
                }
            },
            None => {
                let mut idxs: Vec<usize> = Vec::new();
                idxs.push(i);
                lock_groups.push(
                    ScriptGroup {
                        script: clone_script(&cell.lock),
                        group_type: ScriptGroupType::Lock,
                        input_indices: idxs,
                        output_indices: Vec::new(),
                    },
                );
                proof {
                    assert forall|k2: int|
                        #![trigger group_views(lock_groups@)[k2]]
                        0 <= k2 < old_lock.len() implies group_views(lock_groups@)[k2] == old_lock[
                        k2
                    ] by {
                        assert(group_views(lock_groups@)[k2] == lock_groups@[k2]@);
                    }
                    lemma_push_preserves(old_lock, group_views(lock_groups@), i);
                }
            },
        }
        let ghost old_type = group_views(type_groups@);
        match &cell.type_ {
            Some(ts) => {
                match find_group(&type_groups, ts) {
                    Some(k) => {
                        type_groups[k].input_indices.push(i);
                        proof {
                            assert forall|k2: int|
                                #![trigger group_views(type_groups@)[k2]]
                                0 <= k2 < old_type.len() && k2 != k implies group_views(
                                type_groups@,
                            )[k2] == old_type[k2] by {
                                assert(group_views(type_groups@)[k2] == type_groups@[k2]@);
                            }
                            assert(group_views(type_groups@)[k as int].input_indices == old_type[
                                k as int
                            ].input_indices.push(i));
                            assert(group_views(type_groups@)[k as int].script == old_type[
                                k as int
                            ].script);
                            assert(group_views(type_groups@)[k as int].group_type == old_type[
                                k as int
                            ].group_type);
                            assert(group_views(type_groups@)[k as int].output_indices == old_type[
                                k as int
                            ].output_indices);
                            lemma_update_preserves(old_type, group_views(type_groups@), k as int, i);
                        }
                    },
                    None => {
                        let mut idxs: Vec<usize> = Vec::new();
                        idxs.push(i);
                        type_groups.push(
                            ScriptGroup {
                                script: clone_script(ts),
                                group_type: ScriptGroupType::Type,
                                input_indices: idxs,
                                output_indices: Vec::new(),
                            },
                        );
                        proof {
                            assert forall|k2: int|
                                #![trigger group_views(type_groups@)[k2]]
                                0 <= k2 < old_type.len() implies group_views(type_groups@)[k2]
                                == old_type[k2] by {
                                assert(group_views(type_groups@)[k2] == type_groups@[k2]@);
                            }
                            lemma_push_preserves(old_type, group_views(type_groups@), i);
                        }
                    },
                }
            },
            None => {},
        }
        i += 1;
    }
    let ghost in_n = tx@.inputs.len() as int;
    let mut j: usize = 0;
    while j < tx.outputs.len()
        invariant
            j <= tx.outputs.len(),
            lock_groups_ok(tx_dep_provider, tx@, group_views(lock_groups@), in_n),
            lock_groups_cover(group_views(lock_groups@), in_n),
            type_groups_ok(tx_dep_provider, tx@, group_views(type_groups@), in_n, j as int),
            type_groups_cover_inputs(tx_dep_provider, tx@, group_views(type_groups@), in_n),
            type_groups_cover_outputs(tx@, group_views(type_groups@), j as int),
            forall|i2: int|
                0 <= i2 < in_n ==> #[trigger] cell_lock_at(tx_dep_provider, tx@, i2) is Some,
            in_n == tx@.inputs.len(),
        decreases tx.outputs.len() - j,
    {
        proof {
            assert(tx@.outputs[j as int] == tx.outputs@[j as int]@);
        }
        let ghost old_type = group_views(type_groups@);
        match &tx.outputs[j].type_ {
            Some(ts) => {
                match find_group(&type_groups, ts) {
                    Some(k) => {
                        type_groups[k].output_indices.push(j);
                        proof {
                            assert forall|k2: int|
                                #![trigger group_views(type_groups@)[k2]]
                                0 <= k2 < old_type.len() && k2 != k implies group_views(
                                type_groups@,
                            )[k2] == old_type[k2] by {
                                assert(group_views(type_groups@)[k2] == type_groups@[k2]@);
                            }
                            assert(group_views(type_groups@)[k as int].output_indices == old_type[
                                k as int
                            ].output_indices.push(j));
                            assert(group_views(type_groups@)[k as int].script == old_type[
                                k as int
                            ].script);
                            assert(group_views(type_groups@)[k as int].group_type == old_type[
                                k as int
                            ].group_type);
                            assert(group_views(type_groups@)[k as int].input_indices == old_type[
                                k as int
                            ].input_indices);
                            lemma_update_out_preserves(
                                old_type,
                                group_views(type_groups@),
                                k as int,
                                j,
                            );
                        }
                    },
                    None => {
                        let mut idxs: Vec<usize> = Vec::new();
                        idxs.push(j);
                        type_groups.push(
                            ScriptGroup {
                                script: clone_script(ts),
                                group_type: ScriptGroupType::Type,
                                input_indices: Vec::new(),
                                output_indices: idxs,
                            },
                        );
                        proof {
                            assert forall|k2: int|
                                #![trigger group_views(type_groups@)[k2]]
                                0 <= k2 < old_type.len() implies group_views(type_groups@)[k2]
                                == old_type[k2] by {
                                assert(group_views(type_groups@)[k2] == type_groups@[k2]@);
                            }
                            lemma_push_out_preserves(old_type, group_views(type_groups@), j);
                        }
                    },
                }
            },
            None => {},
        }
        j += 1;
    }
    Ok(ScriptGroups { lock_groups, type_groups })
}

/// Appending a position to one group's input indices keeps every other
/// group intact and keeps all coverage witnesses valid.
proof fn lemma_update_preserves(
    old_gs: Seq<ScriptGroupV>,
    new_gs: Seq<ScriptGroupV>,
    k: int,
    i: usize,
)
    requires
        0 <= k < old_gs.len(),
        new_gs.len() == old_gs.len(),
        new_gs[k].input_indices == old_gs[k].input_indices.push(i),
        new_gs[k].script == old_gs[k].script,
        new_gs[k].group_type == old_gs[k].group_type,
        new_gs[k].output_indices == old_gs[k].output_indices,
        forall|k2: int| 0 <= k2 < old_gs.len() && k2 != k ==> new_gs[k2] == old_gs[k2],
        ascending(old_gs[k].input_indices),
        forall|a: int|
            0 <= a < old_gs[k].input_indices.len() ==> #[trigger] old_gs[k].input_indices[a] < i,
    ensures
        forall|i2: int| input_covered(old_gs, i2) ==> #[trigger] input_covered(new_gs, i2),
        input_covered(new_gs, i as int),
        forall|j2: int| output_covered(old_gs, j2) ==> #[trigger] output_covered(new_gs, j2),
        ascending(new_gs[k].input_indices),
{
    assert forall|a: int, b: int|
        0 <= a < b < new_gs[k].input_indices.len() implies new_gs[k].input_indices[a] < new_gs[
        k
    ].input_indices[b] by {
        if b < old_gs[k].input_indices.len() {
            assert(old_gs[k].input_indices[a] < old_gs[k].input_indices[b]);
        } else {
            assert(new_gs[k].input_indices[b] == i);
            assert(old_gs[k].input_indices[a] < i);
        }
    }
    assert forall|i2: int| input_covered(old_gs, i2) implies #[trigger] input_covered(
        new_gs,
        i2,
    ) by {
        let k2 = choose|k2: int| 0 <= k2 < old_gs.len() && group_has_input(old_gs[k2], i2);
        let a = choose|a: int|
            0 <= a < old_gs[k2].input_indices.len() && old_gs[k2].input_indices[a] == i2;
        if k2 == k {
            assert(new_gs[k].input_indices[a] == i2);
        } else {
            assert(group_has_input(new_gs[k2], i2));
        }
    }
    assert(new_gs[k].input_indices[new_gs[k].input_indices.len() - 1] == i);
    assert(group_has_input(new_gs[k], i as int));
    assert forall|j2: int| output_covered(old_gs, j2) implies #[trigger] output_covered(
        new_gs,
        j2,
    ) by {
        let k2 = choose|k2: int| 0 <= k2 < old_gs.len() && group_has_output(old_gs[k2], j2);
        let a = choose|a: int|
            0 <= a < old_gs[k2].output_indices.len() && old_gs[k2].output_indices[a] == j2;
        assert(new_gs[k2].output_indices[a] == j2);
    }
}

/// Appending a fresh one-member group keeps every coverage witness valid
/// and covers the new position.
proof fn lemma_push_preserves(old_gs: Seq<ScriptGroupV>, new_gs: Seq<ScriptGroupV>, i: usize)
    requires
        new_gs.len() == old_gs.len() + 1,
        forall|k2: int| 0 <= k2 < old_gs.len() ==> new_gs[k2] == old_gs[k2],
        new_gs.last().input_indices.len() == 1,
        new_gs.last().input_indices[0] == i,
    ensures
        forall|i2: int| input_covered(old_gs, i2) ==> #[trigger] input_covered(new_gs, i2),
        input_covered(new_gs, i as int),
        forall|j2: int| output_covered(old_gs, j2) ==> #[trigger] output_covered(new_gs, j2),
{
    assert forall|i2: int| input_covered(old_gs, i2) implies #[trigger] input_covered(
        new_gs,
        i2,
    ) by {
        let k2 = choose|k2: int| 0 <= k2 < old_gs.len() && group_has_input(old_gs[k2], i2);
        assert(group_has_input(new_gs[k2], i2));
    }
    assert(new_gs[new_gs.len() - 1].input_indices[0] == i);
    assert(group_has_input(new_gs[new_gs.len() - 1], i as int));
    assert forall|j2: int| output_covered(old_gs, j2) implies #[trigger] output_covered(
        new_gs,
        j2,
    ) by {
        let k2 = choose|k2: int| 0 <= k2 < old_gs.len() && group_has_output(old_gs[k2], j2);
        assert(group_has_output(new_gs[k2], j2));
    }
}

/// Appending a position to one group's output indices keeps every other
/// group intact and keeps all coverage witnesses valid.
proof fn lemma_update_out_preserves(
    old_gs: Seq<ScriptGroupV>,
    new_gs: Seq<ScriptGroupV>,
    k: int,
    j: usize,
)
    requires
        0 <= k < old_gs.len(),
        new_gs.len() == old_gs.len(),
        new_gs[k].output_indices == old_gs[k].output_indices.push(j),
        new_gs[k].script == old_gs[k].script,
        new_gs[k].group_type == old_gs[k].group_type,
        new_gs[k].input_indices == old_gs[k].input_indices,
        forall|k2: int| 0 <= k2 < old_gs.len() && k2 != k ==> new_gs[k2] == old_gs[k2],
        ascending(old_gs[k].output_indices),
        forall|a: int|
            0 <= a < old_gs[k].output_indices.len() ==> #[trigger] old_gs[k].output_indices[a] < j,
    ensures
        forall|i2: int| input_covered(old_gs, i2) ==> #[trigger] input_covered(new_gs, i2),
        forall|j2: int| output_covered(old_gs, j2) ==> #[trigger] output_covered(new_gs, j2),
        output_covered(new_gs, j as int),
        ascending(new_gs[k].output_indices),
{
    assert forall|a: int, b: int|
        0 <= a < b < new_gs[k].output_indices.len() implies new_gs[k].output_indices[a] < new_gs[
        k
    ].output_indices[b] by {
        if b < old_gs[k].output_indices.len() {
            assert(old_gs[k].output_indices[a] < old_gs[k].output_indices[b]);
        } else {
            assert(new_gs[k].output_indices[b] == j);
            assert(old_gs[k].output_indices[a] < j);
        }
    }
    assert forall|i2: int| input_covered(old_gs, i2) implies #[trigger] input_covered(
        new_gs,
        i2,
    ) by {
        let k2 = choose|k2: int| 0 <= k2 < old_gs.len() && group_has_input(old_gs[k2], i2);
        let a = choose|a: int|
            0 <= a < old_gs[k2].input_indices.len() && old_gs[k2].input_indices[a] == i2;
        assert(new_gs[k2].input_indices[a] == i2);
    }
    assert forall|j2: int| output_covered(old_gs, j2) implies #[trigger] output_covered(
        new_gs,
        j2,
    ) by {
        let k2 = choose|k2: int| 0 <= k2 < old_gs.len() && group_has_output(old_gs[k2], j2);
        let a = choose|a: int|
            0 <= a < old_gs[k2].output_indices.len() && old_gs[k2].output_indices[a] == j2;
        if k2 == k {
            assert(new_gs[k].output_indices[a] == j2);
        } else {
            assert(group_has_output(new_gs[k2], j2));
        }
    }
    assert(new_gs[k].output_indices[new_gs[k].output_indices.len() - 1] == j);
    assert(group_has_output(new_gs[k], j as int));
}

/// Appending a fresh group with one output member keeps every coverage
/// witness valid and covers the new position.
proof fn lemma_push_out_preserves(old_gs: Seq<ScriptGroupV>, new_gs: Seq<ScriptGroupV>, j: usize)
    requires
        new_gs.len() == old_gs.len() + 1,
        forall|k2: int| 0 <= k2 < old_gs.len() ==> new_gs[k2] == old_gs[k2],
        new_gs.last().output_indices.len() == 1,
        new_gs.last().output_indices[0] == j,
    ensures
        forall|i2: int| input_covered(old_gs, i2) ==> #[trigger] input_covered(new_gs, i2),
        forall|j2: int| output_covered(old_gs, j2) ==> #[trigger] output_covered(new_gs, j2),
        output_covered(new_gs, j as int),
{
    assert forall|i2: int| input_covered(old_gs, i2) implies #[trigger] input_covered(
        new_gs,
        i2,
    ) by {
        let k2 = choose|k2: int| 0 <= k2 < old_gs.len() && group_has_input(old_gs[k2], i2);
        assert(group_has_input(new_gs[k2], i2));
    }
    assert forall|j2: int| output_covered(old_gs, j2) implies #[trigger] output_covered(
        new_gs,
        j2,
    ) by {
        let k2 = choose|k2: int| 0 <= k2 < old_gs.len() && group_has_output(old_gs[k2], j2);
        assert(group_has_output(new_gs[k2], j2));
    }
    assert(new_gs[new_gs.len() - 1].output_indices[0] == j);
    assert(group_has_output(new_gs[new_gs.len() - 1], j as int));
}

/// Input positions appear in exactly one lock group, and every input
/// position below the bound appears in one: the lock groups partition
/// the transaction's inputs.
pub proof fn lemma_lock_groups_partition<P: TransactionDependencyProvider>(
    p: &P,
    t: TxV,
    gs: Seq<ScriptGroupV>,
)
    requires
        lock_groups_ok(p, t, gs, t.inputs.len() as int),
        lock_groups_cover(gs, t.inputs.len() as int),
    ensures
        forall|i: int| 0 <= i < t.inputs.len() ==> #[trigger] input_covered(gs, i),
        forall|k1: int, k2: int, i: int|
            0 <= k1 < gs.len() && 0 <= k2 < gs.len() && #[trigger] group_has_input(gs[k1], i)
                && #[trigger] group_has_input(gs[k2], i) ==> k1 == k2,
{
    assert forall|k1: int, k2: int, i: int|
        0 <= k1 < gs.len() && 0 <= k2 < gs.len() && #[trigger] group_has_input(gs[k1], i)
            && #[trigger] group_has_input(gs[k2], i) implies k1 == k2 by {
        let a1 = choose|a: int| 0 <= a < gs[k1].input_indices.len() && gs[k1].input_indices[a] == i;
        let a2 = choose|a: int| 0 <= a < gs[k2].input_indices.len() && gs[k2].input_indices[a] == i;
        assert(cell_lock_at(p, t, i) == Some(gs[k1].script));
        assert(cell_lock_at(p, t, i) == Some(gs[k2].script));
        if k1 < k2 {
            assert(gs[k1].script != gs[k2].script);
        } else if k2 < k1 {
            assert(gs[k2].script != gs[k1].script);
        }
    }
}

} // verus!

