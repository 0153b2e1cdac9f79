use vstd::prelude::*;

use tx_builder::groups::ScriptGroup;
use tx_builder::traits::{TransactionDependencyError, TransactionDependencyProvider};
use tx_builder::types::{
    clone_bytes, clone_out_point, clone_output, clone_script, out_point_eq, script_id_of,
    CellInput, CellOutput, OutPoint, Script, ScriptId, TransactionView,
};
use tx_builder::unlock::{fill_placeholder_witnesses, unlock_tx, ScriptUnlocker, UnlockError};

fn a_lock(tag: u8) -> Script {
    Script { code_hash: vec![tag; 32], hash_type: 1, args: vec![tag] }
}

fn an_out_point(tag: u8) -> OutPoint {
    OutPoint { tx_hash: vec![tag; 32], index: 0 }
}

struct Chain {
    cells: Vec<(OutPoint, CellOutput)>,
}

impl TransactionDependencyProvider for Chain {
    // Ghost model methods: never called at run time.
    fn cell_of(&self, _o: tx_builder::types::OutPointV) -> Option<tx_builder::types::CellOutputV> {
        panic!()
    }

    fn cell_data_of(&self, _o: tx_builder::types::OutPointV) -> Option<Seq<u8>> {
        panic!()
    }

    fn get_cell(&self, out_point: &OutPoint) -> Result<CellOutput, TransactionDependencyError> {
        for (op, cell) in &self.cells {
            if out_point_eq(op, out_point) {
                return Ok(clone_output(cell));
            }
        }
        Err(TransactionDependencyError::NotFound)
    }

    fn get_cell_data(&self, _out_point: &OutPoint) -> Result<Vec<u8>, TransactionDependencyError> {
        Ok(Vec::new())
    }
}

fn copy_tx(tx: &TransactionView) -> TransactionView {
    let mut cell_deps = Vec::new();
    for d in &tx.cell_deps {
        cell_deps.push(tx_builder::types::clone_cell_dep(d));
    }
    let mut header_deps = Vec::new();
    for h in &tx.header_deps {
        header_deps.push(clone_bytes(h));
    }
    let mut inputs = Vec::new();
    for i in &tx.inputs {
        inputs.push(CellInput { since: i.since, previous_output: clone_out_point(&i.previous_output) });
    }
    let mut outputs = Vec::new();
    for o in &tx.outputs {
        outputs.push(clone_output(o));
    }
    let mut outputs_data = Vec::new();
    for d in &tx.outputs_data {
        outputs_data.push(clone_bytes(d));
    }
    let mut witnesses = Vec::new();
    for w in &tx.witnesses {
        witnesses.push(clone_bytes(w));
    }
    TransactionView {
        version: tx.version,
        cell_deps,
        header_deps,
        inputs,
        outputs,
        outputs_data,
        witnesses,
    }
}

/// Fills the witness slot at the group's first input index with a fixed
/// placeholder, and "signs" by overwriting it.
struct StampUnlocker {
    placeholder: Vec<u8>,
    signature: Vec<u8>,
}

impl ScriptUnlocker<Chain> for StampUnlocker {
    // Ghost model method: never called at run time.
    fn matches_args(&self, _args: Seq<u8>) -> bool {
        panic!()
    }

    fn match_args(&self, args: &Vec<u8>) -> bool {
        args.len() == 1
    }

    fn is_unlocked(
        &self,
        tx: &TransactionView,
        script_group: &ScriptGroup,
        _tx_dep_provider: &Chain,
    ) -> Result<bool, UnlockError> {
        let idx = script_group.input_indices[0];
        Ok(tx.witnesses.len() > idx && tx.witnesses[idx] == self.signature)
    }

    fn fill_placeholder_witness(
        &self,
        tx: &TransactionView,
        script_group: &ScriptGroup,
        _tx_dep_provider: &Chain,
    ) -> Result<TransactionView, UnlockError> {
        let mut out = copy_tx(tx);
        let idx = script_group.input_indices[0];
        while out.witnesses.len() <= idx {
            out.witnesses.push(Vec::new());
        }
        out.witnesses[idx] = clone_bytes(&self.placeholder);
        Ok(out)
    }

    fn unlock(
        &self,
        tx: &TransactionView,
        script_group: &ScriptGroup,
        _tx_dep_provider: &Chain,
    ) -> Result<TransactionView, UnlockError> {
        let mut out = copy_tx(tx);
        let idx = script_group.input_indices[0];
        while out.witnesses.len() <= idx {
            out.witnesses.push(Vec::new());
        }
        out.witnesses[idx] = clone_bytes(&self.signature);
        Ok(out)
    }

    fn clear_placeholder_witness(
        &self,
        tx: &TransactionView,
        _script_group: &ScriptGroup,
    ) -> Result<TransactionView, UnlockError> {
        Ok(copy_tx(tx))
    }
}

fn two_lock_tx() -> (TransactionView, Chain, Script, Script) {
    let lock_a = a_lock(1);
    let lock_b = a_lock(2);
    let mut tx = TransactionView {
        version: 0,
        cell_deps: Vec::new(),
        header_deps: Vec::new(),
        inputs: Vec::new(),
        outputs: Vec::new(),
        outputs_data: Vec::new(),
        witnesses: Vec::new(),
    };
    tx.inputs.push(CellInput { since: 0, previous_output: an_out_point(1) });
    tx.inputs.push(CellInput { since: 0, previous_output: an_out_point(2) });
    let chain = Chain {
        cells: vec![
            (an_out_point(1), CellOutput { capacity: 100, lock: clone_script(&lock_a), type_: None }),
            (an_out_point(2), CellOutput { capacity: 100, lock: clone_script(&lock_b), type_: None }),
        ],
    };
    (tx, chain, lock_a, lock_b)
}

#[test]
fn placeholder_filled_for_registered_lock() {
    let (tx, chain, lock_a, _lock_b) = two_lock_tx();
    let unlockers: Vec<(ScriptId, StampUnlocker)> = vec![(
        script_id_of(&lock_a),
        StampUnlocker { placeholder: vec![0u8; 85], signature: vec![7u8; 85] },
    )];
    let (filled, not_matched) = fill_placeholder_witnesses(tx, &chain, &unlockers).unwrap();
    assert_eq!(filled.witnesses.len(), 1);
    assert_eq!(filled.witnesses[0], vec![0u8; 85]);
    // The other lock group had no unlocker registered.
    assert_eq!(not_matched.len(), 1);
    assert_eq!(not_matched[0].script.code_hash, vec![2u8; 32]);
    // Everything but witnesses unchanged.
    assert_eq!(filled.inputs.len(), 2);
    assert_eq!(filled.outputs.len(), 0);
}

#[test]
fn unlock_replaces_placeholder() {
    let (tx, chain, lock_a, _lock_b) = two_lock_tx();
    let unlockers: Vec<(ScriptId, StampUnlocker)> = vec![(
        script_id_of(&lock_a),
        StampUnlocker { placeholder: vec![0u8; 85], signature: vec![7u8; 85] },
    )];
    let (filled, _) = fill_placeholder_witnesses(tx, &chain, &unlockers).unwrap();
    let (unlocked, not_unlocked) = unlock_tx(filled, &chain, &unlockers).unwrap();
    assert_eq!(unlocked.witnesses[0], vec![7u8; 85]);
    assert_eq!(not_unlocked.len(), 1);
    assert_eq!(not_unlocked[0].script.code_hash, vec![2u8; 32]);
}

use tx_builder::balance::{CapacityBalancer, CapacityProvider};
use tx_builder::builder::{TxBuilder, TxBuilderError};
use tx_builder::fee::tx_fee;
use tx_builder::traits::{
    CellCollector, CellCollectorError, CellDepResolver, CellQueryOptions, HeaderDepResolver,
    TransactionDependencyError as TxDepError,
};
use tx_builder::types::{CellDep, FeeRate, Header, LiveCell, script_eq};

struct OneCellCollector {
    cell: Option<LiveCell>,
}

impl CellCollector for OneCellCollector {
    // Ghost model method: never called at run time.
    fn reserved(&self) -> Set<tx_builder::types::OutPointV> {
        panic!()
    }

    fn collect_live_cells(
        &mut self,
        query: &CellQueryOptions,
        apply_changes: bool,
    ) -> Result<(Vec<LiveCell>, u64), CellCollectorError> {
        match &self.cell {
            Some(c) if script_eq(&c.output.lock, &query.lock_script) => {
                let out = LiveCell {
                    out_point: clone_out_point(&c.out_point),
                    output: clone_output(&c.output),
                    output_data: clone_bytes(&c.output_data),
                };
                let total = out.output.capacity;
                if apply_changes {
                    self.cell = None;
                }
                Ok((vec![out], total))
            }
            _ => Ok((Vec::new(), 0)),
        }
    }
}

struct OneDepResolver {
    lock: Script,
    dep: CellDep,
}

impl CellDepResolver for OneDepResolver {
    // Ghost model method: never called at run time.
    fn dep_of(&self, _id: tx_builder::types::ScriptIdV) -> Option<tx_builder::types::CellDepV> {
        panic!()
    }

    fn resolve(&self, id: &ScriptId) -> Option<CellDep> {
        if self.lock.code_hash == id.code_hash && self.lock.hash_type == id.hash_type {
            Some(CellDep {
                out_point: clone_out_point(&self.dep.out_point),
                dep_type: self.dep.dep_type,
            })
        } else {
            None
        }
    }
}

struct NoHeaders;

impl HeaderDepResolver for NoHeaders {
    // Ghost model methods: never called at run time.
    fn header_by_tx(&self, _h: Seq<u8>) -> Option<tx_builder::types::HeaderV> {
        panic!()
    }

    fn header_by_number(&self, _n: u64) -> Option<tx_builder::types::HeaderV> {
        panic!()
    }

    fn resolve_by_tx(&self, _tx_hash: &Vec<u8>) -> Option<Header> {
        None
    }

    fn resolve_by_number(&self, _number: u64) -> Option<Header> {
        None
    }
}

/// A recipe with one fixed recipient output.
struct SimpleTransferBuilder {
    recipient: CellOutput,
}

impl TxBuilder for SimpleTransferBuilder {
    fn build_base<
        C: CellCollector,
        D: CellDepResolver,
        H: HeaderDepResolver,
        P: TransactionDependencyProvider,
    >(
        &self,
        _cell_collector: &mut C,
        _cell_dep_resolver: &D,
        _header_dep_resolver: &H,
        _tx_dep_provider: &P,
    ) -> Result<TransactionView, TxBuilderError> {
        let mut tx = TransactionView {
            version: 0,
            cell_deps: Vec::new(),
            header_deps: Vec::new(),
            inputs: Vec::new(),
            outputs: Vec::new(),
            outputs_data: Vec::new(),
            witnesses: Vec::new(),
        };
        tx.outputs.push(clone_output(&self.recipient));
        tx.outputs_data.push(Vec::new());
        Ok(tx)
    }
}

#[test]
fn build_unlocked_end_to_end() {
    let lock = a_lock(1);
    let op = an_out_point(5);
    let cell = LiveCell {
        out_point: clone_out_point(&op),
        output: CellOutput { capacity: 10_000_000_000, lock: clone_script(&lock), type_: None },
        output_data: Vec::new(),
    };
    let chain = Chain {
        cells: vec![(clone_out_point(&op), clone_output(&cell.output))],
    };
    let mut collector = OneCellCollector { cell: Some(cell) };
    let resolver = OneDepResolver {
        lock: clone_script(&lock),
        dep: CellDep { out_point: an_out_point(6), dep_type: 0 },
    };
    let headers = NoHeaders;
    let balancer = CapacityBalancer {
        fee_rate: FeeRate(1000),
        capacity_provider: CapacityProvider::new(vec![(clone_script(&lock), vec![0u8; 85])]),
        change_lock_script: None,
        force_small_change_as_fee: None,
    };
    let unlockers: Vec<(ScriptId, StampUnlocker)> = vec![(
        script_id_of(&lock),
        StampUnlocker { placeholder: vec![0u8; 85], signature: vec![7u8; 85] },
    )];
    let builder = SimpleTransferBuilder {
        recipient: CellOutput { capacity: 5_000_000_000, lock: a_lock(9), type_: None },
    };
    let (tx, not_unlocked) = builder
        .build_unlocked(&mut collector, &resolver, &headers, &chain, &balancer, &unlockers)
        .unwrap();
    assert_eq!(tx.inputs.len(), 1);
    assert_eq!(tx.outputs.len(), 2);
    // The recipient's lock has 1-byte args too, so both groups match the
    // unlocker's rule, but only the input's lock group gets a witness.
    assert_eq!(tx.witnesses.len(), 1);
    assert_eq!(tx.witnesses[0], vec![7u8; 85]);
    assert!(not_unlocked.is_empty());
    let fee = tx_fee(&tx, &chain, &headers).unwrap();
    assert_eq!(10_000_000_000, tx.outputs[0].capacity + tx.outputs[1].capacity + fee);
}

#[test]
fn fill_records_already_unlocked_group() {
    let (mut tx, chain, lock_a, _lock_b) = two_lock_tx();
    // Pre-sign the first group's witness slot so the unlocker reports it
    // as already unlocked.
    tx.witnesses.push(vec![7u8; 85]);
    let unlockers: Vec<(ScriptId, StampUnlocker)> = vec![(
        script_id_of(&lock_a),
        StampUnlocker { placeholder: vec![0u8; 85], signature: vec![7u8; 85] },
    )];
    let (filled, not_matched) = fill_placeholder_witnesses(tx, &chain, &unlockers).unwrap();
    // The already-unlocked group is left untouched but recorded as
    // unmatched, alongside the group with no unlocker registered.
    assert_eq!(filled.witnesses[0], vec![7u8; 85]);
    assert_eq!(not_matched.len(), 2);
    assert_eq!(not_matched[0].script.code_hash, vec![1u8; 32]);
    assert_eq!(not_matched[1].script.code_hash, vec![2u8; 32]);
}

#[test]
fn fill_with_no_unlockers_returns_all_groups() {
    let (tx, chain, _lock_a, _lock_b) = two_lock_tx();
    let unlockers: Vec<(ScriptId, StampUnlocker)> = Vec::new();
    let (filled, not_matched) = fill_placeholder_witnesses(tx, &chain, &unlockers).unwrap();
    assert_eq!(filled.witnesses.len(), 0);
    assert_eq!(not_matched.len(), 2);
}

#[test]
fn fill_records_group_with_non_matching_args() {
    // A lock with 2-byte args: the unlocker is registered under its id
    // but recognizes only 1-byte args, so the group must be recorded.
    let lock = Script { code_hash: vec![4u8; 32], hash_type: 1, args: vec![4, 4] };
    let mut tx = TransactionView {
        version: 0,
        cell_deps: Vec::new(),
        header_deps: Vec::new(),
        inputs: Vec::new(),
        outputs: Vec::new(),
        outputs_data: Vec::new(),
        witnesses: Vec::new(),
    };
    tx.inputs.push(CellInput { since: 0, previous_output: an_out_point(4) });
    let chain = Chain {
        cells: vec![(
            an_out_point(4),
            CellOutput { capacity: 100, lock: clone_script(&lock), type_: None },
        )],
    };
    let unlockers: Vec<(ScriptId, StampUnlocker)> = vec![(
        script_id_of(&lock),
        StampUnlocker { placeholder: vec![0u8; 85], signature: vec![7u8; 85] },
    )];
    let (filled, not_matched) = fill_placeholder_witnesses(tx, &chain, &unlockers).unwrap();
    assert_eq!(filled.witnesses.len(), 0);
    assert_eq!(not_matched.len(), 1);
    assert_eq!(not_matched[0].script.code_hash, vec![4u8; 32]);
}
