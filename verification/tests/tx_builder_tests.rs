use ckb_types::prelude::{Builder, Entity, Pack};
use vstd::prelude::*;
use tx_builder::balance::{
    balance_tx_capacity, BalanceTxCapacityError, CapacityBalancer, CapacityProvider,
    CapacityShortage,
};
use tx_builder::fee::{tx_fee, HeaderDepFailure, TransactionFeeError};
use tx_builder::groups::{gen_script_groups, ScriptGroupType};
use tx_builder::mol::tx_serialized_size;
use tx_builder::traits::{
    CellCollector, CellCollectorError, CellDepResolver, CellQueryOptions, HeaderDepResolver,
    TransactionDependencyError, TransactionDependencyProvider,
};
use tx_builder::types::{
    clone_bytes, clone_out_point, clone_output, clone_script, dao_type_hash, multisig_type_hash,
    occupied_capacity, out_point_eq, script_eq, CellDep, CellInput, CellOutput, FeeRate, Header,
    LiveCell, OutPoint, Script, TransactionView,
};

fn lock_script(tag: u8) -> Script {
    Script { code_hash: vec![tag; 32], hash_type: 1, args: vec![tag, tag] }
}

fn out_point(tag: u8, index: u32) -> OutPoint {
    OutPoint { tx_hash: vec![tag; 32], index }
}

fn plain_cell(op: OutPoint, capacity: u64, lock: &Script) -> LiveCell {
    LiveCell {
        out_point: op,
        output: CellOutput { capacity, lock: clone_script(lock), type_: None },
        output_data: Vec::new(),
    }
}

fn empty_tx() -> TransactionView {
    TransactionView {
        version: 0,
        cell_deps: Vec::new(),
        header_deps: Vec::new(),
        inputs: Vec::new(),
        outputs: Vec::new(),
        outputs_data: Vec::new(),
        witnesses: Vec::new(),
    }
}

struct MockProvider {
    cells: Vec<(OutPoint, CellOutput, Vec<u8>)>,
}

impl TransactionDependencyProvider for MockProvider {
    // Ghost model methods: never called at run time.
    fn cell_of(&self, _o: tx_builder::types::OutPointV) -> Option<tx_builder::types::CellOutputV> {
        panic!()
    }

    fn cell_data_of(&self, _o: tx_builder::types::OutPointV) -> Option<Seq<u8>> {
        panic!()
    }

    fn get_cell(&self, out_point: &OutPoint) -> Result<CellOutput, TransactionDependencyError> {
        for (op, cell, _) in &self.cells {
            if out_point_eq(op, out_point) {
                return Ok(clone_output(cell));
            }
        }
        Err(TransactionDependencyError::NotFound)
    }

    fn get_cell_data(&self, out_point: &OutPoint) -> Result<Vec<u8>, TransactionDependencyError> {
        for (op, _, data) in &self.cells {
            if out_point_eq(op, out_point) {
                return Ok(clone_bytes(data));
            }
        }
        Err(TransactionDependencyError::NotFound)
    }
}

struct MockCollector {
    cells: Vec<LiveCell>,
    taken: Vec<bool>,
    max_per_call: usize,
}

impl MockCollector {
    fn new(cells: Vec<LiveCell>) -> MockCollector {
        let n = cells.len();
        MockCollector { cells, taken: vec![false; n], max_per_call: usize::MAX }
    }
}

impl CellCollector for MockCollector {
    // Ghost model method: never called at run time.
    fn reserved(&self) -> Set<tx_builder::types::OutPointV> {
        panic!()
    }

    fn collect_live_cells(
        &mut self,
        query: &CellQueryOptions,
        apply_changes: bool,
    ) -> Result<(Vec<LiveCell>, u64), CellCollectorError> {
        let mut found: Vec<LiveCell> = Vec::new();
        let mut found_idx: Vec<usize> = Vec::new();
        let mut total: u64 = 0;
        for k in 0..self.cells.len() {
            if self.taken[k] {
                continue;
            }
            let c = &self.cells[k];
            if !script_eq(&c.output.lock, &query.lock_script) {
                continue;
            }
            found.push(LiveCell {
                out_point: clone_out_point(&c.out_point),
                output: clone_output(&c.output),
                output_data: clone_bytes(&c.output_data),
            });
            found_idx.push(k);
            total += c.output.capacity;
            if found.len() >= self.max_per_call {
                break;
            }
            if query.min_total_capacity > 0 && total >= query.min_total_capacity {
                break;
            }
        }
        if apply_changes {
            for k in found_idx {
                self.taken[k] = true;
            }
        }
        Ok((found, total))
    }
}

struct MockDepResolver {
    deps: Vec<(Script, CellDep)>,
}

impl CellDepResolver for MockDepResolver {
    // Ghost model method: never called at run time.
    fn dep_of(&self, _id: tx_builder::types::ScriptIdV) -> Option<tx_builder::types::CellDepV> {
        panic!()
    }

    fn resolve(&self, id: &tx_builder::types::ScriptId) -> Option<CellDep> {
        for (script, dep) in &self.deps {
            if script.code_hash == id.code_hash && script.hash_type == id.hash_type {
                return Some(CellDep {
                    out_point: clone_out_point(&dep.out_point),
                    dep_type: dep.dep_type,
                });
            }
        }
        None
    }
}

struct MockHeaders {
    by_tx: Vec<(Vec<u8>, Header)>,
    by_number: Vec<(u64, Header)>,
}

impl MockHeaders {
    fn none() -> MockHeaders {
        MockHeaders { by_tx: Vec::new(), by_number: Vec::new() }
    }
}

fn clone_header(h: &Header) -> Header {
    Header { number: h.number, dao: clone_bytes(&h.dao) }
}

impl HeaderDepResolver for MockHeaders {
    // Ghost model methods: never called at run time.
    fn header_by_tx(&self, _h: Seq<u8>) -> Option<tx_builder::types::HeaderV> {
        panic!()
    }

    fn header_by_number(&self, _n: u64) -> Option<tx_builder::types::HeaderV> {
        panic!()
    }

    fn resolve_by_tx(&self, tx_hash: &Vec<u8>) -> Option<Header> {
        for (hash, h) in &self.by_tx {
            if hash == tx_hash {
                return Some(clone_header(h));
            }
        }
        None
    }

    fn resolve_by_number(&self, number: u64) -> Option<Header> {
        for (n, h) in &self.by_number {
            if *n == number {
                return Some(clone_header(h));
            }
        }
        None
    }
}

fn provider_setup(lock: &Script, cells: &[(u8, u64)]) -> (Vec<LiveCell>, MockProvider) {
    let mut live = Vec::new();
    let mut chain = Vec::new();
    for (tag, capacity) in cells {
        let cell = plain_cell(out_point(*tag, 0), *capacity, lock);
        chain.push((
            clone_out_point(&cell.out_point),
            clone_output(&cell.output),
            clone_bytes(&cell.output_data),
        ));
        live.push(cell);
    }
    (live, MockProvider { cells: chain })
}

fn dep_for(lock: &Script, tag: u8) -> (Script, CellDep) {
    (clone_script(lock), CellDep { out_point: out_point(tag, 7), dep_type: 0 })
}

fn balancer_for(lock: &Script, fee_rate: u64, force: Option<u64>) -> CapacityBalancer {
    CapacityBalancer {
        fee_rate: FeeRate(fee_rate),
        capacity_provider: CapacityProvider::new(vec![(clone_script(lock), vec![0u8; 85])]),
        change_lock_script: None,
        force_small_change_as_fee: force,
    }
}

fn seed_with_output(capacity: u64) -> TransactionView {
    let mut tx = empty_tx();
    tx.outputs.push(CellOutput { capacity, lock: lock_script(9), type_: None });
    tx.outputs_data.push(Vec::new());
    tx
}

#[test]
fn fee_rate_exact_values() {
    assert_eq!(FeeRate(1000).fee(1234), 1234);
    assert_eq!(FeeRate(500).fee(1000), 500);
    assert_eq!(FeeRate(1).fee(999), 0);
    assert_eq!(FeeRate(2000).fee(300), 600);
}

#[test]
fn occupied_capacity_exact_values() {
    let bare = CellOutput {
        capacity: 0,
        lock: Script { code_hash: vec![0; 32], hash_type: 1, args: Vec::new() },
        type_: None,
    };
    assert_eq!(occupied_capacity(&bare, 0), Some(4_100_000_000));
    let secp = CellOutput {
        capacity: 0,
        lock: Script { code_hash: vec![0; 32], hash_type: 1, args: vec![0; 20] },
        type_: None,
    };
    assert_eq!(occupied_capacity(&secp, 0), Some(6_100_000_000));
}

#[test]
fn since_of_lock_multisig_tail() {
    let mut args = vec![0u8; 28];
    args[20] = 0x10;
    args[27] = 0x80;
    let multisig = Script { code_hash: multisig_type_hash(), hash_type: 1, args };
    let since = tx_builder::types::since_of_lock(&multisig);
    assert_eq!(since, 0x8000_0000_0000_0010);
    let short = Script { code_hash: multisig_type_hash(), hash_type: 1, args: vec![0u8; 20] };
    assert_eq!(tx_builder::types::since_of_lock(&short), 0);
    let other = lock_script(3);
    assert_eq!(tx_builder::types::since_of_lock(&other), 0);
}

#[test]
fn serialized_size_matches_chain_encoder() {
    let lock = lock_script(1);
    let mut tx = empty_tx();
    tx.cell_deps.push(CellDep { out_point: out_point(4, 1), dep_type: 0 });
    tx.header_deps.push(vec![5u8; 32]);
    tx.inputs.push(CellInput { since: 77, previous_output: out_point(2, 3) });
    tx.outputs.push(CellOutput { capacity: 500, lock: clone_script(&lock), type_: Some(lock_script(8)) });
    tx.outputs_data.push(vec![1, 2, 3]);
    tx.witnesses.push(vec![9u8; 85]);
    let size = tx_serialized_size(&tx);

    let p_lock = ckb_types::packed::Script::new_builder()
        .code_hash(ckb_types::packed::Byte32::from_slice(&lock.code_hash).unwrap())
        .hash_type(ckb_types::packed::Byte::new(1))
        .args(lock.args.as_slice().pack())
        .build();
    let p_type = ckb_types::packed::Script::new_builder()
        .code_hash(ckb_types::packed::Byte32::from_slice(&[8u8; 32]).unwrap())
        .hash_type(ckb_types::packed::Byte::new(1))
        .args([8u8, 8u8].as_slice().pack())
        .build();
    let cap: ckb_types::packed::Uint64 = 500u64.pack();
    let p_out = ckb_types::packed::CellOutput::new_builder()
        .capacity(cap)
        .lock(p_lock)
        .type_(ckb_types::packed::ScriptOpt::new_builder().set(Some(p_type)).build())
        .build();
    let p_in = ckb_types::packed::CellInput::new(
        ckb_types::packed::OutPoint::new(
            ckb_types::packed::Byte32::from_slice(&[2u8; 32]).unwrap(),
            3,
        ),
        77,
    );
    let p_dep = ckb_types::packed::CellDep::new_builder()
        .out_point(ckb_types::packed::OutPoint::new(
            ckb_types::packed::Byte32::from_slice(&[4u8; 32]).unwrap(),
            1,
        ))
        .dep_type(ckb_types::packed::Byte::new(0))
        .build();
    let ver: ckb_types::packed::Uint32 = 0u32.pack();
    let raw = ckb_types::packed::RawTransaction::new_builder()
        .version(ver)
        .cell_deps(ckb_types::packed::CellDepVec::new_builder().push(p_dep).build())
        .header_deps(
            ckb_types::packed::Byte32Vec::new_builder()
                .push(ckb_types::packed::Byte32::from_slice(&[5u8; 32]).unwrap())
                .build(),
        )
        .inputs(ckb_types::packed::CellInputVec::new_builder().push(p_in).build())
        .outputs(ckb_types::packed::CellOutputVec::new_builder().push(p_out).build())
        .outputs_data(
            ckb_types::packed::BytesVec::new_builder().push([1u8, 2u8, 3u8].as_slice().pack()).build(),
        )
        .build();
    let p_tx = ckb_types::packed::Transaction::new_builder()
        .raw(raw)
        .witnesses(
            ckb_types::packed::BytesVec::new_builder().push(vec![9u8; 85].as_slice().pack()).build(),
        )
        .build();
    assert_eq!(size, p_tx.as_reader().serialized_size_in_block());
}

#[test]
fn plain_transfer_exact_change() {
    let lock = lock_script(1);
    let (live, provider) = provider_setup(&lock, &[(1, 10_000_000_000)]);
    let mut collector = MockCollector::new(live);
    let resolver = MockDepResolver { deps: vec![dep_for(&lock, 0x40)] };
    let headers = MockHeaders::none();
    let seed = seed_with_output(5_000_000_000);
    let balancer = balancer_for(&lock, 1000, None);
    let result =
        balance_tx_capacity(&seed, &balancer, &mut collector, &provider, &resolver, &headers)
            .unwrap();
    assert_eq!(result.inputs.len(), 1);
    assert_eq!(result.outputs.len(), 2);
    assert_eq!(result.cell_deps.len(), 1);
    assert!(result.witnesses.len() >= result.inputs.len());
    let fee = tx_fee(&result, &provider, &headers).unwrap();
    let min_fee = FeeRate(1000).fee(tx_serialized_size(&result) as u64);
    assert_eq!(fee, min_fee);
    let change = result.outputs[1].capacity;
    assert_eq!(change + 5_000_000_000 + fee, 10_000_000_000);
    assert!(script_eq(&result.outputs[1].lock, &lock));
    assert!(change >= 4_300_000_000);
}

#[test]
fn two_passes_two_inputs_in_order() {
    let lock = lock_script(1);
    let (live, provider) = provider_setup(&lock, &[(1, 5_000_000_100), (2, 5_000_000_000)]);
    let mut collector = MockCollector::new(live);
    collector.max_per_call = 1;
    let resolver = MockDepResolver { deps: vec![dep_for(&lock, 0x40)] };
    let headers = MockHeaders::none();
    let seed = seed_with_output(5_000_000_000);
    let balancer = balancer_for(&lock, 1000, None);
    let result =
        balance_tx_capacity(&seed, &balancer, &mut collector, &provider, &resolver, &headers)
            .unwrap();
    assert_eq!(result.inputs.len(), 2);
    assert!(out_point_eq(&result.inputs[0].previous_output, &out_point(1, 0)));
    assert!(out_point_eq(&result.inputs[1].previous_output, &out_point(2, 0)));
    // One provider, so exactly one placeholder witness was appended.
    assert_eq!(result.witnesses.len(), 2);
    assert_eq!(result.witnesses[0], vec![0u8; 85]);
    assert_eq!(result.witnesses[1], Vec::<u8>::new());
    let fee = tx_fee(&result, &provider, &headers).unwrap();
    let min_fee = FeeRate(1000).fee(tx_serialized_size(&result) as u64);
    assert_eq!(fee, min_fee);
}

#[test]
fn two_providers_escalation() {
    let lock_a = lock_script(1);
    let lock_b = lock_script(2);
    let cell_a = plain_cell(out_point(1, 0), 1_000_000_000, &lock_a);
    let cell_b = plain_cell(out_point(2, 0), 20_000_000_000, &lock_b);
    let chain = vec![
        (clone_out_point(&cell_a.out_point), clone_output(&cell_a.output), Vec::new()),
        (clone_out_point(&cell_b.out_point), clone_output(&cell_b.output), Vec::new()),
    ];
    let provider = MockProvider { cells: chain };
    let mut collector = MockCollector::new(vec![cell_a, cell_b]);
    let resolver =
        MockDepResolver { deps: vec![dep_for(&lock_a, 0x40), dep_for(&lock_b, 0x41)] };
    let headers = MockHeaders::none();
    let seed = seed_with_output(900_000_000);
    let balancer = CapacityBalancer {
        fee_rate: FeeRate(1000),
        capacity_provider: CapacityProvider::new(vec![
            (clone_script(&lock_a), vec![0u8; 85]),
            (clone_script(&lock_b), vec![0u8; 85]),
        ]),
        change_lock_script: None,
        force_small_change_as_fee: None,
    };
    let result =
        balance_tx_capacity(&seed, &balancer, &mut collector, &provider, &resolver, &headers)
            .unwrap();
    assert_eq!(result.inputs.len(), 2);
    assert!(out_point_eq(&result.inputs[0].previous_output, &out_point(1, 0)));
    assert!(out_point_eq(&result.inputs[1].previous_output, &out_point(2, 0)));
    assert_eq!(result.cell_deps.len(), 2);
    assert!(out_point_eq(&result.cell_deps[0].out_point, &out_point(0x40, 7)));
    assert!(out_point_eq(&result.cell_deps[1].out_point, &out_point(0x41, 7)));
    // One placeholder per activated provider.
    assert_eq!(result.witnesses.len(), 2);
    assert_eq!(result.witnesses[0], vec![0u8; 85]);
    assert_eq!(result.witnesses[1], vec![0u8; 85]);
    let fee = tx_fee(&result, &provider, &headers).unwrap();
    let min_fee = FeeRate(1000).fee(tx_serialized_size(&result) as u64);
    assert_eq!(fee, min_fee);
}

#[test]
fn force_small_change_as_fee_accepted() {
    let lock = lock_script(1);
    let (live, provider) = provider_setup(&lock, &[(1, 5_000_800_000)]);
    let mut collector = MockCollector::new(live);
    let resolver = MockDepResolver { deps: vec![dep_for(&lock, 0x40)] };
    let headers = MockHeaders::none();
    let seed = seed_with_output(5_000_000_000);
    let balancer = balancer_for(&lock, 1000, Some(1_000_000));
    let result =
        balance_tx_capacity(&seed, &balancer, &mut collector, &provider, &resolver, &headers)
            .unwrap();
    // No change output fits, so the surplus is donated.
    assert_eq!(result.outputs.len(), 1);
    let fee = tx_fee(&result, &provider, &headers).unwrap();
    assert_eq!(fee, 800_000);
}

#[test]
fn force_small_change_as_fee_over_cap() {
    let lock = lock_script(1);
    let (live, provider) = provider_setup(&lock, &[(1, 5_000_800_000)]);
    let mut collector = MockCollector::new(live);
    let resolver = MockDepResolver { deps: vec![dep_for(&lock, 0x40)] };
    let headers = MockHeaders::none();
    let seed = seed_with_output(5_000_000_000);
    let balancer = balancer_for(&lock, 1000, Some(100));
    let err =
        balance_tx_capacity(&seed, &balancer, &mut collector, &provider, &resolver, &headers)
            .unwrap_err();
    assert_eq!(err, BalanceTxCapacityError::ForceSmallChangeAsFeeFailed(800_000));
}

fn dao_header(number: u64, ar: u64) -> Header {
    let mut dao = vec![0u8; 32];
    dao[8..16].copy_from_slice(&ar.to_le_bytes());
    Header { number, dao }
}

#[test]
fn dao_withdrawal_input_value() {
    let lock = lock_script(1);
    let dao_script = Script { code_hash: dao_type_hash(), hash_type: 1, args: Vec::new() };
    let op = out_point(3, 0);
    let deposit_number: u64 = 100;
    let provider = MockProvider {
        cells: vec![(
            clone_out_point(&op),
            CellOutput {
                capacity: 50_000_000_000,
                lock: clone_script(&lock),
                type_: Some(dao_script),
            },
            deposit_number.to_le_bytes().to_vec(),
        )],
    };
    let headers = MockHeaders {
        by_tx: vec![(vec![3u8; 32], dao_header(200, 20_000_000_000_000_000))],
        by_number: vec![(deposit_number, dao_header(100, 10_000_000_000_000_000))],
    };
    let mut tx = empty_tx();
    tx.inputs.push(CellInput { since: 1, previous_output: op });
    // occupied: capacity 8 + data 8 + lock 33+2 + type 33+0 = 84 bytes,
    // so 8_400_000_000 shannons; the counted part doubles with the rate.
    let fee = tx_fee(&tx, &provider, &headers).unwrap();
    assert_eq!(fee, 8_400_000_000 + (50_000_000_000 - 8_400_000_000) * 2);
}

#[test]
fn dao_withdrawal_missing_headers() {
    let lock = lock_script(1);
    let dao_script = Script { code_hash: dao_type_hash(), hash_type: 1, args: Vec::new() };
    let op = out_point(3, 0);
    let provider = MockProvider {
        cells: vec![(
            clone_out_point(&op),
            CellOutput {
                capacity: 50_000_000_000,
                lock: clone_script(&lock),
                type_: Some(dao_script),
            },
            100u64.to_le_bytes().to_vec(),
        )],
    };
    let headers = MockHeaders::none();
    let mut tx = empty_tx();
    tx.inputs.push(CellInput { since: 1, previous_output: op });
    let err = tx_fee(&tx, &provider, &headers).unwrap_err();
    assert_eq!(err, TransactionFeeError::HeaderDep(HeaderDepFailure::ByTxHash(vec![3u8; 32])));
}

#[test]
fn dao_withdrawal_bad_data_length() {
    let lock = lock_script(1);
    let dao_script = Script { code_hash: dao_type_hash(), hash_type: 1, args: Vec::new() };
    let op = out_point(3, 0);
    let provider = MockProvider {
        cells: vec![(
            clone_out_point(&op),
            CellOutput {
                capacity: 50_000_000_000,
                lock: clone_script(&lock),
                type_: Some(dao_script),
            },
            vec![0u8; 4],
        )],
    };
    let headers = MockHeaders {
        by_tx: vec![(vec![3u8; 32], dao_header(200, 20_000_000_000_000_000))],
        by_number: Vec::new(),
    };
    let mut tx = empty_tx();
    tx.inputs.push(CellInput { since: 1, previous_output: op });
    let err = tx_fee(&tx, &provider, &headers).unwrap_err();
    assert_eq!(err, TransactionFeeError::UnexpectedDaoWithdrawInput);
}

#[test]
fn fee_capacity_overflow_reports_deficit() {
    let provider = MockProvider { cells: Vec::new() };
    let headers = MockHeaders::none();
    let seed = seed_with_output(700);
    let err = tx_fee(&seed, &provider, &headers).unwrap_err();
    assert_eq!(err, TransactionFeeError::CapacityOverflow(700));
}

#[test]
fn empty_capacity_provider_rejected() {
    let provider = MockProvider { cells: Vec::new() };
    let mut collector = MockCollector::new(Vec::new());
    let resolver = MockDepResolver { deps: Vec::new() };
    let headers = MockHeaders::none();
    let seed = empty_tx();
    let balancer = CapacityBalancer {
        fee_rate: FeeRate(1000),
        capacity_provider: CapacityProvider::new(Vec::new()),
        change_lock_script: None,
        force_small_change_as_fee: None,
    };
    let err =
        balance_tx_capacity(&seed, &balancer, &mut collector, &provider, &resolver, &headers)
            .unwrap_err();
    assert_eq!(err, BalanceTxCapacityError::EmptyCapacityProvider);
}

#[test]
fn capacity_not_enough_need_more() {
    let lock = lock_script(1);
    let provider = MockProvider { cells: Vec::new() };
    let mut collector = MockCollector::new(Vec::new());
    let resolver = MockDepResolver { deps: vec![dep_for(&lock, 0x40)] };
    let headers = MockHeaders::none();
    let seed = seed_with_output(5_000_000_000);
    let balancer = balancer_for(&lock, 1000, None);
    let err =
        balance_tx_capacity(&seed, &balancer, &mut collector, &provider, &resolver, &headers)
            .unwrap_err();
    match err {
        BalanceTxCapacityError::CapacityNotEnough(CapacityShortage::NeedMoreCapacity(v)) => {
            assert!(v > 5_000_000_000);
        }
        other => panic!("unexpected error: {:?}", other),
    }
}

#[test]
fn resolve_cell_dep_failed() {
    let lock = lock_script(1);
    let (live, provider) = provider_setup(&lock, &[(1, 10_000_000_000)]);
    let mut collector = MockCollector::new(live);
    let resolver = MockDepResolver { deps: Vec::new() };
    let headers = MockHeaders::none();
    let seed = seed_with_output(5_000_000_000);
    let balancer = balancer_for(&lock, 1000, None);
    let err =
        balance_tx_capacity(&seed, &balancer, &mut collector, &provider, &resolver, &headers)
            .unwrap_err();
    match err {
        BalanceTxCapacityError::ResolveCellDepFailed(id) => {
            assert_eq!(id.code_hash, lock.code_hash);
        }
        other => panic!("unexpected error: {:?}", other),
    }
}

#[test]
fn multisig_since_propagates_to_added_inputs() {
    let mut args = vec![0u8; 28];
    args[20] = 0x2a;
    let lock = Script { code_hash: multisig_type_hash(), hash_type: 1, args };
    let (live, provider) = provider_setup(&lock, &[(1, 15_000_000_000)]);
    let mut collector = MockCollector::new(live);
    let resolver = MockDepResolver { deps: vec![dep_for(&lock, 0x40)] };
    let headers = MockHeaders::none();
    let seed = seed_with_output(5_000_000_000);
    let balancer = balancer_for(&lock, 1000, None);
    let result =
        balance_tx_capacity(&seed, &balancer, &mut collector, &provider, &resolver, &headers)
            .unwrap();
    assert_eq!(result.inputs.len(), 1);
    assert_eq!(result.inputs[0].since, 0x2a);
}

#[test]
fn script_groups_partition_inputs() {
    let lock_a = lock_script(1);
    let lock_b = lock_script(2);
    let type_c = lock_script(7);
    let mut tx = empty_tx();
    tx.inputs.push(CellInput { since: 0, previous_output: out_point(1, 0) });
    tx.inputs.push(CellInput { since: 0, previous_output: out_point(2, 0) });
    tx.inputs.push(CellInput { since: 0, previous_output: out_point(3, 0) });
    tx.outputs.push(CellOutput {
        capacity: 100,
        lock: clone_script(&lock_a),
        type_: Some(clone_script(&type_c)),
    });
    tx.outputs_data.push(Vec::new());
    let provider = MockProvider {
        cells: vec![
            (
                out_point(1, 0),
                CellOutput { capacity: 500, lock: clone_script(&lock_a), type_: None },
                Vec::new(),
            ),
            (
                out_point(2, 0),
                CellOutput { capacity: 500, lock: clone_script(&lock_b), type_: None },
                Vec::new(),
            ),
            (
                out_point(3, 0),
                CellOutput {
                    capacity: 500,
                    lock: clone_script(&lock_a),
                    type_: Some(clone_script(&type_c)),
                },
                Vec::new(),
            ),
        ],
    };
    let groups = gen_script_groups(&tx, &provider).unwrap();
    assert_eq!(groups.lock_groups.len(), 2);
    let mut seen = vec![false; 3];
    for g in &groups.lock_groups {
        assert!(matches!(g.group_type, ScriptGroupType::Lock));
        assert!(g.output_indices.is_empty());
        for &i in &g.input_indices {
            assert!(!seen[i]);
            seen[i] = true;
        }
    }
    assert!(seen[0] && seen[1] && seen[2]);
    assert_eq!(groups.type_groups.len(), 1);
    assert_eq!(groups.type_groups[0].input_indices, vec![2]);
    assert_eq!(groups.type_groups[0].output_indices, vec![0]);
}

#[test]
fn conservation_holds_on_balanced_result() {
    let lock = lock_script(1);
    let (live, provider) = provider_setup(&lock, &[(1, 10_000_000_000)]);
    let mut collector = MockCollector::new(live);
    let resolver = MockDepResolver { deps: vec![dep_for(&lock, 0x40)] };
    let headers = MockHeaders::none();
    let seed = seed_with_output(5_000_000_000);
    let balancer = balancer_for(&lock, 1000, None);
    let result =
        balance_tx_capacity(&seed, &balancer, &mut collector, &provider, &resolver, &headers)
            .unwrap();
    let fee = tx_fee(&result, &provider, &headers).unwrap();
    let mut input_total: u64 = 0;
    for inp in &result.inputs {
        input_total += provider.get_cell(&inp.previous_output).unwrap().capacity;
    }
    let mut output_total: u64 = 0;
    for out in &result.outputs {
        output_total += out.capacity;
    }
    assert_eq!(input_total, output_total + fee);
}
