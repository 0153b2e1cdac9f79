//! Serialized size of a transaction.
//!
//! The ledger's fee rule is applied to the byte length of the molecule
//! encoding of a transaction as it is stored in a block. The encoding
//! itself is the chain's, produced by `ckb_types`; this module keeps each
//! encoding step behind a trusted wrapper whose result is named, and builds
//! the verified size function `tx_serialized_size` on top of them.

use vstd::prelude::*;

use ckb_types::bytes::Bytes;
use ckb_types::packed::CellDep as PackedCellDep;
use ckb_types::packed::CellInput as PackedCellInput;
use ckb_types::packed::CellOutput as PackedCellOutput;
use ckb_types::packed::OutPoint as PackedOutPoint;
use ckb_types::packed::Script as PackedScript;
use ckb_types::packed::{
    Byte, Byte32, Byte32Vec, BytesVec, CellDepVec, CellInputVec, CellOutputVec, RawTransaction,
    Transaction, ScriptOpt, Uint32, Uint64,
};
use ckb_types::prelude::{Builder, Entity, Pack};

use crate::types::{
    CellDep, CellDepV, CellInput, CellInputV, CellOutputV, Script, ScriptV, TransactionView, TxV,
    wf_tx,
};

verus! {

/// The views of a list of byte vectors.
pub open spec fn seq_views(s: Seq<Vec<u8>>) -> Seq<Seq<u8>> {
    s.map_values(|v: Vec<u8>| v@)
}

pub uninterp spec fn mol_script_of(s: ScriptV) -> Seq<u8>;

pub uninterp spec fn mol_cell_output_of(
    capacity: u64,
    lock_mol: Seq<u8>,
    type_mol: Option<Seq<u8>>,
) -> Seq<u8>;

pub uninterp spec fn mol_cell_input_of(i: CellInputV) -> Seq<u8>;

pub uninterp spec fn mol_cell_dep_of(d: CellDepV) -> Seq<u8>;

pub uninterp spec fn mol_dep_vec_of(items: Seq<Seq<u8>>) -> Seq<u8>;

pub uninterp spec fn mol_byte32_vec_of(items: Seq<Seq<u8>>) -> Seq<u8>;

pub uninterp spec fn mol_input_vec_of(items: Seq<Seq<u8>>) -> Seq<u8>;

pub uninterp spec fn mol_output_vec_of(items: Seq<Seq<u8>>) -> Seq<u8>;

pub uninterp spec fn mol_bytes_vec_of(items: Seq<Seq<u8>>) -> Seq<u8>;

pub uninterp spec fn mol_tx_block_size_of(
    version: u32,
    deps: Seq<u8>,
    headers: Seq<u8>,
    inputs: Seq<u8>,
    outputs: Seq<u8>,
    outputs_data: Seq<u8>,
    witnesses: Seq<u8>,
) -> int;

/// Relies on ckb_types' packed::Script builder: the molecule encoding of a
/// script, a function of its fields alone.
#[verifier::external_body]
fn mol_script(s: &Script) -> (r: Vec<u8>)
    requires
        s@.code_hash.len() == 32,
    ensures
        r@ == mol_script_of(s@),
{
    let ch = Byte32::from_slice(s.code_hash.as_slice()).unwrap();
    PackedScript::new_builder()
        .code_hash(ch)
        .hash_type(Byte::new(s.hash_type))
        .args(s.args.as_slice().pack())
        .build()
        .as_slice()
        .to_vec()
}

/// Relies on ckb_types' packed::CellOutput builder: the molecule encoding
/// of a cell output, a function of its capacity and its scripts' encodings.
#[verifier::external_body]
fn mol_cell_output(capacity: u64, lock_mol: &Vec<u8>, type_mol: &Option<Vec<u8>>) -> (r: Vec<u8>)
    ensures
        r@ == mol_cell_output_of(
            capacity,
            lock_mol@,
            match type_mol { Some(b) => Some(b@), None => None },
        ),
{
    let lock = PackedScript::new_unchecked(Bytes::from(lock_mol.clone()));
    let type_ = match type_mol {
        Some(b) => Some(PackedScript::new_unchecked(Bytes::from(b.clone()))),
        None => None,
    };
    let cap: Uint64 = capacity.pack();
    PackedCellOutput::new_builder()
        .capacity(cap)
        .lock(lock)
        .type_(ScriptOpt::new_builder().set(type_).build())
        .build()
        .as_slice()
        .to_vec()
}

/// Relies on ckb_types' packed::CellInput: the molecule encoding of an
/// input, a function of its out-point and since fields alone.
#[verifier::external_body]
fn mol_cell_input(i: &CellInput) -> (r: Vec<u8>)
    requires
        i@.previous_output.tx_hash.len() == 32,
    ensures
        r@ == mol_cell_input_of(i@),
{
    let hash = Byte32::from_slice(i.previous_output.tx_hash.as_slice()).unwrap();
    let op = PackedOutPoint::new(hash, i.previous_output.index);
    PackedCellInput::new(op, i.since).as_slice().to_vec()
}

/// Relies on ckb_types' packed::CellDep builder: the molecule encoding of
/// a cell-dep, a function of its fields alone.
#[verifier::external_body]
fn mol_cell_dep(d: &CellDep) -> (r: Vec<u8>)
    requires
        d@.out_point.tx_hash.len() == 32,
    ensures
        r@ == mol_cell_dep_of(d@),
{
    let hash = Byte32::from_slice(d.out_point.tx_hash.as_slice()).unwrap();
    let op = PackedOutPoint::new(hash, d.out_point.index);
    PackedCellDep::new_builder()
        .out_point(op)
        .dep_type(Byte::new(d.dep_type))
        .build()
        .as_slice()
        .to_vec()
}

/// Relies on ckb_types' packed::CellDepVec builder: the molecule encoding
/// of a list of already-encoded cell-deps.
#[verifier::external_body]
fn mol_dep_vec(items: &Vec<Vec<u8>>) -> (r: Vec<u8>)
    ensures
        r@ == mol_dep_vec_of(seq_views(items@)),
{
    let mut b = CellDepVec::new_builder();
    for x in items.iter() {
        b = b.push(PackedCellDep::new_unchecked(Bytes::from(x.clone())));
    }
    b.build().as_slice().to_vec()
}

/// Relies on ckb_types' packed::Byte32Vec builder: the molecule encoding
/// of a list of 32-byte hashes.
#[verifier::external_body]
fn mol_byte32_vec(items: &Vec<Vec<u8>>) -> (r: Vec<u8>)
    requires
        forall|i: int| 0 <= i < items@.len() ==> (#[trigger] items@[i])@.len() == 32,
    ensures
        r@ == mol_byte32_vec_of(seq_views(items@)),
{
    let mut b = Byte32Vec::new_builder();
    for x in items.iter() {
        b = b.push(Byte32::from_slice(x.as_slice()).unwrap());
    }
    b.build().as_slice().to_vec()
}

/// Relies on ckb_types' packed::CellInputVec builder: the molecule
/// encoding of a list of already-encoded inputs.
#[verifier::external_body]
fn mol_input_vec(items: &Vec<Vec<u8>>) -> (r: Vec<u8>)
    ensures
        r@ == mol_input_vec_of(seq_views(items@)),
{
    let mut b = CellInputVec::new_builder();
    for x in items.iter() {
        b = b.push(PackedCellInput::new_unchecked(Bytes::from(x.clone())));
    }
    b.build().as_slice().to_vec()
}

/// Relies on ckb_types' packed::CellOutputVec builder: the molecule
/// encoding of a list of already-encoded outputs.
#[verifier::external_body]
fn mol_output_vec(items: &Vec<Vec<u8>>) -> (r: Vec<u8>)
    ensures
        r@ == mol_output_vec_of(seq_views(items@)),
{
    let mut b = CellOutputVec::new_builder();
    for x in items.iter() {
        b = b.push(PackedCellOutput::new_unchecked(Bytes::from(x.clone())));
    }
    b.build().as_slice().to_vec()
}

/// Relies on ckb_types' packed::BytesVec builder: the molecule encoding of
/// a list of raw byte strings, each packed with its length header.
#[verifier::external_body]
fn mol_bytes_vec(items: &Vec<Vec<u8>>) -> (r: Vec<u8>)
    ensures
        r@ == mol_bytes_vec_of(seq_views(items@)),
{
    let mut b = BytesVec::new_builder();
    for x in items.iter() {
        b = b.push(x.as_slice().pack());
    }
    b.build().as_slice().to_vec()
}

/// Relies on ckb_types' packed::Transaction builder and
/// `TransactionReader::serialized_size_in_block`: the size in a block of
/// the transaction assembled from the given encoded pieces.
#[verifier::external_body]
fn mol_tx_block_size(
    version: u32,
    deps: &Vec<u8>,
    headers: &Vec<u8>,
    inputs: &Vec<u8>,
    outputs: &Vec<u8>,
    outputs_data: &Vec<u8>,
    witnesses: &Vec<u8>,
) -> (r: usize)
    ensures
        r == mol_tx_block_size_of(
            version, deps@, headers@, inputs@, outputs@, outputs_data@, witnesses@,
        ),
{
    let ver: Uint32 = version.pack();
    let raw = RawTransaction::new_builder()
        .version(ver)
        .cell_deps(CellDepVec::new_unchecked(Bytes::from(deps.clone())))
        .header_deps(Byte32Vec::new_unchecked(Bytes::from(headers.clone())))
        .inputs(CellInputVec::new_unchecked(Bytes::from(inputs.clone())))
        .outputs(CellOutputVec::new_unchecked(Bytes::from(outputs.clone())))
        .outputs_data(BytesVec::new_unchecked(Bytes::from(outputs_data.clone())))
        .build();
    let tx = Transaction::new_builder()
        .raw(raw)
        .witnesses(BytesVec::new_unchecked(Bytes::from(witnesses.clone())))
        .build();
    tx.as_reader().serialized_size_in_block()
}

/// The molecule encoding of a cell output, from the output's own fields.
pub open spec fn spec_output_mol(o: CellOutputV) -> Seq<u8> {
    mol_cell_output_of(
        o.capacity,
        mol_script_of(o.lock),
        match o.type_ {
            Some(t) => Some(mol_script_of(t)),
            None => None,
        },
    )
}

/// The serialized size in a block of a transaction.
pub open spec fn spec_tx_size(t: TxV) -> int {
    mol_tx_block_size_of(
        t.version,
        mol_dep_vec_of(t.cell_deps.map_values(|d: CellDepV| mol_cell_dep_of(d))),
        mol_byte32_vec_of(t.header_deps),
        mol_input_vec_of(t.inputs.map_values(|i: CellInputV| mol_cell_input_of(i))),
        mol_output_vec_of(t.outputs.map_values(|o: CellOutputV| spec_output_mol(o))),
        mol_bytes_vec_of(t.outputs_data),
        mol_bytes_vec_of(t.witnesses),
    )
}

/// The molecule encoding of a single output, as executable code.
pub fn output_mol(o: &crate::types::CellOutput) -> (r: Vec<u8>)
    requires
        crate::types::wf_output(o@),
    ensures
        r@ == spec_output_mol(o@),
{
    let lock_mol = mol_script(&o.lock);
    let type_mol: Option<Vec<u8>> = match &o.type_ {
        Some(t) => Some(mol_script(t)),
        None => None,
    };
    mol_cell_output(o.capacity, &lock_mol, &type_mol)
}

/// Measure the serialized size in a block of a transaction.
pub fn tx_serialized_size(tx: &TransactionView) -> (r: usize)
    requires
        wf_tx(tx@),
    ensures
        r == spec_tx_size(tx@),
{
    let mut dep_mols: Vec<Vec<u8>> = Vec::new();
    let mut i: usize = 0;
    while i < tx.cell_deps.len()
        invariant
            i <= tx.cell_deps.len(),
            wf_tx(tx@),
            dep_mols@.len() == i,
            forall|j: int| 0 <= j < i ==> (#[trigger] dep_mols@[j])@ == mol_cell_dep_of(
                tx.cell_deps@[j]@,
            ),
        decreases tx.cell_deps.len() - i,
    {
        proof {
            assert(tx@.cell_deps[i as int] == tx.cell_deps@[i as int]@);
            assert(crate::types::wf_out_point(tx@.cell_deps[i as int].out_point));
        }
        dep_mols.push(mol_cell_dep(&tx.cell_deps[i]));
        i += 1;
    }
    let mut input_mols: Vec<Vec<u8>> = Vec::new();
    let mut i: usize = 0;
    while i < tx.inputs.len()
        invariant
            i <= tx.inputs.len(),
            wf_tx(tx@),
            input_mols@.len() == i,
            forall|j: int| 0 <= j < i ==> (#[trigger] input_mols@[j])@ == mol_cell_input_of(
                tx.inputs@[j]@,
            ),
        decreases tx.inputs.len() - i,
    {
        proof {
            assert(tx@.inputs[i as int] == tx.inputs@[i as int]@);
            assert(crate::types::wf_out_point(tx@.inputs[i as int].previous_output));
        }
        input_mols.push(mol_cell_input(&tx.inputs[i]));
        i += 1;
    }
    let mut output_mols: Vec<Vec<u8>> = Vec::new();
    let mut i: usize = 0;
    while i < tx.outputs.len()
        invariant
            i <= tx.outputs.len(),
            wf_tx(tx@),
            output_mols@.len() == i,
            forall|j: int| 0 <= j < i ==> (#[trigger] output_mols@[j])@ == spec_output_mol(
                tx.outputs@[j]@,
            ),
        decreases tx.outputs.len() - i,
    {
        proof {
            assert(tx@.outputs[i as int] == tx.outputs@[i as int]@);
            assert(crate::types::wf_output(tx@.outputs[i as int]));
        }
        output_mols.push(output_mol(&tx.outputs[i]));
        i += 1;
    }
    proof {
        assert forall|j: int| 0 <= j < tx.header_deps@.len() implies (
        #[trigger] tx.header_deps@[j])@.len() == 32 by {
            assert(tx@.header_deps[j] == tx.header_deps@[j]@);
        }
    }
    let deps = mol_dep_vec(&dep_mols);
    let headers = mol_byte32_vec(&tx.header_deps);
    let inputs = mol_input_vec(&input_mols);
    let outputs = mol_output_vec(&output_mols);
    let outputs_data = mol_bytes_vec(&tx.outputs_data);
    let witnesses = mol_bytes_vec(&tx.witnesses);
    proof {
        assert(seq_views(dep_mols@) =~= tx@.cell_deps.map_values(
            |d: CellDepV| mol_cell_dep_of(d),
        ));
        assert(seq_views(input_mols@) =~= tx@.inputs.map_values(
            |i2: CellInputV| mol_cell_input_of(i2),
        ));
        assert(seq_views(output_mols@) =~= tx@.outputs.map_values(
            |o: CellOutputV| spec_output_mol(o),
        ));
        assert(seq_views(tx.header_deps@) =~= tx@.header_deps);
        assert(seq_views(tx.outputs_data@) =~= tx@.outputs_data);
        assert(seq_views(tx.witnesses@) =~= tx@.witnesses);
    }
    mol_tx_block_size(tx.version, &deps, &headers, &inputs, &outputs, &outputs_data, &witnesses)
}


} // verus!
