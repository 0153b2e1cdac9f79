//! Plain-value model of the ledger's data: scripts, cells, transactions.
//!
//! Every 32-byte hash is held as a `Vec<u8>` of length 32; capacities are
//! `u64` shannons. The well-formedness predicates below are the invariants
//! the rest of the crate maintains.

use vstd::prelude::*;

verus! {

/// A script predicate: identified by the code it runs and parameterized by
/// its arguments.
#[derive(Debug, PartialEq, Eq)]
pub struct Script {
    /// 32-byte hash identifying the script's code.
    pub code_hash: Vec<u8>,
    /// How `code_hash` is interpreted (0 = data, 1 = type, 2 = data1).
    pub hash_type: u8,
    /// Script arguments.
    pub args: Vec<u8>,
}

pub ghost struct ScriptV {
    pub code_hash: Seq<u8>,
    pub hash_type: u8,
    pub args: Seq<u8>,
}

impl View for Script {
    type V = ScriptV;

    open spec fn view(&self) -> ScriptV {
        ScriptV { code_hash: self.code_hash@, hash_type: self.hash_type, args: self.args@ }
    }
}

/// The lookup key for cell-deps and unlockers: a script's identity without
/// its arguments.
#[derive(Debug, PartialEq, Eq)]
pub struct ScriptId {
    pub code_hash: Vec<u8>,
    pub hash_type: u8,
}

pub ghost struct ScriptIdV {
    pub code_hash: Seq<u8>,
    pub hash_type: u8,
}

impl View for ScriptId {
    type V = ScriptIdV;

    open spec fn view(&self) -> ScriptIdV {
        ScriptIdV { code_hash: self.code_hash@, hash_type: self.hash_type }
    }
}

/// Reference to a transaction output by creating transaction and position.
#[derive(Debug, PartialEq, Eq)]
pub struct OutPoint {
    /// 32-byte hash of the creating transaction.
    pub tx_hash: Vec<u8>,
    /// Output index within that transaction.
    pub index: u32,
}

pub ghost struct OutPointV {
    pub tx_hash: Seq<u8>,
    pub index: u32,
}

impl View for OutPoint {
    type V = OutPointV;

    open spec fn view(&self) -> OutPointV {
        OutPointV { tx_hash: self.tx_hash@, index: self.index }
    }
}

/// A consumed cell reference together with its time-lock field.
#[derive(Debug, PartialEq, Eq)]
pub struct CellInput {
    pub since: u64,
    pub previous_output: OutPoint,
}

pub ghost struct CellInputV {
    pub since: u64,
    pub previous_output: OutPointV,
}

impl View for CellInput {
    type V = CellInputV;

    open spec fn view(&self) -> CellInputV {
        CellInputV { since: self.since, previous_output: self.previous_output@ }
    }
}

/// A cell: its capacity in shannons, the lock that authorizes spending it,
/// and an optional type script.
#[derive(Debug, PartialEq, Eq)]
pub struct CellOutput {
    pub capacity: u64,
    pub lock: Script,
    pub type_: Option<Script>,
}

pub ghost struct CellOutputV {
    pub capacity: u64,
    pub lock: ScriptV,
    pub type_: Option<ScriptV>,
}

impl View for CellOutput {
    type V = CellOutputV;

    open spec fn view(&self) -> CellOutputV {
        CellOutputV {
            capacity: self.capacity,
            lock: self.lock@,
            type_: match self.type_ {
                Some(ref s) => Some(s@),
                None => None,
            },
        }
    }
}

/// A pointer to on-chain code the transaction references.
#[derive(Debug, PartialEq, Eq)]
pub struct CellDep {
    pub out_point: OutPoint,
    /// 0 = code, 1 = dep-group.
    pub dep_type: u8,
}

pub ghost struct CellDepV {
    pub out_point: OutPointV,
    pub dep_type: u8,
}

impl View for CellDep {
    type V = CellDepV;

    open spec fn view(&self) -> CellDepV {
        CellDepV { out_point: self.out_point@, dep_type: self.dep_type }
    }
}

/// The part of a block header the fee computation reads: the block number
/// and the 32-byte DAO statistics field.
#[derive(Debug, PartialEq, Eq)]
pub struct Header {
    pub number: u64,
    pub dao: Vec<u8>,
}

pub ghost struct HeaderV {
    pub number: u64,
    pub dao: Seq<u8>,
}

impl View for Header {
    type V = HeaderV;

    open spec fn view(&self) -> HeaderV {
        HeaderV { number: self.number, dao: self.dao@ }
    }
}

/// An in-memory transaction: ordered lists of cell-deps, header-deps,
/// inputs, outputs, output data (one per output), and witnesses.
#[derive(Debug, PartialEq, Eq)]
pub struct TransactionView {
    pub version: u32,
    pub cell_deps: Vec<CellDep>,
    pub header_deps: Vec<Vec<u8>>,
    pub inputs: Vec<CellInput>,
    pub outputs: Vec<CellOutput>,
    pub outputs_data: Vec<Vec<u8>>,
    pub witnesses: Vec<Vec<u8>>,
}

pub ghost struct TxV {
    pub version: u32,
    pub cell_deps: Seq<CellDepV>,
    pub header_deps: Seq<Seq<u8>>,
    pub inputs: Seq<CellInputV>,
    pub outputs: Seq<CellOutputV>,
    pub outputs_data: Seq<Seq<u8>>,
    pub witnesses: Seq<Seq<u8>>,
}

impl View for TransactionView {
    type V = TxV;

    open spec fn view(&self) -> TxV {
        TxV {
            version: self.version,
            cell_deps: self.cell_deps@.map_values(|d: CellDep| d@),
            header_deps: self.header_deps@.map_values(|h: Vec<u8>| h@),
            inputs: self.inputs@.map_values(|i: CellInput| i@),
            outputs: self.outputs@.map_values(|o: CellOutput| o@),
            outputs_data: self.outputs_data@.map_values(|d: Vec<u8>| d@),
            witnesses: self.witnesses@.map_values(|w: Vec<u8>| w@),
        }
    }
}

/// A live cell as the collector reports it.
#[derive(Debug, PartialEq, Eq)]
pub struct LiveCell {
    pub out_point: OutPoint,
    pub output: CellOutput,
    pub output_data: Vec<u8>,
}

pub ghost struct LiveCellV {
    pub out_point: OutPointV,
    pub output: CellOutputV,
    pub output_data: Seq<u8>,
}

impl View for LiveCell {
    type V = LiveCellV;

    open spec fn view(&self) -> LiveCellV {
        LiveCellV { out_point: self.out_point@, output: self.output@, output_data: self.output_data@ }
    }
}

pub open spec fn wf_script(s: ScriptV) -> bool {
    s.code_hash.len() == 32
}

pub open spec fn wf_out_point(o: OutPointV) -> bool {
    o.tx_hash.len() == 32
}

pub open spec fn wf_output(o: CellOutputV) -> bool {
    &&& wf_script(o.lock)
    &&& match o.type_ {
        Some(t) => wf_script(t),
        None => true,
    }
}

pub open spec fn wf_tx(t: TxV) -> bool {
    &&& forall|i: int| 0 <= i < t.cell_deps.len() ==> wf_out_point(#[trigger] t.cell_deps[i].out_point)
    &&& forall|i: int| 0 <= i < t.header_deps.len() ==> (#[trigger] t.header_deps[i]).len() == 32
    &&& forall|i: int| 0 <= i < t.inputs.len() ==> wf_out_point(#[trigger] t.inputs[i].previous_output)
    &&& forall|i: int| 0 <= i < t.outputs.len() ==> wf_output(#[trigger] t.outputs[i])
    &&& t.outputs_data.len() == t.outputs.len()
}

/// The code hash identifying the DAO type script.
pub open spec fn spec_dao_type_hash() -> Seq<u8> {
    seq![
        0x82u8, 0xd7u8, 0x6du8, 0x1bu8, 0x75u8, 0xfeu8, 0x2fu8, 0xd9u8,
        0xa2u8, 0x7du8, 0xfbu8, 0xaau8, 0x65u8, 0xa0u8, 0x39u8, 0x22u8,
        0x1au8, 0x38u8, 0x0du8, 0x76u8, 0xc9u8, 0x26u8, 0xf3u8, 0x78u8,
        0xd3u8, 0xf8u8, 0x1cu8, 0xf3u8, 0xe7u8, 0xe1u8, 0x3fu8, 0x2eu8,
    ]
}

/// The code hash identifying the multisig lock script.
pub open spec fn spec_multisig_type_hash() -> Seq<u8> {
    seq![
        0x5cu8, 0x50u8, 0x69u8, 0xebu8, 0x08u8, 0x57u8, 0xefu8, 0xc6u8,
        0x5eu8, 0x1bu8, 0xcau8, 0x0cu8, 0x07u8, 0xdfu8, 0x34u8, 0xc3u8,
        0x16u8, 0x63u8, 0xb3u8, 0x62u8, 0x2fu8, 0xd3u8, 0x87u8, 0x6cu8,
        0x87u8, 0x63u8, 0x20u8, 0xfcu8, 0x96u8, 0x34u8, 0xe2u8, 0xa8u8,
    ]
}

/// The DAO type script's code hash as bytes.
pub fn dao_type_hash() -> (r: Vec<u8>)
    ensures
        r@ == spec_dao_type_hash(),
{
    let v: Vec<u8> = vec![
        0x82u8, 0xd7u8, 0x6du8, 0x1bu8, 0x75u8, 0xfeu8, 0x2fu8, 0xd9u8,
        0xa2u8, 0x7du8, 0xfbu8, 0xaau8, 0x65u8, 0xa0u8, 0x39u8, 0x22u8,
        0x1au8, 0x38u8, 0x0du8, 0x76u8, 0xc9u8, 0x26u8, 0xf3u8, 0x78u8,
        0xd3u8, 0xf8u8, 0x1cu8, 0xf3u8, 0xe7u8, 0xe1u8, 0x3fu8, 0x2eu8,
    ];
    proof {
        assert(v@ =~= spec_dao_type_hash());
    }
    v
}

/// The multisig lock script's code hash as bytes.
pub fn multisig_type_hash() -> (r: Vec<u8>)
    ensures
        r@ == spec_multisig_type_hash(),
{
    let v: Vec<u8> = vec![
        0x5cu8, 0x50u8, 0x69u8, 0xebu8, 0x08u8, 0x57u8, 0xefu8, 0xc6u8,
        0x5eu8, 0x1bu8, 0xcau8, 0x0cu8, 0x07u8, 0xdfu8, 0x34u8, 0xc3u8,
        0x16u8, 0x63u8, 0xb3u8, 0x62u8, 0x2fu8, 0xd3u8, 0x87u8, 0x6cu8,
        0x87u8, 0x63u8, 0x20u8, 0xfcu8, 0x96u8, 0x34u8, 0xe2u8, 0xa8u8,
    ];
    proof {
        assert(v@ =~= spec_multisig_type_hash());
    }
    v
}

/// Byte-for-byte equality of two byte vectors.
pub fn bytes_eq(a: &Vec<u8>, b: &Vec<u8>) -> (r: bool)
    ensures
        r == (a@ == b@),
{
    if a.len() != b.len() {
        proof {
            assert(a@ != b@);
        }
        return false;
    }
    let mut i: usize = 0;
    while i < a.len()
        invariant
            i <= a.len(),
            a.len() == b.len(),
            forall|j: int| 0 <= j < i ==> a@[j] == b@[j],
        decreases a.len() - i,
    {
        if a[i] != b[i] {
            return false;
        }
        i += 1;
    }
    proof {
        assert(a@ =~= b@);
    }
    true
}

/// A copy of a byte vector.
pub fn clone_bytes(v: &Vec<u8>) -> (r: Vec<u8>)
    ensures
        r@ == v@,
{
    let mut r: Vec<u8> = Vec::new();
    let mut i: usize = 0;
    while i < v.len()
        invariant
            i <= v.len(),
            r@ == v@.subrange(0, i as int),
        decreases v.len() - i,
    {
        r.push(v[i]);
        proof {
            assert(r@ =~= v@.subrange(0, i + 1 as int));
        }
        i += 1;
    }
    proof {
        assert(r@ =~= v@);
    }
    r
}

/// Equality of two scripts: code hash, hash type and args all equal.
pub fn script_eq(a: &Script, b: &Script) -> (r: bool)
    ensures
        r == (a@ == b@),
{
    let r = bytes_eq(&a.code_hash, &b.code_hash) && a.hash_type == b.hash_type
        && bytes_eq(&a.args, &b.args);
    proof {
        if a.code_hash@ == b.code_hash@ && a.hash_type == b.hash_type && a.args@ == b.args@ {
            assert(a@ =~= b@);
        }
    }
    r
}

/// A copy of a script.
pub fn clone_script(s: &Script) -> (r: Script)
    ensures
        r@ == s@,
{
    Script {
        code_hash: clone_bytes(&s.code_hash),
        hash_type: s.hash_type,
        args: clone_bytes(&s.args),
    }
}

/// A copy of an out-point.
pub fn clone_out_point(o: &OutPoint) -> (r: OutPoint)
    ensures
        r@ == o@,
{
    OutPoint { tx_hash: clone_bytes(&o.tx_hash), index: o.index }
}

/// Equality of two out-points.
pub fn out_point_eq(a: &OutPoint, b: &OutPoint) -> (r: bool)
    ensures
        r == (a@ == b@),
{
    let r = bytes_eq(&a.tx_hash, &b.tx_hash) && a.index == b.index;
    proof {
        if a.tx_hash@ == b.tx_hash@ && a.index == b.index {
            assert(a@ =~= b@);
        }
    }
    r
}

/// A copy of a cell output.
pub fn clone_output(o: &CellOutput) -> (r: CellOutput)
    ensures
        r@ == o@,
{
    CellOutput {
        capacity: o.capacity,
        lock: clone_script(&o.lock),
        type_: match &o.type_ {
            Some(s) => Some(clone_script(s)),
            None => None,
        },
    }
}

/// A copy of a cell-dep.
pub fn clone_cell_dep(d: &CellDep) -> (r: CellDep)
    ensures
        r@ == d@,
{
    CellDep { out_point: clone_out_point(&d.out_point), dep_type: d.dep_type }
}

/// Equality of two cell-deps.
pub fn cell_dep_eq(a: &CellDep, b: &CellDep) -> (r: bool)
    ensures
        r == (a@ == b@),
{
    let r = out_point_eq(&a.out_point, &b.out_point) && a.dep_type == b.dep_type;
    proof {
        if a.out_point@ == b.out_point@ && a.dep_type == b.dep_type {
            assert(a@ =~= b@);
        }
    }
    r
}

/// A copy of a cell input.
pub fn clone_input(i: &CellInput) -> (r: CellInput)
    ensures
        r@ == i@,
{
    CellInput { since: i.since, previous_output: clone_out_point(&i.previous_output) }
}

/// The identity of a script: its code hash and hash type, args dropped.
pub open spec fn spec_script_id(s: ScriptV) -> ScriptIdV {
    ScriptIdV { code_hash: s.code_hash, hash_type: s.hash_type }
}

/// The script id of a script: its code hash and hash type.
pub fn script_id_of(s: &Script) -> (r: ScriptId)
    ensures
        r@ == spec_script_id(s@),
{
    ScriptId { code_hash: clone_bytes(&s.code_hash), hash_type: s.hash_type }
}

/// Equality of two script ids.
pub fn script_id_eq(a: &ScriptId, b: &ScriptId) -> (r: bool)
    ensures
        r == (a@ == b@),
{
    let r = bytes_eq(&a.code_hash, &b.code_hash) && a.hash_type == b.hash_type;
    proof {
        if a.code_hash@ == b.code_hash@ && a.hash_type == b.hash_type {
            assert(a@ =~= b@);
        }
    }
    r
}

/// Occupied capacity in shannons of a cell with the given output shape and
/// data length: one shannon per byte of the serialized cell, times 10^8.
pub open spec fn spec_occupied(o: CellOutputV, data_len: int) -> int {
    (8 + data_len + 33 + o.lock.args.len() + match o.type_ {
        Some(t) => 33 + t.args.len() as int,
        None => 0,
    }) * 100_000_000
}

/// The minimum capacity a cell of this shape plus `data_len` bytes of data
/// may hold; `None` when the value does not fit in a `u64`.
pub fn occupied_capacity(o: &CellOutput, data_len: usize) -> (r: Option<u64>)
    ensures
        match r {
            Some(v) => v == spec_occupied(o@, data_len as int),
            None => spec_occupied(o@, data_len as int) > u64::MAX,
        },
{
    let type_bytes: u128 = match &o.type_ {
        Some(t) => 33u128 + t.args.len() as u128,
        None => 0u128,
    };
    let total: u128 = (8u128 + data_len as u128 + 33u128 + o.lock.args.len() as u128 + type_bytes)
        * 100_000_000u128;
    if total > u64::MAX as u128 {
        None
    } else {
        Some(total as u64)
    }
}

/// The integer a little-endian 8-byte sequence denotes.
pub open spec fn spec_le64(b: Seq<u8>) -> int
    recommends
        b.len() == 8,
{
    b[0] + 256 * (b[1] + 256 * (b[2] + 256 * (b[3] + 256 * (b[4] + 256 * (b[5] + 256 * (b[6]
        + 256 * b[7]))))))
}

/// Decode a little-endian 64-bit integer from exactly 8 bytes.
pub fn le64_decode(b: &Vec<u8>) -> (r: u64)
    requires
        b@.len() == 8,
    ensures
        r == spec_le64(b@),
{
    let r: u64 = b[0] as u64 + 256 * (b[1] as u64 + 256 * (b[2] as u64 + 256 * (b[3] as u64 + 256
        * (b[4] as u64 + 256 * (b[5] as u64 + 256 * (b[6] as u64 + 256 * b[7] as u64))))));
    r
}

/// The `since` value a lock script imposes on inputs it locks: for a
/// multisig lock with 28-byte args, the last 8 args bytes little-endian;
/// otherwise 0.
pub open spec fn spec_since_of_lock(s: ScriptV) -> int {
    if s.code_hash == spec_multisig_type_hash() && s.args.len() == 28 {
        spec_le64(s.args.subrange(20, 28))
    } else {
        0
    }
}

/// Compute the `since` value the given lock imposes on new inputs.
pub fn since_of_lock(s: &Script) -> (r: u64)
    ensures
        r == spec_since_of_lock(s@),
{
    let multisig = multisig_type_hash();
    if bytes_eq(&s.code_hash, &multisig) && s.args.len() == 28 {
        let mut tail: Vec<u8> = Vec::new();
        let mut i: usize = 20;
        while i < 28
            invariant
                20 <= i <= 28,
                s.args@.len() == 28,
                tail@ == s.args@.subrange(20, i as int),
            decreases 28 - i,
        {
            tail.push(s.args[i]);
            proof {
                assert(tail@ =~= s.args@.subrange(20, i + 1 as int));
            }
            i += 1;
        }
        le64_decode(&tail)
    } else {
        0
    }
}

/// A fee rate in shannons per 1000 bytes of serialized transaction.
pub struct FeeRate(pub u64);

/// The fee a rate charges for a size: `rate * size / 1000` with the
/// product saturating at `u64::MAX` and the division truncating.
pub open spec fn spec_fee(rate: u64, size: u64) -> int {
    (if rate * size > u64::MAX { u64::MAX as int } else { rate * size as int }) / 1000
}

impl FeeRate {
    /// Build a fee rate from shannons per kilobyte.
    pub fn from_u64(v: u64) -> (r: FeeRate)
        ensures
            r.0 == v,
    {
        FeeRate(v)
    }

    /// The minimum fee for a transaction of `size` bytes.
    pub fn fee(&self, size: u64) -> (r: u64)
        ensures
            r == spec_fee(self.0, size),
    {
        proof {
            assert((self.0 as int) * (size as int) <= (u64::MAX as int) * (u64::MAX as int))
                by (nonlinear_arith)
                requires
                    self.0 <= u64::MAX,
                    size <= u64::MAX,
            ;
        }
        let p: u128 = (self.0 as u128) * (size as u128);
        let saturated: u64 = if p > u64::MAX as u128 {
            u64::MAX
        } else {
            p as u64
        };
        saturated / 1000
    }
}

} // verus!
