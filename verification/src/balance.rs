//! The capacity balancer: the loop that grows a seed transaction until
//! the fee it pays equals the minimum fee for its serialized size.
//!
//! Each pass assembles a candidate transaction from the seed plus the
//! inputs, witnesses, cell-deps and optional change output collected so
//! far, measures it, and either returns it (fee equals the minimum, or a
//! small surplus is donated under the caller's cap), adjusts the change
//! output, pulls more cells from the current capacity provider, or moves
//! on to the next provider.

use vstd::prelude::*;

use crate::fee::{FeeOutcome, TransactionFeeError, spec_input_total, spec_input_value, spec_output_total, spec_tx_fee, tx_fee};
use crate::mol::{spec_tx_size, tx_serialized_size, output_mol};
use crate::traits::{
    CellCollector, CellCollectorError, CellDepResolver, CellQueryOptions, HeaderDepResolver,
    TransactionDependencyError, TransactionDependencyProvider, cell_matches_query, live_cell_views,
    out_points_of,
};
use crate::types::{
    CellDep, CellDepV, CellInput, CellInputV, CellOutput, CellOutputV, FeeRate, LiveCell,
    OutPointV, Script,
    ScriptId, ScriptV, TransactionView, TxV, cell_dep_eq, clone_bytes, clone_cell_dep,
    clone_input, clone_out_point, clone_output, clone_script, occupied_capacity, script_eq,
    script_id_of, since_of_lock, spec_fee, spec_occupied, spec_since_of_lock, wf_out_point,
    wf_output, wf_script, wf_tx,
};

verus! {

/// Capacity sources: lock scripts whose live cells the balancer may spend,
/// each with the placeholder witness its unlocker will later replace.
pub struct CapacityProvider {
    pub lock_scripts: Vec<(Script, Vec<u8>)>,
}

impl CapacityProvider {
    /// A provider from a list of lock scripts with placeholder witnesses.
    pub fn new(lock_scripts: Vec<(Script, Vec<u8>)>) -> (r: CapacityProvider)
        ensures
            r.lock_scripts@ == lock_scripts@,
    {
        CapacityProvider { lock_scripts }
    }
}

/// Configuration of one balancing run.
pub struct CapacityBalancer {
    /// Shannons per 1000 bytes of serialized transaction.
    pub fee_rate: FeeRate,
    /// Where additional capacity comes from.
    pub capacity_provider: CapacityProvider,
    /// Lock of the change output; the first provider's lock when absent.
    pub change_lock_script: Option<Script>,
    /// When no change output fits and no provider has more cells, donate
    /// the surplus to miners as long as the resulting fee stays at or
    /// under this cap.
    pub force_small_change_as_fee: Option<u64>,
}

/// How a run came up short of capacity.
#[derive(Debug, PartialEq, Eq)]
pub enum CapacityShortage {
    /// The surplus carried could not legally fill a change cell.
    NoRoomForChange(u64),
    /// The carried amount of additional capacity could not be collected.
    NeedMoreCapacity(u64),
}

/// Failure of a balancing run.
#[derive(Debug, PartialEq, Eq)]
pub enum BalanceTxCapacityError {
    /// The fee computation failed.
    TxFee(TransactionFeeError),
    /// A previous-cell lookup failed.
    TxDep(TransactionDependencyError),
    /// All providers are exhausted without reaching balance.
    CapacityNotEnough(CapacityShortage),
    /// The trailing surplus exceeds the caller's donation cap.
    ForceSmallChangeAsFeeFailed(u64),
    /// The balancer was configured without any capacity provider.
    EmptyCapacityProvider,
    /// The live-cell backend failed.
    CellCollector(CellCollectorError),
    /// No cell-dep is registered for the provider's lock script.
    ResolveCellDepFailed(ScriptId),
    /// The safety cap on balancing passes was exceeded.
    IterationLimit,
}

/// The state one balancing pass hands to the next.
pub struct BalanceState {
    /// Index of the provider currently supplying cells; only advances.
    pub lock_script_idx: usize,
    /// Whether the current provider's cell-dep has been handled.
    pub dep_added: bool,
    /// Cell-deps to append to the seed's.
    pub cell_deps: Vec<CellDep>,
    /// Inputs to append to the seed's.
    pub inputs: Vec<CellInput>,
    /// Witnesses to append to the seed's.
    pub witnesses: Vec<Vec<u8>>,
    /// The change output under construction, if any.
    pub change_output: Option<CellOutput>,
}

pub ghost struct BalanceStateV {
    pub lock_script_idx: usize,
    pub dep_added: bool,
    pub cell_deps: Seq<CellDepV>,
    pub inputs: Seq<CellInputV>,
    pub witnesses: Seq<Seq<u8>>,
    pub change_output: Option<CellOutputV>,
}

impl View for BalanceState {
    type V = BalanceStateV;

    open spec fn view(&self) -> BalanceStateV {
        BalanceStateV {
            lock_script_idx: self.lock_script_idx,
            dep_added: self.dep_added,
            cell_deps: self.cell_deps@.map_values(|d: CellDep| d@),
            inputs: self.inputs@.map_values(|i: CellInput| i@),
            witnesses: self.witnesses@.map_values(|w: Vec<u8>| w@),
            change_output: match self.change_output {
                Some(ref c) => Some(c@),
                None => None,
            },
        }
    }
}

/// No two cell-deps in the list are equal.
pub open spec fn deps_distinct(s: Seq<CellDepV>) -> bool {
    forall|k1: int, k2: int| 0 <= k1 < k2 < s.len() ==> s[k1] != s[k2]
}

/// Whether `since` is the since value one of the providers' locks
/// imposes.
pub open spec fn since_from_providers(since: u64, providers: Seq<(Script, Vec<u8>)>) -> bool {
    exists|k: int|
        #![trigger providers[k]]
        0 <= k < providers.len() && since == spec_since_of_lock(providers[k].0@)
}

/// The shape of a change output: no data, no type script, the given lock.
pub open spec fn change_shape(lock: ScriptV) -> CellOutputV {
    CellOutputV { capacity: 0, lock, type_: None }
}

/// The lock the change output carries: the configured one, or the first
/// provider's.
pub open spec fn spec_change_lock(balancer: &CapacityBalancer) -> ScriptV {
    match balancer.change_lock_script {
        Some(ref s) => s@,
        None => balancer.capacity_provider.lock_scripts@[0].0@,
    }
}

/// The invariant carried across balancing passes: the provider index is in
/// range, the collected cell-deps are well-formed, pairwise distinct and
/// none repeats a seed cell-dep, the collected inputs are well-formed,
/// pairwise distinct, all reserved at the collector and none reserved
/// before the run started (`reserved0`), and each carries the `since` one
/// of the providers' locks imposes, and the change output, if any, holds
/// the change lock, no type script, and at least its occupied capacity.
pub open spec fn st_inv(
    st: BalanceStateV,
    seed: TxV,
    lock_scripts: Seq<(Script, Vec<u8>)>,
    reserved: Set<OutPointV>,
    reserved0: Set<OutPointV>,
    change_lock: ScriptV,
    change_occ: u64,
) -> bool {
    &&& st.lock_script_idx < lock_scripts.len()
    &&& forall|k: int| 0 <= k < st.cell_deps.len() ==> wf_out_point((#[trigger] st.cell_deps[k]).out_point)
    &&& deps_distinct(st.cell_deps)
    &&& forall|k: int, k2: int|
        0 <= k < st.cell_deps.len() && 0 <= k2 < seed.cell_deps.len() ==> #[trigger] st.cell_deps[k]
            != #[trigger] seed.cell_deps[k2]
    &&& forall|n: int|
        0 <= n < st.inputs.len() ==> wf_out_point((#[trigger] st.inputs[n]).previous_output)
    &&& forall|n1: int, n2: int|
        0 <= n1 < n2 < st.inputs.len() ==> (#[trigger] st.inputs[n1]).previous_output != (
        #[trigger] st.inputs[n2]).previous_output
    &&& forall|n: int|
        0 <= n < st.inputs.len() ==> reserved.contains((#[trigger] st.inputs[n]).previous_output)
    &&& forall|n: int|
        0 <= n < st.inputs.len() ==> !reserved0.contains((#[trigger] st.inputs[n]).previous_output)
    &&& forall|n: int|
        0 <= n < st.inputs.len() ==> since_from_providers(
            (#[trigger] st.inputs[n]).since,
            lock_scripts,
        )
    &&& match st.change_output {
        Some(c) => c.lock == change_lock && c.type_ is None && c.capacity >= change_occ,
        None => true,
    }
}

/// What a successfully balanced transaction guarantees: the seed is a
/// prefix of it in every list, witnesses cover the inputs, a change
/// output, if added, holds the change lock and at least its occupied
/// capacity with empty data, the balancer-added inputs spend pairwise
/// distinct out-points and carry the `since` some provider lock imposes,
/// distinct seed cell-deps stay distinct, and the fee it actually pays is
/// the minimum fee for its serialized size, or exceeds it only under the
/// caller's declared donation cap.
pub open spec fn balanced_ok<P: TransactionDependencyProvider, H: HeaderDepResolver>(
    out: TxV,
    seed: TxV,
    balancer: &CapacityBalancer,
    p: &P,
    h: &H,
) -> bool {
    &&& balanced_structure(out, seed, balancer)
    &&& balanced_fee(out, balancer, p, h)
}

/// Conservation: when the fee computation returns a fee, the sum of the
/// input values equals the sum of the output capacities plus that fee.
pub proof fn lemma_conservation<P: TransactionDependencyProvider, H: HeaderDepResolver>(
    t: TxV,
    p: &P,
    h: &H,
    f: u64,
)
    requires
        spec_tx_fee(t, p, h) == FeeOutcome::Fee(f),
    ensures
        match (spec_input_total(p, h, t.inputs), spec_output_total(t.outputs)) {
            (FeeOutcome::Fee(input_total), Some(output_total)) => input_total == output_total + f,
            _ => false,
        },
{
}

/// Whether the providers list holds an entry with this script and
/// placeholder witness at the script's first occurrence: what a
/// deduplicated provider entry keeps.
pub open spec fn keeps_first(
    lock_scripts: Seq<(Script, Vec<u8>)>,
    script: ScriptV,
    witness: Seq<u8>,
) -> bool {
    exists|k2: int|
        #![trigger lock_scripts[k2]]
        0 <= k2 < lock_scripts.len() && lock_scripts[k2].0@ == script && lock_scripts[k2].1@
            == witness && (forall|k3: int|
            0 <= k3 < k2 ==> (#[trigger] lock_scripts[k3]).0@ != script)
}

/// No double-spend in a build: when the seed's inputs are pairwise
/// distinct and all reserved at the collector before the run, and the
/// balancer-added inputs are pairwise distinct and drawn from outside
/// that initial reserved set (as `balance_tx_capacity` ensures), no two
/// inputs of the result share an out-point.
pub proof fn lemma_no_double_spend(out: TxV, seed: TxV, reserved0: Set<OutPointV>)
    requires
        out.inputs.len() >= seed.inputs.len(),
        out.inputs.subrange(0, seed.inputs.len() as int) == seed.inputs,
        forall|n1: int, n2: int|
            0 <= n1 < n2 < seed.inputs.len() ==> (#[trigger] seed.inputs[n1]).previous_output != (
            #[trigger] seed.inputs[n2]).previous_output,
        forall|n: int|
            0 <= n < seed.inputs.len() ==> reserved0.contains(
                (#[trigger] seed.inputs[n]).previous_output,
            ),
        forall|n1: int, n2: int|
            seed.inputs.len() <= n1 < n2 < out.inputs.len() ==> (
            #[trigger] out.inputs[n1]).previous_output != (#[trigger] out.inputs[n2]).previous_output,
        forall|n: int|
            seed.inputs.len() <= n < out.inputs.len() ==> !reserved0.contains(
                (#[trigger] out.inputs[n]).previous_output,
            ),
    ensures
        forall|n1: int, n2: int|
            0 <= n1 < n2 < out.inputs.len() ==> (#[trigger] out.inputs[n1]).previous_output != (
            #[trigger] out.inputs[n2]).previous_output,
{
    assert forall|n1: int, n2: int|
        0 <= n1 < n2 < out.inputs.len() implies (#[trigger] out.inputs[n1]).previous_output != (
    #[trigger] out.inputs[n2]).previous_output by {
        if n2 < seed.inputs.len() {
            assert(out.inputs[n1] == seed.inputs[n1]);
            assert(out.inputs[n2] == seed.inputs[n2]);
        } else if n1 < seed.inputs.len() {
            assert(out.inputs[n1] == seed.inputs[n1]);
            assert(reserved0.contains(seed.inputs[n1].previous_output));
            assert(!reserved0.contains(out.inputs[n2].previous_output));
        }
    }
}

/// Remove duplicated lock scripts, keeping one entry per script and the
/// first entry first.
fn dedup_providers(lock_scripts: &Vec<(Script, Vec<u8>)>) -> (r: Vec<(Script, Vec<u8>)>)
    ensures
        r@.len() > 0 <==> lock_scripts@.len() > 0,
        lock_scripts@.len() > 0 ==> r@[0].0@ == lock_scripts@[0].0@,
        forall|k1: int, k2: int| 0 <= k1 < k2 < r@.len() ==> (#[trigger] r@[k1]).0@ != (
        #[trigger] r@[k2]).0@,
        forall|k: int|
            0 <= k < r@.len() ==> keeps_first(lock_scripts@, (#[trigger] r@[k]).0@, r@[k].1@),
        forall|k2: int|
            0 <= k2 < lock_scripts@.len() ==> exists|k: int|
                0 <= k < r@.len() && r@[k].0@ == (#[trigger] lock_scripts@[k2]).0@,
{
    let mut r: Vec<(Script, Vec<u8>)> = Vec::new();
    let mut n: usize = 0;
    while n < lock_scripts.len()
        invariant
            n <= lock_scripts@.len(),
            n > 0 ==> r@.len() > 0,
            r@.len() > 0 ==> lock_scripts@.len() > 0 && r@[0].0@ == lock_scripts@[0].0@,
            forall|k1: int, k2: int| 0 <= k1 < k2 < r@.len() ==> (#[trigger] r@[k1]).0@ != (
            #[trigger] r@[k2]).0@,
            forall|k: int|
                0 <= k < r@.len() ==> keeps_first(lock_scripts@, (#[trigger] r@[k]).0@, r@[k].1@),
            forall|k2: int|
                0 <= k2 < n ==> exists|k: int|
                    0 <= k < r@.len() && r@[k].0@ == (#[trigger] lock_scripts@[k2]).0@,
        decreases lock_scripts@.len() - n,
    {
        let ghost old_r = r@;
        let mut seen = false;
        let mut k: usize = 0;
        while k < r.len()
            invariant
                k <= r@.len(),
                n < lock_scripts@.len(),
                r@ == old_r,
                seen ==> exists|k3: int|
                    0 <= k3 < r@.len() && r@[k3].0@ == lock_scripts@[n as int].0@,
                !seen ==> forall|k3: int|
                    0 <= k3 < k ==> (#[trigger] r@[k3]).0@ != lock_scripts@[n as int].0@,
            decreases r@.len() - k,
        {
            if script_eq(&r[k].0, &lock_scripts[n].0) {
                seen = true;
                proof {
                    assert(r@[k as int].0@ == lock_scripts@[n as int].0@);
                }
            }
            k += 1;
        }
        if !seen {
            proof {
                assert forall|k3: int|
                    0 <= k3 < n as int implies (#[trigger] lock_scripts@[k3]).0@ != lock_scripts@[
                    n as int
                ].0@ by {
                    if lock_scripts@[k3].0@ == lock_scripts@[n as int].0@ {
                        let kk = choose|kk: int|
                            0 <= kk < old_r.len() && old_r[kk].0@ == lock_scripts@[k3].0@;
                        assert(r@[kk].0@ != lock_scripts@[n as int].0@);
                    }
                }
            }
            r.push((clone_script(&lock_scripts[n].0), clone_bytes(&lock_scripts[n].1)));
            proof {
                assert(r@.last().0@ == lock_scripts@[n as int].0@);
                assert(r@.last().1@ == lock_scripts@[n as int].1@);
                assert(keeps_first(lock_scripts@, r@.last().0@, r@.last().1@));
            }
        }
        proof {
            assert forall|k2: int| 0 <= k2 <= n as int implies exists|k3: int|
                0 <= k3 < r@.len() && r@[k3].0@ == (#[trigger] lock_scripts@[k2]).0@ by {
                if k2 < n as int {
                    let k3 = choose|k3: int|
                        0 <= k3 < old_r.len() && old_r[k3].0@ == lock_scripts@[k2].0@;
                    assert(r@[k3] == old_r[k3]);
                } else {
                    if seen {
                        let k3 = choose|k3: int|
                            0 <= k3 < old_r.len() && old_r[k3].0@ == lock_scripts@[n as int].0@;
                        assert(r@[k3] == old_r[k3]);
                    } else {
                        assert(r@[r@.len() - 1].0@ == lock_scripts@[n as int].0@);
                    }
                }
            }
        }
        n += 1;
    }
    r
}

/// Whether any of the given inputs spends a cell held by `lock`.
pub open spec fn spec_lock_in_inputs<P: TransactionDependencyProvider>(
    p: &P,
    inputs: Seq<CellInputV>,
    lock: ScriptV,
) -> bool {
    exists|n: int|
        #![trigger inputs[n]]
        0 <= n < inputs.len() && match p.cell_of(inputs[n].previous_output) {
            Some(c) => c.lock == lock,
            None => false,
        }
}

/// Whether the provider lacks the previous cell of some input.
pub open spec fn some_cell_missing<P: TransactionDependencyProvider>(
    p: &P,
    inputs: Seq<CellInputV>,
) -> bool {
    exists|n: int|
        #![trigger inputs[n]]
        0 <= n < inputs.len() && p.cell_of(inputs[n].previous_output) is None
}

/// Check whether any of the inputs spends a cell held by `lock`; fails
/// only when a previous cell cannot be fetched.
fn lock_in_inputs<P: TransactionDependencyProvider>(
    p: &P,
    inputs: &Vec<CellInput>,
    lock: &Script,
) -> (r: Result<bool, TransactionDependencyError>)
    ensures
        match r {
            Ok(b) => b == spec_lock_in_inputs(p, inputs@.map_values(|i: CellInput| i@), lock@),
            Err(_) => some_cell_missing(p, inputs@.map_values(|i: CellInput| i@)),
        },
{
    let ghost ins = inputs@.map_values(|i: CellInput| i@);
    let mut n: usize = 0;
    while n < inputs.len()
        invariant
            n <= inputs@.len(),
            ins == inputs@.map_values(|i: CellInput| i@),
            forall|n2: int|
                0 <= n2 < n ==> match p.cell_of((#[trigger] ins[n2]).previous_output) {
                    Some(c) => c.lock != lock@,
                    None => false,
                },
        decreases inputs@.len() - n,
    {
        proof {
            assert(ins[n as int] == inputs@[n as int]@);
        }
        let cell = match p.get_cell(&inputs[n].previous_output) {
            Ok(c) => c,
            Err(e) => {
                proof {
                    assert(p.cell_of(ins[n as int].previous_output) is None);
                }
                return Err(e);
            },
        };
        if script_eq(&cell.lock, lock) {
            proof {
                assert(p.cell_of(ins[n as int].previous_output) == Some(cell@));
                assert(spec_lock_in_inputs(p, ins, lock@));
            }
            return Ok(true);
        }
        n += 1;
    }
    proof {
        if spec_lock_in_inputs(p, ins, lock@) {
            let n2 = choose|n2: int|
                #![trigger ins[n2]]
                0 <= n2 < ins.len() && match p.cell_of(ins[n2].previous_output) {
                    Some(c) => c.lock == lock@,
                    None => false,
                };
            assert(false);
        }
    }
    Ok(false)
}

/// The transaction a pass measures: the seed extended by the state's
/// cell-deps, inputs and witnesses, plus the change output with empty
/// data when one exists.
pub open spec fn spec_assembled(seed: TxV, st: BalanceStateV) -> TxV {
    TxV {
        version: seed.version,
        cell_deps: seed.cell_deps + st.cell_deps,
        header_deps: seed.header_deps,
        inputs: seed.inputs + st.inputs,
        outputs: match st.change_output {
            Some(c) => seed.outputs.push(c),
            None => seed.outputs,
        },
        outputs_data: match st.change_output {
            Some(_) => seed.outputs_data.push(Seq::empty()),
            None => seed.outputs_data,
        },
        witnesses: seed.witnesses + st.witnesses,
    }
}

/// A transaction with empty witnesses appended until every input has a
/// witness slot: what the first balancing pass measures before anything
/// is collected.
pub open spec fn spec_padded(t: TxV) -> TxV {
    if t.witnesses.len() >= t.inputs.len() {
        t
    } else {
        TxV {
            witnesses: t.witnesses + Seq::new(
                (t.inputs.len() - t.witnesses.len()) as nat,
                |j: int| Seq::<u8>::empty(),
            ),
            ..t
        }
    }
}

/// The state a balancing run starts from: nothing collected yet.
pub open spec fn initial_state(st: BalanceStateV) -> bool {
    &&& st.lock_script_idx == 0
    &&& st.cell_deps.len() == 0
    &&& st.inputs.len() == 0
    &&& st.witnesses.len() == 0
    &&& st.change_output is None
}

/// Whether the seed, once its witness slots are padded, already pays
/// exactly the minimum fee for its size. On such a seed the balancer owes
/// success without consulting the collector.
pub open spec fn padded_balanced<P: TransactionDependencyProvider, H: HeaderDepResolver>(
    t: TxV,
    balancer: &CapacityBalancer,
    p: &P,
    h: &H,
) -> bool {
    match spec_tx_fee(spec_padded(t), p, h) {
        FeeOutcome::Fee(f) => f == spec_fee(
            balancer.fee_rate.0,
            spec_tx_size(spec_padded(t)) as u64,
        ),
        FeeOutcome::Fail(_) => false,
    }
}

/// A succeeding input total means every input's previous cell is known.
proof fn lemma_total_implies_cells<P: TransactionDependencyProvider, H: HeaderDepResolver>(
    p: &P,
    h: &H,
    inputs: Seq<CellInputV>,
)
    requires
        spec_input_total(p, h, inputs) is Fee,
    ensures
        forall|n: int|
            0 <= n < inputs.len() ==> p.cell_of((#[trigger] inputs[n]).previous_output) is Some,
    decreases inputs.len(),
{
    if inputs.len() > 0 {
        lemma_total_implies_cells(p, h, inputs.drop_last());
        assert(spec_input_value(p, h, inputs.last()) is Fee);
        assert forall|n: int|
            0 <= n < inputs.len() implies p.cell_of(
            (#[trigger] inputs[n]).previous_output,
        ) is Some by {
            if n < inputs.len() - 1 {
                assert(inputs.drop_last()[n] == inputs[n]);
            } else {
                assert(inputs[n] == inputs.last());
            }
        }
    }
}

/// Assemble the candidate transaction of one pass.
fn assemble_tx(seed: &TransactionView, st: &BalanceState) -> (r: TransactionView)
    ensures
        r@ == spec_assembled(seed@, st@),
{
    let mut cell_deps: Vec<CellDep> = Vec::new();
    let mut n: usize = 0;
    while n < seed.cell_deps.len()
        invariant
            n <= seed.cell_deps@.len(),
            cell_deps@.len() == n,
            forall|k: int| 0 <= k < n ==> (#[trigger] cell_deps@[k])@ == seed.cell_deps@[k]@,
        decreases seed.cell_deps@.len() - n,
    {
        cell_deps.push(clone_cell_dep(&seed.cell_deps[n]));
        n += 1;
    }
    let mut n: usize = 0;
    while n < st.cell_deps.len()
        invariant
            n <= st.cell_deps@.len(),
            cell_deps@.len() == seed.cell_deps@.len() + n,
            forall|k: int|
                0 <= k < seed.cell_deps@.len() ==> (#[trigger] cell_deps@[k])@ == seed.cell_deps@[
                    k
                ]@,
            forall|k: int|
                seed.cell_deps@.len() <= k < seed.cell_deps@.len() + n ==> (
                #[trigger] cell_deps@[k])@ == st.cell_deps@[k - seed.cell_deps@.len()]@,
        decreases st.cell_deps@.len() - n,
    {
        cell_deps.push(clone_cell_dep(&st.cell_deps[n]));
        n += 1;
    }
    let mut header_deps: Vec<Vec<u8>> = Vec::new();
    let mut n: usize = 0;
    while n < seed.header_deps.len()
        invariant
            n <= seed.header_deps@.len(),
            header_deps@.len() == n,
            forall|k: int| 0 <= k < n ==> (#[trigger] header_deps@[k])@ == seed.header_deps@[k]@,
        decreases seed.header_deps@.len() - n,
    {
        header_deps.push(clone_bytes(&seed.header_deps[n]));
        n += 1;
    }
    let mut inputs: Vec<CellInput> = Vec::new();
    let mut n: usize = 0;
    while n < seed.inputs.len()
        invariant
            n <= seed.inputs@.len(),
            inputs@.len() == n,
            forall|k: int| 0 <= k < n ==> (#[trigger] inputs@[k])@ == seed.inputs@[k]@,
        decreases seed.inputs@.len() - n,
    {
        inputs.push(clone_input(&seed.inputs[n]));
        n += 1;
    }
    let mut n: usize = 0;
    while n < st.inputs.len()
        invariant
            n <= st.inputs@.len(),
            inputs@.len() == seed.inputs@.len() + n,
            forall|k: int|
                0 <= k < seed.inputs@.len() ==> (#[trigger] inputs@[k])@ == seed.inputs@[k]@,
            forall|k: int|
                seed.inputs@.len() <= k < seed.inputs@.len() + n ==> (#[trigger] inputs@[k])@
                    == st.inputs@[k - seed.inputs@.len()]@,
        decreases st.inputs@.len() - n,
    {
        inputs.push(clone_input(&st.inputs[n]));
        n += 1;
    }
    let mut outputs: Vec<CellOutput> = Vec::new();
    let mut n: usize = 0;
    while n < seed.outputs.len()
        invariant
            n <= seed.outputs@.len(),
            outputs@.len() == n,
            forall|k: int| 0 <= k < n ==> (#[trigger] outputs@[k])@ == seed.outputs@[k]@,
        decreases seed.outputs@.len() - n,
    {
        outputs.push(clone_output(&seed.outputs[n]));
        n += 1;
    }
    let mut outputs_data: Vec<Vec<u8>> = Vec::new();
    let mut n: usize = 0;
    while n < seed.outputs_data.len()
        invariant
            n <= seed.outputs_data@.len(),
            outputs_data@.len() == n,
            forall|k: int| 0 <= k < n ==> (#[trigger] outputs_data@[k])@ == seed.outputs_data@[k]@,
        decreases seed.outputs_data@.len() - n,
    {
        outputs_data.push(clone_bytes(&seed.outputs_data[n]));
        n += 1;
    }
    match &st.change_output {
        Some(c) => {
            outputs.push(clone_output(c));
            outputs_data.push(Vec::new());
        },
        None => {},
    }
    let mut witnesses: Vec<Vec<u8>> = Vec::new();
    let mut n: usize = 0;
    while n < seed.witnesses.len()
        invariant
            n <= seed.witnesses@.len(),
            witnesses@.len() == n,
            forall|k: int| 0 <= k < n ==> (#[trigger] witnesses@[k])@ == seed.witnesses@[k]@,
        decreases seed.witnesses@.len() - n,
    {
        witnesses.push(clone_bytes(&seed.witnesses[n]));
        n += 1;
    }
    let mut n: usize = 0;
    while n < st.witnesses.len()
        invariant
            n <= st.witnesses@.len(),
            witnesses@.len() == seed.witnesses@.len() + n,
            forall|k: int|
                0 <= k < seed.witnesses@.len() ==> (#[trigger] witnesses@[k])@ == seed.witnesses@[
                    k
                ]@,
            forall|k: int|
                seed.witnesses@.len() <= k < seed.witnesses@.len() + n ==> (
                #[trigger] witnesses@[k])@ == st.witnesses@[k - seed.witnesses@.len()]@,
        decreases st.witnesses@.len() - n,
    {
        witnesses.push(clone_bytes(&st.witnesses[n]));
        n += 1;
    }
    let r = TransactionView {
        version: seed.version,
        cell_deps,
        header_deps,
        inputs,
        outputs,
        outputs_data,
        witnesses,
    };
    proof {
        let a = r@;
        let b = spec_assembled(seed@, st@);
        assert(a.cell_deps =~= b.cell_deps);
        assert(a.header_deps =~~= b.header_deps);
        assert(a.inputs =~= b.inputs);
        assert(a.outputs =~= b.outputs);
        assert(a.outputs_data =~~= b.outputs_data);
        assert(a.witnesses =~~= b.witnesses);
        assert(a == b);
    }
    r
}

} // verus!

verus! {

/// Whether an equal cell-dep is already in the list.
fn dep_in_list(list: &Vec<CellDep>, dep: &CellDep) -> (r: bool)
    ensures
        r == exists|k: int| 0 <= k < list@.len() && (#[trigger] list@[k])@ == dep@,
{
    let mut k: usize = 0;
    while k < list.len()
        invariant
            k <= list@.len(),
            forall|k2: int| 0 <= k2 < k ==> (#[trigger] list@[k2])@ != dep@,
        decreases list@.len() - k,
    {
        if cell_dep_eq(&list[k], dep) {
            proof {
                assert(list@[k as int]@ == dep@);
            }
            return true;
        }
        k += 1;
    }
    false
}

/// The structural half of a balanced result: everything `balanced_ok`
/// states except the fee clause.
pub open spec fn balanced_structure(out: TxV, seed: TxV, balancer: &CapacityBalancer) -> bool {
    &&& wf_tx(out)
    &&& out.version == seed.version
    &&& out.header_deps == seed.header_deps
    &&& out.cell_deps.len() >= seed.cell_deps.len()
    &&& out.cell_deps.subrange(0, seed.cell_deps.len() as int) == seed.cell_deps
    &&& out.inputs.len() >= seed.inputs.len()
    &&& out.inputs.subrange(0, seed.inputs.len() as int) == seed.inputs
    &&& seed.outputs.len() <= out.outputs.len() <= seed.outputs.len() + 1
    &&& out.outputs.subrange(0, seed.outputs.len() as int) == seed.outputs
    &&& out.outputs_data.subrange(0, seed.outputs_data.len() as int) == seed.outputs_data
    &&& out.witnesses.len() >= out.inputs.len()
    &&& out.witnesses.subrange(0, seed.witnesses.len() as int) == seed.witnesses
    &&& (out.outputs.len() == seed.outputs.len() + 1 ==> {
        &&& out.outputs.last().lock == spec_change_lock(balancer)
        &&& out.outputs.last().type_ is None
        &&& out.outputs.last().capacity >= spec_occupied(
            change_shape(spec_change_lock(balancer)),
            0,
        )
        &&& out.outputs_data.last().len() == 0
    })
    &&& forall|n1: int, n2: int|
        seed.inputs.len() <= n1 < n2 < out.inputs.len() ==> (
        #[trigger] out.inputs[n1]).previous_output != (#[trigger] out.inputs[n2]).previous_output
    &&& forall|n: int|
        seed.inputs.len() <= n < out.inputs.len() ==> since_from_providers(
            (#[trigger] out.inputs[n]).since,
            balancer.capacity_provider.lock_scripts@,
        )
    &&& (deps_distinct(seed.cell_deps) ==> deps_distinct(out.cell_deps))
}

/// The fee half of a balanced result: the fee computation succeeds, pays
/// at least the minimum fee for the serialized size, and pays more only
/// under the caller's donation cap.
pub open spec fn balanced_fee<P: TransactionDependencyProvider, H: HeaderDepResolver>(
    out: TxV,
    balancer: &CapacityBalancer,
    p: &P,
    h: &H,
) -> bool {
    match spec_tx_fee(out, p, h) {
        FeeOutcome::Fee(f) => {
            &&& f >= spec_fee(balancer.fee_rate.0, spec_tx_size(out) as u64)
            &&& (f > spec_fee(balancer.fee_rate.0, spec_tx_size(out) as u64)
                ==> match balancer.force_small_change_as_fee {
                Some(cap) => f <= cap,
                None => false,
            })
        },
        FeeOutcome::Fail(_) => false,
    }
}

/// The dedup mapping: every working provider entry carries the script of
/// some configured provider entry.
pub open spec fn providers_from(
    lock_scripts: Seq<(Script, Vec<u8>)>,
    balancer: &CapacityBalancer,
) -> bool {
    forall|k: int|
        #![trigger lock_scripts[k]]
        0 <= k < lock_scripts.len() ==> exists|k2: int|
            #![trigger balancer.capacity_provider.lock_scripts@[k2]]
            0 <= k2 < balancer.capacity_provider.lock_scripts@.len() && lock_scripts[k].0@
                == balancer.capacity_provider.lock_scripts@[k2].0@
}

/// A well-formed seed extended by well-formed state assembles into a
/// well-formed transaction.
proof fn lemma_assembled_wf(seed: TxV, st: BalanceStateV, change_lock: ScriptV)
    requires
        wf_tx(seed),
        wf_script(change_lock),
        forall|k: int|
            0 <= k < st.cell_deps.len() ==> wf_out_point((#[trigger] st.cell_deps[k]).out_point),
        forall|n: int|
            0 <= n < st.inputs.len() ==> wf_out_point((#[trigger] st.inputs[n]).previous_output),
        match st.change_output {
            Some(c) => c.lock == change_lock && c.type_ is None,
            None => true,
        },
    ensures
        wf_tx(spec_assembled(seed, st)),
{
    let a = spec_assembled(seed, st);
    assert forall|i: int| 0 <= i < a.cell_deps.len() implies wf_out_point(
        (#[trigger] a.cell_deps[i]).out_point,
    ) by {
        if i < seed.cell_deps.len() {
            assert(a.cell_deps[i] == seed.cell_deps[i]);
        } else {
            assert(a.cell_deps[i] == st.cell_deps[i - seed.cell_deps.len()]);
        }
    }
    assert forall|i: int| 0 <= i < a.inputs.len() implies wf_out_point(
        (#[trigger] a.inputs[i]).previous_output,
    ) by {
        if i < seed.inputs.len() {
            assert(a.inputs[i] == seed.inputs[i]);
        } else {
            assert(a.inputs[i] == st.inputs[i - seed.inputs.len()]);
        }
    }
    assert forall|i: int| 0 <= i < a.outputs.len() implies wf_output(#[trigger] a.outputs[i]) by {
        if i < seed.outputs.len() {
            assert(a.outputs[i] == seed.outputs[i]);
        } else {
            assert(a.outputs[i] == st.change_output.unwrap());
        }
    }
}

/// The assembly of a state that satisfies the pass invariant has the
/// structural properties of a balanced result.
proof fn lemma_balanced_structure(
    seed: TxV,
    st: BalanceStateV,
    balancer: &CapacityBalancer,
    lock_scripts: Seq<(Script, Vec<u8>)>,
    reserved: Set<OutPointV>,
    reserved0: Set<OutPointV>,
)
    requires
        wf_tx(seed),
        st_inv(
            st,
            seed,
            lock_scripts,
            reserved,
            reserved0,
            spec_change_lock(balancer),
            spec_occupied(change_shape(spec_change_lock(balancer)), 0) as u64,
        ),
        spec_occupied(change_shape(spec_change_lock(balancer)), 0) <= u64::MAX,
        wf_script(spec_change_lock(balancer)),
        providers_from(lock_scripts, balancer),
        seed.witnesses.len() + st.witnesses.len() >= seed.inputs.len() + st.inputs.len(),
    ensures
        balanced_structure(spec_assembled(seed, st), seed, balancer),
        forall|n: int|
            seed.inputs.len() <= n < spec_assembled(seed, st).inputs.len() ==> !reserved0.contains(
                (#[trigger] spec_assembled(seed, st).inputs[n]).previous_output,
            ),
{
    assert forall|n: int|
        seed.inputs.len() <= n < spec_assembled(seed, st).inputs.len() implies !reserved0.contains(
        (#[trigger] spec_assembled(seed, st).inputs[n]).previous_output,
    ) by {
        assert(spec_assembled(seed, st).inputs[n] == st.inputs[n - seed.inputs.len()]);
        assert(!reserved0.contains(st.inputs[n - seed.inputs.len()].previous_output));
    }
    let a = spec_assembled(seed, st);
    lemma_assembled_wf(seed, st, spec_change_lock(balancer));
    assert(a.cell_deps.subrange(0, seed.cell_deps.len() as int) =~= seed.cell_deps);
    assert(a.inputs.subrange(0, seed.inputs.len() as int) =~= seed.inputs);
    assert(a.outputs.subrange(0, seed.outputs.len() as int) =~= seed.outputs);
    assert(a.outputs_data.subrange(0, seed.outputs_data.len() as int) =~~= seed.outputs_data);
    assert(a.witnesses.subrange(0, seed.witnesses.len() as int) =~~= seed.witnesses);
    assert forall|n1: int, n2: int|
        seed.inputs.len() <= n1 < n2 < a.inputs.len() implies (
    #[trigger] a.inputs[n1]).previous_output != (#[trigger] a.inputs[n2]).previous_output by {
        assert(a.inputs[n1] == st.inputs[n1 - seed.inputs.len()]);
        assert(a.inputs[n2] == st.inputs[n2 - seed.inputs.len()]);
    }
    assert forall|n: int|
        seed.inputs.len() <= n < a.inputs.len() implies since_from_providers(
        (#[trigger] a.inputs[n]).since,
        balancer.capacity_provider.lock_scripts@,
    ) by {
        assert(a.inputs[n] == st.inputs[n - seed.inputs.len()]);
        assert(since_from_providers(st.inputs[n - seed.inputs.len()].since, lock_scripts));
        let k = choose|k: int|
            #![trigger lock_scripts[k]]
            0 <= k < lock_scripts.len() && st.inputs[n - seed.inputs.len()].since
                == spec_since_of_lock(lock_scripts[k].0@);
        let k2 = choose|k2: int|
            #![trigger balancer.capacity_provider.lock_scripts@[k2]]
            0 <= k2 < balancer.capacity_provider.lock_scripts@.len() && lock_scripts[k].0@
                == balancer.capacity_provider.lock_scripts@[k2].0@;
        assert(a.inputs[n].since == spec_since_of_lock(
            balancer.capacity_provider.lock_scripts@[k2].0@,
        ));
    }
    if deps_distinct(seed.cell_deps) {
        assert forall|k1: int, k2: int|
            0 <= k1 < k2 < a.cell_deps.len() implies a.cell_deps[k1] != a.cell_deps[k2] by {
            if k2 < seed.cell_deps.len() {
                assert(a.cell_deps[k1] == seed.cell_deps[k1]);
                assert(a.cell_deps[k2] == seed.cell_deps[k2]);
            } else if k1 < seed.cell_deps.len() {
                assert(a.cell_deps[k1] == seed.cell_deps[k1]);
                assert(a.cell_deps[k2] == st.cell_deps[k2 - seed.cell_deps.len()]);
            } else {
                assert(a.cell_deps[k1] == st.cell_deps[k1 - seed.cell_deps.len()]);
                assert(a.cell_deps[k2] == st.cell_deps[k2 - seed.cell_deps.len()]);
            }
        }
    }
    if a.outputs.len() == seed.outputs.len() + 1 {
        assert(a.outputs.last() == st.change_output.unwrap());
        assert(a.outputs_data.last() =~= Seq::<u8>::empty());
        assert(a.outputs_data.last().len() == 0);
        assert(a.outputs.last().capacity >= spec_occupied(
            change_shape(spec_change_lock(balancer)),
            0,
        ));
    }
    assert forall|n: int|
        seed.inputs.len() <= n < spec_assembled(seed, st).inputs.len() implies exists|k2: int|
        0 <= k2 < balancer.capacity_provider.lock_scripts@.len() && (#[trigger] spec_assembled(
            seed,
            st,
        ).inputs[n]).since == spec_since_of_lock(
            balancer.capacity_provider.lock_scripts@[k2].0@,
        ) by {
        assert(a.inputs[n] == st.inputs[n - seed.inputs.len()]);
        let k = choose|k: int|
            0 <= k < lock_scripts.len() && st.inputs[n - seed.inputs.len()].since
                == spec_since_of_lock(lock_scripts[k].0@);
        assert(0 <= k < lock_scripts.len() && st.inputs[n - seed.inputs.len()].since
            == spec_since_of_lock(lock_scripts[k].0@));
        let k2 = choose|k2: int|
            0 <= k2 < balancer.capacity_provider.lock_scripts@.len() && lock_scripts[k].0@
                == balancer.capacity_provider.lock_scripts@[k2].0@;
        assert(0 <= k2 < balancer.capacity_provider.lock_scripts@.len() && lock_scripts[k].0@
            == balancer.capacity_provider.lock_scripts@[k2].0@);
        assert(a.inputs[n].since == spec_since_of_lock(
            balancer.capacity_provider.lock_scripts@[k2].0@,
        ));
    }
}

} // verus!

verus! {

/// Append one input per collected cell, all with the same `since`.
fn append_inputs(dst: &mut Vec<CellInput>, src: &Vec<LiveCell>, since: u64)
    ensures
        final(dst)@.len() == old(dst)@.len() + src@.len(),
        forall|n: int| 0 <= n < old(dst)@.len() ==> final(dst)@[n] == old(dst)@[n],
        forall|n: int|
            old(dst)@.len() <= n < final(dst)@.len() ==> (
            #[trigger] final(dst)@[n])@.previous_output == src@[n - old(dst)@.len()]@.out_point
                && final(dst)@[n]@.since == since,
{
    let mut m: usize = 0;
    while m < src.len()
        invariant
            m <= src@.len(),
            dst@.len() == old(dst)@.len() + m,
            forall|n: int| 0 <= n < old(dst)@.len() ==> dst@[n] == old(dst)@[n],
            forall|n: int|
                old(dst)@.len() <= n < dst@.len() ==> (#[trigger] dst@[n])@.previous_output == src@[
                    n - old(dst)@.len()
                ]@.out_point && dst@[n]@.since == since,
        decreases src@.len() - m,
    {
        dst.push(CellInput { since, previous_output: clone_out_point(&src[m].out_point) });
        m += 1;
    }
}

/// One pass of the balancing loop.
///
/// Measures the candidate assembled from the seed and the current state
/// and applies the decision table: return the candidate when its fee is
/// the minimum fee for its size (or a donated surplus under the caller's
/// cap), grow or create the change output when the fee overshoots, pull
/// more cells from the current provider when it undershoots, advance to
/// the next provider when this one is exhausted, or fail when nothing is
/// left. The provider index never decreases, and a pass that asks for
/// another (`Ok(None)`) has made progress: it advanced the provider,
/// added inputs, or adjusted the change output.
#[verifier::rlimit(100)]
pub fn balance_step<
    C: CellCollector,
    P: TransactionDependencyProvider,
    D: CellDepResolver,
    H: HeaderDepResolver,
>(
    tx: &TransactionView,
    balancer: &CapacityBalancer,
    lock_scripts: &Vec<(Script, Vec<u8>)>,
    change_lock: &Script,
    base_change_occupied: u64,
    Ghost(init_reserved): Ghost<Set<OutPointV>>,
    st: &mut BalanceState,
    cell_collector: &mut C,
    tx_dep_provider: &P,
    cell_dep_resolver: &D,
    header_dep_resolver: &H,
) -> (r: Result<Option<TransactionView>, BalanceTxCapacityError>)
    requires
        wf_tx(tx@),
        lock_scripts@.len() > 0,
        forall|k: int| 0 <= k < lock_scripts@.len() ==> wf_script((#[trigger] lock_scripts@[k]).0@),
        providers_from(lock_scripts@, balancer),
        change_lock@ == spec_change_lock(balancer),
        wf_script(change_lock@),
        base_change_occupied == spec_occupied(change_shape(change_lock@), 0),
        spec_occupied(change_shape(change_lock@), 0) <= u64::MAX,
        init_reserved.subset_of(old(cell_collector).reserved()),
        st_inv(
            old(st)@,
            tx@,
            lock_scripts@,
            old(cell_collector).reserved(),
            init_reserved,
            change_lock@,
            base_change_occupied,
        ),
    ensures
        st_inv(
            final(st)@,
            tx@,
            lock_scripts@,
            final(cell_collector).reserved(),
            init_reserved,
            change_lock@,
            base_change_occupied,
        ),
        final(st)@.lock_script_idx >= old(st)@.lock_script_idx,
        old(cell_collector).reserved().subset_of(final(cell_collector).reserved()),
        (r matches Ok(None)) ==> {
            ||| final(st)@.lock_script_idx > old(st)@.lock_script_idx
            ||| final(st)@.inputs.len() > old(st)@.inputs.len()
            ||| final(st)@.change_output != old(st)@.change_output
        },
        (initial_state(old(st)@) && padded_balanced(
            tx@,
            balancer,
            tx_dep_provider,
            header_dep_resolver,
        )) ==> (r matches Ok(Some(_))),
        match r {
            Ok(Some(out)) => balanced_ok(out@, tx@, balancer, tx_dep_provider, header_dep_resolver)
                && (forall|n: int|
                tx@.inputs.len() <= n < out@.inputs.len() ==> !init_reserved.contains(
                    (#[trigger] out@.inputs[n]).previous_output,
                )),
            Ok(None) => true,
            Err(e) => {
                &&& !(e matches BalanceTxCapacityError::EmptyCapacityProvider)
                &&& !(e matches BalanceTxCapacityError::IterationLimit)
                &&& (match e {
                    BalanceTxCapacityError::ForceSmallChangeAsFeeFailed(f) => {
                        match balancer.force_small_change_as_fee {
                            Some(cap) => f > cap,
                            None => false,
                        }
                    },
                    _ => true,
                })
            },
        },
{
    let idx = st.lock_script_idx;
    let ghost premise = initial_state(st@) && padded_balanced(
        tx@,
        balancer,
        tx_dep_provider,
        header_dep_resolver,
    );
    proof {
        assert(idx < lock_scripts@.len());
        if premise {
            lemma_total_implies_cells(tx_dep_provider, header_dep_resolver, tx@.inputs);
        }
    }
    let has_provider_seed = match lock_in_inputs(tx_dep_provider, &tx.inputs, &lock_scripts[idx].0) {
        Ok(b) => b,
        Err(e) => {
            proof {
                if premise {
                    let nn = choose|n: int|
                        #![trigger tx@.inputs[n]]
                        0 <= n < tx@.inputs.len() && tx_dep_provider.cell_of(
                            tx@.inputs[n].previous_output,
                        ) is None;
                    assert(false);
                }
            }
            return Err(BalanceTxCapacityError::TxDep(e));
        },
    };
    let has_provider_added = match lock_in_inputs(
        tx_dep_provider,
        &st.inputs,
        &lock_scripts[idx].0,
    ) {
        Ok(b) => b,
        Err(e) => {
            proof {
                if premise {
                    let nn = choose|n: int|
                        #![trigger st@.inputs[n]]
                        0 <= n < st@.inputs.len() && tx_dep_provider.cell_of(
                            st@.inputs[n].previous_output,
                        ) is None;
                    assert(false);
                }
            }
            return Err(BalanceTxCapacityError::TxDep(e));
        },
    };
    let has_provider = has_provider_seed || has_provider_added;
    let ghost st0 = st@;
    let ghost entry_reserved = cell_collector.reserved();
    proof {
        assert(st0 == old(st)@);
        assert(entry_reserved == old(cell_collector).reserved());
    }
    while (tx.witnesses.len() as u128 + st.witnesses.len() as u128) < (tx.inputs.len() as u128
        + st.inputs.len() as u128)
        invariant
            st@.lock_script_idx == st0.lock_script_idx,
            st@.dep_added == st0.dep_added,
            st@.cell_deps == st0.cell_deps,
            st@.inputs == st0.inputs,
            st@.change_output == st0.change_output,
            st@.witnesses.len() >= st0.witnesses.len(),
            forall|j: int|
                st0.witnesses.len() <= j < st@.witnesses.len() ==> (#[trigger] st@.witnesses[j])
                    == Seq::<u8>::empty(),
            forall|j: int| 0 <= j < st0.witnesses.len() ==> st@.witnesses[j] == st0.witnesses[j],
            st@.witnesses.len() > st0.witnesses.len() ==> tx.witnesses@.len() + st@.witnesses.len()
                <= tx.inputs@.len() + st@.inputs.len(),
        decreases (tx.inputs@.len() + st.inputs@.len()) - (tx.witnesses@.len()
            + st.witnesses@.len()),
    {
        let ghost wits_before = st@.witnesses;
        st.witnesses.push(Vec::new());
        proof {
            assert(st@.witnesses.len() == wits_before.len() + 1);
            assert(forall|j: int|
                0 <= j < wits_before.len() ==> #[trigger] st@.witnesses[j] == wits_before[j]);
            assert(st@.witnesses[wits_before.len() as int] =~= Seq::<u8>::empty());
        }
    }
    proof {
        assert(st_inv(st@, tx@, lock_scripts@, entry_reserved, init_reserved, change_lock@, base_change_occupied));
    }
    let new_tx = assemble_tx(tx, st);
    proof {
        lemma_assembled_wf(tx@, st@, change_lock@);
        if premise {
            assert(spec_assembled(tx@, st@).cell_deps =~= spec_padded(tx@).cell_deps);
            assert(spec_assembled(tx@, st@).inputs =~= spec_padded(tx@).inputs);
            assert(spec_assembled(tx@, st@).outputs =~= spec_padded(tx@).outputs);
            assert(spec_assembled(tx@, st@).outputs_data =~~= spec_padded(tx@).outputs_data);
            assert(spec_assembled(tx@, st@).witnesses =~~= spec_padded(tx@).witnesses);
            assert(new_tx@ == spec_padded(tx@));
        }
    }
    let tx_size = tx_serialized_size(&new_tx);
    let min_fee = balancer.fee_rate.fee(tx_size as u64);
    let fee_result = tx_fee(&new_tx, tx_dep_provider, header_dep_resolver);
    proof {
        if premise {
            assert(match fee_result {
                Ok(f) => f == min_fee,
                Err(_) => false,
            });
        }
    }
    let mut need_more: u64 = 1;
    match fee_result {
        Ok(fee) => {
            if fee == min_fee {
                proof {
                    lemma_balanced_structure(tx@, st@, balancer, lock_scripts@, entry_reserved, init_reserved);
                    assert forall|n: int|
                        tx@.inputs.len() <= n < new_tx@.inputs.len() implies !init_reserved
                        .contains((#[trigger] new_tx@.inputs[n]).previous_output) by {
                        assert(new_tx@.inputs[n] == spec_assembled(tx@, st@).inputs[n]);
                    }
                }
                return Ok(Some(new_tx));
            } else if fee > min_fee {
                let delta = fee - min_fee;
                let old_cap_opt: Option<u64> = match &st.change_output {
                    Some(c) => Some(c.capacity),
                    None => None,
                };
                match old_cap_opt {
                    Some(old_cap) => {
                        match old_cap.checked_add(delta) {
                            Some(new_cap) => {
                                proof {
                                    assert(match st0.change_output {
                                        Some(c0) => c0.capacity == old_cap,
                                        None => false,
                                    });
                                }
                                st.change_output = Some(
                                    CellOutput {
                                        capacity: new_cap,
                                        lock: clone_script(change_lock),
                                        type_: None,
                                    },
                                );
                                need_more = 0;
                                proof {
                                    assert(st@.change_output != st0.change_output);
                                }
                            },
                            None => {
                                return Err(BalanceTxCapacityError::TxFee(
                                    TransactionFeeError::CapacityError,
                                ));
                            },
                        }
                    },
                    None => {
                        let base_change = CellOutput {
                            capacity: 0,
                            lock: clone_script(change_lock),
                            type_: None,
                        };
                        let base_mol = output_mol(&base_change);
                        let sz128: u128 = base_mol.len() as u128 + 12;
                        let sz: u64 = if sz128 > u64::MAX as u128 {
                            u64::MAX
                        } else {
                            sz128 as u64
                        };
                        let extra_min_fee = balancer.fee_rate.fee(sz);
                        if delta >= base_change_occupied && delta - base_change_occupied
                            >= extra_min_fee {
                            st.change_output = Some(
                                CellOutput {
                                    capacity: delta - extra_min_fee,
                                    lock: clone_script(change_lock),
                                    type_: None,
                                },
                            );
                            need_more = 0;
                            proof {
                                assert(st@.change_output != st0.change_output);
                            }
                        } else {
                            let peek_query = CellQueryOptions {
                                lock_script: clone_script(&lock_scripts[idx].0),
                                min_total_capacity: 0,
                            };
                            let peek = match cell_collector.collect_live_cells(&peek_query, false) {
                                Ok(v) => v,
                                Err(e) => {
                                    return Err(BalanceTxCapacityError::CellCollector(e));
                                },
                            };
                            if peek.0.len() == 0 {
                                match balancer.force_small_change_as_fee {
                                    Some(cap) => {
                                        if fee > cap {
                                            return Err(
                                                BalanceTxCapacityError::ForceSmallChangeAsFeeFailed(
                                                    fee,
                                                ),
                                            );
                                        } else {
                                            proof {
                                                lemma_balanced_structure(
                                                    tx@,
                                                    st@,
                                                    balancer,
                                                    lock_scripts@,
                                                    entry_reserved,
                                                    init_reserved,
                                                );
                                                assert forall|n: int|
                                                    tx@.inputs.len() <= n < new_tx@.inputs.len()
                                                    implies !init_reserved.contains(
                                                    (#[trigger] new_tx@.inputs[n]).previous_output,
                                                ) by {
                                                    assert(new_tx@.inputs[n] == spec_assembled(
                                                        tx@,
                                                        st@,
                                                    ).inputs[n]);
                                                }
                                            }
                                            return Ok(Some(new_tx));
                                        }
                                    },
                                    None => {
                                        if idx == lock_scripts.len() - 1 {
                                            return Err(BalanceTxCapacityError::CapacityNotEnough(
                                                CapacityShortage::NoRoomForChange(delta),
                                            ));
                                        } else {
                                            st.lock_script_idx = idx + 1;
                                            st.dep_added = false;
                                            proof {
                                                assert(st@.lock_script_idx
                                                    > st0.lock_script_idx);
                                            }
                                            return Ok(None);
                                        }
                                    },
                                }
                            } else {
                                st.change_output = Some(
                                    CellOutput {
                                        capacity: base_change_occupied,
                                        lock: clone_script(change_lock),
                                        type_: None,
                                    },
                                );
                                proof {
                                    assert(st@.change_output != st0.change_output);
                                }
                            }
                        }
                    },
                }
            } else {
                // fee < min_fee: pull more capacity with the default target.
            }
        },
        Err(e) => {
            match e {
                TransactionFeeError::CapacityOverflow(delta) => {
                    let target = match delta.checked_add(min_fee) {
                        Some(v) => v,
                        None => u64::MAX,
                    };
                    need_more = if target == 0 {
                        1
                    } else {
                        target
                    };
                },
                other => {
                    return Err(BalanceTxCapacityError::TxFee(other));
                },
            }
        },
    }
    if need_more > 0 {
        let query = CellQueryOptions {
            lock_script: clone_script(&lock_scripts[idx].0),
            min_total_capacity: need_more,
        };
        let ghost reserved1 = cell_collector.reserved();
        let collected = match cell_collector.collect_live_cells(&query, true) {
            Ok(v) => v,
            Err(e) => {
                return Err(BalanceTxCapacityError::CellCollector(e));
            },
        };
        let more_cells = collected.0;
        if more_cells.len() == 0 {
            proof {
                assert(out_points_of(live_cell_views(more_cells@)) =~= Set::<OutPointV>::empty());
                assert(cell_collector.reserved() =~= reserved1);
            }
            if idx == lock_scripts.len() - 1 {
                return Err(BalanceTxCapacityError::CapacityNotEnough(
                    CapacityShortage::NeedMoreCapacity(need_more),
                ));
            } else {
                st.lock_script_idx = idx + 1;
                st.dep_added = false;
                proof {
                    assert(st@.lock_script_idx > st0.lock_script_idx);
                }
                return Ok(None);
            }
        }
        if !st.dep_added {
            let id = script_id_of(&lock_scripts[idx].0);
            let dep = match cell_dep_resolver.resolve(&id) {
                Some(d) => d,
                None => {
                    return Err(BalanceTxCapacityError::ResolveCellDepFailed(id));
                },
            };
            let in_seed = dep_in_list(&tx.cell_deps, &dep);
            let in_added = dep_in_list(&st.cell_deps, &dep);
            if !in_seed && !in_added {
                let ghost old_deps = st@.cell_deps;
                let ghost old_raw = st.cell_deps@;
                st.cell_deps.push(dep);
                proof {
                    assert(old_deps == st0.cell_deps);
                    assert(st@.cell_deps.len() == old_deps.len() + 1);
                    assert(forall|k: int|
                        0 <= k < old_deps.len() ==> #[trigger] st@.cell_deps[k] == old_deps[k]);
                    assert(st@.cell_deps.last() == dep@);
                    assert forall|k: int| 0 <= k < st@.cell_deps.len() implies wf_out_point(
                        (#[trigger] st@.cell_deps[k]).out_point,
                    ) by {
                        if k < old_deps.len() {
                            assert(st@.cell_deps[k] == st0.cell_deps[k]);
                            assert(wf_out_point(st0.cell_deps[k].out_point));
                        } else {
                            assert(st@.cell_deps[k] == dep@);
                        }
                    }
                    assert forall|k1: int, k2: int|
                        0 <= k1 < k2 < st@.cell_deps.len() implies st@.cell_deps[k1]
                        != st@.cell_deps[k2] by {
                        if k2 < old_deps.len() {
                            assert(st@.cell_deps[k1] == st0.cell_deps[k1]);
                            assert(st@.cell_deps[k2] == st0.cell_deps[k2]);
                        } else {
                            assert(st@.cell_deps[k1] == old_deps[k1]);
                            assert(old_deps[k1] == old_raw[k1]@);
                            assert(old_raw[k1]@ != dep@);
                            assert(st@.cell_deps[k2] == dep@);
                        }
                    }
                    assert forall|k: int, k2: int|
                        0 <= k < st@.cell_deps.len() && 0 <= k2 < tx@.cell_deps.len() implies (
                    #[trigger] st@.cell_deps[k]) != #[trigger] tx@.cell_deps[k2] by {
                        if k < old_deps.len() {
                            assert(st@.cell_deps[k] == st0.cell_deps[k]);
                            assert(st0.cell_deps[k] != tx@.cell_deps[k2]);
                        } else {
                            assert(st@.cell_deps[k] == dep@);
                            assert(tx@.cell_deps[k2] == tx.cell_deps@[k2]@);
                            assert(tx.cell_deps@[k2]@ != dep@);
                        }
                    }
                }
            }
            st.dep_added = true;
        }
        if !has_provider {
            st.witnesses.push(clone_bytes(&lock_scripts[idx].1));
        }
        let since = since_of_lock(&lock_scripts[idx].0);
        let ghost st1 = st@;
        let ghost batch = live_cell_views(more_cells@);
        let ghost reserved2 = cell_collector.reserved();
        let ghost raw_before = st.inputs@;
        append_inputs(&mut st.inputs, &more_cells, since);
        proof {
            assert(st1.inputs.len() == raw_before.len());
            assert forall|n: int| 0 <= n < st1.inputs.len() implies #[trigger] st@.inputs[n]
                == st1.inputs[n] by {
                assert(st.inputs@[n] == raw_before[n]);
                assert(st1.inputs[n] == raw_before[n]@);
            }
            assert forall|n: int|
                st1.inputs.len() <= n < st@.inputs.len() implies (
            #[trigger] st@.inputs[n]).previous_output == batch[n - st1.inputs.len()].out_point
                && st@.inputs[n].since == since by {
                assert(st@.inputs[n] == st.inputs@[n]@);
                assert(st.inputs@[n]@.previous_output == more_cells@[n - raw_before.len()]@.out_point);
                assert(batch[n - st1.inputs.len()] == more_cells@[n - raw_before.len()]@);
            }
        }
        proof {
            assert(st1.inputs == st0.inputs);
            assert(reserved1 == entry_reserved);
            assert forall|n: int| 0 <= n < st@.inputs.len() implies wf_out_point(
                (#[trigger] st@.inputs[n]).previous_output,
            ) by {
                if n < st1.inputs.len() {
                    assert(st@.inputs[n] == st0.inputs[n]);
                    assert(wf_out_point(st0.inputs[n].previous_output));
                } else {
                    assert(cell_matches_query(batch[n - st1.inputs.len()], query@));
                }
            }
            assert forall|n1: int, n2: int|
                0 <= n1 < n2 < st@.inputs.len() implies (#[trigger] st@.inputs[n1]).previous_output
                != (#[trigger] st@.inputs[n2]).previous_output by {
                if n2 < st1.inputs.len() {
                    assert(st@.inputs[n1] == st0.inputs[n1]);
                    assert(st@.inputs[n2] == st0.inputs[n2]);
                } else if n1 < st1.inputs.len() {
                    assert(st@.inputs[n1] == st0.inputs[n1]);
                    assert(reserved1.contains(st0.inputs[n1].previous_output));
                    assert(!reserved1.contains(batch[n2 - st1.inputs.len()].out_point));
                } else {
                    assert(batch[n1 - st1.inputs.len()].out_point != batch[n2
                        - st1.inputs.len()].out_point);
                }
            }
            assert forall|n: int| 0 <= n < st@.inputs.len() implies cell_collector
                .reserved().contains((#[trigger] st@.inputs[n]).previous_output) by {
                if n < st1.inputs.len() {
                    assert(st@.inputs[n] == st0.inputs[n]);
                    assert(reserved1.contains(st0.inputs[n].previous_output));
                } else {
                    let j = n - st1.inputs.len();
                    assert(out_points_of(batch).contains(batch[j].out_point));
                }
            }
            assert forall|n: int| 0 <= n < st@.inputs.len() implies since_from_providers(
                (#[trigger] st@.inputs[n]).since,
                lock_scripts@,
            ) by {
                if n < st1.inputs.len() {
                    assert(st@.inputs[n] == st0.inputs[n]);
                    assert(since_from_providers(st0.inputs[n].since, lock_scripts@));
                } else {
                    assert(st@.inputs[n].since == spec_since_of_lock(lock_scripts@[idx as int].0@));
                    assert(since_from_providers(st@.inputs[n].since, lock_scripts@));
                }
            }
            assert(st@.inputs.len() > st0.inputs.len());
        }
        return Ok(None);
    }
    Ok(None)
}

} // verus!

verus! {

/// Fill more inputs to balance the transaction capacity.
///
/// Runs balancing passes until one returns a transaction whose fee equals
/// the minimum fee for its serialized size (or a donated surplus under
/// the caller's cap, see `balanced_ok`), or until capacity is exhausted.
/// An empty capacity provider is rejected, and nothing else is: that is
/// the only condition under which `EmptyCapacityProvider` comes back.
/// Balancer-added inputs spend only cells the collector had not reserved
/// when the run began, so a caller whose seed inputs are all reserved
/// gets a transaction free of duplicate out-points
/// (`lemma_no_double_spend`). A seed that, once its witness slots are
/// padded, already pays exactly the minimum fee is returned balanced
/// without fail. A safety cap bounds the number of passes; exceeding it
/// is reported as `IterationLimit`.
pub fn balance_tx_capacity<
    C: CellCollector,
    P: TransactionDependencyProvider,
    D: CellDepResolver,
    H: HeaderDepResolver,
>(
    tx: &TransactionView,
    balancer: &CapacityBalancer,
    cell_collector: &mut C,
    tx_dep_provider: &P,
    cell_dep_resolver: &D,
    header_dep_resolver: &H,
) -> (r: Result<TransactionView, BalanceTxCapacityError>)
    requires
        wf_tx(tx@),
        forall|k: int|
            0 <= k < balancer.capacity_provider.lock_scripts@.len() ==> wf_script(
                (#[trigger] balancer.capacity_provider.lock_scripts@[k]).0@,
            ),
        match balancer.change_lock_script {
            Some(ref s) => wf_script(s@),
            None => true,
        },
        balancer.capacity_provider.lock_scripts@.len() > 0 ==> spec_occupied(
            change_shape(spec_change_lock(balancer)),
            0,
        ) <= u64::MAX,
    ensures
        (balancer.capacity_provider.lock_scripts@.len() == 0) <==> (r matches Err(
            BalanceTxCapacityError::EmptyCapacityProvider,
        )),
        match r {
            Ok(out) => balanced_ok(out@, tx@, balancer, tx_dep_provider, header_dep_resolver)
                && (forall|n: int|
                tx@.inputs.len() <= n < out@.inputs.len() ==> !old(cell_collector)
                    .reserved().contains((#[trigger] out@.inputs[n]).previous_output)),
            Err(BalanceTxCapacityError::ForceSmallChangeAsFeeFailed(f)) => {
                match balancer.force_small_change_as_fee {
                    Some(cap) => f > cap,
                    None => false,
                }
            },
            Err(_) => true,
        },
        (balancer.capacity_provider.lock_scripts@.len() > 0 && padded_balanced(
            tx@,
            balancer,
            tx_dep_provider,
            header_dep_resolver,
        )) ==> (r is Ok),
{
    if balancer.capacity_provider.lock_scripts.len() == 0 {
        return Err(BalanceTxCapacityError::EmptyCapacityProvider);
    }
    let change_lock = match &balancer.change_lock_script {
        Some(s) => clone_script(s),
        None => clone_script(&balancer.capacity_provider.lock_scripts[0].0),
    };
    proof {
        assert(change_lock@ == spec_change_lock(balancer));
        assert(wf_script(change_lock@));
    }
    let base_change = CellOutput { capacity: 0, lock: clone_script(&change_lock), type_: None };
    let occ: u64 = match occupied_capacity(&base_change, 0) {
        Some(v) => v,
        None => {
            proof {
                assert(base_change@ == change_shape(change_lock@));
                assert(false);
            }
            return Err(BalanceTxCapacityError::EmptyCapacityProvider);
        },
    };
    proof {
        assert(base_change@ == change_shape(change_lock@));
        assert(occ == spec_occupied(change_shape(change_lock@), 0));
    }
    let lock_scripts = dedup_providers(&balancer.capacity_provider.lock_scripts);
    proof {
        assert forall|k: int| 0 <= k < lock_scripts@.len() implies wf_script(
            (#[trigger] lock_scripts@[k]).0@,
        ) by {
            let k2 = choose|k2: int|
                0 <= k2 < balancer.capacity_provider.lock_scripts@.len() && lock_scripts@[k].0@
                    == balancer.capacity_provider.lock_scripts@[k2].0@ && lock_scripts@[k].1@
                    == balancer.capacity_provider.lock_scripts@[k2].1@;
            assert(wf_script(balancer.capacity_provider.lock_scripts@[k2].0@));
        }
        assert forall|k: int|
            0 <= k < lock_scripts@.len() implies #[trigger] lock_scripts@[k].0@
                == lock_scripts@[k].0@ && exists|k2: int|
            #![trigger balancer.capacity_provider.lock_scripts@[k2]]
            0 <= k2 < balancer.capacity_provider.lock_scripts@.len() && lock_scripts@[k].0@
                == balancer.capacity_provider.lock_scripts@[k2].0@ by {
            let k2 = choose|k2: int|
                0 <= k2 < balancer.capacity_provider.lock_scripts@.len() && lock_scripts@[k].0@
                    == balancer.capacity_provider.lock_scripts@[k2].0@ && lock_scripts@[k].1@
                    == balancer.capacity_provider.lock_scripts@[k2].1@;
            assert(0 <= k2 < balancer.capacity_provider.lock_scripts@.len() && lock_scripts@[k].0@
                == balancer.capacity_provider.lock_scripts@[k2].0@);
        }
        assert(providers_from(lock_scripts@, balancer));
    }
    let mut st = BalanceState {
        lock_script_idx: 0,
        dep_added: false,
        cell_deps: Vec::new(),
        inputs: Vec::new(),
        witnesses: Vec::new(),
        change_output: None,
    };
    let ghost init_reserved = cell_collector.reserved();
    proof {
        assert(init_reserved == old(cell_collector).reserved());
    }
    let mut iters: u64 = 0;
    while iters < 256
        invariant
            wf_tx(tx@),
            lock_scripts@.len() > 0,
            forall|k: int|
                0 <= k < lock_scripts@.len() ==> wf_script((#[trigger] lock_scripts@[k]).0@),
            providers_from(lock_scripts@, balancer),
            change_lock@ == spec_change_lock(balancer),
            wf_script(change_lock@),
            occ == spec_occupied(change_shape(change_lock@), 0),
            spec_occupied(change_shape(change_lock@), 0) <= u64::MAX,
            balancer.capacity_provider.lock_scripts@.len() > 0,
            init_reserved == old(cell_collector).reserved(),
            init_reserved.subset_of(cell_collector.reserved()),
            st_inv(
                st@,
                tx@,
                lock_scripts@,
                cell_collector.reserved(),
                init_reserved,
                change_lock@,
                occ,
            ),
            iters == 0 ==> initial_state(st@),
            padded_balanced(tx@, balancer, tx_dep_provider, header_dep_resolver) ==> iters == 0,
        decreases 256 - iters,
    {
        match balance_step(
            tx,
            balancer,
            &lock_scripts,
            &change_lock,
            occ,
            Ghost(init_reserved),
            &mut st,
            cell_collector,
            tx_dep_provider,
            cell_dep_resolver,
            header_dep_resolver,
        ) {
            Ok(Some(out)) => {
                return Ok(out);
            },
            Ok(None) => {},
            Err(e) => {
                return Err(e);
            },
        }
        iters += 1;
    }
    Err(BalanceTxCapacityError::IterationLimit)
}

} // verus!
