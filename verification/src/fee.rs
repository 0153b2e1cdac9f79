//! The fee oracle: the actual fee a transaction pays.
//!
//! The fee is the sum of the input values minus the sum of the output
//! capacities. A plain input contributes its cell's capacity; a DAO
//! withdrawal input (non-zero `since`, cell typed by the DAO type script)
//! contributes the maximum withdrawable amount computed from the deposit
//! and prepare headers' accumulated rates.

use vstd::prelude::*;

use crate::traits::{HeaderDepResolver, TransactionDependencyError, TransactionDependencyProvider};
use crate::types::{
    CellInputV, CellOutput, CellOutputV, HeaderV, TransactionView, TxV, bytes_eq, dao_type_hash,
    le64_decode, occupied_capacity, spec_dao_type_hash, spec_le64, spec_occupied, clone_bytes,
};

verus! {

/// Which header lookup failed during a DAO withdrawal computation.
#[derive(Debug, PartialEq, Eq)]
pub enum HeaderDepFailure {
    /// No header is known for the transaction with this hash.
    ByTxHash(Vec<u8>),
    /// No header is known for the block with this number.
    ByNumber(u64),
}

/// Failure of the fee computation.
#[derive(Debug, PartialEq, Eq)]
pub enum TransactionFeeError {
    /// A previous cell or its data could not be obtained.
    TxDep(TransactionDependencyError),
    /// A header needed for a DAO withdrawal could not be obtained.
    HeaderDep(HeaderDepFailure),
    /// The DAO computation was fed malformed data: a short `dao` field, a
    /// zero deposit rate, or a capacity below the occupied floor.
    Dao,
    /// A DAO withdrawal input whose cell data is not exactly 8 bytes.
    UnexpectedDaoWithdrawInput,
    /// A capacity sum or the withdrawal formula left the `u64` range.
    CapacityError,
    /// Outputs exceed inputs by the carried amount.
    CapacityOverflow(u64),
}

/// The fee error, abstracted: byte-vector payloads become sequences.
pub ghost enum FeeErrV {
    TxDep,
    HeaderDepByTx(Seq<u8>),
    HeaderDepByNumber(u64),
    Dao,
    UnexpectedDaoWithdraw,
    Capacity,
    CapacityOverflow(u64),
}

impl View for TransactionFeeError {
    type V = FeeErrV;

    open spec fn view(&self) -> FeeErrV {
        match self {
            TransactionFeeError::TxDep(_) => FeeErrV::TxDep,
            TransactionFeeError::HeaderDep(HeaderDepFailure::ByTxHash(h)) => FeeErrV::HeaderDepByTx(
                h@,
            ),
            TransactionFeeError::HeaderDep(HeaderDepFailure::ByNumber(n)) => {
                FeeErrV::HeaderDepByNumber(*n)
            },
            TransactionFeeError::Dao => FeeErrV::Dao,
            TransactionFeeError::UnexpectedDaoWithdrawInput => FeeErrV::UnexpectedDaoWithdraw,
            TransactionFeeError::CapacityError => FeeErrV::Capacity,
            TransactionFeeError::CapacityOverflow(d) => FeeErrV::CapacityOverflow(*d),
        }
    }
}

/// The outcome of a value or fee computation: an amount in shannons, or a
/// named failure.
pub ghost enum FeeOutcome {
    Fee(u64),
    Fail(FeeErrV),
}

/// Whether an input spends a DAO withdrawal cell: its `since` is non-zero
/// and the cell's type script runs the DAO code.
pub open spec fn spec_is_withdraw(cell: CellOutputV, since: u64) -> bool {
    &&& since != 0
    &&& match cell.type_ {
        Some(t) => t.code_hash == spec_dao_type_hash(),
        None => false,
    }
}

/// The maximum withdrawable value of a DAO withdrawal cell: the occupied
/// part is returned as-is, the counted part grows by the ratio of the
/// prepare header's accumulated rate to the deposit header's.
pub open spec fn spec_dao_value(deposit: HeaderV, prepare: HeaderV, cell: CellOutputV) -> FeeOutcome {
    if deposit.dao.len() != 32 || prepare.dao.len() != 32 {
        FeeOutcome::Fail(FeeErrV::Dao)
    } else {
        let deposit_ar = spec_le64(deposit.dao.subrange(8, 16));
        let prepare_ar = spec_le64(prepare.dao.subrange(8, 16));
        let occupied = spec_occupied(cell, 8);
        if occupied > u64::MAX {
            FeeOutcome::Fail(FeeErrV::Capacity)
        } else if deposit_ar == 0 || cell.capacity < occupied {
            FeeOutcome::Fail(FeeErrV::Dao)
        } else {
            let withdraw = occupied + (cell.capacity - occupied) * prepare_ar / deposit_ar;
            if withdraw > u64::MAX {
                FeeOutcome::Fail(FeeErrV::Capacity)
            } else {
                FeeOutcome::Fee(withdraw as u64)
            }
        }
    }
}

/// The value an input contributes to the fee computation.
pub open spec fn spec_input_value<P: TransactionDependencyProvider, H: HeaderDepResolver>(
    p: &P,
    h: &H,
    inp: CellInputV,
) -> FeeOutcome {
    match p.cell_of(inp.previous_output) {
        None => FeeOutcome::Fail(FeeErrV::TxDep),
        Some(cell) => {
            if !spec_is_withdraw(cell, inp.since) {
                FeeOutcome::Fee(cell.capacity)
            } else {
                match h.header_by_tx(inp.previous_output.tx_hash) {
                    None => FeeOutcome::Fail(FeeErrV::HeaderDepByTx(inp.previous_output.tx_hash)),
                    Some(prepare) => match p.cell_data_of(inp.previous_output) {
                        None => FeeOutcome::Fail(FeeErrV::TxDep),
                        Some(data) => {
                            if data.len() != 8 {
                                FeeOutcome::Fail(FeeErrV::UnexpectedDaoWithdraw)
                            } else {
                                let number = spec_le64(data) as u64;
                                match h.header_by_number(number) {
                                    None => FeeOutcome::Fail(FeeErrV::HeaderDepByNumber(number)),
                                    Some(deposit) => spec_dao_value(deposit, prepare, cell),
                                }
                            }
                        },
                    },
                }
            }
        },
    }
}

/// The total value of a list of inputs; the first failure wins, and a sum
/// beyond `u64::MAX` is a capacity failure.
pub open spec fn spec_input_total<P: TransactionDependencyProvider, H: HeaderDepResolver>(
    p: &P,
    h: &H,
    inputs: Seq<CellInputV>,
) -> FeeOutcome
    decreases inputs.len(),
{
    if inputs.len() == 0 {
        FeeOutcome::Fee(0)
    } else {
        match spec_input_total(p, h, inputs.drop_last()) {
            FeeOutcome::Fail(e) => FeeOutcome::Fail(e),
            FeeOutcome::Fee(acc) => match spec_input_value(p, h, inputs.last()) {
                FeeOutcome::Fail(e) => FeeOutcome::Fail(e),
                FeeOutcome::Fee(v) => {
                    if acc + v > u64::MAX {
                        FeeOutcome::Fail(FeeErrV::Capacity)
                    } else {
                        FeeOutcome::Fee((acc + v) as u64)
                    }
                },
            },
        }
    }
}

/// The total capacity of a list of outputs; `None` when the sum leaves the
/// `u64` range.
pub open spec fn spec_output_total(outputs: Seq<CellOutputV>) -> Option<u64>
    decreases outputs.len(),
{
    if outputs.len() == 0 {
        Some(0u64)
    } else {
        match spec_output_total(outputs.drop_last()) {
            None => None,
            Some(acc) => {
                if acc + outputs.last().capacity > u64::MAX {
                    None
                } else {
                    Some((acc + outputs.last().capacity) as u64)
                }
            },
        }
    }
}

/// What the fee computation returns for a transaction: inputs minus
/// outputs, or the first failure encountered.
pub open spec fn spec_tx_fee<P: TransactionDependencyProvider, H: HeaderDepResolver>(
    t: TxV,
    p: &P,
    h: &H,
) -> FeeOutcome {
    match spec_input_total(p, h, t.inputs) {
        FeeOutcome::Fail(e) => FeeOutcome::Fail(e),
        FeeOutcome::Fee(input_total) => match spec_output_total(t.outputs) {
            None => FeeOutcome::Fail(FeeErrV::Capacity),
            Some(output_total) => {
                if input_total >= output_total {
                    FeeOutcome::Fee((input_total - output_total) as u64)
                } else {
                    FeeOutcome::Fail(FeeErrV::CapacityOverflow((output_total - input_total) as u64))
                }
            },
        },
    }
}

/// Compute the value a single input contributes.
fn input_value<P: TransactionDependencyProvider, H: HeaderDepResolver>(
    p: &P,
    h: &H,
    inp: &crate::types::CellInput,
) -> (r: Result<u64, TransactionFeeError>)
    ensures
        match r {
            Ok(v) => spec_input_value(p, h, inp@) == FeeOutcome::Fee(v),
            Err(e) => spec_input_value(p, h, inp@) == FeeOutcome::Fail(e@),
        },
{
    let cell: CellOutput = match p.get_cell(&inp.previous_output) {
        Ok(c) => c,
        Err(_) => {
            return Err(TransactionFeeError::TxDep(TransactionDependencyError::NotFound));
        },
    };
    let dao_hash = dao_type_hash();
    let is_withdraw: bool = inp.since != 0 && match &cell.type_ {
        Some(t) => bytes_eq(&t.code_hash, &dao_hash),
        None => false,
    };
    if !is_withdraw {
        return Ok(cell.capacity);
    }
    let prepare = match h.resolve_by_tx(&inp.previous_output.tx_hash) {
        Some(hd) => hd,
        None => {
            return Err(TransactionFeeError::HeaderDep(HeaderDepFailure::ByTxHash(clone_bytes(
                &inp.previous_output.tx_hash,
            ))));
        },
    };
    let data = match p.get_cell_data(&inp.previous_output) {
        Ok(d) => d,
        Err(_) => {
            return Err(TransactionFeeError::TxDep(TransactionDependencyError::NotFound));
        },
    };
    if data.len() != 8 {
        return Err(TransactionFeeError::UnexpectedDaoWithdrawInput);
    }
    let number = le64_decode(&data);
    let deposit = match h.resolve_by_number(number) {
        Some(hd) => hd,
        None => {
            return Err(TransactionFeeError::HeaderDep(HeaderDepFailure::ByNumber(number)));
        },
    };
    dao_value(&deposit, &prepare, &cell)
}

/// Compute the maximum withdrawable value of a DAO withdrawal cell.
fn dao_value(
    deposit: &crate::types::Header,
    prepare: &crate::types::Header,
    cell: &CellOutput,
) -> (r: Result<u64, TransactionFeeError>)
    ensures
        match r {
            Ok(v) => spec_dao_value(deposit@, prepare@, cell@) == FeeOutcome::Fee(v),
            Err(e) => spec_dao_value(deposit@, prepare@, cell@) == FeeOutcome::Fail(e@),
        },
{
    if deposit.dao.len() != 32 || prepare.dao.len() != 32 {
        return Err(TransactionFeeError::Dao);
    }
    let deposit_ar = ar_of(&deposit.dao);
    let prepare_ar = ar_of(&prepare.dao);
    let occupied_opt = occupied_capacity(cell, 8);
    let occupied: u64 = match occupied_opt {
        Some(v) => v,
        None => {
            return Err(TransactionFeeError::CapacityError);
        },
    };
    if deposit_ar == 0 || cell.capacity < occupied {
        return Err(TransactionFeeError::Dao);
    }
    let counted: u64 = cell.capacity - occupied;
    proof {
        assert((counted as int) * (prepare_ar as int) <= (u64::MAX as int) * (u64::MAX as int))
            by (nonlinear_arith)
            requires
                counted <= u64::MAX,
                prepare_ar <= u64::MAX,
        ;
    }
    let withdraw_counted: u128 = (counted as u128) * (prepare_ar as u128) / (deposit_ar as u128);
    let total: u128 = (occupied as u128) + withdraw_counted;
    if total > u64::MAX as u128 {
        return Err(TransactionFeeError::CapacityError);
    }
    Ok(total as u64)
}

/// Read the accumulated rate out of a 32-byte `dao` field: bytes 8 to 16,
/// little-endian.
fn ar_of(dao: &Vec<u8>) -> (r: u64)
    requires
        dao@.len() == 32,
    ensures
        r == spec_le64(dao@.subrange(8, 16)),
{
    let mut mid: Vec<u8> = Vec::new();
    let mut i: usize = 8;
    while i < 16
        invariant
            8 <= i <= 16,
            dao@.len() == 32,
            mid@ == dao@.subrange(8, i as int),
        decreases 16 - i,
    {
        mid.push(dao[i]);
        proof {
            assert(mid@ =~= dao@.subrange(8, i + 1 as int));
        }
        i += 1;
    }
    le64_decode(&mid)
}

/// Calculate the actual fee the transaction pays: the sum of its input
/// values (DAO withdrawal inputs valued by the withdrawal formula) minus
/// the sum of its output capacities. Outputs exceeding inputs is the
/// `CapacityOverflow` failure carrying the deficit.
pub fn tx_fee<P: TransactionDependencyProvider, H: HeaderDepResolver>(
    tx: &TransactionView,
    tx_dep_provider: &P,
    header_dep_resolver: &H,
) -> (r: Result<u64, TransactionFeeError>)
    ensures
        match r {
            Ok(f) => spec_tx_fee(tx@, tx_dep_provider, header_dep_resolver) == FeeOutcome::Fee(f),
            Err(e) => spec_tx_fee(tx@, tx_dep_provider, header_dep_resolver) == FeeOutcome::Fail(
                e@,
            ),
        },
{
    let mut input_total: u64 = 0;
    let mut i: usize = 0;
    while i < tx.inputs.len()
        invariant
            i <= tx.inputs.len(),
            spec_input_total(
                tx_dep_provider,
                header_dep_resolver,
                tx@.inputs.subrange(0, i as int),
            ) == FeeOutcome::Fee(input_total),
        decreases tx.inputs.len() - i,
    {
        proof {
            assert(tx@.inputs[i as int] == tx.inputs@[i as int]@);
        }
        let v: u64 = match input_value(tx_dep_provider, header_dep_resolver, &tx.inputs[i]) {
            Ok(v) => v,
            Err(e) => {
                proof {
                    lemma_input_total_step(
                        tx_dep_provider,
                        header_dep_resolver,
                        tx@.inputs,
                        i as int,
                    );
                    lemma_input_total_fail(
                        tx_dep_provider,
                        header_dep_resolver,
                        tx@.inputs,
                        i + 1,
                    );
                }
                return Err(e);
            },
        };
        proof {
            lemma_input_total_step(tx_dep_provider, header_dep_resolver, tx@.inputs, i as int);
        }
        if input_total > u64::MAX - v {
            proof {
                lemma_input_total_fail(tx_dep_provider, header_dep_resolver, tx@.inputs, i + 1);
            }
            return Err(TransactionFeeError::CapacityError);
        }
        input_total = input_total + v;
        i += 1;
    }
    proof {
        assert(tx@.inputs.subrange(0, tx@.inputs.len() as int) =~= tx@.inputs);
    }
    let mut output_total: u64 = 0;
    let mut j: usize = 0;
    while j < tx.outputs.len()
        invariant
            j <= tx.outputs.len(),
            spec_input_total(tx_dep_provider, header_dep_resolver, tx@.inputs)
                == FeeOutcome::Fee(input_total),
            spec_output_total(tx@.outputs.subrange(0, j as int)) == Some(output_total),
        decreases tx.outputs.len() - j,
    {
        proof {
            assert(tx@.outputs[j as int] == tx.outputs@[j as int]@);
            assert(tx@.outputs.subrange(0, j + 1).drop_last() =~= tx@.outputs.subrange(0, j as int));
            assert(tx@.outputs.subrange(0, j + 1).last() == tx@.outputs[j as int]);
        }
        let c: u64 = tx.outputs[j].capacity;
        if output_total > u64::MAX - c {
            proof {
                lemma_output_total_none(tx@.outputs, j + 1);
            }
            return Err(TransactionFeeError::CapacityError);
        }
        output_total = output_total + c;
        j += 1;
    }
    proof {
        assert(tx@.outputs.subrange(0, tx@.outputs.len() as int) =~= tx@.outputs);
    }
    if input_total >= output_total {
        Ok(input_total - output_total)
    } else {
        Err(TransactionFeeError::CapacityOverflow(output_total - input_total))
    }
}

/// Extending a prefix of the input list by one element extends the total
/// by that input's value.
proof fn lemma_input_total_step<P: TransactionDependencyProvider, H: HeaderDepResolver>(
    p: &P,
    h: &H,
    inputs: Seq<CellInputV>,
    i: int,
)
    requires
        0 <= i < inputs.len(),
    ensures
        spec_input_total(p, h, inputs.subrange(0, i + 1)) == (match spec_input_total(
            p,
            h,
            inputs.subrange(0, i),
        ) {
            FeeOutcome::Fail(e) => FeeOutcome::Fail(e),
            FeeOutcome::Fee(acc) => match spec_input_value(p, h, inputs[i]) {
                FeeOutcome::Fail(e) => FeeOutcome::Fail(e),
                FeeOutcome::Fee(v) => {
                    if acc + v > u64::MAX {
                        FeeOutcome::Fail(FeeErrV::Capacity)
                    } else {
                        FeeOutcome::Fee((acc + v) as u64)
                    }
                },
            },
        }),
{
    assert(inputs.subrange(0, i + 1).drop_last() =~= inputs.subrange(0, i));
    assert(inputs.subrange(0, i + 1).last() == inputs[i]);
}

/// A failing prefix decides the whole total.
proof fn lemma_input_total_fail<P: TransactionDependencyProvider, H: HeaderDepResolver>(
    p: &P,
    h: &H,
    inputs: Seq<CellInputV>,
    i: int,
)
    requires
        0 <= i <= inputs.len(),
        spec_input_total(p, h, inputs.subrange(0, i)) is Fail,
    ensures
        spec_input_total(p, h, inputs) == spec_input_total(p, h, inputs.subrange(0, i)),
    decreases inputs.len() - i,
{
    if i < inputs.len() {
        lemma_input_total_step(p, h, inputs, i);
        lemma_input_total_fail(p, h, inputs, i + 1);
    } else {
        assert(inputs.subrange(0, inputs.len() as int) =~= inputs);
    }
}

/// An overflowing prefix of the output sum decides the whole sum.
proof fn lemma_output_total_none(outputs: Seq<CellOutputV>, j: int)
    requires
        0 <= j <= outputs.len(),
        spec_output_total(outputs.subrange(0, j)) is None,
    ensures
        spec_output_total(outputs) is None,
    decreases outputs.len() - j,
{
    if j < outputs.len() {
        assert(outputs.subrange(0, j + 1).drop_last() =~= outputs.subrange(0, j));
        lemma_output_total_none(outputs, j + 1);
    } else {
        assert(outputs.subrange(0, outputs.len() as int) =~= outputs);
    }
}

} // verus!
