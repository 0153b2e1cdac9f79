//! The transaction builder interface: a recipe builds a base transaction,
//! and the driver methods fill placeholder witnesses, balance the
//! capacity, and unlock the result.

use vstd::prelude::*;

use crate::balance::{
    BalanceTxCapacityError, CapacityBalancer, balance_tx_capacity, balanced_fee, change_shape,
    spec_change_lock,
};
use crate::groups::ScriptGroup;
use crate::traits::{
    CellCollector, CellCollectorError, CellDepResolver, HeaderDepResolver,
    TransactionDependencyError, TransactionDependencyProvider,
};
use crate::types::{ScriptId, TransactionView, TxV, spec_occupied, wf_script, wf_tx};
use crate::unlock::{
    ScriptUnlocker, UnlockError, fill_placeholder_witnesses, unlock_tx, witnesses_only_change,
};

verus! {

/// How a recipe treats the receiver's cell.
#[derive(Debug, Eq, PartialEq, Hash, Clone)]
pub enum TransferAction {
    /// Create a new cell for the receiver.
    Create,
    /// Find the receiver's existing cell and update its amount.
    Update,
}

/// Failure of a transaction build.
#[derive(Debug, PartialEq, Eq)]
pub enum TxBuilderError {
    /// A parameter of the recipe is invalid.
    InvalidParameter,
    /// A previous-cell lookup failed.
    TxDep(TransactionDependencyError),
    /// The live-cell backend failed.
    CellCollector(CellCollectorError),
    /// Balancing the capacity failed.
    BalanceCapacity(BalanceTxCapacityError),
    /// No cell-dep is registered for a script.
    ResolveCellDepFailed(ScriptId),
    /// No header is known for the transaction with this hash.
    ResolveHeaderDepByTxHashFailed(Vec<u8>),
    /// No header is known for the block with this number.
    ResolveHeaderDepByNumberFailed(u64),
    /// Filling or replacing witnesses failed.
    Unlock(UnlockError),
    /// Any other failure.
    Other,
}

/// A transaction recipe: builds the base transaction for one kind of
/// transfer; the provided methods balance and unlock it.
pub trait TxBuilder: Sized {
    /// Build the base transaction: the recipe's outputs, data and
    /// preselected inputs, all well-formed.
    fn build_base<
        C: CellCollector,
        D: CellDepResolver,
        H: HeaderDepResolver,
        P: TransactionDependencyProvider,
    >(
        &self,
        cell_collector: &mut C,
        cell_dep_resolver: &D,
        header_dep_resolver: &H,
        tx_dep_provider: &P,
    ) -> (r: Result<TransactionView, TxBuilderError>)
        ensures
            match r {
                Ok(t) => wf_tx(t@),
                Err(_) => true,
            },
    ;

    /// Build a balanced transaction that is ready to sign: build the base
    /// transaction, fill placeholder witnesses for the lock scripts, and
    /// balance the capacity.
    fn build_balanced<
        C: CellCollector,
        D: CellDepResolver,
        H: HeaderDepResolver,
        P: TransactionDependencyProvider,
        U: ScriptUnlocker<P>,
    >(
        &self,
        cell_collector: &mut C,
        cell_dep_resolver: &D,
        header_dep_resolver: &H,
        tx_dep_provider: &P,
        balancer: &CapacityBalancer,
        unlockers: &Vec<(ScriptId, U)>,
    ) -> (r: Result<TransactionView, TxBuilderError>)
        requires
            forall|k: int|
                0 <= k < balancer.capacity_provider.lock_scripts@.len() ==> wf_script(
                    (#[trigger] balancer.capacity_provider.lock_scripts@[k]).0@,
                ),
            match balancer.change_lock_script {
                Some(ref s) => wf_script(s@),
                None => true,
            },
            balancer.capacity_provider.lock_scripts@.len() > 0 ==> spec_occupied(
                change_shape(spec_change_lock(balancer)),
                0,
            ) <= u64::MAX,
        ensures
            match r {
                Ok(t) => wf_tx(t@) && balanced_fee(
                    t@,
                    balancer,
                    tx_dep_provider,
                    header_dep_resolver,
                ),
                Err(_) => true,
            },
    {
        let base_tx = self.build_base(
            cell_collector,
            cell_dep_resolver,
            header_dep_resolver,
            tx_dep_provider,
        )?;
        let filled = match fill_placeholder_witnesses(base_tx, tx_dep_provider, unlockers) {
            Ok(pair) => pair.0,
            Err(e) => {
                return Err(TxBuilderError::Unlock(e));
            },
        };
        match balance_tx_capacity(
            &filled,
            balancer,
            cell_collector,
            tx_dep_provider,
            cell_dep_resolver,
            header_dep_resolver,
        ) {
            Ok(t) => Ok(t),
            Err(e) => Err(TxBuilderError::BalanceCapacity(e)),
        }
    }

    /// Build an unlocked transaction that is ready to send or to unlock
    /// further: build the balanced transaction, then unlock it. The
    /// second part of the result lists the script groups the given
    /// unlockers did not unlock.
    fn build_unlocked<
        C: CellCollector,
        D: CellDepResolver,
        H: HeaderDepResolver,
        P: TransactionDependencyProvider,
        U: ScriptUnlocker<P>,
    >(
        &self,
        cell_collector: &mut C,
        cell_dep_resolver: &D,
        header_dep_resolver: &H,
        tx_dep_provider: &P,
        balancer: &CapacityBalancer,
        unlockers: &Vec<(ScriptId, U)>,
    ) -> (r: Result<(TransactionView, Vec<ScriptGroup>), TxBuilderError>)
        requires
            forall|k: int|
                0 <= k < balancer.capacity_provider.lock_scripts@.len() ==> wf_script(
                    (#[trigger] balancer.capacity_provider.lock_scripts@[k]).0@,
                ),
            match balancer.change_lock_script {
                Some(ref s) => wf_script(s@),
                None => true,
            },
            balancer.capacity_provider.lock_scripts@.len() > 0 ==> spec_occupied(
                change_shape(spec_change_lock(balancer)),
                0,
            ) <= u64::MAX,
        ensures
            match r {
                Ok(out) => wf_tx(out.0@) && exists|b: TxV|
                    #![trigger balanced_fee(b, balancer, tx_dep_provider, header_dep_resolver)]
                    balanced_fee(b, balancer, tx_dep_provider, header_dep_resolver)
                        && witnesses_only_change(b, out.0@),
                Err(_) => true,
            },
    {
        let balanced_tx = self.build_balanced(
            cell_collector,
            cell_dep_resolver,
            header_dep_resolver,
            tx_dep_provider,
            balancer,
            unlockers,
        )?;
        let ghost b = balanced_tx@;
        match unlock_tx(balanced_tx, tx_dep_provider, unlockers) {
            Ok(pair) => {
                proof {
                    assert(balanced_fee(b, balancer, tx_dep_provider, header_dep_resolver)
                        && witnesses_only_change(b, pair.0@));
                    assert(wf_tx(pair.0@));
                }
                Ok(pair)
            },
            Err(e) => Err(TxBuilderError::Unlock(e)),
        }
    }
}

} // verus!
