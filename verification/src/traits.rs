//! The external collaborators the balancer drives: live-cell collection,
//! cell-dep resolution, header resolution, and previous-cell lookup.
//!
//! Implementations live outside this crate (they index chains, do RPC, or
//! mock a chain in tests). Each trait's contract states what the balancer
//! relies on: lookups behave as fixed maps during one build, and a
//! reserving collection never hands out a cell twice.

use vstd::prelude::*;

use crate::types::{
    CellDep, CellDepV, CellOutput, CellOutputV, Header, HeaderV, LiveCell, LiveCellV, OutPoint,
    OutPointV, Script, ScriptId, ScriptIdV, ScriptV, clone_script, wf_out_point,
};

verus! {

/// Failure of a previous-cell or cell-data lookup.
#[derive(Debug, PartialEq, Eq)]
pub enum TransactionDependencyError {
    /// The out-point does not refer to a known live cell.
    NotFound,
}

/// Failure of the live-cell backend.
#[derive(Debug, PartialEq, Eq)]
pub enum CellCollectorError {
    /// The backend could not complete the query.
    Internal,
}

/// A live-cell query: an exact lock script to search for and a minimum
/// aggregate capacity (0 disables the minimum). The collector only returns
/// mature cells without a type script and without data.
pub struct CellQueryOptions {
    pub lock_script: Script,
    pub min_total_capacity: u64,
}

pub ghost struct CellQueryOptionsV {
    pub lock_script: ScriptV,
    pub min_total_capacity: u64,
}

impl View for CellQueryOptions {
    type V = CellQueryOptionsV;

    open spec fn view(&self) -> CellQueryOptionsV {
        CellQueryOptionsV {
            lock_script: self.lock_script@,
            min_total_capacity: self.min_total_capacity,
        }
    }
}

impl CellQueryOptions {
    /// A query for cells held by `lock`, with no capacity minimum.
    pub fn new_lock(lock: &Script) -> (r: CellQueryOptions)
        ensures
            r@.lock_script == lock@,
            r@.min_total_capacity == 0,
    {
        CellQueryOptions { lock_script: clone_script(lock), min_total_capacity: 0 }
    }
}

/// What a returned live cell must look like: held by the queried lock,
/// without type script or data, and with a well-formed out-point.
pub open spec fn cell_matches_query(c: LiveCellV, q: CellQueryOptionsV) -> bool {
    &&& c.output.lock == q.lock_script
    &&& c.output.type_ is None
    &&& c.output_data.len() == 0
    &&& wf_out_point(c.out_point)
}

/// The views of a list of live cells.
pub open spec fn live_cell_views(s: Seq<LiveCell>) -> Seq<LiveCellV> {
    s.map_values(|c: LiveCell| c@)
}

/// The out-points of a list of live cells, as a set.
pub open spec fn out_points_of(cells: Seq<LiveCellV>) -> Set<OutPointV> {
    Set::new(|o: OutPointV| exists|i: int| 0 <= i < cells.len() && cells[i].out_point == o)
}

/// Supplies live cells matching a query. A call with `apply_changes` set
/// reserves what it returns: no later call of the same collector returns
/// any reserved cell again, which is what stops a balancing run from
/// selecting the same coins twice.
pub trait CellCollector {
    /// The out-points this collector has already handed out with
    /// `apply_changes` set.
    spec fn reserved(&self) -> Set<OutPointV>;

    /// Collect live cells matching `query`, together with their total
    /// capacity. An empty result means the backend has no more matching
    /// cells to offer.
    fn collect_live_cells(&mut self, query: &CellQueryOptions, apply_changes: bool) -> (r: Result<
        (Vec<LiveCell>, u64),
        CellCollectorError,
    >)
        ensures
            match r {
                Ok((cells, total)) => {
                    &&& forall|i: int|
                        0 <= i < cells@.len() ==> cell_matches_query(
                            (#[trigger] cells@[i])@,
                            query@,
                        )
                    &&& forall|i: int|
                        0 <= i < cells@.len() ==> !old(self).reserved().contains(
                            (#[trigger] cells@[i])@.out_point,
                        )
                    &&& forall|i: int, j: int|
                        0 <= i < j < cells@.len() ==> (#[trigger] cells@[i])@.out_point != (
                        #[trigger] cells@[j])@.out_point
                    &&& final(self).reserved() == if apply_changes {
                        old(self).reserved() + out_points_of(live_cell_views(cells@))
                    } else {
                        old(self).reserved()
                    }
                },
                Err(_) => final(self).reserved() == old(self).reserved(),
            },
    ;
}

/// Resolves the cell-dep that carries the code of a script.
pub trait CellDepResolver {
    /// The cell-dep registered for a script id, if any.
    spec fn dep_of(&self, id: ScriptIdV) -> Option<CellDepV>;

    /// Look up the cell-dep for `id`.
    fn resolve(&self, id: &ScriptId) -> (r: Option<CellDep>)
        ensures
            match r {
                Some(d) => self.dep_of(id@) == Some(d@) && wf_out_point(d@.out_point),
                None => self.dep_of(id@) is None,
            },
    ;
}

/// Resolves block headers, by the hash of a transaction they contain or by
/// block number.
pub trait HeaderDepResolver {
    /// The header of the block containing the given transaction, if known.
    spec fn header_by_tx(&self, tx_hash: Seq<u8>) -> Option<HeaderV>;

    /// The header of the block with the given number, if known.
    spec fn header_by_number(&self, number: u64) -> Option<HeaderV>;

    /// Look up a header by the hash of a transaction it contains.
    fn resolve_by_tx(&self, tx_hash: &Vec<u8>) -> (r: Option<Header>)
        ensures
            match r {
                Some(h) => self.header_by_tx(tx_hash@) == Some(h@),
                None => self.header_by_tx(tx_hash@) is None,
            },
    ;

    /// Look up a header by block number.
    fn resolve_by_number(&self, number: u64) -> (r: Option<Header>)
        ensures
            match r {
                Some(h) => self.header_by_number(number) == Some(h@),
                None => self.header_by_number(number) is None,
            },
    ;
}

/// Supplies the previous cell and its data for a transaction input.
pub trait TransactionDependencyProvider {
    /// The cell an out-point refers to, if known.
    spec fn cell_of(&self, out_point: OutPointV) -> Option<CellOutputV>;

    /// The data of the cell an out-point refers to, if known.
    spec fn cell_data_of(&self, out_point: OutPointV) -> Option<Seq<u8>>;

    /// Fetch the cell an input spends.
    fn get_cell(&self, out_point: &OutPoint) -> (r: Result<
        CellOutput,
        TransactionDependencyError,
    >)
        ensures
            match r {
                Ok(c) => self.cell_of(out_point@) == Some(c@),
                Err(_) => self.cell_of(out_point@) is None,
            },
    ;

    /// Fetch the data stored in the cell an input spends.
    fn get_cell_data(&self, out_point: &OutPoint) -> (r: Result<
        Vec<u8>,
        TransactionDependencyError,
    >)
        ensures
            match r {
                Ok(d) => self.cell_data_of(out_point@) == Some(d@),
                Err(_) => self.cell_data_of(out_point@) is None,
            },
    ;
}

} // verus!
