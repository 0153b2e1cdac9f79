//! Assembly of balanced transactions for a cell-based UTXO ledger.
//!
//! The crate models transactions as plain values, computes the exact
//! transaction fee (including DAO withdrawal inputs), partitions a
//! transaction's inputs and outputs into script groups, and drives the
//! capacity-balancing loop that adds inputs and a change output until the
//! fee paid equals the minimum fee for the serialized size.

pub mod types;
pub mod mol;
pub mod traits;
pub mod fee;
pub mod groups;
pub mod balance;
pub mod unlock;
pub mod builder;
