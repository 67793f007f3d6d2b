//! Validation and effect computation for a UTXO-style ledger.
//!
//! - `model`: the data a transaction carries, and what the outside
//!   verifiers answered for each operation.
//! - `rules`: what each operation requires and adds, as spec functions over
//!   the transaction-local accumulators.
//! - `effects`: `TxnEffect::compute_effect`, proved to follow the rules, and
//!   the invariant check of a computed effect.
//! - `block`: `BlockEffect::add_txn_effect`, which admits effects into a block
//!   unless they conflict with it.
//! - `laws`: properties of the above, proved.
//! - `tables`: keyed tables and sets held in vectors.
//! - `naming`: small helpers of the command-line front end.
use vstd::prelude::*;

pub mod block;
pub mod effects;
pub mod laws;
pub mod model;
pub mod naming;
pub mod rules;
pub mod tables;

verus! {

} // verus!
