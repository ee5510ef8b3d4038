//! A constraint-accumulation engine for describing arithmetic circuits.
//!
//! A circuit author states polynomial relations ("constraints"), conditional
//! sub-circuits and table membership checks ("lookups") against a symbolic
//! expression tree; the engine handles condition propagation, storage-cell
//! allocation, polynomial-degree budgeting and deduplication of repeated
//! sub-expressions.  Finalization hands the accumulated constraints and
//! lookup registrations back to the caller as plain data, ready for an
//! arithmetization backend.

pub mod builder;
pub mod bytes;
pub mod cells;
pub mod eval;
pub mod expr;
pub mod field;
pub mod merger;
pub mod rlc;
pub mod vecs;
