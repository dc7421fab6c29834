//! The register CRDT: operations, their total evaluation order, and the projection
//! of register state into committed adds and tombstones.

pub mod types;
pub mod epoch;
pub mod evaluator;
pub mod projection;
