//! Operation bodies and the register states they leave behind.

use vstd::prelude::*;
use crate::HashRef;
use crate::crdt::epoch::Epoch;

verus! {

#[derive(Debug, Clone, Copy, PartialEq, Eq, PartialOrd, Ord, Hash, Structural)]
pub struct OperationIndex(pub u32);

/// A causal rank among the mutations of one epoch.
#[derive(Debug, Clone, Copy, PartialEq, Eq, PartialOrd, Ord, Hash, Structural)]
pub struct LamportRank(pub u64);

#[derive(Debug, Clone, PartialEq, Eq)]
pub enum OperationBody {
    InitObject,
    Add { key: Vec<u8>, payload: Vec<u8> },
    Remove { key: Vec<u8> },
    Resurrect,
}

#[derive(Debug, Clone, PartialEq, Eq)]
pub enum RegisterState {
    Add {
        op_tag: HashRef,
        payload: Vec<u8>,
        epoch: Epoch,
        lamport_rank: LamportRank,
        mutation_id: HashRef,
        operation_index: OperationIndex,
    },
    Remove {
        op_tag: HashRef,
        epoch: Epoch,
        lamport_rank: LamportRank,
        mutation_id: HashRef,
        operation_index: OperationIndex,
    },
}

} // verus!
