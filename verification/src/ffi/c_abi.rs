//! The handle a foreign caller holds for a runtime.

use vstd::prelude::*;

verus! {

pub struct NexHandle {
    pub handle_id: u64,
}

} // verus!
