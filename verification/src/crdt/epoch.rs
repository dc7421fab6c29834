//! Epochs: a resurrection opens a new one above every parent's.

use vstd::prelude::*;

verus! {

#[derive(Debug, Clone, Copy, PartialEq, Eq, PartialOrd, Ord, Hash, Structural)]
pub struct Epoch(pub u64);

impl Epoch {
    /// The epoch of a mutation whose parents reach `parent_max`: one higher if it
    /// resurrects the object.
    pub(crate) fn derive(parent_max: u64, has_resurrect: bool) -> (r: Self)
        requires
            has_resurrect ==> parent_max < u64::MAX,
        ensures
            r.0 == parent_max + if has_resurrect { 1int } else { 0int },
    {
        Epoch(parent_max + if has_resurrect { 1 } else { 0 })
    }
}

} // verus!
