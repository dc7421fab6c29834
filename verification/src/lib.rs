//! Verified core of the NEX sovereign data node: strict CBOR validation,
//! sparse-Merkle accumulators, capability verification, secret sharing,
//! erasure coding, and the local state machines that the apps build on.

pub mod bytes;
pub mod gf256;
pub mod crypto;
pub mod cbor_strict;
pub mod keyed_map;
pub mod accumulator;
pub mod model;
pub mod identity;
pub mod apps;
pub mod resilience;
pub mod discovery;
pub mod crdt;
pub mod object;
pub mod encoding;
pub mod text;
pub mod api;
pub mod ffi;
pub mod product;
pub mod cli;
pub mod ipc;

use vstd::prelude::*;
use crate::bytes::{lex_order, compare_bytes, to_vec, bytes_eq};
use crate::crypto::{sha256, sha256_spec};

verus! {

/// A typed digest: `[AlgorithmID: uint, Digest: bstr]`. Algorithm 1 is SHA-256.
#[derive(Debug, Clone, PartialEq, Eq)]
pub struct HashRef {
    pub algorithm_id: u64,
    pub digest: Vec<u8>,
}

/// The order of hash references: by algorithm, then by digest bytes.
pub open spec fn hash_ref_le(a: HashRef, b: HashRef) -> bool {
    a.algorithm_id < b.algorithm_id || (a.algorithm_id == b.algorithm_id && lex_order(a.digest@, b.digest@) <= 0)
}

impl HashRef {
    /// The SHA-256 reference of `data`.
    pub fn new_sha256(data: &[u8]) -> (r: Self)
        ensures
            r.algorithm_id == 1,
            r.digest@ == sha256_spec(data@),
    {
        let d = sha256(data);
        HashRef { algorithm_id: 1, digest: to_vec(d.as_slice()) }
    }

    /// Only SHA-256 references with a 32-byte digest are valid.
    pub fn validate(&self) -> (r: Result<(), &'static str>)
        ensures
            r is Ok <==> (self.algorithm_id == 1 && self.digest@.len() == 32),
            r matches Err(e) ==> e@ == "INVALID_HASH_REF"@,
    {
        if self.algorithm_id == 1 && self.digest.len() != 32 {
            return Err("INVALID_HASH_REF");
        }
        if self.algorithm_id != 1 {
            return Err("INVALID_HASH_REF");
        }
        Ok(())
    }

    /// A field-by-field copy.
    pub fn duplicate(&self) -> (r: Self)
        ensures
            r.algorithm_id == self.algorithm_id,
            r.digest@ == self.digest@,
    {
        HashRef { algorithm_id: self.algorithm_id, digest: to_vec(self.digest.as_slice()) }
    }

    /// Whether `self` orders at or before `other`.
    pub fn le(&self, other: &HashRef) -> (r: bool)
        ensures
            r == hash_ref_le(*self, *other),
    {
        if self.algorithm_id != other.algorithm_id {
            return self.algorithm_id < other.algorithm_id;
        }
        compare_bytes(self.digest.as_slice(), other.digest.as_slice()) <= 0
    }
}

/// The least candidate in hash-reference order; `None` when there is none.
pub fn resolve_genesis_collision(candidates: &[HashRef]) -> (r: Option<HashRef>)
    ensures
        candidates@.len() == 0 <==> r is None,
        r matches Some(h) ==> exists|i: int| 0 <= i < candidates@.len()
            && h.algorithm_id == candidates@[i].algorithm_id && h.digest@ == candidates@[i].digest@
            && (forall|j: int| 0 <= j < candidates@.len() ==> #[trigger] hash_ref_le(candidates@[i], candidates@[j])),
{
    if candidates.len() == 0 {
        return None;
    }
    let mut best: usize = 0;
    let mut i: usize = 1;
    proof {
        crate::bytes::lemma_lex_order_eq(candidates@[0].digest@, candidates@[0].digest@);
    }
    while i < candidates.len()
        invariant
            1 <= i <= candidates@.len(),
            best < i,
            forall|j: int| 0 <= j < i ==> #[trigger] hash_ref_le(candidates@[best as int], candidates@[j]),
        decreases candidates.len() - i,
    {
        if !candidates[best].le(&candidates[i]) {
            proof {
                let a = candidates@[best as int];
                let b = candidates@[i as int];
                crate::bytes::lemma_lex_order_antisym(a.digest@, b.digest@);
                assert forall|j: int| 0 <= j < i + 1 implies #[trigger] hash_ref_le(b, candidates@[j]) by {
                    if j < i {
                        let c = candidates@[j];
                        assert(hash_ref_le(a, c));
                        if a.algorithm_id == b.algorithm_id && b.algorithm_id == c.algorithm_id {
                            crate::bytes::lemma_lex_order_range(a.digest@, c.digest@);
                            crate::bytes::lemma_lex_order_eq(a.digest@, c.digest@);
                            if lex_order(a.digest@, c.digest@) < 0 {
                                crate::bytes::lemma_lex_lt_trans(b.digest@, a.digest@, c.digest@);
                            }
                        }
                    } else {
                        crate::bytes::lemma_lex_order_eq(b.digest@, b.digest@);
                    }
                }
            }
            best = i;
        }
        i = i + 1;
    }
    Some(candidates[best].duplicate())
}

/// Genesis of an identity is authorized only when the author is the root device and
/// neither an identity context nor a capability reference is given.
pub fn validate_identity_genesis_authority(
    author_device_key: &[u8],
    root_device_key: &[u8],
    is_identity_context_nil: bool,
    is_capability_ref_nil: bool,
) -> (r: Result<(), &'static str>)
    ensures
        r is Ok <==> (author_device_key@ == root_device_key@ && is_identity_context_nil && is_capability_ref_nil),
        r matches Err(e) ==> e@ == "INVALID_AUTHORITY"@,
{
    if bytes_eq(author_device_key, root_device_key) && is_identity_context_nil && is_capability_ref_nil {
        Ok(())
    } else {
        Err("INVALID_AUTHORITY")
    }
}

} // verus!
