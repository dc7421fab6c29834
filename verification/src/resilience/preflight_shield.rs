//! Cheap semantic checks run before an expensive proof verification.

use vstd::prelude::*;
use crate::model::Checkpoint;

verus! {

#[derive(Debug, Clone, PartialEq, Eq)]
pub enum PreFlightError {
    ImageIdMismatch,
    AbiVersionMismatch(u32),
    EmptySeal,
    SealOversized(usize),
    CheckpointIdPreimageMismatch,
}

pub const MAX_SEAL_BYTES: usize = 262144;

#[derive(Debug, Clone)]
pub struct PreFlightShield {
    pub expected_image_id: [u8; 32],
}

impl PreFlightShield {
    pub fn new(expected_image_id: [u8; 32]) -> (r: Self)
        ensures
            r.expected_image_id == expected_image_id,
    {
        PreFlightShield { expected_image_id }
    }

    /// Checks, in order: the image id, ABI version 1, a seal of 1 to 256 KiB, and that
    /// the checkpoint's id is the digest of its body. The body digest comes from the
    /// canonical checkpoint serializer and is passed in as `derived_cp_id`.
    pub fn validate_proof_preflight(
        &self,
        image_id: &[u8; 32],
        abi_version: u32,
        seal_bytes: &[u8],
        checkpoint: &Checkpoint,
        derived_cp_id: &[u8; 32],
    ) -> (r: Result<(), PreFlightError>)
        ensures
            *image_id != self.expected_image_id ==> r == Err::<(), PreFlightError>(PreFlightError::ImageIdMismatch),
            *image_id == self.expected_image_id && abi_version != 1 ==>
                r == Err::<(), PreFlightError>(PreFlightError::AbiVersionMismatch(abi_version)),
            *image_id == self.expected_image_id && abi_version == 1 && seal_bytes@.len() == 0 ==>
                r == Err::<(), PreFlightError>(PreFlightError::EmptySeal),
            *image_id == self.expected_image_id && abi_version == 1 && seal_bytes@.len() > MAX_SEAL_BYTES ==>
                r == Err::<(), PreFlightError>(PreFlightError::SealOversized(seal_bytes@.len() as usize)),
            *image_id == self.expected_image_id && abi_version == 1 && 0 < seal_bytes@.len() <= MAX_SEAL_BYTES ==>
                r == if checkpoint.id == *derived_cp_id {
                    Ok::<(), PreFlightError>(())
                } else {
                    Err::<(), PreFlightError>(PreFlightError::CheckpointIdPreimageMismatch)
                },
    {
        if !crate::bytes::id_eq(image_id, &self.expected_image_id) {
            return Err(PreFlightError::ImageIdMismatch);
        }
        if abi_version != 1 {
            return Err(PreFlightError::AbiVersionMismatch(abi_version));
        }
        if seal_bytes.len() == 0 {
            return Err(PreFlightError::EmptySeal);
        }
        if seal_bytes.len() > MAX_SEAL_BYTES {
            return Err(PreFlightError::SealOversized(seal_bytes.len()));
        }
        if !crate::bytes::id_eq(&checkpoint.id, derived_cp_id) {
            return Err(PreFlightError::CheckpointIdPreimageMismatch);
        }
        Ok(())
    }
}

} // verus!
