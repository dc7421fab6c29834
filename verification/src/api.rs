//! The application interface that engines build on, and its errors.

use vstd::prelude::*;
use crate::keyed_map::KeyedMap;
use crate::model::{ActorID, Checkpoint};
use crate::object::types::{ObjectID, NamespaceID, ObjectType, NexObject};
use crate::identity::types::CapabilityProof;
use crate::text::{str_debug, str_debug_text, bytes_debug, bytes_debug_text};

verus! {

pub const MAX_OBJECT_PAYLOAD_BYTES: usize = 2097152;
pub const MAX_OBJECT_METADATA_BYTES: usize = 65536;

#[derive(Debug, Clone, PartialEq, Eq)]
pub enum CoreRuntimeError {
    Unauthorized(String),
    ObjectNotFound(ObjectID),
    InvalidSchema(String),
    StorageError(String),
    ObjectTombstoned,
    InvalidPayload(String),
    ResourceExhausted(String),
}

/// The derived `Debug` text of a runtime error.
pub open spec fn runtime_error_debug(e: CoreRuntimeError) -> Seq<char> {
    match e {
        CoreRuntimeError::Unauthorized(s) => "Unauthorized("@ + str_debug(s@) + ")"@,
        CoreRuntimeError::ObjectNotFound(id) => "ObjectNotFound("@ + bytes_debug(id@) + ")"@,
        CoreRuntimeError::InvalidSchema(s) => "InvalidSchema("@ + str_debug(s@) + ")"@,
        CoreRuntimeError::StorageError(s) => "StorageError("@ + str_debug(s@) + ")"@,
        CoreRuntimeError::ObjectTombstoned => "ObjectTombstoned"@,
        CoreRuntimeError::InvalidPayload(s) => "InvalidPayload("@ + str_debug(s@) + ")"@,
        CoreRuntimeError::ResourceExhausted(s) => "ResourceExhausted("@ + str_debug(s@) + ")"@,
    }
}

/// Writes `s` between `opening` and `)`, `s` as its `Debug` text.
fn variant_text(opening: &str, s: &String) -> (r: String)
    ensures
        r@ == opening@ + str_debug(s@) + ")"@,
{
    let mut r = opening.to_string();
    let d = str_debug_text(s.as_str());
    vstd::string::StringExecFns::append(&mut r, d.as_str());
    vstd::string::StringExecFns::append(&mut r, ")");
    r
}

/// The error's `Debug` text (`format!("{:?}", e)`).
pub fn runtime_error_text(e: &CoreRuntimeError) -> (r: String)
    ensures
        r@ == runtime_error_debug(*e),
{
    match e {
        CoreRuntimeError::Unauthorized(s) => variant_text("Unauthorized(", s),
        CoreRuntimeError::ObjectNotFound(id) => {
            let mut r = "ObjectNotFound(".to_string();
            let d = bytes_debug_text(id.as_slice());
            vstd::string::StringExecFns::append(&mut r, d.as_str());
            vstd::string::StringExecFns::append(&mut r, ")");
            r
        }
        CoreRuntimeError::InvalidSchema(s) => variant_text("InvalidSchema(", s),
        CoreRuntimeError::StorageError(s) => variant_text("StorageError(", s),
        CoreRuntimeError::ObjectTombstoned => "ObjectTombstoned".to_string(),
        CoreRuntimeError::InvalidPayload(s) => variant_text("InvalidPayload(", s),
        CoreRuntimeError::ResourceExhausted(s) => variant_text("ResourceExhausted(", s),
    }
}

/// A node's reply as the engines return it: the value on success, the error's
/// text on failure.
pub fn node_reply<T>(outcome: Result<T, CoreRuntimeError>) -> (r: Result<T, String>)
    ensures
        outcome is Ok <==> r is Ok,
        outcome matches Ok(v) ==> r == Ok::<T, String>(v),
        outcome matches Err(e) ==> (r matches Err(t) && t@ == runtime_error_debug(e)),
{
    match outcome {
        Ok(v) => Ok(v),
        Err(e) => Err(runtime_error_text(&e)),
    }
}

/// A node's reply to a read, refused with `refusal` when the object is tombstoned.
pub fn live_object(outcome: Result<NexObject, CoreRuntimeError>, refusal: &str) -> (r: Result<NexObject, String>)
    ensures
        outcome matches Err(e) ==> (r matches Err(t) && t@ == runtime_error_debug(e)),
        outcome matches Ok(o) ==> (if o.tombstoned { r matches Err(e) && e@ == refusal@ } else { r == Ok::<NexObject, String>(o) }),
{
    match outcome {
        Ok(o) => {
            if o.tombstoned {
                Err(refusal.to_string())
            } else {
                Ok(o)
            }
        }
        Err(e) => Err(runtime_error_text(&e)),
    }
}

/// What a node offers the applications running on it. Implementations decide every
/// outcome; the engines built on it are verified for whatever each call returns.
pub trait NexAppApi {
    fn create_object(
        &mut self,
        namespace: NamespaceID,
        object_type: ObjectType,
        metadata: KeyedMap<String, String>,
        payload: Vec<u8>,
    ) -> Result<ObjectID, CoreRuntimeError>;

    fn mutate_object(
        &mut self,
        object_id: ObjectID,
        new_metadata: Option<KeyedMap<String, String>>,
        new_payload: Option<Vec<u8>>,
        proof: Option<CapabilityProof>,
    ) -> Result<[u8; 32], CoreRuntimeError>;

    fn read_object(&self, object_id: &ObjectID) -> Result<NexObject, CoreRuntimeError>;

    fn delete_object(
        &mut self,
        object_id: ObjectID,
        proof: Option<CapabilityProof>,
    ) -> Result<[u8; 32], CoreRuntimeError>;

    fn delegate_capability(
        &mut self,
        subject: ActorID,
        namespace: NamespaceID,
        object_id: Option<ObjectID>,
        allowed_ops: u32,
        valid_epochs: (u64, u64),
    ) -> Result<CapabilityProof, CoreRuntimeError>;

    fn sync_now(&mut self) -> Result<Checkpoint, CoreRuntimeError>;
}

} // verus!
