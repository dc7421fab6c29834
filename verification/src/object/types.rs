//! Object kinds and the object record.

use vstd::prelude::*;
use crate::keyed_map::KeyedMap;
use crate::model::ActorID;

verus! {

pub type ObjectID = [u8; 32];
pub type NamespaceID = [u8; 32];

#[derive(Debug, Clone, Copy, PartialEq, Eq, PartialOrd, Ord, Hash, Structural)]
pub enum ObjectType {
    DriveInode,
    DriveFolder,
    PhotoMedia,
    PhotoAlbum,
    ChatChannel,
    ChatMessage,
    ChatReceipt,
    Community,
    MemberRole,
    VaultItem,
    BackupIndex,
    Synthetic(u16),
}

/// The wire code of an object kind.
pub open spec fn object_type_code(t: ObjectType) -> u16 {
    match t {
        ObjectType::DriveInode => 0x0101,
        ObjectType::DriveFolder => 0x0102,
        ObjectType::PhotoMedia => 0x0201,
        ObjectType::PhotoAlbum => 0x0202,
        ObjectType::ChatChannel => 0x0301,
        ObjectType::ChatMessage => 0x0302,
        ObjectType::ChatReceipt => 0x0303,
        ObjectType::Community => 0x0401,
        ObjectType::MemberRole => 0x0402,
        ObjectType::VaultItem => 0x0501,
        ObjectType::BackupIndex => 0x0601,
        ObjectType::Synthetic(v) => v,
    }
}

impl ObjectType {
    pub fn as_u16(&self) -> (r: u16)
        ensures
            r == object_type_code(*self),
    {
        match self {
            ObjectType::DriveInode => 0x0101,
            ObjectType::DriveFolder => 0x0102,
            ObjectType::PhotoMedia => 0x0201,
            ObjectType::PhotoAlbum => 0x0202,
            ObjectType::ChatChannel => 0x0301,
            ObjectType::ChatMessage => 0x0302,
            ObjectType::ChatReceipt => 0x0303,
            ObjectType::Community => 0x0401,
            ObjectType::MemberRole => 0x0402,
            ObjectType::VaultItem => 0x0501,
            ObjectType::BackupIndex => 0x0601,
            ObjectType::Synthetic(v) => *v,
        }
    }
}

#[derive(Debug)]
pub struct NexObject {
    pub object_id: ObjectID,
    pub object_type: ObjectType,
    pub namespace: NamespaceID,
    pub owner_actor_id: ActorID,
    pub schema_version: u16,
    pub created_epoch: u64,
    pub created_lamport: u64,
    pub winning_mutation_id: [u8; 32],
    pub metadata: KeyedMap<String, String>,
    pub payload_bytes: Vec<u8>,
    pub tombstoned: bool,
}

} // verus!
