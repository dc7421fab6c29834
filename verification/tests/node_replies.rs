use nex_core::api::{live_object, node_reply, CoreRuntimeError, NexAppApi};
use nex_core::apps::chat::{ChatMessage, NexChatEngine};
use nex_core::apps::vault::{NexVaultEngine, VaultCategory, VaultItem};
use nex_core::keyed_map::KeyedMap;
use nex_core::model::Checkpoint;
use nex_core::object::types::{NamespaceID, NexObject, ObjectID, ObjectType};
use nex_core::identity::types::CapabilityProof;

struct QuietNode;

impl NexAppApi for QuietNode {
    fn create_object(&mut self, _: NamespaceID, _: ObjectType, _: KeyedMap<String, String>, _: Vec<u8>) -> Result<ObjectID, CoreRuntimeError> {
        Err(CoreRuntimeError::StorageError("offline".to_string()))
    }
    fn mutate_object(&mut self, _: ObjectID, _: Option<KeyedMap<String, String>>, _: Option<Vec<u8>>, _: Option<CapabilityProof>) -> Result<[u8; 32], CoreRuntimeError> {
        Err(CoreRuntimeError::StorageError("offline".to_string()))
    }
    fn read_object(&self, id: &ObjectID) -> Result<NexObject, CoreRuntimeError> {
        Err(CoreRuntimeError::ObjectNotFound(*id))
    }
    fn delete_object(&mut self, _: ObjectID, _: Option<CapabilityProof>) -> Result<[u8; 32], CoreRuntimeError> {
        Err(CoreRuntimeError::StorageError("offline".to_string()))
    }
    fn delegate_capability(&mut self, _: [u8; 32], _: NamespaceID, _: Option<ObjectID>, _: u32, _: (u64, u64)) -> Result<CapabilityProof, CoreRuntimeError> {
        Err(CoreRuntimeError::StorageError("offline".to_string()))
    }
    fn sync_now(&mut self) -> Result<Checkpoint, CoreRuntimeError> {
        Err(CoreRuntimeError::StorageError("offline".to_string()))
    }
}

fn object(tombstoned: bool) -> NexObject {
    NexObject {
        object_id: [3u8; 32],
        object_type: ObjectType::ChatMessage,
        namespace: [1u8; 32],
        owner_actor_id: [2u8; 32],
        schema_version: 1,
        created_epoch: 0,
        created_lamport: 0,
        winning_mutation_id: [0u8; 32],
        metadata: KeyedMap::new(),
        payload_bytes: vec![7, 8],
        tombstoned,
    }
}

fn message(ciphertext: Vec<u8>) -> ChatMessage {
    ChatMessage {
        message_id: [5u8; 32],
        channel_id: [6u8; 32],
        author_actor_id: [2u8; 32],
        ciphertext,
        mentions: vec![],
        attachments: vec![],
    }
}

#[test]
fn node_reply_keeps_the_value_and_names_the_error() {
    assert_eq!(node_reply::<u32>(Ok(5)), Ok(5));
    let e = node_reply::<u32>(Err(CoreRuntimeError::StorageError("disk full".to_string()))).unwrap_err();
    assert!(e.contains("disk full"));
}

#[test]
fn live_object_refuses_a_tombstone() {
    assert_eq!(live_object(Ok(object(true)), "gone").unwrap_err(), "gone");
    assert_eq!(live_object(Ok(object(false)), "gone").unwrap().payload_bytes, vec![7, 8]);
    assert!(live_object(Err(CoreRuntimeError::ObjectTombstoned), "gone").is_err());
}

#[test]
fn chat_records_and_forgets_by_the_node_reply() {
    let mut chat = NexChatEngine::new([1u8; 32], [2u8; 32], QuietNode);
    let id = [9u8; 32];
    assert!(chat.record_message(message(vec![1]), Err(CoreRuntimeError::ObjectTombstoned)).is_err());
    assert_eq!(chat.messages.len(), 0);
    assert_eq!(chat.record_message(message(vec![1]), Ok(id)), Ok(id));
    assert_eq!(chat.messages.get(&id).unwrap().ciphertext, vec![1]);
    assert!(chat.apply_message_deletion(id, Err(CoreRuntimeError::ObjectNotFound(id))).is_err());
    assert_eq!(chat.messages.len(), 1);
    assert_eq!(chat.apply_message_deletion(id, Ok([0u8; 32])), Ok(()));
    assert_eq!(chat.messages.len(), 0);
}

#[test]
fn chat_open_message_checks_the_tag() {
    let key = [4u8; 32];
    let sealed = NexChatEngine::<QuietNode>::encrypt_payload(b"hello", &key);
    let (m, p) = NexChatEngine::<QuietNode>::open_message(message(sealed.clone()), &key).unwrap();
    assert_eq!(p, b"hello".to_vec());
    assert_eq!(m.ciphertext, sealed);
    assert_eq!(NexChatEngine::<QuietNode>::open_message(message(vec![1, 2]), &key).unwrap_err(), "Ciphertext too short");
    assert_eq!(NexChatEngine::<QuietNode>::open_message(message(sealed), &[5u8; 32]).unwrap_err(), "MAC verification failed");
}

#[test]
fn vault_record_item_takes_the_new_id() {
    let mut vault = NexVaultEngine::new([1u8; 32], QuietNode);
    let item = VaultItem {
        item_id: [0u8; 32],
        namespace: [1u8; 32],
        title: "mail".to_string(),
        category: VaultCategory::Login,
        ciphertext: vec![1, 2, 3],
        updated_epoch: 0,
    };
    let id = [8u8; 32];
    assert_eq!(vault.record_item(item, Ok(id)), Ok(id));
    assert_eq!(vault.items.get(&id).unwrap().item_id, id);
    assert_eq!(vault.apply_item_deletion(id, Ok([0u8; 32])), Ok(()));
    assert_eq!(vault.items.len(), 0);
}
