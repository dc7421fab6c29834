use nex_core::apps::compute::{ComputeEngine, ComputeError, ComputeJobDescriptor, ComputeResult, ComputeScheduler};
use nex_core::apps::chat::NexChatEngine;
use nex_core::apps::vault::{NexVaultEngine, VaultCategory};
use nex_core::api::{CoreRuntimeError, NexAppApi};
use nex_core::keyed_map::KeyedMap;
use nex_core::model::Checkpoint;
use nex_core::object::types::{NamespaceID, NexObject, ObjectID, ObjectType};
use nex_core::identity::types::CapabilityProof;
use sha2::{Digest, Sha256};

struct NoApi;

impl NexAppApi for NoApi {
    fn create_object(&mut self, _: NamespaceID, _: ObjectType, _: KeyedMap<String, String>, _: Vec<u8>) -> Result<ObjectID, CoreRuntimeError> {
        Err(CoreRuntimeError::StorageError("offline".to_string()))
    }
    fn mutate_object(&mut self, _: ObjectID, _: Option<KeyedMap<String, String>>, _: Option<Vec<u8>>, _: Option<CapabilityProof>) -> Result<[u8; 32], CoreRuntimeError> {
        Err(CoreRuntimeError::StorageError("offline".to_string()))
    }
    fn read_object(&self, id: &ObjectID) -> Result<NexObject, CoreRuntimeError> {
        Err(CoreRuntimeError::ObjectNotFound(*id))
    }
    fn delete_object(&mut self, _: ObjectID, _: Option<CapabilityProof>) -> Result<[u8; 32], CoreRuntimeError> {
        Err(CoreRuntimeError::StorageError("offline".to_string()))
    }
    fn delegate_capability(&mut self, _: [u8; 32], _: NamespaceID, _: Option<ObjectID>, _: u32, _: (u64, u64)) -> Result<CapabilityProof, CoreRuntimeError> {
        Err(CoreRuntimeError::StorageError("offline".to_string()))
    }
    fn sync_now(&mut self) -> Result<Checkpoint, CoreRuntimeError> {
        Err(CoreRuntimeError::StorageError("offline".to_string()))
    }
}

fn job(bytecode: &[u8], fuel: u64, mem: usize) -> ComputeJobDescriptor {
    ComputeJobDescriptor {
        job_id: [4u8; 32],
        wasm_bytecode_hash: Sha256::digest(bytecode).into(),
        input_object_ids: vec![],
        fuel_limit: fuel,
        memory_limit_bytes: mem,
    }
}

#[test]
fn kernel_runs_identity_hash_and_invert() {
    let code = [0x01, 0x03, 0x02, 0x07];
    let inputs = vec![b"ab".to_vec(), b"cd".to_vec()];
    let r = ComputeEngine::execute_kernel(&job(&code, 1000, 1000), &code, &inputs).unwrap();
    let mut expected = vec![!b'a', !b'b'];
    expected.extend_from_slice(&Sha256::digest(b"abcd"));
    assert_eq!(r.output_bytes, expected);
    assert_eq!(r.fuel_consumed, 40);
    assert_eq!(r.result_commitment, ComputeResult::compute_commitment(&[4u8; 32], &expected, 40));
    let mut h = Sha256::new();
    h.update(b"NEX/COMPUTE_RESULT/v1");
    h.update(&[4u8; 32]);
    h.update(&expected);
    h.update(&40u64.to_be_bytes());
    let c: [u8; 32] = h.finalize().into();
    assert_eq!(r.result_commitment, c);
}

#[test]
fn kernel_errors() {
    let code = [0x01, 0x01, 0x01];
    let inputs = vec![b"abcd".to_vec()];
    assert_eq!(ComputeEngine::execute_kernel(&job(&code, 25, 100), &code, &inputs).unwrap_err(), ComputeError::FuelExhausted);
    assert_eq!(ComputeEngine::execute_kernel(&job(&code, 100, 10), &code, &inputs).unwrap_err(), ComputeError::MemoryLimitExceeded);
    assert_eq!(ComputeEngine::execute_kernel(&job(&code, 100, 100), &[], &inputs).unwrap_err(), ComputeError::InvalidBytecode);
    assert_eq!(ComputeEngine::execute_kernel(&job(&code, 100, 100), &[0x01], &inputs).unwrap_err(), ComputeError::InvalidBytecode);
    let trap = [0x05, 0xFF];
    assert_eq!(ComputeEngine::execute_kernel(&job(&trap, 100, 100), &trap, &inputs).unwrap_err(),
        ComputeError::ExecutionTrap("Kernel raised manual trap".to_string()));
}

#[test]
fn scheduler_is_first_in_first_out() {
    let mut s = ComputeScheduler::new();
    let a = job(&[1], 1, 1);
    let mut b = job(&[2], 1, 1);
    b.job_id = [5u8; 32];
    s.submit_job(a.clone());
    s.submit_job(b.clone());
    assert_eq!(s.dispatch_job(), Some(a));
    assert_eq!(s.dispatch_job(), Some(b));
    assert_eq!(s.dispatch_job(), None);
    let res = ComputeResult::new([5u8; 32], vec![1], 10);
    s.record_result([5u8; 32], [6u8; 32], res.clone());
    assert_eq!(s.get_result(&[5u8; 32]), Some(&res));
    assert_eq!(s.get_result(&[7u8; 32]), None);
}

#[test]
fn chat_sealing_opens_with_the_same_key() {
    let key = [3u8; 32];
    let sealed = NexChatEngine::<NoApi>::encrypt_payload(b"hi there", &key);
    assert_eq!(sealed.len(), 8 + 32);
    assert_ne!(&sealed[..8], b"hi there");
    assert_eq!(NexChatEngine::<NoApi>::decrypt_payload(&sealed, &key), Ok(b"hi there".to_vec()));
    assert_eq!(NexChatEngine::<NoApi>::decrypt_payload(&sealed, &[4u8; 32]), Err("MAC verification failed".to_string()));
    assert_eq!(NexChatEngine::<NoApi>::decrypt_payload(&sealed[..33], &key), Err("MAC verification failed".to_string()));
    assert_eq!(NexChatEngine::<NoApi>::decrypt_payload(&sealed[..31], &key), Err("Ciphertext too short".to_string()));
}

#[test]
fn vault_secrets_round_trip() {
    let key = [8u8; 32];
    let sealed = NexVaultEngine::<NoApi>::encrypt_secret(b"hunter2", &key);
    assert_eq!(sealed.len(), 7 + 32);
    let mut mask_h = Sha256::new();
    mask_h.update(b"NEX/VAULT/CIPHER/v1");
    mask_h.update(&key);
    let mask: [u8; 32] = mask_h.finalize().into();
    assert_eq!(sealed[0], b'h' ^ mask[0]);
    assert_eq!(NexVaultEngine::<NoApi>::decrypt_secret(&sealed, &key), Ok(b"hunter2".to_vec()));
    let mut bad = sealed.clone();
    bad[0] ^= 1;
    assert_eq!(NexVaultEngine::<NoApi>::decrypt_secret(&bad, &key),
        Err("MAC validation failure: secret is corrupted or master key is incorrect".to_string()));
    assert_eq!(NexVaultEngine::<NoApi>::decrypt_secret(&[0u8; 5], &key), Err("Ciphertext too short".to_string()));
}

struct Json;

impl nex_core::apps::vault::VaultCodec for Json {
    fn encode_item(&self, item: &nex_core::apps::vault::VaultItem) -> Result<Vec<u8>, String> {
        Ok(item.title.as_bytes().to_vec())
    }
    fn decode_item(&self, _: &[u8]) -> Result<nex_core::apps::vault::VaultItem, String> {
        Err("unused".to_string())
    }
}

#[test]
fn vault_store_reports_the_node_error() {
    let mut v = NexVaultEngine::new([1u8; 32], NoApi);
    let r = v.store_item(&Json, "mail", VaultCategory::Login, b"pw", &[2u8; 32], None);
    assert!(r.unwrap_err().contains("offline"));
    assert_eq!(v.list_items().len(), 0);
    assert_eq!(VaultCategory::TotpSeed.name(), "TotpSeed");
}
