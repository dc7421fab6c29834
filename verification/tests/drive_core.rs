use nex_core::apps::drive::{CasChunkStore, NexDriveEngine, DriveEngine, normalize_vpath, derive_drive_object_id};
use nex_core::encoding::{hex_encode, hex_decode};
use nex_core::keyed_map::KeyedMap;
use sha2::{Digest, Sha256};

fn chunk_digest(data: &[u8]) -> [u8; 32] {
    let mut h = Sha256::new();
    h.update(b"NEX/CAS_CHUNK/v1");
    h.update(data);
    h.finalize().into()
}

fn node(a: &[u8; 32], b: &[u8; 32]) -> [u8; 32] {
    let mut h = Sha256::new();
    h.update(b"NEX/CAS_TREE/v1");
    h.update(a);
    h.update(b);
    h.finalize().into()
}

#[test]
fn paths_normalize() {
    assert_eq!(normalize_vpath("a\\b//./c/"), "/a/b/c");
    assert_eq!(normalize_vpath(""), "/");
    assert_eq!(normalize_vpath("/./"), "/");
    let mut h = Sha256::new();
    h.update(b"NEX/DRIVE/INODE/v1");
    h.update(&[5u8; 32]);
    h.update(b"/x/y");
    let id: [u8; 32] = h.finalize().into();
    assert_eq!(derive_drive_object_id(&[5u8; 32], "x//y/"), id);
}

#[test]
fn sanitize_refuses_traversal() {
    assert_eq!(NexDriveEngine::<NoopApi>::sanitize_path("a/../b").unwrap_err(), "Path traversal (..) or null byte forbidden");
    assert_eq!(NexDriveEngine::<NoopApi>::sanitize_path("a\0b").unwrap_err(), "Path traversal (..) or null byte forbidden");
    assert_eq!(NexDriveEngine::<NoopApi>::sanitize_path("a/./b"), Ok("/a/b".to_string()));
}

#[test]
fn chunk_store_files_and_heals() {
    let mut cas = CasChunkStore::new();
    let d = cas.put_chunk(b"hello");
    assert_eq!(d, chunk_digest(b"hello"));
    assert_eq!(cas.get_chunk(&d), Some(&b"hello".to_vec()));
    assert!(cas.has_chunk(&d));
    assert!(cas.verify_chunk(&d));
    assert!(!cas.verify_chunk(&[0u8; 32]));
    assert_eq!(cas.heal_chunk(d, b"hellx").unwrap_err(), "HealDataDigestMismatch: candidate data does not match target digest");
    assert_eq!(cas.heal_chunk(d, b"hello"), Ok(()));
    assert_eq!(cas.check_storage_quota(10, 5), Ok(()));
    assert_eq!(cas.check_storage_quota(10, 6).unwrap_err(), "StorageExhausted: capacity ceiling exceeded");
    let e = cas.put_chunk(b"other");
    let mut keep: KeyedMap<[u8; 32], ()> = KeyedMap::new();
    keep.insert(e, ());
    assert_eq!(cas.sweep_unreferenced(&keep), 1);
    assert!(!cas.has_chunk(&d));
    assert!(cas.has_chunk(&e));
}

#[test]
fn merkle_roots_pair_up_and_carry_odd_ones() {
    let a = [1u8; 32];
    let b = [2u8; 32];
    let c = [3u8; 32];
    assert_eq!(CasChunkStore::compute_merkle_root(&[]), [0u8; 32]);
    assert_eq!(CasChunkStore::compute_merkle_root(&[a]), a);
    assert_eq!(CasChunkStore::compute_merkle_root(&[a, b]), node(&a, &b));
    assert_eq!(CasChunkStore::compute_merkle_root(&[a, b, c]), node(&node(&a, &b), &c));
}

#[test]
fn files_are_stored_in_chunks_and_reassembled() {
    let mut cas = CasChunkStore::new();
    let content: Vec<u8> = (0..5_000_000u32).map(|i| (i % 253) as u8).collect();
    let (root, digests) = cas.store_file(&content);
    assert_eq!(digests.len(), 3);
    assert_eq!(digests[0], chunk_digest(&content[..2097152]));
    assert_eq!(root, CasChunkStore::compute_merkle_root(&digests));
    assert_eq!(cas.assemble_file(&digests).unwrap(), content);
    let (eroot, edigests) = cas.store_file(&[]);
    assert_eq!(edigests, vec![eroot]);
    assert_eq!(eroot, chunk_digest(b""));
    assert!(cas.assemble_file(&[[9u8; 32]]).is_err());
}

#[test]
fn drive_directories() {
    let mut e = DriveEngine::new([1u8; 32]);
    e.create_directory("/photos", 1);
    assert!(e.directories.contains_key(&"/photos".to_string()));
    assert!(e.directories.contains_key(&"/".to_string()));
}

#[test]
fn hex_wrappers_encode_lowercase_and_decode() {
    assert_eq!(hex_encode(&[0xAB, 0x01]), "ab01");
    assert_eq!(hex_decode("AB01").unwrap(), vec![0xAB, 0x01]);
    assert!(hex_decode("abc").is_err());
    assert!(hex_decode("zz").is_err());
}

struct NoopApi;

impl nex_core::api::NexAppApi for NoopApi {
    fn create_object(&mut self, _: [u8; 32], _: nex_core::object::types::ObjectType, _: KeyedMap<String, String>, _: Vec<u8>)
        -> Result<[u8; 32], nex_core::api::CoreRuntimeError> { Err(nex_core::api::CoreRuntimeError::ObjectTombstoned) }
    fn mutate_object(&mut self, _: [u8; 32], _: Option<KeyedMap<String, String>>, _: Option<Vec<u8>>, _: Option<nex_core::identity::types::CapabilityProof>)
        -> Result<[u8; 32], nex_core::api::CoreRuntimeError> { Err(nex_core::api::CoreRuntimeError::ObjectTombstoned) }
    fn read_object(&self, _: &[u8; 32]) -> Result<nex_core::object::types::NexObject, nex_core::api::CoreRuntimeError> {
        Err(nex_core::api::CoreRuntimeError::ObjectTombstoned)
    }
    fn delete_object(&mut self, _: [u8; 32], _: Option<nex_core::identity::types::CapabilityProof>)
        -> Result<[u8; 32], nex_core::api::CoreRuntimeError> { Err(nex_core::api::CoreRuntimeError::ObjectTombstoned) }
    fn delegate_capability(&mut self, _: [u8; 32], _: [u8; 32], _: Option<[u8; 32]>, _: u32, _: (u64, u64))
        -> Result<nex_core::identity::types::CapabilityProof, nex_core::api::CoreRuntimeError> { Err(nex_core::api::CoreRuntimeError::ObjectTombstoned) }
    fn sync_now(&mut self) -> Result<nex_core::model::Checkpoint, nex_core::api::CoreRuntimeError> {
        Err(nex_core::api::CoreRuntimeError::ObjectTombstoned)
    }
}

#[test]
fn normalizing_twice_changes_nothing() {
    for p in ["a\\b//./c/", "", "/", "./x/../y", "//\\\\", "docs/./report.pdf"] {
        let once = normalize_vpath(p);
        assert_eq!(normalize_vpath(&once), once);
        assert!(once.starts_with('/'));
        assert!(!once.contains('\\'));
        assert!(!once.contains("//"));
    }
}
