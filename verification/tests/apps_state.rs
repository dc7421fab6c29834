use std::cell::RefCell;
use nex_core::api::{CoreRuntimeError, NexAppApi};
use nex_core::apps::backup::{BackupCodec, BackupSnapshot, NexBackupEngine};
use nex_core::apps::drive::{CasChunkStore, DriveCodec, DriveInode, DriveSyncWatcher, NexDriveEngine};
use nex_core::apps::extensions::{AppManifest, AppResourceQuota, CustomObjectTypeRegistration, NexExtensionHost};
use nex_core::apps::groups::{FamilyStoragePool, GroupRole, GroupState, NexGroupsService};
use nex_core::apps::maps::{NexMapsService, TileCoordinate};
use nex_core::apps::photos::{MediaMetadata, NexPhotosEngine, PhotoAlbum, PhotoCodec, PhotoMedia};
use nex_core::crypto::{ed25519_public_from_seed, ed25519_sign};
use nex_core::identity::authority::derive_actor_id;
use nex_core::identity::types::{CapabilityProof, KeyType};
use nex_core::keyed_map::KeyedMap;
use nex_core::model::Checkpoint;
use nex_core::object::types::{NamespaceID, NexObject, ObjectID, ObjectType};
use sha2::{Digest, Sha256};

struct MemApi {
    objects: RefCell<Vec<NexObject>>,
}

impl MemApi {
    fn new() -> Self {
        MemApi { objects: RefCell::new(Vec::new()) }
    }
}

impl NexAppApi for MemApi {
    fn create_object(&mut self, namespace: NamespaceID, object_type: ObjectType, metadata: KeyedMap<String, String>, payload: Vec<u8>) -> Result<ObjectID, CoreRuntimeError> {
        let n = self.objects.borrow().len() as u8;
        let id = [n + 1; 32];
        self.objects.borrow_mut().push(NexObject {
            object_id: id, object_type, namespace, owner_actor_id: [0u8; 32], schema_version: 1, created_epoch: 0,
            created_lamport: 0, winning_mutation_id: [0u8; 32], metadata, payload_bytes: payload, tombstoned: false,
        });
        Ok(id)
    }
    fn mutate_object(&mut self, _: ObjectID, _: Option<KeyedMap<String, String>>, _: Option<Vec<u8>>, _: Option<CapabilityProof>) -> Result<[u8; 32], CoreRuntimeError> {
        Err(CoreRuntimeError::StorageError("unsupported".to_string()))
    }
    fn read_object(&self, id: &ObjectID) -> Result<NexObject, CoreRuntimeError> {
        for o in self.objects.borrow().iter() {
            if o.object_id == *id {
                return Ok(NexObject {
                    object_id: o.object_id, object_type: o.object_type, namespace: o.namespace, owner_actor_id: o.owner_actor_id,
                    schema_version: o.schema_version, created_epoch: o.created_epoch, created_lamport: o.created_lamport,
                    winning_mutation_id: o.winning_mutation_id, metadata: KeyedMap::new(), payload_bytes: o.payload_bytes.clone(),
                    tombstoned: o.tombstoned,
                });
            }
        }
        Err(CoreRuntimeError::ObjectNotFound(*id))
    }
    fn delete_object(&mut self, id: ObjectID, _: Option<CapabilityProof>) -> Result<[u8; 32], CoreRuntimeError> {
        for o in self.objects.borrow_mut().iter_mut() {
            if o.object_id == id {
                o.tombstoned = true;
                return Ok(id);
            }
        }
        Err(CoreRuntimeError::ObjectNotFound(id))
    }
    fn delegate_capability(&mut self, _: [u8; 32], _: NamespaceID, _: Option<ObjectID>, _: u32, _: (u64, u64)) -> Result<CapabilityProof, CoreRuntimeError> {
        Err(CoreRuntimeError::StorageError("unsupported".to_string()))
    }
    fn sync_now(&mut self) -> Result<Checkpoint, CoreRuntimeError> {
        Err(CoreRuntimeError::StorageError("unsupported".to_string()))
    }
}

/// A toy record codec: digests joined into bytes.
struct Codec;

impl DriveCodec for Codec {
    fn encode_inode(&self, inode: &DriveInode) -> Result<Vec<u8>, String> {
        Ok(inode.chunk_digests.concat())
    }
    fn decode_inode(&self, bytes: &[u8]) -> Result<DriveInode, String> {
        Ok(DriveInode {
            path: String::new(), name: String::new(), size_bytes: 0, mime_type: String::new(), content_root: [0u8; 32],
            chunk_digests: bytes.chunks(32).map(|c| c.try_into().unwrap()).collect(), modified_epoch: 1,
        })
    }
}

impl BackupCodec for Codec {
    fn encode_snapshot(&self, s: &BackupSnapshot) -> Result<Vec<u8>, String> {
        Ok(s.chunk_digests.concat())
    }
    fn decode_snapshot(&self, bytes: &[u8]) -> Result<BackupSnapshot, String> {
        Ok(BackupSnapshot {
            snapshot_id: [0u8; 32], namespace: [0u8; 32], label: String::new(), content_root: [0u8; 32],
            chunk_digests: bytes.chunks(32).map(|c| c.try_into().unwrap()).collect(), total_byte_size: 0, created_epoch: 0,
        })
    }
}

impl PhotoCodec for Codec {
    fn encode_photo(&self, p: &PhotoMedia) -> Result<Vec<u8>, String> {
        Ok(p.original_filename.as_bytes().to_vec())
    }
    fn encode_album(&self, a: &PhotoAlbum) -> Result<Vec<u8>, String> {
        Ok(a.title.as_bytes().to_vec())
    }
}

#[test]
fn drive_upload_then_download() {
    let mut drive = NexDriveEngine::new([1u8; 32], MemApi::new());
    let content: Vec<u8> = (0..200_000u32).map(|i| (i % 251) as u8).collect();
    let id = drive.upload_file(&Codec, "docs//./report.txt", "text/plain", &content, None).unwrap();
    let folder = drive.directories.get(&"/docs".to_string()).unwrap();
    assert_eq!(folder.entries.get(&"report.txt".to_string()), Some(&(id, ObjectType::DriveInode)));
    assert_eq!(drive.download_file(&Codec, &id).unwrap(), content);
    assert_eq!(drive.upload_file(&Codec, "../etc/passwd", "text/plain", b"x", None).unwrap_err(),
        "Path traversal (..) or null byte forbidden");
}

#[test]
fn drive_sync_uploads_new_and_changed_files() {
    let drive = NexDriveEngine::new([1u8; 32], MemApi::new());
    let mut watcher = DriveSyncWatcher::new(drive);
    let files = vec![("/a.txt".to_string(), b"alpha".to_vec()), ("/b.txt".to_string(), b"beta".to_vec())];
    let d = watcher.sync_discovered(&Codec, &files).unwrap();
    assert_eq!((d.added_files, d.updated_files, d.deleted_files, d.synced_bytes), (2, 0, 0, 9));
    let again = watcher.sync_discovered(&Codec, &files).unwrap();
    assert_eq!((again.added_files, again.updated_files, again.synced_bytes), (0, 0, 0));
    let changed = vec![("/a.txt".to_string(), b"ALPHA!".to_vec())];
    let d = watcher.sync_discovered(&Codec, &changed).unwrap();
    assert_eq!((d.added_files, d.updated_files, d.synced_bytes), (0, 1, 6));
    assert_eq!(watcher.local_manifest.get(&"/a.txt".to_string()).unwrap().1, 6);
    assert_eq!(watcher.local_manifest.get(&"/a.txt".to_string()).unwrap().0, CasChunkStore::chunk_digest(b"ALPHA!"));
}

#[test]
fn backups_restore_their_bytes() {
    let mut b = NexBackupEngine::new([2u8; 32], MemApi::new(), CasChunkStore::new());
    let data = b"backup payload bytes".to_vec();
    let id = b.create_backup(&Codec, "nightly", &data, 7, None).unwrap();
    let listed = b.list_backups();
    assert_eq!(listed.len(), 1);
    assert_eq!(listed[0].label, "nightly");
    assert_eq!(listed[0].total_byte_size, data.len() as u64);
    assert_eq!(listed[0].created_epoch, 7);
    assert_eq!(b.restore_backup(&Codec, &id).unwrap(), data);
    b.prune_backup(id, None).unwrap();
    assert_eq!(b.list_backups().len(), 0);
    assert_eq!(b.restore_backup(&Codec, &id).unwrap_err(), "Backup snapshot is tombstoned");
}

fn meta() -> MediaMetadata {
    MediaMetadata {
        width: 4, height: 3, capture_timestamp: 9, camera_make: "Cam".to_string(), camera_model: "X".to_string(),
        lens_model: None, iso: Some(100), exposure_time: None, f_number_bits: Some(2.8f32.to_bits()),
        gps_latitude_bits: Some(51.5f64.to_bits()), gps_longitude_bits: Some((-0.1f64).to_bits()),
    }
}

#[test]
fn photos_albums_and_redaction() {
    let mut p = NexPhotosEngine::new([3u8; 32], [4u8; 32], MemApi::new(), CasChunkStore::new());
    let raw: Vec<u8> = (0..3000u32).map(|i| (i % 256) as u8).collect();
    let id = p.import_photo(&Codec, "cat.jpg", "image/jpeg", &raw, meta()).unwrap();
    let photo = p.photos.get(&id).unwrap();
    assert_eq!(photo.raw_byte_size, 3000);
    assert_eq!(photo.thumbnail_digest, CasChunkStore::chunk_digest(&raw[..256]));
    let redacted = p.get_redacted_media_view(&id, false).unwrap();
    assert_eq!(redacted.metadata.gps_latitude_bits, None);
    assert_eq!(redacted.metadata.iso, Some(100));
    let open = p.get_redacted_media_view(&id, true).unwrap();
    assert_eq!(open.metadata.gps_latitude_bits, Some(51.5f64.to_bits()));
    assert_eq!(p.get_redacted_media_view(&[0u8; 32], true).unwrap_err(), "Photo not found");

    let album = p.create_album(&Codec, "Trip", "summer", vec![id]).unwrap();
    p.add_photo_to_album(album, [9u8; 32]).unwrap();
    p.add_photo_to_album(album, id).unwrap();
    assert_eq!(p.albums.get(&album).unwrap().media_items, vec![id, [9u8; 32]]);
    assert_eq!(p.albums.get(&album).unwrap().cover_media_id, Some(id));
    let mut h = Sha256::new();
    h.update(b"NEX/PHOTO/ALBUM/v1");
    h.update(&album);
    h.update(&id);
    h.update(&[9u8; 32]);
    let expected: [u8; 32] = h.finalize().into();
    assert_eq!(p.compute_album_merkle_digest(&album), Ok(expected));
    assert_eq!(p.add_photo_to_album([0u8; 32], id).unwrap_err(), "Album not found");
}

#[test]
fn deleting_a_photo_drops_it_from_albums() {
    let mut p = NexPhotosEngine::new([3u8; 32], [4u8; 32], MemApi::new(), CasChunkStore::new());
    let id = p.import_photo(&Codec, "a.jpg", "image/jpeg", b"aaaa", meta()).unwrap();
    let album = p.create_album(&Codec, "One", "", vec![[8u8; 32], id]).unwrap();
    assert!(p.delete_photo(id, None).is_err());
    p.api.objects.borrow_mut()[0].object_id = id;
    p.delete_photo(id, None).unwrap();
    assert!(p.photos.get(&id).is_none());
    assert_eq!(p.albums.get(&album).unwrap().media_items, vec![[8u8; 32]]);
}

#[test]
fn groups_ratchet_on_removal() {
    let creator = [1u8; 32];
    let mut g = GroupState::new("Family", creator);
    let mut h = Sha256::new();
    h.update(b"NEX/GROUP_ID/v1");
    h.update(b"Family");
    h.update(&creator);
    let gid: [u8; 32] = h.finalize().into();
    assert_eq!(g.group_id, gid);
    assert!(g.is_admin(&creator));
    g.add_member([2u8; 32], GroupRole::Member);
    assert!(g.is_active_member(&[2u8; 32]));
    assert!(!g.is_admin(&[2u8; 32]));
    let before = g.epoch_secret;
    g.remove_member(&[2u8; 32]).unwrap();
    assert_eq!(g.epoch, 2);
    let mut r = Sha256::new();
    r.update(b"NEX/GROUP_RATCHET/v1");
    r.update(&before);
    r.update(&2u64.to_be_bytes());
    let next: [u8; 32] = r.finalize().into();
    assert_eq!(g.epoch_secret, next);
    assert!(!g.is_active_member(&[2u8; 32]));
    assert_eq!(g.remove_member(&[3u8; 32]), Err("Member not found".to_string()));
    assert_eq!(g.epoch, 2);
    let meta = NexGroupsService::group_metadata(&g);
    assert_eq!(meta.get(&"members_count".to_string()), Some(&"2".to_string()));
    assert_eq!(meta.get(&"group_id".to_string()), Some(&hex::encode(gid)));
}

#[test]
fn storage_pool_quota() {
    let mut pool = FamilyStoragePool::new(100);
    assert_eq!(pool.allocate_storage(&[1u8; 32], 60), Ok(()));
    assert_eq!(pool.allocate_storage(&[1u8; 32], 41), Err("Storage pool quota exceeded".to_string()));
    assert_eq!(pool.allocate_storage(&[2u8; 32], 40), Ok(()));
    assert_eq!(pool.used_bytes, 100);
    pool.set_member_limit([1u8; 32], 10);
    assert_eq!(pool.member_limits.get(&hex::encode([1u8; 32])), Some(&10));
}

#[test]
fn tile_keys_hash_zoom_and_position() {
    let t = TileCoordinate::new(3, 4, 0x01020304);
    let mut h = Sha256::new();
    h.update(b"NEX/MAPS/TILE/v1");
    h.update(&[3u8]);
    h.update(&4u32.to_be_bytes());
    h.update(&0x01020304u32.to_be_bytes());
    let k: [u8; 32] = h.finalize().into();
    assert_eq!(t.cas_key(), k);
}

#[test]
fn vector_tiles_go_to_the_chunk_store_and_the_maps_namespace() {
    let mut node = MemApi::new();
    let mut cas = CasChunkStore::new();
    let coord = TileCoordinate::new(7, 12, 34);
    let id = NexMapsService::store_vector_tile(&mut node, &mut cas, coord, vec![1, 2, 3]).unwrap();
    let digest = CasChunkStore::chunk_digest(&[1, 2, 3]);
    assert_eq!(cas.get_chunk(&digest), Some(&vec![1, 2, 3]));
    let objects = node.objects.borrow();
    assert_eq!(objects.len(), 1);
    let obj = &objects[0];
    assert_eq!(obj.object_id, id);
    assert_eq!(obj.namespace, [0xAA; 32]);
    assert_eq!(obj.object_type, ObjectType::Synthetic(11));
    assert_eq!(obj.payload_bytes, vec![1, 2, 3]);
    assert_eq!(obj.metadata.get(&"zoom".to_string()), Some(&"7".to_string()));
    assert_eq!(obj.metadata.get(&"x".to_string()), Some(&"12".to_string()));
    assert_eq!(obj.metadata.get(&"y".to_string()), Some(&"34".to_string()));
    assert_eq!(obj.metadata.get(&"tile_hash".to_string()), Some(&hex::encode(digest)));
}

fn manifest(dev_seed: &[u8; 32], app_id: &str, types: Vec<u16>) -> AppManifest {
    let dev = derive_actor_id(KeyType::Ed25519, &ed25519_public_from_seed(dev_seed));
    let mut m = AppManifest {
        manifest_version: "1".to_string(), app_id: app_id.to_string(), name: "App".to_string(), version: "2.0".to_string(),
        min_nex_core_version: "1.0".to_string(), developer_actor_id: dev, developer_signature: vec![],
        requested_capabilities: vec![],
        registered_object_types: types.into_iter().map(|t| CustomObjectTypeRegistration {
            type_id: t, name: format!("T{}", t), schema_definition: "{}".to_string() }).collect(),
    };
    m.developer_signature = ed25519_sign(dev_seed, &m.compute_canonical_digest()).to_vec();
    m
}

#[test]
fn extension_install_sandbox_uninstall() {
    let seed = [6u8; 32];
    let pk = ed25519_public_from_seed(&seed);
    let mut host = NexExtensionHost::new([1u8; 32], MemApi::new());
    let ns = host.install_app(manifest(&seed, "app.one", vec![0x1000, 0x2000]), &pk).unwrap();
    assert_eq!(ns, host.derive_app_namespace("app.one"));
    assert_eq!(host.quotas.get(&"app.one".to_string()), Some(&AppResourceQuota::default()));
    assert_eq!(host.registered_schemas.len(), 2);
    assert_eq!(host.execute_sandbox("app.one", b"in", 10).unwrap(), b"WASM_SANDBOX_OUT:in".to_vec());
    assert_eq!(host.execute_sandbox("app.one", b"in", 50_000_001).unwrap_err(),
        "Execution fuel limit exceeded (infinite loop protection)");
    assert_eq!(host.execute_sandbox("nope", b"in", 1).unwrap_err(), "App 'nope' not installed");
    assert_eq!(host.install_app(manifest(&seed, "app.two", vec![0x2000]), &pk).unwrap_err(),
        "ObjectType 0x2000 already claimed by app 'app.one'");
    assert_eq!(host.install_app(manifest(&seed, "app.two", vec![0x0FFF]), &pk).unwrap_err(),
        "Invalid custom ObjectType 0x0FFF: outside 0x1000..0xEFFF range");
    assert_eq!(host.uninstall_app("app.one"), Ok(()));
    assert_eq!(host.registered_schemas.len(), 0);
    assert_eq!(host.uninstall_app("app.one"), Err("App not installed".to_string()));
    assert!(host.install_app(manifest(&seed, "app.two", vec![0xEFFF]), &pk).is_ok());
}

#[test]
fn extension_install_checks_the_developer() {
    let seed = [6u8; 32];
    let pk = ed25519_public_from_seed(&seed);
    let mut host = NexExtensionHost::new([1u8; 32], MemApi::new());
    let m = manifest(&seed, "app.x", vec![]);
    assert_eq!(host.install_app(manifest(&seed, "app.x", vec![]), &[0u8; 32]).unwrap_err(),
        "Developer ActorID does not match provided public key");
    let mut short = manifest(&seed, "app.x", vec![]);
    short.developer_signature.pop();
    assert_eq!(host.install_app(short, &pk).unwrap_err(), "Signature must be 64 bytes");
    let mut forged = m;
    forged.version = "9.9".to_string();
    assert!(host.install_app(forged, &pk).unwrap_err().starts_with("Manifest signature verification failed: "));
    assert_eq!(host.installed_apps.len(), 0);
}
