use nex_core::api::{runtime_error_text, CoreRuntimeError, NexAppApi};
use nex_core::crypto::{ed25519_public_from_seed, ed25519_sign};
use nex_core::encoding::{hex_decode, HexError};
use nex_core::identity::authority::derive_actor_id;
use nex_core::identity::types::{AuthorizationError, CapabilityProof, CapabilityToken, KeyType, OP_ALL, OP_READ};
use nex_core::ipc::{NexRpcDispatcher, NodeFacts, RpcRequest, RpcResult, RpcStep};
use nex_core::keyed_map::KeyedMap;
use nex_core::model::Checkpoint;
use nex_core::object::types::{NamespaceID, NexObject, ObjectID, ObjectType};
use nex_core::product::desktop_app::DesktopAppSession;
use nex_core::product::home::{InterfaceComplexity, SpaceType};
use nex_core::product::ingest::IngestPlan;
use nex_core::product::inspector::UniversalObjectInspector;
use nex_core::product::panels::LocalFileIngestor;
use nex_core::product::view::{FeedItem, HomeScreen, TabView};
use nex_core::text::bytes_debug_text;
use sha2::{Digest, Sha256};

struct OfflineNode;

impl NexAppApi for OfflineNode {
    fn create_object(&mut self, _: NamespaceID, _: ObjectType, _: KeyedMap<String, String>, _: Vec<u8>) -> Result<ObjectID, CoreRuntimeError> {
        Err(CoreRuntimeError::StorageError("offline".to_string()))
    }
    fn mutate_object(&mut self, _: ObjectID, _: Option<KeyedMap<String, String>>, _: Option<Vec<u8>>, _: Option<CapabilityProof>) -> Result<[u8; 32], CoreRuntimeError> {
        Err(CoreRuntimeError::StorageError("offline".to_string()))
    }
    fn read_object(&self, id: &ObjectID) -> Result<NexObject, CoreRuntimeError> {
        Err(CoreRuntimeError::ObjectNotFound(*id))
    }
    fn delete_object(&mut self, _: ObjectID, _: Option<CapabilityProof>) -> Result<[u8; 32], CoreRuntimeError> {
        Err(CoreRuntimeError::StorageError("offline".to_string()))
    }
    fn delegate_capability(&mut self, _: [u8; 32], _: NamespaceID, _: Option<ObjectID>, _: u32, _: (u64, u64)) -> Result<CapabilityProof, CoreRuntimeError> {
        Err(CoreRuntimeError::StorageError("offline".to_string()))
    }
    fn sync_now(&mut self) -> Result<Checkpoint, CoreRuntimeError> {
        Err(CoreRuntimeError::StorageError("offline".to_string()))
    }
}

fn object(id: u8, namespace: [u8; 32], meta: &[(&str, &str)], payload: Vec<u8>) -> NexObject {
    let mut metadata = KeyedMap::new();
    for (k, v) in meta {
        metadata.insert(k.to_string(), v.to_string());
    }
    NexObject {
        object_id: [id; 32],
        object_type: ObjectType::PhotoMedia,
        namespace,
        owner_actor_id: [2u8; 32],
        schema_version: 3,
        created_epoch: 40,
        created_lamport: 7,
        winning_mutation_id: [0u8; 32],
        metadata,
        payload_bytes: payload,
        tombstoned: false,
    }
}

fn request(method: &str, version: &str, params: &[(&str, &str)]) -> RpcRequest {
    let mut p = KeyedMap::new();
    for (k, v) in params {
        p.insert(k.to_string(), v.to_string());
    }
    RpcRequest { jsonrpc: version.to_string(), id: 9, method: method.to_string(), params: p, metadata: KeyedMap::new() }
}

#[test]
fn hex_errors_are_reported_as_the_hex_crate_writes_them() {
    assert_eq!(hex_decode("abc").unwrap_err(), HexError::OddLength);
    let e = hex_decode("0z").unwrap_err();
    assert_eq!(e, HexError::InvalidHexCharacter { c: 'z', index: 1 });
    assert_eq!(e.display_text(), hex::decode("0z").unwrap_err().to_string());
    assert_eq!(e.debug_text(), format!("{:?}", hex::decode("0z").unwrap_err()));
    assert_eq!(HexError::OddLength.display_text(), "Odd number of digits");
}

#[test]
fn uri_and_gateway_errors_carry_the_hex_error() {
    let e = nex_core::apps::platform::NexUri::parse("nex://zz/00").unwrap_err();
    assert_eq!(e, "Invalid actor_id hex: InvalidHexCharacter { c: 'z', index: 0 }");
    let objects: KeyedMap<ObjectID, NexObject> = KeyedMap::new();
    let r = nex_core::apps::web::NexWebGateway::handle_http_get(&objects, "/nex/zz/00/x", None);
    assert_eq!(r.status_code, 400);
    assert_eq!(r.body, b"Bad Request: Invalid actor_id hex: InvalidHexCharacter { c: 'z', index: 0 }".to_vec());
}

#[test]
fn runtime_errors_print_as_their_debug_form() {
    let e = CoreRuntimeError::StorageError("disk \"full\"".to_string());
    assert_eq!(runtime_error_text(&e), format!("{:?}", e));
    let e = CoreRuntimeError::ObjectNotFound([1u8; 32]);
    assert_eq!(runtime_error_text(&e), format!("{:?}", e));
    assert_eq!(runtime_error_text(&CoreRuntimeError::ObjectTombstoned), "ObjectTombstoned");
    assert_eq!(bytes_debug_text(&[1, 20, 255]), "[1, 20, 255]");
    assert_eq!(bytes_debug_text(&[]), "[]");
}

#[test]
fn authorization_errors_print_as_their_debug_form() {
    let e = AuthorizationError::ExpiredCapability { current_epoch: 101, expires_at: 100 };
    assert_eq!(e.debug_text(), format!("{:?}", e));
    let e = AuthorizationError::ParentAttenuationViolation("depth".to_string());
    assert_eq!(e.debug_text(), format!("{:?}", e));
    let e = AuthorizationError::RevokedCapability { token_hash: [3u8; 32], revocation_epoch: 5 };
    assert_eq!(e.debug_text(), format!("{:?}", e));
}

fn root_proof(seed: &[u8; 32], ns: [u8; 32]) -> ([u8; 32], CapabilityProof) {
    let pk = ed25519_public_from_seed(seed);
    let root = derive_actor_id(KeyType::Ed25519, &pk);
    let t = CapabilityToken {
        issuer: root,
        subject: [0xA1; 32],
        namespace: ns,
        object_id: None,
        allowed_operations: OP_ALL,
        delegation_depth: 1,
        not_before_epoch: 10,
        expires_at_epoch: 100,
        parent_token_hash: None,
    };
    let sig = ed25519_sign(seed, &t.hash());
    (root, CapabilityProof { token: t, issuer_pubkey: Some(pk.to_vec()), parent_proof: None, signature: sig.to_vec() })
}

#[test]
fn ingest_refuses_a_capability_for_another_namespace() {
    let (root, proof) = root_proof(&[1u8; 32], [0x33; 32]);
    let r = LocalFileIngestor::plan_ingest(SpaceType::Family, &[0x44; 32], "cat.jpg", b"meow".to_vec(), &proof, &root, 50);
    assert_eq!(r.unwrap_err(), "Capability verification failed during ingestion: NamespaceMismatch");
}

#[test]
fn ingest_plans_small_photos_inline() {
    let ns = [0x33; 32];
    let (root, proof) = root_proof(&[1u8; 32], ns);
    match LocalFileIngestor::plan_ingest(SpaceType::Family, &ns, "cat.jpg", b"meow".to_vec(), &proof, &root, 50).unwrap() {
        IngestPlan::Inline { namespace, object_type, metadata, payload } => {
            assert_eq!(namespace, ns);
            assert_eq!(object_type, ObjectType::PhotoMedia);
            assert_eq!(metadata.get(&"space".to_string()).unwrap(), "Family");
            assert_eq!(metadata.get(&"byte_size".to_string()).unwrap(), "4");
            assert_eq!(metadata.get(&"mime_type".to_string()).unwrap(), "image/jpeg");
            assert_eq!(metadata.len(), 5);
            assert_eq!(payload, b"meow".to_vec());
        }
        _ => panic!("expected an inline plan"),
    }
}

#[test]
fn ingest_files_large_documents_with_their_chunks() {
    let ns = [0x33; 32];
    let (root, proof) = root_proof(&[1u8; 32], ns);
    let payload: Vec<u8> = (0..(2 * 1024 * 1024 + 5)).map(|i| (i % 251) as u8).collect();
    match LocalFileIngestor::plan_ingest(SpaceType::Work, &ns, "report.pdf", payload.clone(), &proof, &root, 50).unwrap() {
        IngestPlan::Filed(o) => {
            assert_eq!(o.object_type, ObjectType::DriveInode);
            assert_eq!(o.metadata.get(&"chunk_count".to_string()).unwrap(), "3");
            let mut digests = Vec::new();
            for chunk in payload.chunks(1024 * 1024) {
                let mut h = Sha256::new();
                h.update(b"NEX/CAS_CHUNK/v1");
                h.update(chunk);
                let d: [u8; 32] = h.finalize().into();
                digests.push(hex::encode(d));
            }
            assert_eq!(o.metadata.get(&"cas_chunks".to_string()).unwrap(), &digests.join(","));
            let mut h = Sha256::new();
            h.update(b"NEX/OBJECT_ID/v1");
            h.update(ns);
            h.update(b"report.pdf");
            h.update(&payload);
            let id: [u8; 32] = h.finalize().into();
            assert_eq!(o.object_id, id);
            assert_eq!((o.created_epoch, o.created_lamport, o.schema_version), (50, 1, 1));
        }
        _ => panic!("expected a filed object"),
    }
}

#[test]
fn inspector_reports_family_objects() {
    let mut objects = KeyedMap::new();
    objects.insert([5u8; 32], object(5, [0x10; 32], &[("title", "Beach"), ("space", "Family")], vec![1u8; 1536]));
    let v = UniversalObjectInspector::inspect(&objects, &[2u8; 32], &[5u8; 32], InterfaceComplexity::Advanced).unwrap();
    assert_eq!(v.title, "Beach");
    assert_eq!(v.owner_name, "Chris (You)");
    assert_eq!(v.byte_size_formatted, "1.5 KB");
    assert_eq!(v.status_badge, "CAS Inode Verified | Schema v3");
    assert_eq!(v.replica_count, 3);
    assert_eq!(v.physical_residency.len(), 3);
    assert_eq!(v.verification_checks[4].proof_detail, "Namespace 0x10101010 \u{2022} Delegation depth: 0");
    assert!(v.advanced_dag_info.is_some());
    let missing = UniversalObjectInspector::inspect(&objects, &[2u8; 32], &[6u8; 32], InterfaceComplexity::Simple).unwrap_err();
    assert_eq!(missing, format!("Object {} not found in sovereign state", hex::encode([6u8; 32])));
}

#[test]
fn inspector_sizes_round_as_float_formatting_does() {
    for n in [0usize, 1, 51, 52, 256, 768, 1024, 1536, 2816, 10_000, 1_048_576] {
        let mut objects = KeyedMap::new();
        objects.insert([5u8; 32], object(5, [0x10; 32], &[], vec![0u8; n]));
        let v = UniversalObjectInspector::inspect(&objects, &[9u8; 32], &[5u8; 32], InterfaceComplexity::Simple).unwrap();
        assert_eq!(v.byte_size_formatted, format!("{:.1} KB", n as f64 / 1024.0));
        assert_eq!(v.title, "Untitled Sovereign Object");
        assert_eq!(v.owner_name, "Amy");
        assert_eq!(v.replica_count, 1);
    }
}

#[test]
fn desktop_renders_the_home_tab_and_drawer() {
    let s = DesktopAppSession::new();
    let home = HomeScreen {
        space_title: "Family".to_string(),
        sync_status_label: "Synced".to_string(),
        identity_protection_label: "Protected".to_string(),
        total_items_in_space: 1,
        feed_items: vec![FeedItem { title: "Beach".to_string(), status_badge: "ok".to_string() }],
    };
    let text = s.render_view_string(&TabView::Home(home), None);
    let bar = "=".repeat(80);
    let expected = format!("{bar}\n  NEX DESKTOP  |  Space: Family  |  Level: Standard  |  Status: NEX Desktop Ready\n{bar}\n  [1] Home  |  [2] Photos  |  [3] Drive  |  [4] People  |  [5] Devices  |  [6] Settings\n{}\n\n\u{1F3E0} HOME \u{2014} Family\n   Sync Status : Synced\n   Protection  : Protected\n   Total Items : 1\n\n   Recent Feed:\n   [1] Beach (ok)\n{bar}\n", "-".repeat(80));
    assert_eq!(text, expected);
    let mut objects = KeyedMap::new();
    objects.insert([5u8; 32], object(5, [0x10; 32], &[("title", "Beach")], vec![1u8; 10]));
    let insp = UniversalObjectInspector::inspect(&objects, &[2u8; 32], &[5u8; 32], InterfaceComplexity::Standard).unwrap();
    let empty = HomeScreen {
        space_title: "Family".to_string(),
        sync_status_label: "Synced".to_string(),
        identity_protection_label: "Protected".to_string(),
        total_items_in_space: 0,
        feed_items: vec![],
    };
    let text = s.render_view_string(&TabView::Home(empty), Some(&insp));
    assert!(text.contains("   Replicas   : 1 stored on [\"This PC\", \"Amy's Pixel 9\"]\n"));
    assert!(text.contains("   Type       : PhotoMedia  |  Space: Personal  |  Size: 0.0 KB\n"));
    assert!(text.contains("(No items in this Space yet."));
}

#[test]
fn rpc_dispatch_routes_and_codes() {
    let mut node = OfflineNode;
    let facts = NodeFacts { actor_id: [7u8; 32], objects_count: 2, dag_count: 3 };
    let mut objects = KeyedMap::new();
    objects.insert([5u8; 32], object(5, [0xD1; 32], &[("path", "/docs/a.txt")], vec![1, 2]));
    objects.insert([6u8; 32], object(6, [0xD1; 32], &[("path", "/pics/b.png")], vec![3]));
    match NexRpcDispatcher::dispatch_node(&mut node, &facts, &objects, request("nex_ping", "1.0", &[])) {
        RpcStep::Answered(a) => assert_eq!(a.error.unwrap().code, -32600),
        _ => panic!("expected an answer"),
    }
    match NexRpcDispatcher::dispatch_node(&mut node, &facts, &objects, request("nex_nope", "2.0", &[])) {
        RpcStep::Answered(a) => assert_eq!(a.error.unwrap().message, "Method 'nex_nope' not found"),
        _ => panic!("expected an answer"),
    }
    match NexRpcDispatcher::dispatch_node(&mut node, &facts, &objects, request("nex_ping", "2.0", &[])) {
        RpcStep::Answered(a) => match a.result.unwrap() {
            RpcResult::Pong { actor_id } => assert_eq!(actor_id, hex::encode([7u8; 32])),
            _ => panic!("expected a pong"),
        },
        _ => panic!("expected an answer"),
    }
    match NexRpcDispatcher::dispatch_node(&mut node, &facts, &objects, request("nex_driveList", "2.0", &[("path", "docs")])) {
        RpcStep::Answered(a) => match a.result.unwrap() {
            RpcResult::DriveList { entries } => {
                assert_eq!(entries.len(), 1);
                assert_eq!(entries[0].path, "/docs/a.txt");
                assert_eq!(entries[0].size_bytes, 2);
            }
            _ => panic!("expected a listing"),
        },
        _ => panic!("expected an answer"),
    }
    match NexRpcDispatcher::dispatch_node(&mut node, &facts, &objects, request("nex_drivePut", "2.0", &[("payload", "0a0b")])) {
        RpcStep::Answered(a) => {
            let e = a.error.unwrap();
            assert_eq!(e.code, -32010);
            assert_eq!(e.message, "StorageError(\"offline\")");
        }
        _ => panic!("expected an answer"),
    }
    match NexRpcDispatcher::dispatch_node(&mut node, &facts, &objects, request("nex_gcCas", "2.0", &[])) {
        RpcStep::CollectGarbage { id } => assert_eq!(id, 9),
        _ => panic!("expected a sweep"),
    }
    let done = NexRpcDispatcher::finish_gc(9, 4);
    match done.result.unwrap() {
        RpcResult::Reclaimed { reclaimed_chunks } => assert_eq!(reclaimed_chunks, 4),
        _ => panic!("expected a count"),
    }
    let _ = OP_READ;
}
