use nex_core::apps::platform::{NexUri, NexUriResolver, PetnameDirectory, GroupFederationEngine};
use nex_core::apps::web::{NexWebGateway, WebAppManifest, WebRtcNaspBridge};
use nex_core::identity::authority::verify_capability_chain;
use nex_core::identity::types::OP_READ;
use nex_core::keyed_map::KeyedMap;
use nex_core::object::types::{NexObject, ObjectType};
use sha2::{Digest, Sha256};

const ACTOR: [u8; 32] = [0xAB; 32];
const NS: [u8; 32] = [0x01; 32];

fn object(id: u8, path: &str, content_type: Option<&str>, payload: &[u8], tombstoned: bool) -> NexObject {
    let mut metadata: KeyedMap<String, String> = KeyedMap::new();
    metadata.insert("path".to_string(), path.to_string());
    if let Some(ct) = content_type {
        metadata.insert("content-type".to_string(), ct.to_string());
    }
    NexObject {
        object_id: [id; 32],
        object_type: ObjectType::DriveInode,
        namespace: NS,
        owner_actor_id: ACTOR,
        schema_version: 1,
        created_epoch: 1,
        created_lamport: 1,
        winning_mutation_id: [0u8; 32],
        metadata,
        payload_bytes: payload.to_vec(),
        tombstoned,
    }
}

fn store() -> KeyedMap<[u8; 32], NexObject> {
    let mut m: KeyedMap<[u8; 32], NexObject> = KeyedMap::new();
    m.insert([1u8; 32], object(1, "/photos/cat.jpg", Some("image/jpeg"), b"meow", true));
    m.insert([2u8; 32], object(2, "/photos/cat.jpg", Some("image/jpeg"), b"purr", false));
    m.insert([3u8; 32], object(3, "/notes.txt", None, b"hello", false));
    m
}

fn gateway_path(rest: &str) -> String {
    format!("/nex/{}/{}{}", hex::encode(ACTOR), hex::encode(NS), rest)
}

#[test]
fn uri_parse_reads_actor_namespace_and_path() {
    let raw = format!("nex://{}/{}/a/b", hex::encode(ACTOR), hex::encode(NS));
    let u = NexUri::parse(&raw).unwrap();
    assert_eq!(u.actor_id, ACTOR);
    assert_eq!(u.namespace, NS);
    assert_eq!(u.path, "/a/b");
    assert_eq!(u.raw, raw);
    let root = NexUri::parse(&format!("nex://{}/{}", hex::encode(ACTOR), hex::encode(NS))).unwrap();
    assert_eq!(root.path, "/");
}

#[test]
fn uri_parse_errors() {
    assert_eq!(NexUri::parse("http://x").unwrap_err(), "Invalid URI scheme: must start with nex://");
    assert_eq!(NexUri::parse("nex://abcd").unwrap_err(), "URI format must be nex://<actor_id>/<namespace>[/<path>]");
    assert!(NexUri::parse("nex://zz/00").unwrap_err().starts_with("Invalid actor_id hex: "));
    assert_eq!(NexUri::parse("nex://abcd/00").unwrap_err(), "actor_id must be 32 bytes");
    assert!(NexUri::parse(&format!("nex://{}/q", hex::encode(ACTOR))).unwrap_err().starts_with("Invalid namespace hex: "));
    assert_eq!(NexUri::parse(&format!("nex://{}/0011", hex::encode(ACTOR))).unwrap_err(), "namespace must be 32 bytes");
}

#[test]
fn resolver_skips_tombstoned_objects() {
    let objects = store();
    let u = NexUri::parse(&format!("nex://{}/{}/photos/cat.jpg", hex::encode(ACTOR), hex::encode(NS))).unwrap();
    let found = NexUriResolver::resolve_uri(&objects, &u).unwrap();
    assert_eq!(found.payload_bytes, b"purr".to_vec());
    let missing = NexUri::parse(&format!("nex://{}/{}/nothing", hex::encode(ACTOR), hex::encode(NS))).unwrap();
    assert!(NexUriResolver::resolve_uri(&objects, &missing).is_none());
}

#[test]
fn gateway_serves_resolved_objects() {
    let objects = store();
    let r = NexWebGateway::handle_http_get(&objects, &gateway_path("/photos/cat.jpg"), None);
    assert_eq!(r.status_code, 200);
    assert_eq!(r.body, b"purr".to_vec());
    assert_eq!(r.headers.get(&"content-type".to_string()), Some(&"image/jpeg".to_string()));
    assert_eq!(r.headers.get(&"content-length".to_string()), Some(&"4".to_string()));
    let etag = format!("\"{}\"", hex::encode(Sha256::digest(b"purr")));
    assert_eq!(r.headers.get(&"etag".to_string()), Some(&etag));
    assert_eq!(r.headers.get(&"cache-control".to_string()), Some(&"public, max-age=3600, immutable".to_string()));
    assert_eq!(r.headers.len(), 4);

    let plain = NexWebGateway::handle_http_get(&objects, &gateway_path("/notes.txt"), None);
    assert_eq!(plain.headers.get(&"content-type".to_string()), Some(&"application/octet-stream".to_string()));
}

#[test]
fn gateway_error_responses() {
    let objects = store();
    let r = NexWebGateway::handle_http_get(&objects, "/web/x", None);
    assert_eq!(r.status_code, 404);
    assert_eq!(r.body, b"Not Found: Path must begin with /nex/".to_vec());
    let r = NexWebGateway::handle_http_get(&objects, "/nex/abcd/00", None);
    assert_eq!(r.status_code, 400);
    assert_eq!(r.body, b"Bad Request: actor_id must be 32 bytes".to_vec());
    let r = NexWebGateway::handle_http_get(&objects, &gateway_path("/absent"), None);
    assert_eq!(r.status_code, 404);
    assert_eq!(r.body, b"Not Found: Object does not exist".to_vec());
    assert_eq!(r.headers.len(), 0);
}

#[test]
fn gateway_refuses_a_failing_capability_proof() {
    let objects = store();
    let proof = GroupFederationEngine::create_group_capability_token(&[9u8; 32], [0xCC; 32], NS, OP_READ);
    let r = NexWebGateway::handle_http_get(&objects, &gateway_path("/notes.txt"), Some(&proof));
    assert_eq!(r.status_code, 403);
    assert_eq!(r.body, b"Forbidden: Invalid Capability Proof".to_vec());
}

#[test]
fn group_capability_tokens_verify_under_their_group_root() {
    let proof = GroupFederationEngine::create_group_capability_token(&[9u8; 32], [0xCC; 32], NS, OP_READ);
    let revs: KeyedMap<[u8; 32], u64> = KeyedMap::new();
    let root = proof.token.issuer;
    assert_eq!(verify_capability_chain(&proof, OP_READ, &NS, None, 5, &revs, &root), Ok([0xCC; 32]));
    assert_eq!(proof.token.expires_at_epoch, 10000);
    assert_eq!(proof.token.delegation_depth, 1);
}

#[test]
fn data_channel_frames_round_trip() {
    let framed = WebRtcNaspBridge::frame_data_channel_message(b"hello");
    assert_eq!(framed, vec![0, 0, 0, 5, b'h', b'e', b'l', b'l', b'o']);
    assert_eq!(WebRtcNaspBridge::unframe_data_channel_message(&framed), Ok(&b"hello"[..]));
    let mut longer = framed.clone();
    longer.extend_from_slice(b"tail");
    assert_eq!(WebRtcNaspBridge::unframe_data_channel_message(&longer), Ok(&b"hello"[..]));
    assert_eq!(WebRtcNaspBridge::unframe_data_channel_message(&[0, 0]), Err("Incomplete WebRTC frame: under 4 bytes".to_string()));
    assert_eq!(WebRtcNaspBridge::unframe_data_channel_message(&[0, 0, 1, 0, 7]), Err("Incomplete WebRTC frame payload".to_string()));
}

#[test]
fn default_manifest_is_locked_down() {
    let m = WebAppManifest::default_secure("app.id", "App");
    assert_eq!(m.app_id, "app.id");
    assert_eq!(m.name, "App");
    assert_eq!(m.version, "1.0.0");
    assert_eq!(m.entrypoint, "/index.html");
    assert_eq!(m.content_security_policy,
        "default-src 'self' nex:; script-src 'self' 'wasm-unsafe-eval'; style-src 'self' 'unsafe-inline';");
}

#[test]
fn petnames_are_case_insensitive() {
    let mut d = PetnameDirectory::new();
    d.set_petname("Amy", [7u8; 32]);
    assert_eq!(d.resolve_petname("AMY"), Some([7u8; 32]));
    assert_eq!(d.resolve_petname("bob"), None);
}
