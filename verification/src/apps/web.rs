//! The web gateway: HTTP reads of objects by `nex` path, web app manifests, and
//! length-prefixed data-channel frames.

use vstd::prelude::*;
use vstd::string::StringSliceAdditionalSpecFns;
use crate::bytes::{push_all, be_bytes, be_vec, to_vec};
use crate::crypto::{sha256, sha256_spec};
use crate::keyed_map::KeyedMap;
use crate::encoding::{hex_encode, hex_lower};
use crate::text::{lemma_utf8_concat, chars_of, string_of_range, push_char, decimal_text, decimal};
use crate::object::types::{ObjectID, NexObject};
use crate::identity::types::{CapabilityProof, OP_READ};
use crate::identity::authority::{verify_capability_chain, chain_spec};
use crate::apps::platform::{NexUri, NexUriResolver, resolves, has_scheme, first_cut, uri_rest, hex_id, actor_part, namespace_part, uri_path, uri_error};
use crate::encoding::hex_bytes;

verus! {

#[derive(Debug)]
pub struct HttpResponse {
    pub status_code: u16,
    pub headers: KeyedMap<String, String>,
    pub body: Vec<u8>,
}

/// A response with no headers.
fn plain_response(status_code: u16, body: Vec<u8>) -> (r: HttpResponse)
    ensures
        r.status_code == status_code,
        r.headers@ == Map::<Seq<u8>, String>::empty(),
        r.body == body,
{
    HttpResponse { status_code, headers: KeyedMap::new(), body }
}

/// Whether `s` begins with `/nex/`.
pub open spec fn has_nex_prefix(s: Seq<char>) -> bool {
    s.len() >= 5 && s.take(5) == seq!['/', 'n', 'e', 'x', '/']
}

/// The `nex://` URI a gateway path names.
pub open spec fn gateway_uri(s: Seq<char>) -> Seq<char> {
    seq!['n', 'e', 'x', ':', '/', '/'] + s.skip(5)
}

/// Whether a gateway path parses as a `nex://` URI.
pub open spec fn gateway_parses(s: Seq<char>) -> bool {
    let u = gateway_uri(s);
    has_scheme(u) && first_cut(u) < uri_rest(u).len() && hex_id(actor_part(u)) && hex_id(namespace_part(u))
}

pub open spec fn gateway_actor(s: Seq<char>) -> Seq<u8> {
    hex_bytes(vstd::utf8::encode_utf8(actor_part(gateway_uri(s))))
}

pub open spec fn gateway_namespace(s: Seq<char>) -> Seq<u8> {
    hex_bytes(vstd::utf8::encode_utf8(namespace_part(gateway_uri(s))))
}

pub open spec fn gateway_path_key(s: Seq<char>) -> Seq<u8> {
    vstd::utf8::encode_utf8(uri_path(gateway_uri(s)))
}

/// A text's UTF-8 bytes.
pub open spec fn utf8(t: Seq<char>) -> Seq<u8> {
    vstd::utf8::encode_utf8(t)
}

/// The content type an object is served with: its `content-type` metadata, else
/// `application/octet-stream`.
pub open spec fn served_type(md: Map<Seq<u8>, String>) -> Seq<char> {
    if md.contains_key(utf8("content-type"@)) { md[utf8("content-type"@)]@ } else { "application/octet-stream"@ }
}

/// Whether `r` serves `obj`: status 200, its payload as body, and exactly the
/// content-type, content-length, etag and cache-control headers.
pub open spec fn serves(r: HttpResponse, obj: NexObject) -> bool {
    &&& r.status_code == 200
    &&& r.body@ == obj.payload_bytes@
    &&& r.headers@.dom() == set![utf8("content-type"@), utf8("content-length"@), utf8("etag"@), utf8("cache-control"@)]
    &&& r.headers@[utf8("content-type"@)]@ == served_type(obj.metadata@)
    &&& r.headers@[utf8("content-length"@)]@ == decimal(r.body@.len())
    &&& r.headers@[utf8("etag"@)]@ == seq!['"'] + hex_lower(sha256_spec(r.body@)) + seq!['"']
    &&& r.headers@[utf8("cache-control"@)]@ == "public, max-age=3600, immutable"@
}

/// The 200 response for a resolved object.
fn object_response(obj: &NexObject) -> (r: HttpResponse)
    ensures
        serves(r, *obj),
{
    proof {
        reveal_strlit("content-type");
        reveal_strlit("content-length");
        reveal_strlit("etag");
        reveal_strlit("cache-control");
        broadcast use vstd::utf8::encode_utf8_decode_utf8;
        assert(vstd::utf8::decode_utf8(utf8("content-type"@)) == "content-type"@);
        assert(vstd::utf8::decode_utf8(utf8("content-length"@)) == "content-length"@);
        assert(vstd::utf8::decode_utf8(utf8("etag"@)) == "etag"@);
        assert(vstd::utf8::decode_utf8(utf8("cache-control"@)) == "cache-control"@);
    }
    let mut headers: KeyedMap<String, String> = KeyedMap::new();
    let mime = match obj.metadata.get(&"content-type".to_string()) {
        Some(m) => m.as_str().to_string(),
        None => "application/octet-stream".to_string(),
    };
    headers.insert("content-type".to_string(), mime);
    headers.insert("content-length".to_string(), decimal_text(obj.payload_bytes.len() as u64));
    let digest = sha256(obj.payload_bytes.as_slice());
    let mut etag = String::new();
    push_char(&mut etag, '"');
    let hexed = hex_encode(digest.as_slice());
    vstd::string::StringExecFns::append(&mut etag, hexed.as_str());
    push_char(&mut etag, '"');
    headers.insert("etag".to_string(), etag);
    headers.insert("cache-control".to_string(), "public, max-age=3600, immutable".to_string());
    let r = HttpResponse { status_code: 200, headers, body: to_vec(obj.payload_bytes.as_slice()) };
    proof {
        assert(r.headers@.dom() =~= set![utf8("content-type"@), utf8("content-length"@), utf8("etag"@), utf8("cache-control"@)]);
        assert(etag@ =~= seq!['"'] + hex_lower(sha256_spec(r.body@)) + seq!['"']);
    }
    r
}

pub struct NexWebGateway;

impl NexWebGateway {
    /// Serves `GET /nex/<actor>/<namespace>/<path>` from `objects`: 404 for another
    /// prefix, 400 for a malformed URI, 403 when a presented capability proof fails
    /// for reading the namespace under the URI's actor, 404 when no live object has
    /// that path, else 200 with the payload and its type, length, tag and caching.
    pub fn handle_http_get(objects: &KeyedMap<ObjectID, NexObject>, uri_path: &str, capability_proof: Option<&CapabilityProof>) -> (r: HttpResponse)
        ensures
            ({
                let s = uri_path@;
                let denied = capability_proof matches Some(p) && chain_spec(*p, OP_READ, gateway_namespace(s), None, 0,
                    Map::empty(), gateway_actor(s), Set::empty()) is Err;
                let found = exists|i: int| 0 <= i < objects.entries_view().len()
                    && #[trigger] resolves(*objects, gateway_namespace(s), gateway_path_key(s), i);
                &&& !has_nex_prefix(s) ==> r.status_code == 404
                    && r.body@ == utf8("Not Found: Path must begin with /nex/"@) && r.headers@.dom().len() == 0
                &&& has_nex_prefix(s) && !gateway_parses(s) ==> r.status_code == 400
                    && r.body@ == utf8("Bad Request: "@ + uri_error(gateway_uri(s))) && r.headers@.dom().len() == 0
                &&& has_nex_prefix(s) && gateway_parses(s) && denied ==> r.status_code == 403
                    && r.body@ == utf8("Forbidden: Invalid Capability Proof"@) && r.headers@.dom().len() == 0
                &&& has_nex_prefix(s) && gateway_parses(s) && !denied && !found ==> r.status_code == 404
                    && r.body@ == utf8("Not Found: Object does not exist"@) && r.headers@.dom().len() == 0
                &&& has_nex_prefix(s) && gateway_parses(s) && !denied && found ==> r.status_code == 200
                    && exists|i: int| 0 <= i < objects.entries_view().len()
                        && #[trigger] resolves(*objects, gateway_namespace(s), gateway_path_key(s), i)
                        && (forall|j: int| 0 <= j < i ==> !#[trigger] resolves(*objects, gateway_namespace(s), gateway_path_key(s), j))
                        && serves(r, objects.entries_view()[i].1)
            }),
    {
        let v = chars_of(uri_path);
        let prefixed = v.len() >= 5 && v[0] == '/' && v[1] == 'n' && v[2] == 'e' && v[3] == 'x' && v[4] == '/';
        proof {
            if v@.len() >= 5 {
                if prefixed {
                    assert(v@.take(5) =~= seq!['/', 'n', 'e', 'x', '/']);
                } else if v@.take(5) == seq!['/', 'n', 'e', 'x', '/'] {
                    assert(v@.take(5)[0] == '/');
                }
            }
            reveal_strlit("Not Found: Path must begin with /nex/");
        }
        if !prefixed {
            let body = to_vec("Not Found: Path must begin with /nex/".as_bytes());
            return plain_response(404, body);
        }
        let mut nex_uri = String::new();
        push_char(&mut nex_uri, 'n');
        push_char(&mut nex_uri, 'e');
        push_char(&mut nex_uri, 'x');
        push_char(&mut nex_uri, ':');
        push_char(&mut nex_uri, '/');
        push_char(&mut nex_uri, '/');
        let tail = string_of_range(&v, 5, v.len());
        vstd::string::StringExecFns::append(&mut nex_uri, tail.as_str());
        proof {
            assert(nex_uri@ =~= gateway_uri(uri_path@));
        }
        let uri = match NexUri::parse(nex_uri.as_str()) {
            Ok(u) => u,
            Err(e) => {
                let mut msg = "Bad Request: ".to_string();
                vstd::string::StringExecFns::append(&mut msg, e.as_str());
                proof {
                    lemma_utf8_concat("Bad Request: "@, e@);
                    assert(msg@ == "Bad Request: "@ + e@);
                }
                return plain_response(400, to_vec(msg.as_str().as_bytes()));
            }
        };
        match capability_proof {
            Some(proof) => {
                let revocations: KeyedMap<[u8; 32], u64> = KeyedMap::new();
                let root_actor = uri.actor_id;
                proof {
                    assert(revocations@ =~= Map::<Seq<u8>, u64>::empty());
                }
                let checked = verify_capability_chain(proof, OP_READ, &uri.namespace, None, 0, &revocations, &root_actor);
                if checked.is_err() {
                    return plain_response(403, to_vec("Forbidden: Invalid Capability Proof".as_bytes()));
                }
            }
            None => {}
        }
        proof {
            assert(has_nex_prefix(uri_path@));
            assert(gateway_parses(uri_path@));
            assert(uri.namespace@ == gateway_namespace(uri_path@));
            assert(uri.actor_id@ == gateway_actor(uri_path@));
            assert(vstd::utf8::encode_utf8(uri.path@) == gateway_path_key(uri_path@));
            assert(!(capability_proof matches Some(p) && chain_spec(*p, OP_READ, gateway_namespace(uri_path@), None, 0,
                    Map::empty(), gateway_actor(uri_path@), Set::empty()) is Err));
        }
        match NexUriResolver::resolve_uri(objects, &uri) {
            Some(obj) => {
                let r = object_response(obj);
                proof {
                    assert(exists|i: int| 0 <= i < objects.entries_view().len()
                        && #[trigger] resolves(*objects, gateway_namespace(uri_path@), gateway_path_key(uri_path@), i));
                }
                r
            }
            None => plain_response(404, to_vec("Not Found: Object does not exist".as_bytes())),
        }
    }
}

pub struct WebAppManifest {
    pub app_id: String,
    pub name: String,
    pub version: String,
    pub entrypoint: String,
    pub content_security_policy: String,
}

impl WebAppManifest {
    /// A manifest at version 1.0.0 served from `/index.html`, under a policy that
    /// allows only the app's own origin and `nex:`, and WebAssembly compilation.
    pub fn default_secure(app_id: &str, name: &str) -> (r: Self)
        ensures
            r.app_id@ == app_id@,
            r.name@ == name@,
            r.version@ == "1.0.0"@,
            r.entrypoint@ == "/index.html"@,
            r.content_security_policy@
                == "default-src 'self' nex:; script-src 'self' 'wasm-unsafe-eval'; style-src 'self' 'unsafe-inline';"@,
    {
        WebAppManifest {
            app_id: app_id.to_string(),
            name: name.to_string(),
            version: "1.0.0".to_string(),
            entrypoint: "/index.html".to_string(),
            content_security_policy: "default-src 'self' nex:; script-src 'self' 'wasm-unsafe-eval'; style-src 'self' 'unsafe-inline';".to_string(),
        }
    }
}

/// A data-channel frame: the payload's length as four big-endian bytes (the
/// length taken modulo 2^32), then the payload.
pub open spec fn framed(payload: Seq<u8>) -> Seq<u8> {
    be_bytes(payload.len() % 0x1_0000_0000, 4) + payload
}

/// The length a frame's first four bytes announce.
pub open spec fn announced_len(data: Seq<u8>) -> nat {
    (data[0] as nat) * 0x100_0000 + (data[1] as nat) * 0x1_0000 + (data[2] as nat) * 0x100 + (data[3] as nat)
}

pub struct WebRtcNaspBridge;

impl WebRtcNaspBridge {
    pub fn frame_data_channel_message(payload: &[u8]) -> (r: Vec<u8>)
        ensures
            r@ == framed(payload@),
    {
        let n: u64 = payload.len() as u64;
        let mut framed_bytes = be_vec(n % 0x1_0000_0000, 4);
        push_all(&mut framed_bytes, payload);
        framed_bytes
    }

    /// The payload of a frame; an error when `data` holds under four bytes or
    /// fewer than its announced length after them. Bytes past the payload are
    /// ignored.
    pub fn unframe_data_channel_message(data: &[u8]) -> (r: Result<&[u8], String>)
        ensures
            data@.len() < 4 ==> (r matches Err(e) && e@ == "Incomplete WebRTC frame: under 4 bytes"@),
            data@.len() >= 4 && data@.len() < 4 + announced_len(data@)
                ==> (r matches Err(e) && e@ == "Incomplete WebRTC frame payload"@),
            data@.len() >= 4 && data@.len() >= 4 + announced_len(data@)
                ==> (r matches Ok(p) && p@ == data@.subrange(4, 4 + announced_len(data@) as int)),
    {
        if data.len() < 4 {
            return Err("Incomplete WebRTC frame: under 4 bytes".to_string());
        }
        let len: u64 = (data[0] as u64) * 0x100_0000 + (data[1] as u64) * 0x1_0000 + (data[2] as u64) * 0x100 + (data[3] as u64);
        if (data.len() as u64) < 4 + len {
            return Err("Incomplete WebRTC frame payload".to_string());
        }
        let end: usize = 4 + len as usize;
        Ok(&data[4..end])
    }
}

/// Unframing a frame gives back its payload, for any payload under 2^32 bytes.
pub proof fn lemma_unframe_framed(payload: Seq<u8>)
    requires
        payload.len() < 0x1_0000_0000,
    ensures
        framed(payload).len() >= 4,
        announced_len(framed(payload)) == payload.len(),
        framed(payload).subrange(4, 4 + announced_len(framed(payload)) as int) == payload,
{
    let n = payload.len();
    let f = framed(payload);
    let b = be_bytes(n, 4);
    assert(n % 0x1_0000_0000 == n);
    reveal_with_fuel(be_bytes, 5);
    assert(b.len() == 4);
    assert(f[0] == b[0] && f[1] == b[1] && f[2] == b[2] && f[3] == b[3]);
    assert(b[3] == (n % 256) as u8);
    assert(b[2] == ((n / 256) % 256) as u8);
    assert(b[1] == ((n / 256 / 256) % 256) as u8);
    assert(b[0] == ((n / 256 / 256 / 256) % 256) as u8);
    assert(announced_len(f) == n) by (nonlinear_arith)
        requires
            n < 0x1_0000_0000,
            f[3] == n % 256,
            f[2] == (n / 256) % 256,
            f[1] == (n / 256 / 256) % 256,
            f[0] == (n / 256 / 256 / 256) % 256,
            announced_len(f) == (f[0] as nat) * 0x100_0000 + (f[1] as nat) * 0x1_0000 + (f[2] as nat) * 0x100 + (f[3] as nat);
    assert(f.subrange(4, 4 + n as int) =~= payload);
}

} // verus!
