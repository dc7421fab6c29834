//! Turning a local file's bytes into a NEX object: the capability check, the
//! object's kind and metadata, and, past the inline limit, its chunk list and id.

use vstd::prelude::*;
use crate::bytes::push_all;
use crate::crypto::{hash_tagged, sha256_spec, tagged};
use crate::encoding::{hex_encode, hex_lower};
use crate::keyed_map::KeyedMap;
use crate::identity::types::{ActorID, CapabilityProof, OP_WRITE, auth_failure_debug};
use crate::identity::authority::{verify_capability_chain, chain_spec};
use crate::object::types::{NamespaceID, ObjectType, NexObject};
use crate::product::home::{SpaceType, space_name};
use crate::product::panels::{MAX_INLINE_PAYLOAD_SIZE, LocalFileIngestor};
use crate::text::{chars_of, decimal, decimal_text, push_char};

verus! {

/// The size of the chunks a large file is listed by.
pub const INGEST_CHUNK_SIZE: usize = 1048576;

/// Whether `s` ends with `suffix`.
pub open spec fn ends_with(s: Seq<char>, suffix: Seq<char>) -> bool {
    suffix.len() <= s.len() && s.subrange(s.len() - suffix.len(), s.len() as int) == suffix
}

/// Whether a file name has a photo extension.
pub open spec fn is_photo_name(name: Seq<char>) -> bool {
    ends_with(name, ".jpg"@) || ends_with(name, ".jpeg"@) || ends_with(name, ".png"@) || ends_with(name, ".webp"@)
}

/// Chunk `i` of `p`: bytes `i * 1 MiB` up to the next boundary or the end.
pub open spec fn ingest_chunk(p: Seq<u8>, i: int) -> Seq<u8> {
    let end = (i + 1) * INGEST_CHUNK_SIZE;
    p.subrange(i * INGEST_CHUNK_SIZE, if end < p.len() { end } else { p.len() as int })
}

/// How many 1 MiB chunks `n` bytes make.
pub open spec fn ingest_chunk_count(n: int) -> int {
    (n + INGEST_CHUNK_SIZE - 1) / (INGEST_CHUNK_SIZE as int)
}

/// Chunk `i`'s digest in hex.
pub open spec fn chunk_hex(p: Seq<u8>, i: int) -> Seq<char> {
    hex_lower(sha256_spec(tagged("NEX/CAS_CHUNK/v1", ingest_chunk(p, i))))
}

/// The first `n` chunk digests in hex, separated by commas.
pub open spec fn chunk_list(p: Seq<u8>, n: int) -> Seq<char>
    decreases n,
{
    if n <= 0 {
        Seq::empty()
    } else if n == 1 {
        chunk_hex(p, 0)
    } else {
        chunk_list(p, n - 1) + seq![','] + chunk_hex(p, n - 1)
    }
}

/// The id of a filed object: SHA-256 over its tag, namespace, file name and bytes.
pub open spec fn ingest_object_id(ns: Seq<u8>, filename: Seq<char>, payload: Seq<u8>) -> Seq<u8> {
    sha256_spec(tagged("NEX/OBJECT_ID/v1", ns + vstd::utf8::encode_utf8(filename) + payload))
}

pub open spec fn key(s: Seq<char>) -> Seq<u8> {
    vstd::utf8::encode_utf8(s)
}

/// The metadata an ingested file carries.
pub open spec fn ingest_metadata(md: Map<Seq<u8>, String>, space: SpaceType, filename: Seq<char>, payload: Seq<u8>) -> bool {
    let photo = is_photo_name(filename);
    let chunked = payload.len() > MAX_INLINE_PAYLOAD_SIZE;
    &&& md.dom() == set![key("title"@), key("filename"@), key("space"@), key("byte_size"@)]
        + (if photo { set![key("mime_type"@)] } else { Set::empty() })
        + (if chunked { set![key("cas_chunks"@), key("chunk_count"@)] } else { Set::empty() })
    &&& md[key("title"@)]@ == filename
    &&& md[key("filename"@)]@ == filename
    &&& md[key("space"@)]@ == space_name(space)
    &&& md[key("byte_size"@)]@ == decimal(payload.len())
    &&& photo ==> md[key("mime_type"@)]@ == "image/jpeg"@
    &&& chunked ==> md[key("cas_chunks"@)]@ == chunk_list(payload, ingest_chunk_count(payload.len() as int))
    &&& chunked ==> md[key("chunk_count"@)]@ == decimal(ingest_chunk_count(payload.len() as int) as nat)
}

/// What ingesting a file comes to.
#[derive(Debug)]
pub enum IngestPlan {
    /// Past the inline limit: the object filed directly under its derived id.
    Filed(NexObject),
    /// Within the limit: what is handed on to create the object inline.
    Inline { namespace: NamespaceID, object_type: ObjectType, metadata: KeyedMap<String, String>, payload: Vec<u8> },
}

/// Whether `v` ends with the characters of `suffix`.
fn ends_with_exec(v: &Vec<char>, suffix: &str) -> (r: bool)
    ensures
        r == ends_with(v@, suffix@),
{
    let s = chars_of(suffix);
    if s.len() > v.len() {
        return false;
    }
    let off = v.len() - s.len();
    let mut i: usize = 0;
    while i < s.len()
        invariant
            i <= s@.len(),
            s@ == suffix@,
            off + s@.len() == v@.len(),
            v@.len() == v.len(),
            forall|j: int| 0 <= j < i ==> v@[off + j] == s@[j],
        decreases s@.len() - i,
    {
        if v[off + i] != s[i] {
            assert(v@.subrange(off as int, v@.len() as int)[i as int] != s@[i as int]);
            return false;
        }
        i = i + 1;
    }
    assert(v@.subrange(off as int, v@.len() as int) =~= s@);
    true
}

/// The comma-separated hex digests of the 1 MiB chunks of `payload`, and how many.
fn chunk_digest_list(payload: &[u8]) -> (r: (String, usize))
    requires
        payload@.len() > 0,
    ensures
        r.0@ == chunk_list(payload@, ingest_chunk_count(payload@.len() as int)),
        r.1 == ingest_chunk_count(payload@.len() as int),
{
    let len = payload.len();
    let mut out = String::new();
    let mut start: usize = 0;
    let mut i: usize = 0;
    while start < len
        invariant
            len == payload@.len(),
            len > 0,
            start == (if i * INGEST_CHUNK_SIZE < len { i * INGEST_CHUNK_SIZE } else { len as int }),
            i == 0 || (i - 1) * INGEST_CHUNK_SIZE < len,
            i <= len,
            out@ == chunk_list(payload@, i as int),
        decreases len - start,
    {
        let end = if len - start > INGEST_CHUNK_SIZE { start + INGEST_CHUNK_SIZE } else { len };
        let chunk = vstd::slice::slice_subrange(payload, start, end);
        let d = hash_tagged("NEX/CAS_CHUNK/v1", chunk);
        let h = hex_encode(d.as_slice());
        proof {
            assert(start == i * INGEST_CHUNK_SIZE);
            assert(chunk@ == ingest_chunk(payload@, i as int));
        }
        if i > 0 {
            push_char(&mut out, ',');
        }
        vstd::string::StringExecFns::append(&mut out, h.as_str());
        proof {
            if i == 0 {
                assert(out@ =~= chunk_list(payload@, 1));
            } else {
                assert(out@ =~= chunk_list(payload@, i + 1));
            }
        }
        i = i + 1;
        start = end;
    }
    proof {
        let m = INGEST_CHUNK_SIZE as int;
        let n = len as int;
        let k = i as int;
        assert(k * m >= n);
        assert(k >= 1);
        assert((k - 1) * m < n);
        assert((n + m - 1) / m == k) by (nonlinear_arith)
            requires k * m >= n, (k - 1) * m < n, m == 1048576, n > 0;
    }
    (out, i)
}

impl LocalFileIngestor {
    /// Plans the ingestion of a file named `filename` with bytes `payload` into the
    /// namespace `target_namespace` of `space`: the capability proof must allow writing
    /// there for `actor_id` at `current_epoch` (no revocations); the object is a photo
    /// by its extension, else a drive file; its metadata holds title, file name, space,
    /// size, a JPEG type for photos and, past 2 MiB, the chunk digests and their count.
    /// Past 2 MiB the object itself is returned, under its derived id.
    pub fn plan_ingest(
        space: SpaceType,
        target_namespace: &NamespaceID,
        filename: &str,
        payload: Vec<u8>,
        proof: &CapabilityProof,
        actor_id: &ActorID,
        current_epoch: u64,
    ) -> (r: Result<IngestPlan, String>)
        ensures
            ({
                let auth = chain_spec(*proof, OP_WRITE, target_namespace@, None, current_epoch, Map::empty(),
                    actor_id@, Set::empty());
                let photo = is_photo_name(filename@);
                let kind = if photo { ObjectType::PhotoMedia } else { ObjectType::DriveInode };
                &&& auth matches Err(f) ==> (r matches Err(e)
                    && e@ == "Capability verification failed during ingestion: "@ + auth_failure_debug(f))
                &&& auth is Ok && payload@.len() > MAX_INLINE_PAYLOAD_SIZE ==> (r matches Ok(IngestPlan::Filed(o)) && {
                    &&& o.object_id@ == ingest_object_id(target_namespace@, filename@, payload@)
                    &&& o.object_type == kind
                    &&& o.namespace == *target_namespace
                    &&& o.owner_actor_id == *actor_id
                    &&& o.schema_version == 1
                    &&& o.created_epoch == current_epoch
                    &&& o.created_lamport == 1
                    &&& o.winning_mutation_id@ == Seq::new(32, |i: int| 0u8)
                    &&& ingest_metadata(o.metadata@, space, filename@, payload@)
                    &&& o.payload_bytes@ == payload@
                    &&& !o.tombstoned
                })
                &&& auth is Ok && payload@.len() <= MAX_INLINE_PAYLOAD_SIZE ==> (r matches Ok(IngestPlan::Inline {
                        namespace, object_type, metadata, payload: p }) && {
                    &&& namespace == *target_namespace
                    &&& object_type == kind
                    &&& ingest_metadata(metadata@, space, filename@, payload@)
                    &&& p@ == payload@
                })
            }),
    {
        let crl: KeyedMap<[u8; 32], u64> = KeyedMap::new();
        proof {
            assert(crl@ =~= Map::<Seq<u8>, u64>::empty());
        }
        match verify_capability_chain(proof, OP_WRITE, target_namespace, None, current_epoch, &crl, actor_id) {
            Ok(_) => {}
            Err(e) => {
                let mut msg = "Capability verification failed during ingestion: ".to_string();
                let d = e.debug_text();
                vstd::string::StringExecFns::append(&mut msg, d.as_str());
                return Err(msg);
            }
        }
        let name = chars_of(filename);
        let photo = ends_with_exec(&name, ".jpg") || ends_with_exec(&name, ".jpeg") || ends_with_exec(&name, ".png")
            || ends_with_exec(&name, ".webp");
        let object_type = if photo { ObjectType::PhotoMedia } else { ObjectType::DriveInode };
        proof {
            reveal_strlit("title");
            reveal_strlit("filename");
            reveal_strlit("space");
            reveal_strlit("byte_size");
            reveal_strlit("mime_type");
            reveal_strlit("cas_chunks");
            reveal_strlit("chunk_count");
            broadcast use vstd::utf8::encode_utf8_decode_utf8;
            assert(vstd::utf8::decode_utf8(key("title"@)) == "title"@);
            assert(vstd::utf8::decode_utf8(key("filename"@)) == "filename"@);
            assert(vstd::utf8::decode_utf8(key("space"@)) == "space"@);
            assert(vstd::utf8::decode_utf8(key("byte_size"@)) == "byte_size"@);
            assert(vstd::utf8::decode_utf8(key("mime_type"@)) == "mime_type"@);
            assert(vstd::utf8::decode_utf8(key("cas_chunks"@)) == "cas_chunks"@);
            assert(vstd::utf8::decode_utf8(key("chunk_count"@)) == "chunk_count"@);
        }
        let mut metadata: KeyedMap<String, String> = KeyedMap::new();
        metadata.insert("title".to_string(), filename.to_string());
        metadata.insert("filename".to_string(), filename.to_string());
        metadata.insert("space".to_string(), space.name().to_string());
        metadata.insert("byte_size".to_string(), decimal_text(payload.len() as u64));
        if photo {
            metadata.insert("mime_type".to_string(), "image/jpeg".to_string());
        }
        if payload.len() > MAX_INLINE_PAYLOAD_SIZE {
            let (list, count) = chunk_digest_list(payload.as_slice());
            metadata.insert("cas_chunks".to_string(), list);
            metadata.insert("chunk_count".to_string(), decimal_text(count as u64));
            proof {
                assert(metadata@.dom() =~= set![key("title"@), key("filename"@), key("space"@), key("byte_size"@)]
                    + (if photo { set![key("mime_type"@)] } else { Set::empty() })
                    + set![key("cas_chunks"@), key("chunk_count"@)]);
            }
            let mut buf: Vec<u8> = Vec::new();
            push_all(&mut buf, target_namespace.as_slice());
            push_all(&mut buf, filename.as_bytes());
            push_all(&mut buf, payload.as_slice());
            let object_id = hash_tagged("NEX/OBJECT_ID/v1", buf.as_slice());
            let winning_mutation_id = [0u8; 32];
            assert(winning_mutation_id@ =~= Seq::new(32, |i: int| 0u8));
            Ok(IngestPlan::Filed(NexObject {
                object_id,
                object_type,
                namespace: *target_namespace,
                owner_actor_id: *actor_id,
                schema_version: 1,
                created_epoch: current_epoch,
                created_lamport: 1,
                winning_mutation_id,
                metadata,
                payload_bytes: payload,
                tombstoned: false,
            }))
        } else {
            proof {
                assert(metadata@.dom() =~= set![key("title"@), key("filename"@), key("space"@), key("byte_size"@)]
                    + (if photo { set![key("mime_type"@)] } else { Set::empty() })
                    + Set::empty());
            }
            Ok(IngestPlan::Inline { namespace: *target_namespace, object_type, metadata, payload })
        }
    }
}

} // verus!
