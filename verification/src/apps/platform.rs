//! Platform services: `nex://` URIs, petnames, group capabilities, and an offline
//! mutation outbox.

use vstd::prelude::*;
use crate::bytes::id_eq;
use crate::keyed_map::KeyedMap;
use crate::encoding::{hex_decode, hex_decode_error, hex_error_debug, hex_decodable, hex_bytes};
use crate::text::{chars_of, string_of_range, find_char, find_char_exec, push_char, to_lowercase, lowercase};
use crate::model::ActorID;
use crate::object::types::{NamespaceID, ObjectID, ObjectType, NexObject};
use crate::api::{NexAppApi, runtime_error_text};
use crate::identity::types::{CapabilityProof, CapabilityToken, KeyType};
use crate::identity::authority::{derive_actor_id, hash_capability_token, actor_id_spec};
use crate::crypto::{ed25519_public_from_seed, ed25519_sign, ed25519_public_key};

verus! {

#[derive(Debug, Clone, PartialEq, Eq)]
pub struct NexUri {
    pub raw: String,
    pub actor_id: ActorID,
    pub namespace: NamespaceID,
    pub path: String,
}

/// The parts of a `nex://` URI after the scheme: up to the first slash, up to the
/// next slash, and the rest (present only after a second slash).
pub open spec fn uri_rest(s: Seq<char>) -> Seq<char> {
    s.skip(6)
}

pub open spec fn has_scheme(s: Seq<char>) -> bool {
    s.len() >= 6 && s.take(6) == seq!['n', 'e', 'x', ':', '/', '/']
}

pub open spec fn first_cut(s: Seq<char>) -> int {
    find_char(uri_rest(s), '/', 0)
}

pub open spec fn second_cut(s: Seq<char>) -> int {
    find_char(uri_rest(s), '/', first_cut(s) + 1)
}

pub open spec fn actor_part(s: Seq<char>) -> Seq<char> {
    uri_rest(s).subrange(0, first_cut(s))
}

pub open spec fn namespace_part(s: Seq<char>) -> Seq<char> {
    uri_rest(s).subrange(first_cut(s) + 1, second_cut(s))
}

/// The path a URI names: `/` then whatever follows the second slash, or `/`.
pub open spec fn uri_path(s: Seq<char>) -> Seq<char> {
    if second_cut(s) < uri_rest(s).len() {
        seq!['/'] + uri_rest(s).skip(second_cut(s) + 1)
    } else {
        seq!['/']
    }
}

/// A 32-byte id written in hex.
pub open spec fn hex_id(part: Seq<char>) -> bool {
    hex_decodable(vstd::utf8::encode_utf8(part)) && hex_bytes(vstd::utf8::encode_utf8(part)).len() == 32
}

/// Decodes one 32-byte hex id, labelling errors with `what`.
fn decode_id(v: &Vec<char>, from: usize, to: usize, label: &str, size_msg: &str) -> (r: Result<[u8; 32], String>)
    requires
        from <= to <= v@.len(),
    ensures
        ({
            let text = vstd::utf8::encode_utf8(v@.subrange(from as int, to as int));
            &&& !hex_decodable(text) ==> (r matches Err(e) && e@ == label@ + hex_error_debug(hex_decode_error(text)))
            &&& hex_decodable(text) && hex_bytes(text).len() != 32 ==> (r matches Err(e) && e@ == size_msg@)
            &&& hex_decodable(text) && hex_bytes(text).len() == 32 ==> (r matches Ok(id) && id@ == hex_bytes(text))
        }),
{
    let part = string_of_range(v, from, to);
    match hex_decode(part.as_str()) {
        Ok(bytes) => {
            if bytes.len() != 32 {
                return Err(size_msg.to_string());
            }
            let mut id = [0u8; 32];
            let mut i: usize = 0;
            while i < 32
                invariant
                    i <= 32,
                    bytes@.len() == 32,
                    forall|j: int| 0 <= j < i ==> #[trigger] id@[j] == bytes@[j],
                decreases 32 - i,
            {
                id[i] = bytes[i];
                i = i + 1;
            }
            assert(id@ =~= bytes@);
            Ok(id)
        }
        Err(e) => {
            let mut msg = label.to_string();
            let detail = e.debug_text();
            vstd::string::StringExecFns::append(&mut msg, detail.as_str());
            Err(msg)
        }
    }
}

/// Why `s` is not a NEX URI, in the order `NexUri::parse` checks.
pub open spec fn uri_error(s: Seq<char>) -> Seq<char> {
    let actor = vstd::utf8::encode_utf8(actor_part(s));
    let ns = vstd::utf8::encode_utf8(namespace_part(s));
    if !has_scheme(s) {
        "Invalid URI scheme: must start with nex://"@
    } else if first_cut(s) >= uri_rest(s).len() {
        "URI format must be nex://<actor_id>/<namespace>[/<path>]"@
    } else if !hex_decodable(actor) {
        "Invalid actor_id hex: "@ + hex_error_debug(hex_decode_error(actor))
    } else if !hex_id(actor_part(s)) {
        "actor_id must be 32 bytes"@
    } else if !hex_decodable(ns) {
        "Invalid namespace hex: "@ + hex_error_debug(hex_decode_error(ns))
    } else {
        "namespace must be 32 bytes"@
    }
}

impl NexUri {
    /// Parses `nex://<actor hex>/<namespace hex>[/<path>]`.
    pub fn parse(uri_str: &str) -> (r: Result<Self, String>)
        ensures
            ({
                let s = uri_str@;
                let rest = uri_rest(s);
                let shaped = has_scheme(s) && first_cut(s) < rest.len();
                &&& !has_scheme(s) ==> (r matches Err(e) && e@ == "Invalid URI scheme: must start with nex://"@)
                &&& has_scheme(s) && first_cut(s) >= rest.len() ==> (r matches Err(e)
                    && e@ == "URI format must be nex://<actor_id>/<namespace>[/<path>]"@)
                &&& shaped && !hex_decodable(vstd::utf8::encode_utf8(actor_part(s))) ==> (r matches Err(e)
                    && e@ == "Invalid actor_id hex: "@ + hex_error_debug(hex_decode_error(vstd::utf8::encode_utf8(actor_part(s)))))
                &&& shaped && hex_decodable(vstd::utf8::encode_utf8(actor_part(s))) && !hex_id(actor_part(s))
                    ==> (r matches Err(e) && e@ == "actor_id must be 32 bytes"@)
                &&& shaped && hex_id(actor_part(s)) && !hex_decodable(vstd::utf8::encode_utf8(namespace_part(s)))
                    ==> (r matches Err(e) && e@ == "Invalid namespace hex: "@
                        + hex_error_debug(hex_decode_error(vstd::utf8::encode_utf8(namespace_part(s)))))
                &&& shaped && hex_id(actor_part(s)) && hex_decodable(vstd::utf8::encode_utf8(namespace_part(s)))
                    && !hex_id(namespace_part(s)) ==> (r matches Err(e) && e@ == "namespace must be 32 bytes"@)
                &&& r matches Err(e) ==> e@ == uri_error(s)
                &&& r is Ok <==> shaped && hex_id(actor_part(s)) && hex_id(namespace_part(s))
                &&& r matches Ok(u) ==> {
                    &&& u.raw@ == s
                    &&& u.actor_id@ == hex_bytes(vstd::utf8::encode_utf8(actor_part(s)))
                    &&& u.namespace@ == hex_bytes(vstd::utf8::encode_utf8(namespace_part(s)))
                    &&& u.path@ == uri_path(s)
                }
            }),
    {
        let v = chars_of(uri_str);
        proof {
            reveal_strlit("nex://");
        }
        let scheme = v.len() >= 6 && v[0] == 'n' && v[1] == 'e' && v[2] == 'x' && v[3] == ':' && v[4] == '/' && v[5] == '/';
        proof {
            if v@.len() >= 6 {
                if scheme {
                    assert(v@.take(6) =~= seq!['n', 'e', 'x', ':', '/', '/']);
                } else {
                    assert(v@.take(6) != seq!['n', 'e', 'x', ':', '/', '/']) by {
                        if v@.take(6) == seq!['n', 'e', 'x', ':', '/', '/'] {
                            assert(v@.take(6)[0] == 'n');
                        }
                    }
                }
            }
        }
        if !scheme {
            return Err("Invalid URI scheme: must start with nex://".to_owned());
        }
        let ghost rest = uri_rest(v@);
        let i1 = find_char_exec(&v, '/', 6);
        proof {
            lemma_find_shift(v@, '/', 6, 0);
        }
        if i1 >= v.len() {
            return Err("URI format must be nex://<actor_id>/<namespace>[/<path>]".to_owned());
        }
        let i2 = find_char_exec(&v, '/', i1 + 1);
        proof {
            lemma_find_shift(v@, '/', 6, i1 - 6 + 1);
            assert(v@.subrange(6, i1 as int) =~= rest.subrange(0, i1 - 6));
            assert(v@.subrange(i1 + 1, i2 as int) =~= rest.subrange(i1 - 6 + 1, i2 - 6));
        }
        let actor_id = match decode_id(&v, 6, i1, "Invalid actor_id hex: ", "actor_id must be 32 bytes") {
            Ok(id) => id,
            Err(e) => {
                return Err(e);
            }
        };
        let namespace = match decode_id(&v, i1 + 1, i2, "Invalid namespace hex: ", "namespace must be 32 bytes") {
            Ok(id) => id,
            Err(e) => {
                return Err(e);
            }
        };
        let mut path = String::new();
        push_char(&mut path, '/');
        if i2 < v.len() {
            let tail = string_of_range(&v, i2 + 1, v.len());
            vstd::string::StringExecFns::append(&mut path, tail.as_str());
            assert(v@.subrange(i2 + 1, v@.len() as int) =~= rest.skip(i2 - 6 + 1));
        }
        Ok(NexUri { raw: uri_str.to_string(), actor_id, namespace, path })
    }
}

/// Searching from `6 + k` in `s` finds `6 +` what searching from `k` in `s.skip(6)` finds.
proof fn lemma_find_shift(s: Seq<char>, c: char, off: int, k: int)
    requires
        0 <= off <= s.len(),
        0 <= k,
    ensures
        find_char(s, c, off + k) == off + find_char(s.skip(off), c, k),
    decreases s.len() - off - k,
{
    if off + k < s.len() {
        assert(s.skip(off)[k] == s[off + k]);
        if s[off + k] != c {
            lemma_find_shift(s, c, off, k + 1);
        }
    }
}

pub struct NexUriResolver;

/// The first live object in `namespace` whose `path` metadata is `path`.
pub open spec fn resolves(objects: KeyedMap<ObjectID, NexObject>, namespace: Seq<u8>, path: Seq<u8>, i: int) -> bool {
    let o = objects.entries_view()[i].1;
    o.namespace@ == namespace && !o.tombstoned && o.metadata@.contains_key(vstd::utf8::encode_utf8(seq!['p', 'a', 't', 'h']))
        && vstd::utf8::encode_utf8(o.metadata@[vstd::utf8::encode_utf8(seq!['p', 'a', 't', 'h'])]@) == path
}

impl NexUriResolver {
    /// The first object, in id order, that lives in the URI's namespace, is not
    /// tombstoned, and carries the URI's path as its `path` metadata.
    pub fn resolve_uri<'a>(objects: &'a KeyedMap<ObjectID, NexObject>, uri: &NexUri) -> (r: Option<&'a NexObject>)
        ensures
            ({
                let n = objects.entries_view().len();
                let p = vstd::utf8::encode_utf8(uri.path@);
                &&& r is None <==> forall|i: int| 0 <= i < n ==> !#[trigger] resolves(*objects, uri.namespace@, p, i)
                &&& r matches Some(o) ==> exists|i: int| 0 <= i < n && #[trigger] resolves(*objects, uri.namespace@, p, i)
                    && *o == objects.entries_view()[i].1
                    && forall|j: int| 0 <= j < i ==> !#[trigger] resolves(*objects, uri.namespace@, p, j)
            }),
    {
        let n = objects.len();
        let key = "path".to_string();
        proof {
            reveal_strlit("path");
            assert("path"@ =~= seq!['p', 'a', 't', 'h']);
        }
        let ghost p = vstd::utf8::encode_utf8(uri.path@);
        let mut i: usize = 0;
        while i < n
            invariant
                i <= n,
                n == objects.entries_view().len(),
                key@ == seq!['p', 'a', 't', 'h'],
                p == vstd::utf8::encode_utf8(uri.path@),
                forall|j: int| 0 <= j < i ==> !#[trigger] resolves(*objects, uri.namespace@, p, j),
            decreases n - i,
        {
            let obj = objects.value_at(i);
            if id_eq(&obj.namespace, &uri.namespace) && !obj.tombstoned {
                match obj.metadata.get(&key) {
                    Some(val) => {
                        if crate::bytes::bytes_eq(val.as_str().as_bytes(), uri.path.as_str().as_bytes()) {
                            assert(resolves(*objects, uri.namespace@, p, i as int));
                            return Some(obj);
                        }
                    }
                    None => {}
                }
            }
            i = i + 1;
        }
        None
    }
}

pub struct GroupFederationEngine;

impl GroupFederationEngine {
    /// A capability, signed by the group's root key (given by its seed), granting
    /// `member_actor` the operations `allowed_ops` on the group's namespace for
    /// epochs 0 to 10000, one delegation level deep.
    pub fn create_group_capability_token(group_root_seed: &[u8; 32], member_actor: ActorID, group_id: [u8; 32], allowed_ops: u32)
        -> (r: CapabilityProof)
        ensures
            r.token.issuer@ == actor_id_spec(1, ed25519_public_key(group_root_seed@)),
            r.token.subject == member_actor,
            r.token.namespace == group_id,
            r.token.object_id is None,
            r.token.allowed_operations == allowed_ops,
            r.token.delegation_depth == 1,
            r.token.not_before_epoch == 0,
            r.token.expires_at_epoch == 10000,
            r.token.parent_token_hash is None,
            r.issuer_pubkey matches Some(pk) && pk@ == ed25519_public_key(group_root_seed@),
            r.parent_proof is None,
            crate::crypto::ed25519_verifies(ed25519_public_key(group_root_seed@),
                crate::identity::types::token_hash_spec(r.token), r.signature@),
    {
        let root_pub = ed25519_public_from_seed(group_root_seed);
        let issuer = derive_actor_id(KeyType::Ed25519, root_pub.as_slice());
        let token = CapabilityToken {
            issuer,
            subject: member_actor,
            namespace: group_id,
            object_id: None,
            allowed_operations: allowed_ops,
            delegation_depth: 1,
            not_before_epoch: 0,
            expires_at_epoch: 10000,
            parent_token_hash: None,
        };
        let token_hash = hash_capability_token(&token);
        let signature = ed25519_sign(group_root_seed, token_hash.as_slice());
        CapabilityProof {
            token,
            issuer_pubkey: Some(crate::bytes::to_vec(root_pub.as_slice())),
            parent_proof: None,
            signature: crate::bytes::to_vec(signature.as_slice()),
        }
    }
}

#[derive(Debug)]
pub struct PetnameDirectory {
    pub aliases: KeyedMap<String, ActorID>,
}

impl PetnameDirectory {
    pub fn new() -> (r: Self)
        ensures
            r.aliases@ == Map::<Seq<u8>, ActorID>::empty(),
    {
        PetnameDirectory { aliases: KeyedMap::new() }
    }

    /// Files `actor` under the lowercase form of `alias`.
    pub fn set_petname(&mut self, alias: &str, actor: ActorID)
        ensures
            final(self).aliases@ == old(self).aliases@.insert(vstd::utf8::encode_utf8(lowercase(alias@)), actor),
    {
        self.aliases.insert(to_lowercase(alias), actor);
    }

    /// The actor filed under the lowercase form of `alias`.
    pub fn resolve_petname(&self, alias: &str) -> (r: Option<ActorID>)
        ensures
            ({
                let k = vstd::utf8::encode_utf8(lowercase(alias@));
                &&& self.aliases@.contains_key(k) ==> r == Some(self.aliases@[k])
                &&& !self.aliases@.contains_key(k) ==> r is None
            }),
    {
        match self.aliases.get(&to_lowercase(alias)) {
            Some(a) => Some(*a),
            None => None,
        }
    }
}

#[derive(Debug)]
pub struct QueuedMutation {
    pub id: u64,
    pub namespace: NamespaceID,
    pub obj_type: ObjectType,
    pub metadata: KeyedMap<String, String>,
    pub payload: Vec<u8>,
}

#[derive(Debug)]
pub struct OfflineOutbox {
    pub queue: Vec<QueuedMutation>,
    pub next_id: u64,
}

impl OfflineOutbox {
    pub fn new() -> (r: Self)
        ensures
            r.queue@.len() == 0,
            r.next_id == 1,
    {
        OfflineOutbox { queue: Vec::new(), next_id: 1 }
    }

    /// Queues a mutation under the next id and returns that id.
    pub fn enqueue(&mut self, namespace: NamespaceID, obj_type: ObjectType, metadata: KeyedMap<String, String>, payload: Vec<u8>) -> (r: u64)
        requires
            old(self).next_id < u64::MAX,
        ensures
            r == old(self).next_id,
            final(self).next_id == old(self).next_id + 1,
            final(self).queue@ == old(self).queue@.push(QueuedMutation { id: r, namespace, obj_type, metadata, payload }),
    {
        let id = self.next_id;
        self.next_id = self.next_id + 1;
        self.queue.push(QueuedMutation { id, namespace, obj_type, metadata, payload });
        id
    }

    /// Creates every queued mutation on `node`, in order; the queue is emptied either
    /// way, and the first failure ends the flush with its error text.
    pub fn flush_to_node<A: NexAppApi>(&mut self, node: &mut A) -> (r: Result<usize, String>)
        ensures
            final(self).queue@.len() == 0,
            final(self).next_id == old(self).next_id,
            r matches Ok(n) ==> n == old(self).queue@.len(),
    {
        let count = self.queue.len();
        let mut items: Vec<QueuedMutation> = Vec::new();
        std::mem::swap(&mut items, &mut self.queue);
        while items.len() > 0
            invariant
                self.queue@.len() == 0,
                self.next_id == old(self).next_id,
            decreases items@.len(),
        {
            let item = items.remove(0);
            match node.create_object(item.namespace, item.obj_type, item.metadata, item.payload) {
                Ok(_) => {}
                Err(e) => {
                    return Err(runtime_error_text(&e));
                }
            }
        }
        Ok(count)
    }
}

} // verus!
