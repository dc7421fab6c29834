//! Drive: canonical virtual paths, a content-addressed chunk store with a Merkle
//! root per file, and folder listings.

use vstd::prelude::*;
use vstd::slice::slice_subrange;
use crate::bytes::{push_all, push_le, le_bytes, id_eq, to_vec};
use crate::crypto::{sha256, sha256_spec, tagged};
use crate::keyed_map::{KeyedMap, MapKey};
use crate::object::types::{ObjectID, NamespaceID, ObjectType, object_type_code};
use crate::text::{normalize_path_chars, normalized_path, path_segments, path_segments_exec, join_path, join_slash, last_piece, split_on, has_traversal, has_double_dot, string_of, decimal_text, bytes_debug, bytes_debug_text};
use crate::api::{NexAppApi, CoreRuntimeError, node_reply};
use crate::identity::types::CapabilityProof;

verus! {

pub const CHUNK_SIZE_2MB: usize = 2097152;

/// The canonical form of a virtual path: backslashes read as slashes, empty and `.`
/// segments dropped, one leading slash.
pub fn normalize_vpath(vpath: &str) -> (r: String)
    ensures
        r@ == normalized_path(vpath@),
{
    normalize_path_chars(vpath)
}

/// The bytes hashed for a drive object's id.
pub open spec fn drive_object_preimage(namespace: Seq<u8>, vpath: Seq<char>) -> Seq<u8> {
    tagged("NEX/DRIVE/INODE/v1", namespace + vstd::utf8::encode_utf8(normalized_path(vpath)))
}

/// SHA-256 of the inode domain, the namespace and the normalized path's UTF-8 bytes.
pub fn derive_drive_object_id(namespace: &NamespaceID, vpath: &str) -> (r: ObjectID)
    ensures
        r@ == sha256_spec(drive_object_preimage(namespace@, vpath@)),
{
    let norm = normalize_vpath(vpath);
    let mut buf: Vec<u8> = Vec::new();
    push_all(&mut buf, "NEX/DRIVE/INODE/v1".as_bytes());
    push_all(&mut buf, namespace.as_slice());
    push_all(&mut buf, norm.as_str().as_bytes());
    assert(buf@ =~= drive_object_preimage(namespace@, vpath@));
    sha256(buf.as_slice())
}

#[derive(Debug, Clone, PartialEq, Eq)]
pub struct DriveInode {
    pub path: String,
    pub name: String,
    pub size_bytes: u64,
    pub mime_type: String,
    pub content_root: [u8; 32],
    pub chunk_digests: Vec<[u8; 32]>,
    pub modified_epoch: u64,
}

/// What a record codec turns inodes into and back.
pub trait DriveCodec {
    fn encode_inode(&self, inode: &DriveInode) -> Result<Vec<u8>, String>;
    fn decode_inode(&self, bytes: &[u8]) -> Result<DriveInode, String>;
}

/// Whether `out` is the concatenation of the stored chunks `ds` lists, all of them present.
pub open spec fn assembles(chunks: Map<Seq<u8>, Vec<u8>>, ds: Seq<[u8; 32]>, out: Seq<u8>) -> bool {
    &&& forall|i: int| 0 <= i < ds.len() ==> chunks.contains_key(#[trigger] ds[i]@)
    &&& out == ds.fold_left(Seq::<u8>::empty(), |acc: Seq<u8>, d: [u8; 32]| acc + chunks[d@]@)
}

#[derive(Debug)]
pub struct DriveFolder {
    pub path: String,
    pub name: String,
    pub entries: KeyedMap<String, (ObjectID, ObjectType)>,
}

#[derive(Debug, Clone, PartialEq, Eq)]
pub struct DriveFileEntry {
    pub path: String,
    pub content_hash: [u8; 32],
    pub size_bytes: u64,
    pub mime_type: String,
    pub epoch: u64,
}

/// The digest under which the chunk store files `data`.
pub open spec fn cas_digest(data: Seq<u8>) -> Seq<u8> {
    sha256_spec(tagged("NEX/CAS_CHUNK/v1", data))
}

/// The store's chunks as plain byte strings.
pub open spec fn chunk_views(m: Map<Seq<u8>, Vec<u8>>) -> Map<Seq<u8>, Seq<u8>> {
    m.map_values(|v: Vec<u8>| v@)
}

/// The store after putting `data`: a chunk already filed under its digest is kept.
pub open spec fn put_view(m: Map<Seq<u8>, Seq<u8>>, data: Seq<u8>) -> Map<Seq<u8>, Seq<u8>> {
    let d = cas_digest(data);
    if m.contains_key(d) { m } else { m.insert(d, data) }
}

/// Chunk `i` of a file cut into 2 MiB pieces.
pub open spec fn file_chunk(content: Seq<u8>, i: int) -> Seq<u8> {
    let start = i * CHUNK_SIZE_2MB;
    let end = if (i + 1) * CHUNK_SIZE_2MB < content.len() { (i + 1) * CHUNK_SIZE_2MB } else { content.len() as int };
    content.subrange(start, end)
}

/// The number of 2 MiB pieces of a non-empty file.
pub open spec fn file_chunk_count(len: int) -> int {
    (len + CHUNK_SIZE_2MB as int - 1) / (CHUNK_SIZE_2MB as int)
}

/// The store after putting the first `k` chunks of `content`.
pub open spec fn puts(m: Map<Seq<u8>, Seq<u8>>, content: Seq<u8>, k: int) -> Map<Seq<u8>, Seq<u8>>
    decreases k,
{
    if k <= 0 { m } else { put_view(puts(m, content, k - 1), file_chunk(content, k - 1)) }
}

/// An inner Merkle node: the tree domain followed by both children.
pub open spec fn tree_node(a: Seq<u8>, b: Seq<u8>) -> Seq<u8> {
    sha256_spec(tagged("NEX/CAS_TREE/v1", a + b))
}

/// The next layer up: neighbours paired and hashed, an odd last one carried up.
pub open spec fn next_layer(l: Seq<Seq<u8>>) -> Seq<Seq<u8>> {
    Seq::new(((l.len() + 1) / 2) as nat, |i: int| if 2 * i + 1 < l.len() { tree_node(l[2 * i], l[2 * i + 1]) } else { l[2 * i] })
}

/// The Merkle root of a digest list (32 zero bytes for none).
pub open spec fn merkle_root_of(l: Seq<Seq<u8>>) -> Seq<u8>
    decreases l.len(),
{
    if l.len() == 0 {
        Seq::new(32, |i: int| 0u8)
    } else if l.len() == 1 {
        l[0]
    } else {
        merkle_root_of(next_layer(l))
    }
}

/// `2` to the power `k`.
pub open spec fn pow2n(k: nat) -> nat
    decreases k,
{
    if k == 0 { 1 } else { 2 * pow2n((k - 1) as nat) }
}

/// Pairing an even-length prefix never mixes it with what follows.
proof fn lemma_next_layer_append(l1: Seq<Seq<u8>>, l2: Seq<Seq<u8>>)
    requires
        l1.len() % 2 == 0,
    ensures
        next_layer(l1 + l2) == next_layer(l1) + next_layer(l2),
{
    let a = next_layer(l1 + l2);
    let b = next_layer(l1) + next_layer(l2);
    assert(a.len() == b.len());
    assert forall|i: int| 0 <= i < a.len() implies #[trigger] a[i] == b[i] by {
        if i < l1.len() / 2 {
            assert((l1 + l2)[2 * i] == l1[2 * i]);
            assert((l1 + l2)[2 * i + 1] == l1[2 * i + 1]);
        } else {
            let j = i - l1.len() / 2;
            assert((l1 + l2)[2 * i] == l2[2 * j]);
            if 2 * j + 1 < l2.len() {
                assert((l1 + l2)[2 * i + 1] == l2[2 * j + 1]);
            }
        }
    }
    assert(a =~= b);
}

/// A power-of-two layer pairs down to half its length.
proof fn lemma_next_layer_len(l: Seq<Seq<u8>>, k: nat)
    requires
        k >= 1,
        l.len() == pow2n(k),
    ensures
        next_layer(l).len() == pow2n((k - 1) as nat),
{
}

/// The file Merkle tree is a balanced binary tree: the root over `2^k + 2^k`
/// digests is the node over the roots of the two halves.
pub proof fn lemma_merkle_root_halves(l1: Seq<Seq<u8>>, l2: Seq<Seq<u8>>, k: nat)
    requires
        l1.len() == pow2n(k),
        l2.len() == pow2n(k),
    ensures
        merkle_root_of(l1 + l2) == tree_node(merkle_root_of(l1), merkle_root_of(l2)),
    decreases k,
{
    if k == 0 {
        let l = l1 + l2;
        assert(next_layer(l) =~= seq![tree_node(l1[0], l2[0])]);
        assert(merkle_root_of(l) == merkle_root_of(next_layer(l)));
    } else {
        lemma_next_layer_append(l1, l2);
        lemma_next_layer_len(l1, k);
        lemma_next_layer_len(l2, k);
        lemma_merkle_root_halves(next_layer(l1), next_layer(l2), (k - 1) as nat);
        assert(pow2n(k) >= 2) by {
            lemma_pow2n_pos((k - 1) as nat);
        }
    }
}

proof fn lemma_pow2n_pos(k: nat)
    ensures
        pow2n(k) >= 1,
    decreases k,
{
    if k > 0 {
        lemma_pow2n_pos((k - 1) as nat);
    }
}

/// An odd digest after a power-of-two run is carried up unpaired until the top:
/// the root over `2^k` digests and one more `x` is the node over their root and `x`.
pub proof fn lemma_merkle_root_carry(l: Seq<Seq<u8>>, x: Seq<u8>, k: nat)
    requires
        l.len() == pow2n(k),
    ensures
        merkle_root_of(l.push(x)) == tree_node(merkle_root_of(l), x),
    decreases k,
{
    if k == 0 {
        assert(next_layer(l.push(x)) =~= seq![tree_node(l[0], x)]);
        assert(merkle_root_of(seq![tree_node(l[0], x)]) == tree_node(l[0], x));
        assert(merkle_root_of(l.push(x)) == merkle_root_of(next_layer(l.push(x))));
    } else {
        assert(l.push(x) =~= l + seq![x]);
        lemma_next_layer_append(l, seq![x]);
        assert(next_layer(seq![x]) =~= seq![x]);
        lemma_next_layer_len(l, k);
        assert(next_layer(l) + seq![x] =~= next_layer(l).push(x));
        lemma_merkle_root_carry(next_layer(l), x, (k - 1) as nat);
        assert(pow2n(k) >= 2) by {
            lemma_pow2n_pos((k - 1) as nat);
        }
        assert(next_layer(l.push(x)) == next_layer(l).push(x));
        assert(merkle_root_of(l.push(x)) == merkle_root_of(next_layer(l.push(x))));
        assert(merkle_root_of(l) == merkle_root_of(next_layer(l)));
    }
}

/// The file Merkle tree splits at the largest power of two below its size: for
/// `2^k < n <= 2^(k+1)` digests, the root is the node over the root of the first
/// `2^k` digests and the root of the rest. With the root of one digest being that
/// digest, this fixes the root of every non-empty list.
pub proof fn lemma_merkle_root_split(l: Seq<Seq<u8>>, k: nat)
    requires
        pow2n(k) < l.len() <= 2 * pow2n(k),
    ensures
        merkle_root_of(l) == tree_node(merkle_root_of(l.take(pow2n(k) as int)), merkle_root_of(l.skip(pow2n(k) as int))),
    decreases k,
{
    let h = pow2n(k) as int;
    let first = l.take(h);
    let rest = l.skip(h);
    assert(l =~= first + rest);
    if k == 0 {
        assert(next_layer(l) =~= seq![tree_node(l[0], l[1])]);
        assert(merkle_root_of(seq![tree_node(l[0], l[1])]) == tree_node(l[0], l[1]));
        assert(merkle_root_of(first) == l[0]);
        assert(merkle_root_of(rest) == l[1]);
    } else {
        lemma_pow2n_pos((k - 1) as nat);
        lemma_next_layer_append(first, rest);
        lemma_next_layer_len(first, k);
        let nf = next_layer(first);
        let nr = next_layer(rest);
        let nl = next_layer(l);
        assert(nl == nf + nr);
        assert(nl.take(pow2n((k - 1) as nat) as int) =~= nf);
        assert(nl.skip(pow2n((k - 1) as nat) as int) =~= nr);
        lemma_merkle_root_split(nl, (k - 1) as nat);
        assert(merkle_root_of(l) == merkle_root_of(nl));
        assert(merkle_root_of(first) == merkle_root_of(nf));
        if rest.len() >= 2 {
            assert(merkle_root_of(rest) == merkle_root_of(nr));
        } else {
            assert(nr =~= rest);
        }
    }
}

/// Four digests `a, b, c, d` give the root `node(node(a, b), node(c, d))`.
pub proof fn lemma_merkle_root_four(a: Seq<u8>, b: Seq<u8>, c: Seq<u8>, d: Seq<u8>)
    ensures
        merkle_root_of(seq![a, b, c, d]) == tree_node(tree_node(a, b), tree_node(c, d)),
{
    reveal_with_fuel(pow2n, 2);
    lemma_merkle_root_halves(seq![a], seq![b], 0);
    lemma_merkle_root_halves(seq![c], seq![d], 0);
    lemma_merkle_root_halves(seq![a, b], seq![c, d], 1);
    assert(seq![a] + seq![b] =~= seq![a, b]);
    assert(seq![c] + seq![d] =~= seq![c, d]);
    assert(seq![a, b] + seq![c, d] =~= seq![a, b, c, d]);
}

/// The total bytes held for the first `k` keys.
pub open spec fn bytes_held(m: Map<Seq<u8>, Vec<u8>>, ks: Seq<Seq<u8>>, k: int) -> int
    decreases k,
{
    if k <= 0 { 0 } else { bytes_held(m, ks, k - 1) + m[ks[k - 1]]@.len() }
}

/// The error for a digest the store does not hold: "Missing chunk: " and the
/// digest's `Debug` text.
pub open spec fn missing_chunk_text(d: Seq<u8>) -> Seq<char> {
    "Missing chunk: "@ + bytes_debug(d)
}

/// Writes `missing_chunk_text` for `d`.
fn missing_chunk_message(d: &[u8; 32]) -> (r: String)
    ensures
        r@ == missing_chunk_text(d@),
{
    let mut r = "Missing chunk: ".to_string();
    let t = bytes_debug_text(d.as_slice());
    vstd::string::StringExecFns::append(&mut r, t.as_str());
    r
}

#[derive(Debug)]
pub struct CasChunkStore {
    pub chunks: KeyedMap<[u8; 32], Vec<u8>>,
}

impl CasChunkStore {
    pub fn new() -> (r: Self)
        ensures
            r.chunks@ == Map::<Seq<u8>, Vec<u8>>::empty(),
    {
        CasChunkStore { chunks: KeyedMap::new() }
    }

    /// The digest of a chunk: SHA-256 of the chunk domain and the data.
    pub fn chunk_digest(data: &[u8]) -> (r: [u8; 32])
        ensures
            r@ == cas_digest(data@),
    {
        let mut buf: Vec<u8> = Vec::new();
        push_all(&mut buf, "NEX/CAS_CHUNK/v1".as_bytes());
        push_all(&mut buf, data);
        sha256(buf.as_slice())
    }

    /// Files `data` under its digest (keeping a chunk already there) and returns the digest.
    pub fn put_chunk(&mut self, data: &[u8]) -> (r: [u8; 32])
        ensures
            r@ == cas_digest(data@),
            chunk_views(final(self).chunks@) == put_view(chunk_views(old(self).chunks@), data@),
    {
        let digest = Self::chunk_digest(data);
        if !self.chunks.contains_key(&digest) {
            self.chunks.insert(digest, to_vec(data));
            assert(chunk_views(self.chunks@) =~= put_view(chunk_views(old(self).chunks@), data@));
        }
        digest
    }

    pub fn get_chunk(&self, digest: &[u8; 32]) -> (r: Option<&Vec<u8>>)
        ensures
            match r {
                Some(v) => self.chunks@.contains_key(digest@) && *v == self.chunks@[digest@],
                None => !self.chunks@.contains_key(digest@),
            },
    {
        self.chunks.get(digest)
    }

    pub fn has_chunk(&self, digest: &[u8; 32]) -> (r: bool)
        ensures
            r == self.chunks@.contains_key(digest@),
    {
        self.chunks.contains_key(digest)
    }

    /// Stores a file as 2 MiB chunks and returns its content root and chunk digests;
    /// an empty file is one empty chunk whose digest is also the root.
    pub fn store_file(&mut self, content: &[u8]) -> (r: ([u8; 32], Vec<[u8; 32]>))
        ensures
            content@.len() == 0 ==> {
                &&& r.0@ == cas_digest(Seq::empty())
                &&& r.1@ == seq![r.0]
                &&& chunk_views(final(self).chunks@) == put_view(chunk_views(old(self).chunks@), Seq::empty())
            },
            content@.len() > 0 ==> {
                let n = file_chunk_count(content@.len() as int);
                &&& r.1@.len() == n
                &&& forall|i: int| 0 <= i < n ==> (#[trigger] r.1@[i])@ == cas_digest(file_chunk(content@, i))
                &&& r.0@ == merkle_root_of(r.1@.map_values(|d: [u8; 32]| d@))
                &&& chunk_views(final(self).chunks@) == puts(chunk_views(old(self).chunks@), content@, n)
            },
    {
        if content.len() == 0 {
            let empty: Vec<u8> = Vec::new();
            let digest = self.put_chunk(empty.as_slice());
            let mut v: Vec<[u8; 32]> = Vec::new();
            v.push(digest);
            assert(v@ =~= seq![digest]);
            return (digest, v);
        }
        let len = content.len();
        let ghost n = file_chunk_count(len as int);
        let mut digests: Vec<[u8; 32]> = Vec::new();
        let mut start: usize = 0;
        let mut i: usize = 0;
        while start < len
            invariant
                len == content@.len(),
                len > 0,
                start <= len,
                start < len ==> start == i * CHUNK_SIZE_2MB,
                i <= n,
                start < len ==> i < n,
                start >= len ==> i == n,
                n == file_chunk_count(len as int),
                digests@.len() == i,
                forall|x: int| 0 <= x < i ==> (#[trigger] digests@[x])@ == cas_digest(file_chunk(content@, x)),
                chunk_views(self.chunks@) == puts(chunk_views(old(self).chunks@), content@, i as int),
            decreases len - start,
        {
            let end = if len - start > CHUNK_SIZE_2MB { start + CHUNK_SIZE_2MB } else { len };
            let piece = slice_subrange(content, start, end);
            proof {
                assert((i + 1) * CHUNK_SIZE_2MB == start + CHUNK_SIZE_2MB);
                assert(piece@ == file_chunk(content@, i as int));
            }
            let d = self.put_chunk(piece);
            digests.push(d);
            proof {
                let ghost ii = i as int;
                assert(n == (len + CHUNK_SIZE_2MB as int - 1) / (CHUNK_SIZE_2MB as int));
                if end < len {
                    assert((ii + 1) * CHUNK_SIZE_2MB < len);
                    assert(ii + 1 < n) by (nonlinear_arith)
                        requires
                            (ii + 1) * CHUNK_SIZE_2MB < len,
                            n == (len + CHUNK_SIZE_2MB as int - 1) / (CHUNK_SIZE_2MB as int),
                    ;
                } else {
                    assert(ii + 1 == n) by (nonlinear_arith)
                        requires
                            ii * CHUNK_SIZE_2MB < len,
                            (ii + 1) * CHUNK_SIZE_2MB >= len,
                            n == (len + CHUNK_SIZE_2MB as int - 1) / (CHUNK_SIZE_2MB as int),
                    ;
                }
            }
            start = end;
            i = i + 1;
        }
        let root = Self::compute_merkle_root(digests.as_slice());
        (root, digests)
    }

    /// The chunks laid end to end; the first missing digest is an error.
    pub fn assemble_file(&self, digests: &[[u8; 32]]) -> (r: Result<Vec<u8>, String>)
        ensures
            r is Ok <==> forall|i: int| 0 <= i < digests@.len() ==> self.chunks@.contains_key(#[trigger] digests@[i]@),
            r matches Ok(out) ==> out@ == digests@.fold_left(Seq::<u8>::empty(),
                |acc: Seq<u8>, d: [u8; 32]| acc + self.chunks@[d@]@),
            r matches Err(e) ==> exists|i: int| 0 <= i < digests@.len() && !self.chunks@.contains_key(#[trigger] digests@[i]@)
                && (forall|j: int| 0 <= j < i ==> self.chunks@.contains_key(#[trigger] digests@[j]@))
                && e@ == missing_chunk_text(digests@[i]@),
    {
        let mut out: Vec<u8> = Vec::new();
        let mut i: usize = 0;
        while i < digests.len()
            invariant
                i <= digests@.len(),
                forall|j: int| 0 <= j < i ==> self.chunks@.contains_key(#[trigger] digests@[j]@),
                out@ == digests@.take(i as int).fold_left(Seq::<u8>::empty(),
                    |acc: Seq<u8>, d: [u8; 32]| acc + self.chunks@[d@]@),
            decreases digests@.len() - i,
        {
            match self.get_chunk(&digests[i]) {
                Some(c) => {
                    proof {
                        let t = digests@.take(i + 1);
                        assert(t.drop_last() =~= digests@.take(i as int));
                        t.lemma_fold_left_split(Seq::<u8>::empty(), |acc: Seq<u8>, d: [u8; 32]| acc + self.chunks@[d@]@, i as int);
                    }
                    push_all(&mut out, c.as_slice());
                    proof {
                        let f = |acc: Seq<u8>, d: [u8; 32]| acc + self.chunks@[d@]@;
                        let t = digests@.take(i + 1);
                        assert(t.subrange(0, i as int) =~= digests@.take(i as int));
                        assert(t.subrange(i as int, i + 1) =~= seq![digests@[i as int]]);
                        reveal_with_fuel(Seq::fold_left, 2);
                        assert(seq![digests@[i as int]].fold_left(out@.subrange(0, out@.len() - c@.len()), f)
                            == f(seq![digests@[i as int]].drop_last().fold_left(out@.subrange(0, out@.len() - c@.len()), f), digests@[i as int]));
                    }
                    i = i + 1;
                }
                None => {
                    return Err(missing_chunk_message(&digests[i]));
                }
            }
        }
        assert(digests@.take(digests@.len() as int) =~= digests@);
        Ok(out)
    }

    /// Whether the chunk filed under `digest` hashes to it.
    pub fn verify_chunk(&self, digest: &[u8; 32]) -> (r: bool)
        ensures
            r == (self.chunks@.contains_key(digest@) && cas_digest(self.chunks@[digest@]@) == digest@),
    {
        match self.chunks.get(digest) {
            Some(data) => {
                let calculated = Self::chunk_digest(data.as_slice());
                id_eq(&calculated, digest)
            }
            None => false,
        }
    }

    /// Replaces the chunk under `digest` with data that hashes to it.
    pub fn heal_chunk(&mut self, digest: [u8; 32], fresh_valid_data: &[u8]) -> (r: Result<(), String>)
        ensures
            cas_digest(fresh_valid_data@) != digest@ ==> (r matches Err(e)
                && e@ == "HealDataDigestMismatch: candidate data does not match target digest"@
                && final(self).chunks@ == old(self).chunks@),
            cas_digest(fresh_valid_data@) == digest@ ==> (r is Ok
                && chunk_views(final(self).chunks@) == chunk_views(old(self).chunks@).insert(digest@, fresh_valid_data@)),
    {
        let calculated = Self::chunk_digest(fresh_valid_data);
        if !id_eq(&calculated, &digest) {
            return Err("HealDataDigestMismatch: candidate data does not match target digest".to_owned());
        }
        self.chunks.insert(digest, to_vec(fresh_valid_data));
        assert(chunk_views(self.chunks@) =~= chunk_views(old(self).chunks@).insert(digest@, fresh_valid_data@));
        Ok(())
    }

    /// Drops every chunk not listed in `active_references`; returns how many went.
    pub fn sweep_unreferenced(&mut self, active_references: &KeyedMap<[u8; 32], ()>) -> (r: usize)
        ensures
            forall|k: Seq<u8>| #[trigger] final(self).chunks@.contains_key(k)
                == (old(self).chunks@.contains_key(k) && active_references@.contains_key(k)),
            forall|k: Seq<u8>| #[trigger] final(self).chunks@.contains_key(k) ==> final(self).chunks@[k] == old(self).chunks@[k],
            r == old(self).chunks.keys().filter(|k: Seq<u8>| !active_references@.contains_key(k)).len(),
    {
        let keys = self.chunks.key_list();
        let _n0 = self.chunks.len();
        let ghost ks = self.chunks.keys();
        let ghost pred = |k: Seq<u8>| !active_references@.contains_key(k);
        let mut gone: Vec<[u8; 32]> = Vec::new();
        let mut i: usize = 0;
        while i < keys.len()
            invariant
                i <= keys@.len(),
                keys@.map_values(|k: [u8; 32]| k@) == ks,
                pred == (|k: Seq<u8>| !active_references@.contains_key(k)),
                gone@.map_values(|a: [u8; 32]| a@) == ks.take(i as int).filter(pred),
            decreases keys@.len() - i,
        {
            proof {
                assert(ks.take(i + 1) =~= ks.take(i as int).push(ks[i as int]));
                ks.take(i as int).lemma_filter_push(ks[i as int], pred);
                assert(keys@[i as int]@ == ks[i as int]);
            }
            if !active_references.contains_key(&keys[i]) {
                gone.push(keys[i]);
                assert(gone@.map_values(|a: [u8; 32]| a@) =~= ks.take(i as int).filter(pred).push(ks[i as int]));
            }
            i = i + 1;
        }
        proof {
            assert(ks.take(keys@.len() as int) =~= ks);
        }
        let ghost m = self.chunks@;
        let count = gone.len();
        let _n = self.chunks.len();
        self.chunks.remove_all(&gone);
        proof {
            let ids = gone@.map_values(|a: [u8; 32]| a@);
            assert(gone@.map_values(|x: [u8; 32]| x.key_view()) =~= ids);
            assert forall|k: Seq<u8>| ids.contains(k) == (m.contains_key(k) && pred(k)) by {
                if ids.contains(k) {
                    ks.lemma_filter_contains_rev(pred, k);
                }
                if m.contains_key(k) && pred(k) {
                    assert(ks.contains(k));
                    let w = choose|w: int| 0 <= w < ks.len() && ks[w] == k;
                    ks.lemma_filter_contains(pred, w);
                }
            }
        }
        count
    }

    /// The total bytes stored.
    pub open spec fn total_bytes(&self) -> int {
        bytes_held(self.chunks@, self.chunks.keys(), self.chunks.keys().len() as int)
    }

    /// Refuses `incoming_bytes` more when the store would exceed `quota_bytes`.
    pub fn check_storage_quota(&self, quota_bytes: usize, incoming_bytes: usize) -> (r: Result<(), String>)
        requires
            self.total_bytes() + incoming_bytes <= usize::MAX,
        ensures
            self.total_bytes() + incoming_bytes > quota_bytes ==> (r matches Err(e)
                && e@ == "StorageExhausted: capacity ceiling exceeded"@),
            self.total_bytes() + incoming_bytes <= quota_bytes ==> r is Ok,
    {
        let n = self.chunks.len();
        let ghost ks = self.chunks.keys();
        let mut current: usize = 0;
        let mut i: usize = 0;
        while i < n
            invariant
                i <= n,
                n == ks.len(),
                ks == self.chunks.keys(),
                current == bytes_held(self.chunks@, ks, i as int),
                bytes_held(self.chunks@, ks, n as int) + incoming_bytes <= usize::MAX,
            decreases n - i,
        {
            proof {
                lemma_bytes_held_monotone(self.chunks@, ks, i as int + 1, n as int);
            }
            current = current + self.chunks.value_at(i).len();
            i = i + 1;
        }
        if current + incoming_bytes > quota_bytes {
            return Err("StorageExhausted: capacity ceiling exceeded".to_owned());
        }
        Ok(())
    }

    /// The Merkle root of the digests: neighbours hashed in pairs under the tree
    /// domain, an odd last digest carried up, until one remains (zero for none).
    pub fn compute_merkle_root(digests: &[[u8; 32]]) -> (r: [u8; 32])
        ensures
            r@ == merkle_root_of(digests@.map_values(|d: [u8; 32]| d@)),
    {
        if digests.len() == 0 {
            let z = [0u8; 32];
            assert(z@ =~= Seq::new(32, |i: int| 0u8));
            return z;
        }
        let mut layer: Vec<[u8; 32]> = vstd::slice::slice_to_vec(digests);
        while layer.len() > 1
            invariant
                layer@.len() >= 1,
                merkle_root_of(layer@.map_values(|d: [u8; 32]| d@)) == merkle_root_of(digests@.map_values(|d: [u8; 32]| d@)),
            decreases layer@.len(),
        {
            let ghost lv = layer@.map_values(|d: [u8; 32]| d@);
            let mut next: Vec<[u8; 32]> = Vec::new();
            let lenl = layer.len();
            let half = layer.len() / 2 + layer.len() % 2;
            assert(half == (layer@.len() + 1) / 2);
            let mut q: usize = 0;
            while q < half
                invariant
                    q <= half,
                    half == (layer@.len() + 1) / 2,
                    lenl == layer@.len(),
                    lv == layer@.map_values(|d: [u8; 32]| d@),
                    next@.len() == q,
                    forall|j: int| 0 <= j < q ==> (#[trigger] next@[j])@ == next_layer(lv)[j],
                decreases half - q,
            {
                assert(2 * q < layer@.len() + 1);
                let p = 2 * q;
                if p + 1 < layer.len() {
                    let mut buf: Vec<u8> = Vec::new();
                    push_all(&mut buf, "NEX/CAS_TREE/v1".as_bytes());
                    push_all(&mut buf, layer[p].as_slice());
                    push_all(&mut buf, layer[p + 1].as_slice());
                    assert(buf@ =~= tagged("NEX/CAS_TREE/v1", lv[p as int] + lv[p + 1]));
                    next.push(sha256(buf.as_slice()));
                } else {
                    next.push(layer[p]);
                }
                q = q + 1;
            }
            assert(next@.map_values(|d: [u8; 32]| d@) =~= next_layer(lv));
            layer = next;
        }
        layer[0]
    }
}

proof fn lemma_bytes_held_monotone(m: Map<Seq<u8>, Vec<u8>>, ks: Seq<Seq<u8>>, a: int, b: int)
    requires
        0 <= a <= b,
    ensures
        bytes_held(m, ks, a) <= bytes_held(m, ks, b),
    decreases b - a,
{
    if a < b {
        lemma_bytes_held_monotone(m, ks, a, b - 1);
    }
}

/// A folder with no entries.
fn empty_folder(path: String, name: String) -> (r: DriveFolder)
    ensures
        r.path == path,
        r.name == name,
        r.entries@ == Map::<Seq<u8>, (ObjectID, ObjectType)>::empty(),
{
    DriveFolder { path, name, entries: KeyedMap::new() }
}

#[derive(Debug)]
pub struct DriveEngine {
    pub namespace_id: NamespaceID,
    pub cas: CasChunkStore,
    pub directories: KeyedMap<String, DriveFolder>,
    pub files: KeyedMap<String, DriveFileEntry>,
}

/// The UTF-8 key of a path.
pub open spec fn path_key(p: Seq<char>) -> Seq<u8> {
    vstd::utf8::encode_utf8(p)
}

impl DriveEngine {
    /// An engine whose only folder is the empty root `/`.
    pub fn new(namespace_id: NamespaceID) -> (r: Self)
        ensures
            r.namespace_id == namespace_id,
            r.cas.chunks@ == Map::<Seq<u8>, Vec<u8>>::empty(),
            r.files@ == Map::<Seq<u8>, DriveFileEntry>::empty(),
            r.directories@.dom() == set![path_key(seq!['/'])],
            r.directories@[path_key(seq!['/'])].path@ == seq!['/'],
            r.directories@[path_key(seq!['/'])].name@ == Seq::<char>::empty(),
            r.directories@[path_key(seq!['/'])].entries@ == Map::<Seq<u8>, (ObjectID, ObjectType)>::empty(),
    {
        let mut directories: KeyedMap<String, DriveFolder> = KeyedMap::new();
        let root = empty_folder("/".to_string(), String::new());
        proof {
            reveal_strlit("/");
            assert("/"@ =~= seq!['/']);
        }
        directories.insert("/".to_string(), root);
        assert(directories@.dom() =~= set![path_key(seq!['/'])]);
        DriveEngine { namespace_id, cas: CasChunkStore::new(), directories, files: KeyedMap::new() }
    }

    /// Records an empty folder at `path`, named after the text after its last slash
    /// (replacing any folder already there).
    pub fn create_directory(&mut self, path: &str, _epoch: u64)
        ensures
            final(self).directories@.dom() == old(self).directories@.dom().insert(path_key(path@)),
            forall|k: Seq<u8>| k != path_key(path@) && #[trigger] old(self).directories@.contains_key(k)
                ==> final(self).directories@[k] == old(self).directories@[k],
            final(self).directories@[path_key(path@)].path@ == path@,
            final(self).directories@[path_key(path@)].name@ == split_on(path@, '/').last(),
            final(self).directories@[path_key(path@)].entries@ == Map::<Seq<u8>, (ObjectID, ObjectType)>::empty(),
            final(self).files@ == old(self).files@,
            final(self).namespace_id == old(self).namespace_id,
    {
        let name = last_piece(path, '/');
        let folder = empty_folder(path.to_string(), name);
        self.directories.insert(path.to_string(), folder);
        assert(self.directories@.dom() =~= old(self).directories@.dom().insert(path_key(path@)));
    }
}

/// Why a path is refused: it holds `..` or a NUL character.
pub open spec fn traversal_attempt(p: Seq<char>) -> bool {
    has_double_dot(p) || p.contains('\0')
}

/// The last kept segment of a path, or `fallback` when there is none.
pub open spec fn last_segment_or(p: Seq<char>, fallback: Seq<char>) -> Seq<char> {
    let segs = path_segments(p);
    if segs.len() == 0 { fallback } else { segs.last() }
}

/// The folder that holds a canonical path: `/` for a top-level entry.
pub open spec fn parent_folder(p: Seq<char>) -> Seq<char> {
    let segs = path_segments(p);
    if segs.len() <= 1 { seq!['/'] } else { seq!['/'] + join_slash(segs.drop_last()) }
}

pub struct NexDriveEngine<A: NexAppApi> {
    pub namespace_id: NamespaceID,
    pub api: A,
    pub cas: CasChunkStore,
    pub directories: KeyedMap<String, DriveFolder>,
}

impl<A: NexAppApi> NexDriveEngine<A> {
    /// An engine over `api` whose only folder is the empty root `/`.
    pub fn new(namespace_id: NamespaceID, api: A) -> (r: Self)
        ensures
            r.namespace_id == namespace_id,
            r.api == api,
            r.cas.chunks@ == Map::<Seq<u8>, Vec<u8>>::empty(),
            r.directories@.dom() == set![path_key(seq!['/'])],
            r.directories@[path_key(seq!['/'])].path@ == seq!['/'],
            r.directories@[path_key(seq!['/'])].entries@ == Map::<Seq<u8>, (ObjectID, ObjectType)>::empty(),
    {
        let mut directories: KeyedMap<String, DriveFolder> = KeyedMap::new();
        let root = empty_folder("/".to_string(), String::new());
        proof {
            reveal_strlit("/");
            assert("/"@ =~= seq!['/']);
        }
        directories.insert("/".to_string(), root);
        assert(directories@.dom() =~= set![path_key(seq!['/'])]);
        NexDriveEngine { namespace_id, api, cas: CasChunkStore::new(), directories }
    }

    /// The canonical form of a path, refusing `..` and NUL characters.
    pub fn sanitize_path(raw_path: &str) -> (r: Result<String, String>)
        ensures
            traversal_attempt(raw_path@) ==> (r matches Err(e) && e@ == "Path traversal (..) or null byte forbidden"@),
            !traversal_attempt(raw_path@) ==> (r matches Ok(p) && p@ == normalized_path(raw_path@)),
    {
        if has_traversal(raw_path) {
            return Err("Path traversal (..) or null byte forbidden".to_owned());
        }
        Ok(normalize_path_chars(raw_path))
    }

    /// Stores the content's chunks and describes the file: its canonical path, its
    /// name (last segment, `file` for none) and its inode. The inode's encoding goes
    /// to `commit_upload`.
    pub fn stage_upload(&mut self, vpath: &str, mime_type: &str, content: &[u8]) -> (r: Result<(String, String, DriveInode), String>)
        ensures
            traversal_attempt(vpath@) ==> (r matches Err(e) && e@ == "Path traversal (..) or null byte forbidden"@
                && final(self).cas.chunks@ == old(self).cas.chunks@),
            !traversal_attempt(vpath@) ==> (r matches Ok((p, n, inode)) && {
                &&& p@ == normalized_path(vpath@)
                &&& n@ == last_segment_or(vpath@, seq!['f', 'i', 'l', 'e'])
                &&& inode.path@ == p@
                &&& inode.name@ == n@
                &&& inode.size_bytes == content@.len()
                &&& inode.mime_type@ == mime_type@
                &&& inode.modified_epoch == 1
                &&& content@.len() == 0 ==> inode.content_root@ == cas_digest(Seq::empty()) && inode.chunk_digests@ == seq![inode.content_root]
                &&& content@.len() > 0 ==> inode.chunk_digests@.len() == file_chunk_count(content@.len() as int)
                    && (forall|i: int| 0 <= i < inode.chunk_digests@.len() ==> (#[trigger] inode.chunk_digests@[i])@ == cas_digest(file_chunk(content@, i)))
                    && inode.content_root@ == merkle_root_of(inode.chunk_digests@.map_values(|d: [u8; 32]| d@))
            }),
            final(self).directories@ == old(self).directories@,
            final(self).namespace_id == old(self).namespace_id,
    {
        if has_traversal(vpath) {
            return Err("Path traversal (..) or null byte forbidden".to_owned());
        }
        let segs = path_segments_exec(vpath);
        let clean_path = join_path(&segs, segs.len());
        proof {
            assert(segs@.map_values(|v: Vec<char>| v@).take(segs@.len() as int) =~= segs@.map_values(|v: Vec<char>| v@));
        }
        let name = if segs.len() == 0 {
            proof {
                reveal_strlit("file");
                assert("file"@ =~= seq!['f', 'i', 'l', 'e']);
            }
            "file".to_string()
        } else {
            string_of(&segs[segs.len() - 1])
        };
        let (content_root, chunk_digests) = self.cas.store_file(content);
        let inode = DriveInode {
            path: string_of_string(&clean_path),
            name: string_of_string(&name),
            size_bytes: content.len() as u64,
            mime_type: mime_type.to_string(),
            content_root,
            chunk_digests,
            modified_epoch: 1,
        };
        Ok((clean_path, name, inode))
    }

    /// Creates the inode object from its encoding and lists it in its parent folder
    /// (creating the folder, named after its path, if needed).
    pub fn commit_upload(&mut self, clean_path: &str, name: &str, mime_type: &str, content_len: u64, payload: Vec<u8>) -> (r: Result<ObjectID, String>)
        ensures
            r is Err ==> final(self).directories@ == old(self).directories@,
            r matches Ok(id) ==> {
                let parent = path_key(parent_folder(clean_path@));
                &&& final(self).directories@.dom() == old(self).directories@.dom().insert(parent)
                &&& final(self).directories@[parent].entries@ == (if old(self).directories@.contains_key(parent) {
                        old(self).directories@[parent].entries@ } else { Map::empty() })
                        .insert(path_key(name@), (id, ObjectType::DriveInode))
                &&& forall|k: Seq<u8>| k != parent && #[trigger] old(self).directories@.contains_key(k)
                    ==> final(self).directories@[k] == old(self).directories@[k]
            },
            final(self).namespace_id == old(self).namespace_id,
            final(self).cas.chunks@ == old(self).cas.chunks@,
    {
        let mut metadata: KeyedMap<String, String> = KeyedMap::new();
        metadata.insert("path".to_string(), clean_path.to_string());
        metadata.insert("mime_type".to_string(), mime_type.to_string());
        metadata.insert("size_bytes".to_string(), decimal_text(content_len));
        let outcome = self.api.create_object(self.namespace_id, ObjectType::DriveInode, metadata, payload);
        self.record_upload(clean_path, name, outcome)
    }

    /// Applies the node's reply to creating an inode object: on success lists the
    /// new object under `name` in the parent folder of `clean_path` (creating the
    /// folder, named after its path, if needed) and returns its id; on failure
    /// changes nothing.
    pub fn record_upload(&mut self, clean_path: &str, name: &str, outcome: Result<ObjectID, CoreRuntimeError>) -> (r: Result<ObjectID, String>)
        ensures
            outcome is Ok <==> r is Ok,
            outcome matches Ok(id) ==> r == Ok::<ObjectID, String>(id),
            r is Err ==> final(self).directories@ == old(self).directories@,
            r matches Ok(id) ==> {
                let parent = path_key(parent_folder(clean_path@));
                &&& final(self).directories@.dom() == old(self).directories@.dom().insert(parent)
                &&& final(self).directories@[parent].entries@ == (if old(self).directories@.contains_key(parent) {
                        old(self).directories@[parent].entries@ } else { Map::empty() })
                        .insert(path_key(name@), (id, ObjectType::DriveInode))
                &&& forall|k: Seq<u8>| k != parent && #[trigger] old(self).directories@.contains_key(k)
                    ==> final(self).directories@[k] == old(self).directories@[k]
            },
            final(self).namespace_id == old(self).namespace_id,
            final(self).cas.chunks@ == old(self).cas.chunks@,
            final(self).api == old(self).api,
    {
        let obj_id = match node_reply(outcome) {
            Ok(id) => id,
            Err(e) => {
                return Err(e);
            }
        };
        let segs = path_segments_exec(clean_path);
        let parent = if segs.len() <= 1 {
            proof {
                reveal_strlit("/");
                assert("/"@ =~= seq!['/']);
            }
            "/".to_string()
        } else {
            join_path(&segs, segs.len() - 1)
        };
        proof {
            let sv = segs@.map_values(|v: Vec<char>| v@);
            if sv.len() > 1 {
                assert(sv.take(sv.len() - 1) =~= sv.drop_last());
            }
        }
        let mut folder = match self.directories.remove(&parent) {
            Some(f) => f,
            None => empty_folder(string_of_string(&parent), string_of_string(&parent)),
        };
        folder.entries.insert(name.to_string(), (obj_id, ObjectType::DriveInode));
        self.directories.insert(parent, folder);
        proof {
            assert(self.directories@.dom() =~= old(self).directories@.dom().insert(path_key(parent_folder(clean_path@))));
        }
        Ok(obj_id)
    }

    /// Stores a file: its chunks, its inode object (encoded by `codec`, with path,
    /// type and size as metadata) and its entry, under its name, in the folder of
    /// its canonical path. The chunks stay filed whether or not the object is created.
    pub fn upload_file<C: DriveCodec>(&mut self, codec: &C, vpath: &str, mime_type: &str, content: &[u8],
        _proof: Option<CapabilityProof>) -> (r: Result<ObjectID, String>)
        ensures
            traversal_attempt(vpath@) ==> (r matches Err(e) && e@ == "Path traversal (..) or null byte forbidden"@),
            r is Err ==> final(self).directories@ == old(self).directories@,
            r matches Ok(id) ==> {
                let parent = path_key(parent_folder(normalized_path(vpath@)));
                let name = path_key(last_segment_or(vpath@, seq!['f', 'i', 'l', 'e']));
                &&& !traversal_attempt(vpath@)
                &&& final(self).directories@.dom() == old(self).directories@.dom().insert(parent)
                &&& final(self).directories@[parent].entries@ == (if old(self).directories@.contains_key(parent) {
                        old(self).directories@[parent].entries@ } else { Map::empty() })
                        .insert(name, (id, ObjectType::DriveInode))
                &&& forall|k: Seq<u8>| k != parent && #[trigger] old(self).directories@.contains_key(k)
                    ==> final(self).directories@[k] == old(self).directories@[k]
            },
            final(self).namespace_id == old(self).namespace_id,
    {
        let (clean_path, name, inode) = match self.stage_upload(vpath, mime_type, content) {
            Ok(t) => t,
            Err(e) => {
                return Err(e);
            }
        };
        let payload = match codec.encode_inode(&inode) {
            Ok(b) => b,
            Err(e) => {
                return Err(e);
            }
        };
        self.commit_upload(clean_path.as_str(), name.as_str(), mime_type, content.len() as u64, payload)
    }

    /// Reads the file's inode object, decodes it and reassembles the content from
    /// the chunk store. Whatever the node and codec return, a success is the
    /// concatenation of the stored chunks an inode lists.
    pub fn download_file<C: DriveCodec>(&self, codec: &C, object_id: &ObjectID) -> (r: Result<Vec<u8>, String>)
        ensures
            r matches Ok(out) ==> exists|ds: Seq<[u8; 32]>| #[trigger] assembles(self.cas.chunks@, ds, out@),
    {
        let obj = match node_reply(self.api.read_object(object_id)) {
            Ok(o) => o,
            Err(e) => {
                return Err(e);
            }
        };
        let inode = match codec.decode_inode(obj.payload_bytes.as_slice()) {
            Ok(i) => i,
            Err(e) => {
                return Err(e);
            }
        };
        let r = self.cas.assemble_file(inode.chunk_digests.as_slice());
        proof {
            if r is Ok {
                assert(assembles(self.cas.chunks@, inode.chunk_digests@, r->Ok_0@));
            }
        }
        r
    }

    /// Deletes the object through the API, then drops the entry for the path's last
    /// segment from its parent folder.
    pub fn delete_file(&mut self, vpath: &str, object_id: ObjectID, proof: Option<CapabilityProof>) -> (r: Result<(), String>)
        ensures
            r is Ok ==> !traversal_attempt(vpath@),
            r is Ok ==> ({
                let parent = path_key(parent_folder(vpath@));
                let name = path_key(last_segment_or(vpath@, Seq::empty()));
                &&& final(self).directories@.dom() == old(self).directories@.dom()
                &&& forall|k: Seq<u8>| k != parent && #[trigger] old(self).directories@.contains_key(k)
                    ==> final(self).directories@[k] == old(self).directories@[k]
                &&& old(self).directories@.contains_key(parent) ==>
                    final(self).directories@[parent].entries@ == old(self).directories@[parent].entries@.remove(name)
            }),
            r is Err && !traversal_attempt(vpath@) ==> final(self).directories@ == old(self).directories@,
            final(self).namespace_id == old(self).namespace_id,
    {
        let outcome = self.api.delete_object(object_id, proof);
        self.apply_file_deletion(vpath, outcome)
    }

    /// Applies the node's reply to deleting a file's object: on success drops the
    /// entry for the path's last segment from its parent folder, unless the path
    /// tries a traversal; on failure changes nothing.
    pub fn apply_file_deletion(&mut self, vpath: &str, outcome: Result<[u8; 32], CoreRuntimeError>) -> (r: Result<(), String>)
        ensures
            outcome is Err ==> r is Err,
            outcome is Ok && traversal_attempt(vpath@) ==> (r matches Err(e) && e@ == "Path traversal (..) or null byte forbidden"@),
            outcome is Ok && !traversal_attempt(vpath@) ==> r is Ok,
            r is Ok ==> ({
                let parent = path_key(parent_folder(vpath@));
                let name = path_key(last_segment_or(vpath@, Seq::empty()));
                &&& final(self).directories@.dom() == old(self).directories@.dom()
                &&& forall|k: Seq<u8>| k != parent && #[trigger] old(self).directories@.contains_key(k)
                    ==> final(self).directories@[k] == old(self).directories@[k]
                &&& old(self).directories@.contains_key(parent) ==>
                    final(self).directories@[parent].entries@ == old(self).directories@[parent].entries@.remove(name)
            }),
            r is Err ==> final(self).directories@ == old(self).directories@,
            final(self).namespace_id == old(self).namespace_id,
            final(self).api == old(self).api,
    {
        if let Err(e) = node_reply(outcome) {
            return Err(e);
        }
        if has_traversal(vpath) {
            return Err("Path traversal (..) or null byte forbidden".to_owned());
        }
        let segs = path_segments_exec(vpath);
        let name = if segs.len() == 0 { String::new() } else { string_of(&segs[segs.len() - 1]) };
        let parent = if segs.len() <= 1 {
            proof {
                reveal_strlit("/");
                assert("/"@ =~= seq!['/']);
            }
            "/".to_string()
        } else {
            join_path(&segs, segs.len() - 1)
        };
        proof {
            let sv = segs@.map_values(|v: Vec<char>| v@);
            if sv.len() > 1 {
                assert(sv.take(sv.len() - 1) =~= sv.drop_last());
            }
        }
        match self.directories.remove(&parent) {
            Some(f) => {
                let mut folder = f;
                folder.entries.remove(&name);
                self.directories.insert(parent, folder);
                proof {
                    assert(self.directories@.dom() =~= old(self).directories@.dom());
                }
            }
            None => {}
        }
        Ok(())
    }
}

/// A `String` with the same characters.
fn string_of_string(s: &String) -> (r: String)
    ensures
        r@ == s@,
{
    s.as_str().to_string()
}

/// The bytes each folder entry contributes to the folder digest, for the first `n`
/// entries in name order: the name, the object kind's code (little-endian), the id.
pub open spec fn entries_preimage(es: Seq<(String, (ObjectID, ObjectType))>, n: int) -> Seq<u8>
    decreases n,
{
    if n <= 0 {
        Seq::empty()
    } else {
        entries_preimage(es, n - 1) + vstd::utf8::encode_utf8(es[n - 1].0@)
            + le_bytes(object_type_code(es[n - 1].1.1) as nat, 2) + es[n - 1].1.0@
    }
}

impl<A: NexAppApi> NexDriveEngine<A> {
    /// The path a folder digest is taken over: the canonical form, or `/` for a
    /// refused path.
    pub open spec fn digest_path(dir_path: Seq<char>) -> Seq<char> {
        if traversal_attempt(dir_path) { seq!['/'] } else { normalized_path(dir_path) }
    }

    /// SHA-256 of the folder domain, the canonical path, and each entry of the folder
    /// there (if any) in name order.
    pub fn compute_directory_merkle_digest(&self, dir_path: &str) -> (r: [u8; 32])
        ensures
            ({
                let p = Self::digest_path(dir_path@);
                let k = path_key(p);
                let tail = if self.directories@.contains_key(k) {
                    entries_preimage(self.directories@[k].entries.entries_view(), self.directories@[k].entries.entries_view().len() as int)
                } else {
                    Seq::empty()
                };
                r@ == sha256_spec(tagged("NEX/DRIVE/DIR/v1", vstd::utf8::encode_utf8(p) + tail))
            }),
    {
        let clean_path = match Self::sanitize_path(dir_path) {
            Ok(p) => p,
            Err(_) => {
                proof {
                    reveal_strlit("/");
                    assert("/"@ =~= seq!['/']);
                }
                "/".to_string()
            }
        };
        let mut buf: Vec<u8> = Vec::new();
        push_all(&mut buf, "NEX/DRIVE/DIR/v1".as_bytes());
        push_all(&mut buf, clean_path.as_str().as_bytes());
        let ghost head = buf@;
        let ghost mut tail: Seq<u8> = Seq::empty();
        match self.directories.get(&clean_path) {
            Some(dir) => {
                let n = dir.entries.len();
                let ghost es = dir.entries.entries_view();
                let mut i: usize = 0;
                while i < n
                    invariant
                        i <= n,
                        n == es.len(),
                        es == dir.entries.entries_view(),
                        n == dir.entries.keys().len(),
                        buf@ == head + entries_preimage(es, i as int),
                    decreases n - i,
                {
                    let name = dir.entries.key_at(i);
                    let v = dir.entries.value_at(i);
                    push_all(&mut buf, name.as_str().as_bytes());
                    push_le(&mut buf, v.1.as_u16() as u64, 2);
                    push_all(&mut buf, v.0.as_slice());
                    assert(buf@ =~= head + entries_preimage(es, i + 1));
                    i = i + 1;
                }
                proof {
                    tail = entries_preimage(es, n as int);
                }
            }
            None => {
                assert(buf@ =~= head + tail);
            }
        }
        assert(buf@ =~= tagged("NEX/DRIVE/DIR/v1", vstd::utf8::encode_utf8(clean_path@) + tail));
        sha256(buf.as_slice())
    }
}

#[derive(Debug, Default, Clone, Copy, PartialEq, Eq, Structural)]
pub struct DriveSyncDelta {
    pub added_files: usize,
    pub updated_files: usize,
    pub deleted_files: usize,
    pub synced_bytes: u64,
}

/// The manifest as plain values: content digest and size by path key.
pub open spec fn manifest_view(m: Map<Seq<u8>, ([u8; 32], u64)>) -> Map<Seq<u8>, (Seq<u8>, u64)> {
    Map::new(|k: Seq<u8>| m.contains_key(k), |k: Seq<u8>| (m[k].0@, m[k].1))
}

/// Whether a discovered file is new or changed against the manifest.
pub open spec fn needs_sync(m: Map<Seq<u8>, (Seq<u8>, u64)>, path: Seq<char>, content: Seq<u8>) -> bool {
    let k = path_key(path);
    !m.contains_key(k) || m[k].0 != cas_digest(content)
}

/// The manifest and tallies (added, updated, bytes) after syncing the discovered
/// files in order.
pub open spec fn synced(m: Map<Seq<u8>, (Seq<u8>, u64)>, files: Seq<(Seq<char>, Seq<u8>)>)
    -> (Map<Seq<u8>, (Seq<u8>, u64)>, nat, nat, nat)
    decreases files.len(),
{
    if files.len() == 0 {
        (m, 0, 0, 0)
    } else {
        let (m0, a, u, b) = synced(m, files.drop_last());
        let (p, c) = files.last();
        let k = path_key(p);
        if !needs_sync(m0, p, c) {
            (m0, a, u, b)
        } else if m0.contains_key(k) {
            (m0.insert(k, (cas_digest(c), c.len() as u64)), a, u + 1, b + c.len())
        } else {
            (m0.insert(k, (cas_digest(c), c.len() as u64)), a + 1, u, b + c.len())
        }
    }
}

/// The total size of the discovered files.
pub open spec fn total_size(files: Seq<(Seq<char>, Seq<u8>)>) -> nat
    decreases files.len(),
{
    if files.len() == 0 { 0 } else { total_size(files.drop_last()) + files.last().1.len() }
}

proof fn lemma_synced_bounds(m: Map<Seq<u8>, (Seq<u8>, u64)>, files: Seq<(Seq<char>, Seq<u8>)>)
    ensures
        synced(m, files).1 + synced(m, files).2 <= files.len(),
        synced(m, files).3 <= total_size(files),
    decreases files.len(),
{
    if files.len() > 0 {
        lemma_synced_bounds(m, files.drop_last());
    }
}

pub struct DriveSyncWatcher<A: NexAppApi> {
    pub engine: NexDriveEngine<A>,
    pub local_manifest: KeyedMap<String, ([u8; 32], u64)>,
}

impl<A: NexAppApi> DriveSyncWatcher<A> {
    pub fn new(engine: NexDriveEngine<A>) -> (r: Self)
        ensures
            r.engine == engine,
            r.local_manifest@ == Map::<Seq<u8>, ([u8; 32], u64)>::empty(),
    {
        DriveSyncWatcher { engine, local_manifest: KeyedMap::new() }
    }

    /// Uploads each discovered file (path and content, in path order) that is new
    /// or whose content digest differs from the manifest's, recording it in the
    /// manifest and the tally; the first failed upload ends the sync with its error.
    pub fn sync_discovered<C: DriveCodec>(&mut self, codec: &C, files: &Vec<(String, Vec<u8>)>) -> (r: Result<DriveSyncDelta, String>)
        requires
            total_size(files@.map_values(|f: (String, Vec<u8>)| (f.0@, f.1@))) <= u64::MAX,
        ensures
            r matches Ok(d) ==> {
                let (m, a, u, b) = synced(manifest_view(old(self).local_manifest@),
                    files@.map_values(|f: (String, Vec<u8>)| (f.0@, f.1@)));
                &&& manifest_view(final(self).local_manifest@) == m
                &&& d.added_files == a
                &&& d.updated_files == u
                &&& d.deleted_files == 0
                &&& d.synced_bytes == b
            },
            r is Err ==> exists|k: int| 0 <= k < files@.len() && {
                let m = synced(manifest_view(old(self).local_manifest@),
                    files@.map_values(|f: (String, Vec<u8>)| (f.0@, f.1@)).take(k)).0;
                &&& manifest_view(final(self).local_manifest@) == m
                &&& needs_sync(m, (#[trigger] files@[k]).0@, files@[k].1@)
            },
    {
        let ghost fv = files@.map_values(|f: (String, Vec<u8>)| (f.0@, f.1@));
        let ghost m0 = manifest_view(self.local_manifest@);
        let mut delta = DriveSyncDelta { added_files: 0, updated_files: 0, deleted_files: 0, synced_bytes: 0 };
        let mut i: usize = 0;
        while i < files.len()
            invariant
                i <= files@.len(),
                fv == files@.map_values(|f: (String, Vec<u8>)| (f.0@, f.1@)),
                total_size(fv) <= u64::MAX,
                m0 == manifest_view(old(self).local_manifest@),
                ({
                    let (m, a, u, b) = synced(m0, fv.take(i as int));
                    &&& manifest_view(self.local_manifest@) == m
                    &&& delta.added_files == a
                    &&& delta.updated_files == u
                    &&& delta.deleted_files == 0
                    &&& delta.synced_bytes == b
                }),
            decreases files@.len() - i,
        {
            let ghost t = fv.take(i + 1);
            proof {
                assert(t.drop_last() =~= fv.take(i as int));
                assert(t.last() == (files@[i as int].0@, files@[i as int].1@));
                lemma_synced_bounds(m0, t);
                lemma_total_size_prefix(fv, i + 1);
            }
            let path = &files[i].0;
            let content = &files[i].1;
            let hash = CasChunkStore::chunk_digest(content.as_slice());
            let size = content.len() as u64;
            let prev = match self.local_manifest.get(path) {
                Some(e) => Some(e.0),
                None => None,
            };
            let changed = match prev {
                Some(h) => !crate::bytes::id_eq(&h, &hash),
                None => true,
            };
            if changed {
                match self.engine.upload_file(codec, path.as_str(), "application/octet-stream", content.as_slice(), None) {
                    Ok(_) => {}
                    Err(e) => {
                        proof {
                            let m = synced(m0, fv.take(i as int)).0;
                            assert(fv[i as int] == (files@[i as int].0@, files@[i as int].1@));
                            assert(needs_sync(m, fv[i as int].0, fv[i as int].1));
                            assert(manifest_view(self.local_manifest@) == m);
                            assert(m0 == manifest_view(old(self).local_manifest@));
                        }
                        return Err(e);
                    }
                }
                let ghost before = self.local_manifest@;
                self.local_manifest.insert(copy_text(path), (hash, size));
                proof {
                    assert(manifest_view(self.local_manifest@) =~= manifest_view(before).insert(path_key(path@), (hash@, size)));
                }
                match prev {
                    Some(_) => {
                        delta.updated_files = delta.updated_files + 1;
                    }
                    None => {
                        delta.added_files = delta.added_files + 1;
                    }
                }
                delta.synced_bytes = delta.synced_bytes + size;
            }
            i = i + 1;
        }
        proof {
            assert(fv.take(files@.len() as int) =~= fv);
        }
        Ok(delta)
    }
}

proof fn lemma_total_size_prefix(files: Seq<(Seq<char>, Seq<u8>)>, k: int)
    requires
        0 <= k <= files.len(),
    ensures
        total_size(files.take(k)) <= total_size(files),
    decreases files.len() - k,
{
    if k < files.len() {
        lemma_total_size_prefix(files, k + 1);
        assert(files.take(k + 1).drop_last() =~= files.take(k));
    } else {
        assert(files.take(k) =~= files);
    }
}

fn copy_text(s: &String) -> (r: String)
    ensures
        r@ == s@,
{
    s.as_str().to_string()
}

} // verus!
