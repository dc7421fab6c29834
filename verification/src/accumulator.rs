//! The sparse-Merkle accumulator of admitted mutations: a 256-level tree keyed by
//! the hash of a mutation id, whose leaves hold state commitments.

use vstd::prelude::*;
use vstd::string::*;
use crate::bytes::{push_all, id_eq};
use crate::crypto::{sha256_spec, hash_tagged, hash_tagged2, tagged};
use crate::keyed_map::KeyedMap;

verus! {

pub type StateCommitment = [u8; 32];
pub type AccumulatorRoot = [u8; 32];

#[derive(Debug, Clone, PartialEq, Eq)]
pub struct SmtInclusionProof {
    /// 256 sibling hashes from leaf level (index 255) up to root child (index 0).
    pub siblings: Vec<[u8; 32]>,
}

#[derive(Debug, Clone, PartialEq, Eq)]
pub struct SmtNonInclusionProof {
    /// 256 sibling hashes demonstrating that the key slot is currently empty.
    pub siblings: Vec<[u8; 32]>,
}

#[derive(Debug, Clone, Copy, PartialEq, Eq)]
pub enum SmtUpdateResult {
    /// The slot was empty; a new leaf was inserted and the root advanced.
    Inserted(AccumulatorRoot),
    /// The slot already held the identical commitment; nothing changed.
    NoOp(AccumulatorRoot),
    /// The slot holds a different commitment; the update is rejected.
    Conflict,
}

/// Key of a mutation's slot.
pub open spec fn smt_key_spec(mutation_id: Seq<u8>) -> Seq<u8> {
    sha256_spec(tagged("NEX/SMT_KEY/v1", mutation_id))
}

/// Hash of a leaf holding a state commitment.
pub open spec fn smt_leaf_spec(commitment: Seq<u8>) -> Seq<u8> {
    sha256_spec(tagged("NEX/SMT_LEAF/v1", commitment))
}

/// Hash of an inner node.
pub open spec fn smt_node_spec(left: Seq<u8>, right: Seq<u8>) -> Seq<u8> {
    sha256_spec(tagged("NEX/SMT_NODE/v1", left + right))
}

/// Bit `i` of a key, most significant bit of byte 0 first.
pub open spec fn key_bit(key: Seq<u8>, i: int) -> u8 {
    (key[i / 8] >> ((7 - i % 8) as u8)) & 1u8
}

/// The hash reached by climbing from `leaf` through the siblings at levels `255` down to `k`:
/// at a level whose key bit is 0 the running hash is the left child, otherwise the right.
pub open spec fn smt_fold(key: Seq<u8>, leaf: Seq<u8>, siblings: Seq<[u8; 32]>, k: int) -> Seq<u8>
    decreases 256 - k,
{
    if k >= 256 {
        leaf
    } else {
        let below = smt_fold(key, leaf, siblings, k + 1);
        if key_bit(key, k) == 0 {
            smt_node_spec(below, siblings[k]@)
        } else {
            smt_node_spec(siblings[k]@, below)
        }
    }
}

/// Root committed to by a tree's entries (sorted by key): all zeros when empty,
/// otherwise the tagged hash of every key followed by its commitment.
pub open spec fn tree_root_spec(entries: Seq<([u8; 32], [u8; 32])>) -> Seq<u8> {
    if entries.len() == 0 {
        Seq::new(32, |i: int| 0u8)
    } else {
        sha256_spec(tagged("NEX/SMT_TREE_ROOT/v1", concat_entries(entries)))
    }
}

pub open spec fn concat_entries(entries: Seq<([u8; 32], [u8; 32])>) -> Seq<u8>
    decreases entries.len(),
{
    if entries.len() == 0 {
        Seq::empty()
    } else {
        concat_entries(entries.drop_last()) + entries.last().0@ + entries.last().1@
    }
}

/// Each entry's key followed by its 32-byte commitment, entry after entry, byte
/// for byte.
pub open spec fn entry_bytes(es: Seq<([u8; 32], [u8; 32])>) -> Seq<u8> {
    Seq::new((64 * es.len()) as nat, |j: int|
        if j % 64 < 32 { es[j / 64].0@[j % 64] } else { es[j / 64].1@[j % 64 - 32] })
}

proof fn lemma_concat_entries_bytes(es: Seq<([u8; 32], [u8; 32])>)
    ensures
        concat_entries(es) == entry_bytes(es),
    decreases es.len(),
{
    if es.len() > 0 {
        let dl = es.drop_last();
        lemma_concat_entries_bytes(dl);
        let n = es.len() as int;
        let a = concat_entries(es);
        let b = entry_bytes(es);
        assert(a.len() == 64 * n);
        assert forall|j: int| 0 <= j < 64 * n implies #[trigger] a[j] == b[j] by {
            if j < 64 * (n - 1) {
                assert(j / 64 < n - 1) by (nonlinear_arith) requires 0 <= j < 64 * (n - 1);
                assert(dl[j / 64] == es[j / 64]);
            } else {
                assert(j / 64 == n - 1) by (nonlinear_arith) requires 64 * (n - 1) <= j < 64 * n;
                assert(j % 64 == j - 64 * (n - 1)) by (nonlinear_arith) requires 64 * (n - 1) <= j < 64 * n;
            }
        }
        assert(a =~= b);
    }
}

proof fn lemma_entry_bytes_at(es: Seq<([u8; 32], [u8; 32])>)
    ensures
        entry_bytes(es).len() == 64 * es.len(),
        forall|e: int, b: int| 0 <= e < es.len() && 0 <= b < 32 ==>
            #[trigger] entry_bytes(es)[64 * e + 32 + b] == es[e].1@[b] && entry_bytes(es)[64 * e + b] == es[e].0@[b],
{
    assert forall|e: int, b: int| 0 <= e < es.len() && 0 <= b < 32 implies
        #[trigger] entry_bytes(es)[64 * e + 32 + b] == es[e].1@[b] && entry_bytes(es)[64 * e + b] == es[e].0@[b] by {
        assert((64 * e + 32 + b) / 64 == e && (64 * e + 32 + b) % 64 == 32 + b) by (nonlinear_arith)
            requires 0 <= b < 32;
        assert((64 * e + b) / 64 == e && (64 * e + b) % 64 == b) by (nonlinear_arith)
            requires 0 <= b < 32;
        assert(64 * e + 32 + b < 64 * es.len()) by (nonlinear_arith) requires 0 <= e < es.len(), 0 <= b < 32;
    }
}

/// The root commits to every key and its commitment: an empty tree has the zero
/// root; otherwise the root is SHA-256 over the root tag and, for each entry in key
/// order, its 32-byte key followed by its 32-byte commitment. So two trees with the
/// same number of entries whose commitments differ at some entry hash different
/// preimages.
pub proof fn lemma_tree_root_commits(es: Seq<([u8; 32], [u8; 32])>, other: Seq<([u8; 32], [u8; 32])>, i: int)
    ensures
        es.len() == 0 ==> tree_root_spec(es) == Seq::new(32, |k: int| 0u8),
        es.len() > 0 ==> tree_root_spec(es) == sha256_spec(tagged("NEX/SMT_TREE_ROOT/v1", entry_bytes(es))),
        entry_bytes(es).len() == 64 * es.len(),
        forall|e: int, b: int| 0 <= e < es.len() && 0 <= b < 32 ==>
            #[trigger] entry_bytes(es)[64 * e + 32 + b] == es[e].1@[b] && entry_bytes(es)[64 * e + b] == es[e].0@[b],
        other.len() == es.len() && 0 <= i < es.len() && other[i].1 != es[i].1
            ==> entry_bytes(other) != entry_bytes(es),
{
    lemma_concat_entries_bytes(es);
    lemma_entry_bytes_at(es);
    lemma_entry_bytes_at(other);
    if other.len() == es.len() && 0 <= i < es.len() && other[i].1 != es[i].1 {
        assert(exists|b: int| 0 <= b < 32 && other[i].1@[b] != es[i].1@[b]) by {
            if !(exists|b: int| 0 <= b < 32 && other[i].1@[b] != es[i].1@[b]) {
                assert(other[i].1@ =~= es[i].1@);
                vstd::array::axiom_array_ext_equal(other[i].1, es[i].1);
            }
        }
        let b = choose|b: int| 0 <= b < 32 && other[i].1@[b] != es[i].1@[b];
        assert(entry_bytes(other)[64 * i + 32 + b] != entry_bytes(es)[64 * i + 32 + b]);
    }
}

pub fn sha256_smt_key(mutation_id: &[u8; 32]) -> (r: [u8; 32])
    ensures
        r@ == smt_key_spec(mutation_id@),
{
    hash_tagged("NEX/SMT_KEY/v1", mutation_id.as_slice())
}

pub fn sha256_smt_leaf(state_commitment: &[u8; 32]) -> (r: [u8; 32])
    ensures
        r@ == smt_leaf_spec(state_commitment@),
{
    hash_tagged("NEX/SMT_LEAF/v1", state_commitment.as_slice())
}

pub fn sha256_smt_node(left: &[u8; 32], right: &[u8; 32]) -> (r: [u8; 32])
    ensures
        r@ == smt_node_spec(left@, right@),
{
    hash_tagged2("NEX/SMT_NODE/v1", left.as_slice(), right.as_slice())
}

/// Climbs all 256 levels from `leaf`.
fn fold_path(key: &[u8; 32], leaf: [u8; 32], siblings: &[[u8; 32]]) -> (r: [u8; 32])
    requires
        siblings@.len() == 256,
    ensures
        r@ == smt_fold(key@, leaf@, siblings@, 0),
{
    let mut current = leaf;
    let mut i: usize = 256;
    while i > 0
        invariant
            i <= 256,
            siblings@.len() == 256,
            current@ == smt_fold(key@, leaf@, siblings@, i as int),
        decreases i,
    {
        i = i - 1;
        let bit = (key[i / 8] >> ((7 - i % 8) as u8)) & 1u8;
        assert(bit == key_bit(key@, i as int));
        current = if bit == 0 {
            sha256_smt_node(&current, &siblings[i])
        } else {
            sha256_smt_node(&siblings[i], &current)
        };
    }
    current
}

/// Verifies that `(mutation_id, state_commitment)` is committed under `root`.
pub fn verify_smt_inclusion(
    root: &[u8; 32],
    mutation_id: &[u8; 32],
    state_commitment: &StateCommitment,
    proof: &SmtInclusionProof,
) -> (r: bool)
    ensures
        r == (proof.siblings@.len() == 256 && smt_fold(smt_key_spec(mutation_id@),
            smt_leaf_spec(state_commitment@), proof.siblings@, 0) == root@),
{
    if proof.siblings.len() != 256 {
        return false;
    }
    let key = sha256_smt_key(mutation_id);
    let leaf = sha256_smt_leaf(state_commitment);
    let top = fold_path(&key, leaf, proof.siblings.as_slice());
    let r = id_eq(&top, root);
    proof {
        if top@ == root@ {
            vstd::array::axiom_array_ext_equal(top, *root);
        }
    }
    r
}

/// Evaluates the three-way insertion rule against a stateless root and proof path:
/// an empty slot (all-zero leaf) is filled, an identical commitment is a no-op,
/// and anything else is a conflict.
pub fn insert_or_verify_smt(
    current_root: &[u8; 32],
    mutation_id: &[u8; 32],
    state_commitment: &StateCommitment,
    proof_siblings: &[[u8; 32]],
) -> (r: Result<SmtUpdateResult, &'static str>)
    ensures
        proof_siblings@.len() != 256 <==> r is Err,
        proof_siblings@.len() == 256 ==> {
            let key = smt_key_spec(mutation_id@);
            let empty_top = smt_fold(key, Seq::new(32, |i: int| 0u8), proof_siblings@, 0);
            let full_top = smt_fold(key, smt_leaf_spec(state_commitment@), proof_siblings@, 0);
            &&& (r matches Ok(SmtUpdateResult::Inserted(h))) <==> empty_top == current_root@
            &&& r matches Ok(SmtUpdateResult::Inserted(h)) ==> h@ == full_top
            &&& (r matches Ok(SmtUpdateResult::NoOp(h))) <==> (empty_top != current_root@ && full_top == current_root@)
            &&& r matches Ok(SmtUpdateResult::NoOp(h)) ==> h == *current_root
            &&& (r matches Ok(SmtUpdateResult::Conflict)) <==> (empty_top != current_root@ && full_top != current_root@)
        },
{
    if proof_siblings.len() != 256 {
        return Err("Invalid SMT proof depth. Must be 256.");
    }
    let key = sha256_smt_key(mutation_id);
    let zero = [0u8; 32];
    assert(zero@ =~= Seq::new(32, |i: int| 0u8));
    let empty_top = fold_path(&key, zero, proof_siblings);
    let leaf = sha256_smt_leaf(state_commitment);
    let full_top = fold_path(&key, leaf, proof_siblings);
    proof {
        if empty_top@ == current_root@ {
            vstd::array::axiom_array_ext_equal(empty_top, *current_root);
        }
        if full_top@ == current_root@ {
            vstd::array::axiom_array_ext_equal(full_top, *current_root);
        }
    }
    if id_eq(&empty_top, current_root) {
        proof {
            vstd::array::axiom_array_ext_equal(empty_top, *current_root);
        }
        return Ok(SmtUpdateResult::Inserted(full_top));
    }
    if id_eq(&full_top, current_root) {
        proof {
            vstd::array::axiom_array_ext_equal(full_top, *current_root);
        }
        return Ok(SmtUpdateResult::NoOp(*current_root));
    }
    Ok(SmtUpdateResult::Conflict)
}

#[derive(Debug)]
pub struct SparseMerkleTree {
    pub entries: KeyedMap<[u8; 32], StateCommitment>,
}

impl SparseMerkleTree {
    pub fn new() -> (r: Self)
        ensures
            r.entries@ == Map::<Seq<u8>, [u8; 32]>::empty(),
    {
        SparseMerkleTree { entries: KeyedMap::new() }
    }

    /// The root over all entries in key order.
    pub fn root(&self) -> (r: AccumulatorRoot)
        ensures
            r@ == tree_root_spec(self.entries.entries_view()),
            self.entries.entries_view().len() > 0
                ==> r@ == sha256_spec(tagged("NEX/SMT_TREE_ROOT/v1", entry_bytes(self.entries.entries_view()))),
    {
        proof {
            lemma_tree_root_commits(self.entries.entries_view(), self.entries.entries_view(), 0);
        }
        let n = self.entries.len();
        if n == 0 {
            let z = [0u8; 32];
            assert(z@ =~= Seq::new(32, |i: int| 0u8));
            return z;
        }
        let mut buf: Vec<u8> = Vec::new();
        let mut i: usize = 0;
        while i < n
            invariant
                n == self.entries.entries_view().len(),
                i <= n,
                buf@ == concat_entries(self.entries.entries_view().take(i as int)),
            decreases n - i,
        {
            push_all(&mut buf, self.entries.key_at(i).as_slice());
            push_all(&mut buf, self.entries.value_at(i).as_slice());
            assert(self.entries.entries_view().take(i + 1).drop_last() =~= self.entries.entries_view().take(i as int));
            i = i + 1;
        }
        assert(self.entries.entries_view().take(n as int) =~= self.entries.entries_view());
        hash_tagged("NEX/SMT_TREE_ROOT/v1", buf.as_slice())
    }

    /// Records `commitment` in the slot of `mutation_id`: a new slot is filled and the
    /// new root returned; the same commitment again is a no-op; a different one conflicts.
    pub fn insert_or_verify(
        &mut self,
        mutation_id: &[u8; 32],
        commitment: &StateCommitment,
    ) -> (r: Result<SmtUpdateResult, &'static str>)
        ensures
            ({
                let key = smt_key_spec(mutation_id@);
                if old(self).entries@.contains_key(key) {
                    &&& final(self).entries@ == old(self).entries@
                    &&& final(self).entries.entries_view() == old(self).entries.entries_view()
                    &&& (r matches Ok(SmtUpdateResult::NoOp(h))) <==> old(self).entries@[key] == *commitment
                    &&& r matches Ok(SmtUpdateResult::NoOp(h)) ==> h@ == tree_root_spec(old(self).entries.entries_view())
                    &&& (r matches Ok(SmtUpdateResult::Conflict)) <==> old(self).entries@[key] != *commitment
                } else {
                    &&& final(self).entries@ == old(self).entries@.insert(key, *commitment)
                    &&& r matches Ok(SmtUpdateResult::Inserted(h))
                    &&& r matches Ok(SmtUpdateResult::Inserted(h)) ==> h@ == tree_root_spec(final(self).entries.entries_view())
                }
            }),
    {
        let key = sha256_smt_key(mutation_id);
        match self.entries.get(&key) {
            Some(existing) => {
                if id_eq(existing, commitment) {
                    let rt = self.root();
                    Ok(SmtUpdateResult::NoOp(rt))
                } else {
                    Ok(SmtUpdateResult::Conflict)
                }
            }
            None => {
                self.entries.insert(key, *commitment);
                let rt = self.root();
                Ok(SmtUpdateResult::Inserted(rt))
            }
        }
    }
}

} // verus!
