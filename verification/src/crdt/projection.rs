//! The projection of register state into the committed map: live adds by key, and
//! the distinct tombstone tags in order.

use vstd::prelude::*;
use crate::HashRef;
use crate::bytes::{to_vec, compare_bytes, lemma_lex_order_range, lemma_lex_order_eq, lemma_lex_order_antisym, lemma_lex_lt_trans};
use crate::keyed_map::KeyedMap;
use crate::crdt::types::RegisterState;
use crate::crdt::evaluator::{hash_ref_lt, hash_ref_same};

verus! {

#[derive(Debug)]
pub struct CrdtStateMap {
    pub adds_map: KeyedMap<Vec<u8>, (HashRef, Vec<u8>)>,
    pub tombstones_arr: Vec<HashRef>,
}

/// The operation tag a register state carries.
pub open spec fn state_tag(s: RegisterState) -> HashRef {
    match s {
        RegisterState::Add { op_tag, .. } => op_tag,
        RegisterState::Remove { op_tag, .. } => op_tag,
    }
}

pub open spec fn tags_ordered(s: Seq<HashRef>) -> bool {
    forall|i: int, j: int| 0 <= i < j < s.len() ==> hash_ref_lt(#[trigger] s[i], #[trigger] s[j])
}

/// Some tag of `s` has the same algorithm and digest as `h`.
pub open spec fn tag_listed(s: Seq<HashRef>, h: HashRef) -> bool {
    exists|i: int| 0 <= i < s.len() && #[trigger] hash_ref_same(s[i], h)
}

proof fn lemma_tag_trichotomy(a: HashRef, b: HashRef)
    ensures
        hash_ref_lt(a, b) || hash_ref_same(a, b) || hash_ref_lt(b, a),
        !(hash_ref_lt(a, b) && hash_ref_same(a, b)),
        !(hash_ref_lt(a, b) && hash_ref_lt(b, a)),
{
    lemma_lex_order_range(a.digest@, b.digest@);
    lemma_lex_order_eq(a.digest@, b.digest@);
    lemma_lex_order_antisym(a.digest@, b.digest@);
}

proof fn lemma_tag_trans(a: HashRef, b: HashRef, c: HashRef)
    requires
        hash_ref_lt(a, b),
        hash_ref_lt(b, c),
    ensures
        hash_ref_lt(a, c),
{
    if a.algorithm_id == b.algorithm_id && b.algorithm_id == c.algorithm_id {
        lemma_lex_lt_trans(a.digest@, b.digest@, c.digest@);
    }
}

/// Whether `a` orders strictly before `b`.
fn tag_before(a: &HashRef, b: &HashRef) -> (r: bool)
    ensures
        r == hash_ref_lt(*a, *b),
{
    proof {
        lemma_lex_order_range(a.digest@, b.digest@);
    }
    a.algorithm_id < b.algorithm_id || (a.algorithm_id == b.algorithm_id
        && compare_bytes(a.digest.as_slice(), b.digest.as_slice()) < 0)
}

/// Adds `h` to an ordered tag list unless an equal tag is there.
fn insert_tag(tags: &mut Vec<HashRef>, h: &HashRef)
    requires
        tags_ordered(old(tags)@),
    ensures
        tags_ordered(final(tags)@),
        forall|g: HashRef| #[trigger] tag_listed(final(tags)@, g) == (tag_listed(old(tags)@, g) || hash_ref_same(g, *h)),
{
    let ghost s = tags@;
    let mut p: usize = 0;
    while p < tags.len() && tag_before(&tags[p], h)
        invariant
            p <= tags@.len(),
            tags@ == s,
            forall|j: int| 0 <= j < p ==> hash_ref_lt(#[trigger] s[j], *h),
        decreases tags@.len() - p,
    {
        p = p + 1;
    }
    proof {
        if p < s.len() {
            lemma_tag_trichotomy(s[p as int], *h);
        }
    }
    let same = p < tags.len() && tags[p].algorithm_id == h.algorithm_id
        && crate::bytes::bytes_eq(tags[p].digest.as_slice(), h.digest.as_slice());
    if same {
        proof {
            assert forall|g: HashRef| #[trigger] tag_listed(tags@, g) == (tag_listed(s, g) || hash_ref_same(g, *h)) by {
                if hash_ref_same(g, *h) {
                    assert(hash_ref_same(s[p as int], g));
                }
            }
        }
        return;
    }
    tags.insert(p, h.duplicate());
    proof {
        let r = tags@;
        assert forall|i: int, j: int| 0 <= i < j < r.len() implies hash_ref_lt(#[trigger] r[i], #[trigger] r[j]) by {
            if j < p {
            } else if j == p {
            } else if i < p {
                assert(r[j] == s[j - 1]);
                if j - 1 > p {
                    assert(hash_ref_lt(s[p as int], s[j - 1]));
                    lemma_tag_trans(*h, s[p as int], s[j - 1]);
                }
                lemma_tag_trans(s[i], *h, s[j - 1]);
            } else if i == p {
                assert(r[j] == s[j - 1]);
                if j - 1 > p {
                    assert(hash_ref_lt(s[p as int], s[j - 1]));
                    lemma_tag_trans(*h, s[p as int], s[j - 1]);
                }
            } else {
                assert(r[i] == s[i - 1]);
                assert(r[j] == s[j - 1]);
            }
        }
        assert forall|g: HashRef| #[trigger] tag_listed(r, g) == (tag_listed(s, g) || hash_ref_same(g, *h)) by {
            if tag_listed(r, g) {
                let i = choose|i: int| 0 <= i < r.len() && #[trigger] hash_ref_same(r[i], g);
                if i < p {
                    assert(hash_ref_same(s[i], g));
                } else if i > p {
                    assert(hash_ref_same(s[i - 1], g));
                }
            }
            if tag_listed(s, g) {
                let i = choose|i: int| 0 <= i < s.len() && #[trigger] hash_ref_same(s[i], g);
                if i < p {
                    assert(hash_ref_same(r[i], g));
                } else {
                    assert(hash_ref_same(r[i + 1], g));
                }
            }
            if hash_ref_same(g, *h) {
                assert(hash_ref_same(r[p as int], g));
            }
        }
    }
}

/// The adds of a register map under their keys (tag and payload), and the distinct
/// tags of its removes in hash-reference order.
pub fn project(register_state: &KeyedMap<Vec<u8>, RegisterState>) -> (r: CrdtStateMap)
    ensures
        forall|k: Seq<u8>| #[trigger] r.adds_map@.contains_key(k)
            == (register_state@.contains_key(k) && register_state@[k] is Add),
        forall|k: Seq<u8>| #[trigger] r.adds_map@.contains_key(k) ==> {
            &&& hash_ref_same(r.adds_map@[k].0, state_tag(register_state@[k]))
            &&& r.adds_map@[k].1@ == register_state@[k]->Add_payload@
        },
        tags_ordered(r.tombstones_arr@),
        forall|g: HashRef| #[trigger] tag_listed(r.tombstones_arr@, g) == exists|k: Seq<u8>|
            register_state@.contains_key(k) && register_state@[k] is Remove
                && #[trigger] hash_ref_same(state_tag(register_state@[k]), g),
{
    let ghost m = register_state@;
    let ghost ks = register_state.keys();
    let n = register_state.len();
    let mut adds_map: KeyedMap<Vec<u8>, (HashRef, Vec<u8>)> = KeyedMap::new();
    let mut tombstones_arr: Vec<HashRef> = Vec::new();
    let mut i: usize = 0;
    while i < n
        invariant
            i <= n,
            n == ks.len(),
            ks == register_state.keys(),
            m == register_state@,
            forall|k: int| 0 <= k < n ==> #[trigger] m.contains_key(ks[k]) && m[ks[k]] == register_state.entries_view()[k].1,
            forall|k: Seq<u8>| #[trigger] m.contains_key(k) ==> ks.contains(k),
            forall|k: Seq<u8>| #[trigger] adds_map@.contains_key(k)
                == (ks.take(i as int).contains(k) && m[k] is Add),
            forall|k: Seq<u8>| #[trigger] adds_map@.contains_key(k) ==> {
                &&& hash_ref_same(adds_map@[k].0, state_tag(m[k]))
                &&& adds_map@[k].1@ == m[k]->Add_payload@
            },
            tags_ordered(tombstones_arr@),
            forall|g: HashRef| #[trigger] tag_listed(tombstones_arr@, g) == exists|k: int| 0 <= k < i
                && m[ks[k]] is Remove && #[trigger] hash_ref_same(state_tag(m[ks[k]]), g),
        decreases n - i,
    {
        let key = register_state.key_at(i);
        let st = register_state.value_at(i);
        let ghost ki = ks[i as int];
        proof {
            assert(ks.take(i + 1) =~= ks.take(i as int).push(ki));
        }
        match st {
            RegisterState::Add { op_tag, payload, .. } => {
                let kcopy = to_vec(key.as_slice());
                adds_map.insert(kcopy, (op_tag.duplicate(), to_vec(payload.as_slice())));
                proof {
                    assert forall|g: HashRef| #[trigger] tag_listed(tombstones_arr@, g) == exists|k: int| 0 <= k < i + 1
                        && m[ks[k]] is Remove && #[trigger] hash_ref_same(state_tag(m[ks[k]]), g) by {
                        if exists|k: int| 0 <= k < i + 1 && m[ks[k]] is Remove && #[trigger] hash_ref_same(state_tag(m[ks[k]]), g) {
                            let k = choose|k: int| 0 <= k < i + 1 && m[ks[k]] is Remove && #[trigger] hash_ref_same(state_tag(m[ks[k]]), g);
                            assert(k != i);
                        }
                    }
                }
            }
            RegisterState::Remove { op_tag, .. } => {
                let ghost before = tombstones_arr@;
                insert_tag(&mut tombstones_arr, op_tag);
                proof {
                    assert forall|g: HashRef| #[trigger] tag_listed(tombstones_arr@, g) == exists|k: int| 0 <= k < i + 1
                        && m[ks[k]] is Remove && #[trigger] hash_ref_same(state_tag(m[ks[k]]), g) by {
                        if hash_ref_same(g, *op_tag) {
                            assert(hash_ref_same(state_tag(m[ks[i as int]]), g));
                        }
                        if exists|k: int| 0 <= k < i + 1 && m[ks[k]] is Remove && #[trigger] hash_ref_same(state_tag(m[ks[k]]), g) {
                            let k = choose|k: int| 0 <= k < i + 1 && m[ks[k]] is Remove && #[trigger] hash_ref_same(state_tag(m[ks[k]]), g);
                            if k < i {
                                assert(tag_listed(before, g));
                            }
                        }
                    }
                }
            }
        }
        proof {
            assert forall|k: Seq<u8>| #[trigger] ks.take(i + 1).contains(k) == (ks.take(i as int).contains(k) || k == ki) by {
                if ks.take(i + 1).contains(k) && k != ki {
                    let w = choose|w: int| 0 <= w < i + 1 && #[trigger] ks.take(i + 1)[w] == k;
                    assert(ks.take(i as int)[w] == k);
                }
                if ks.take(i as int).contains(k) {
                    let w = choose|w: int| 0 <= w < i && #[trigger] ks.take(i as int)[w] == k;
                    assert(ks.take(i + 1)[w] == k);
                }
                if k == ki {
                    assert(ks.take(i + 1)[i as int] == k);
                }
            }
        }
        i = i + 1;
    }
    proof {
        assert(ks.take(n as int) =~= ks);
        assert forall|g: HashRef| #[trigger] tag_listed(tombstones_arr@, g) == exists|k: Seq<u8>|
            m.contains_key(k) && m[k] is Remove && #[trigger] hash_ref_same(state_tag(m[k]), g) by {
            if exists|k: Seq<u8>| m.contains_key(k) && m[k] is Remove && #[trigger] hash_ref_same(state_tag(m[k]), g) {
                let k = choose|k: Seq<u8>| m.contains_key(k) && m[k] is Remove && #[trigger] hash_ref_same(state_tag(m[k]), g);
                assert(ks.contains(k));
                let w = choose|w: int| 0 <= w < ks.len() && ks[w] == k;
                assert(hash_ref_same(state_tag(m[ks[w]]), g));
            }
        }
    }
    CrdtStateMap { adds_map, tombstones_arr }
}

} // verus!
