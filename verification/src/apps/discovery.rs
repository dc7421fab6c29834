//! Application-level discovery: a Kademlia-style peer table, a keyword index, and
//! topic subscriptions.

use vstd::prelude::*;
use crate::bytes::{lex_lt, compare_bytes, lemma_lex_order_range, lemma_lex_order_eq, lemma_lex_order_antisym,
    lemma_lex_lt_trans};
use crate::keyed_map::{KeyedMap, lemma_sorted_keys_distinct, strictly_sorted};
use crate::text::{ws_words, clean_word, split_whitespace_exec, clean_word_exec};

verus! {

#[derive(Debug, Clone, PartialEq, Eq)]
pub struct PeerLocator {
    pub actor_id: [u8; 32],
    pub socket_addr: String,
    pub last_seen_epoch: u64,
}

#[derive(Debug)]
pub struct DhtRoutingTable {
    pub local_actor: [u8; 32],
    pub peers: KeyedMap<[u8; 32], PeerLocator>,
}

/// The bytewise XOR of two ids.
pub open spec fn xor_dist(a: Seq<u8>, b: Seq<u8>) -> Seq<u8> {
    Seq::new(32, |i: int| a[i] ^ b[i])
}

/// `s` lists ids in strictly increasing distance from `t`.
pub open spec fn by_distance(s: Seq<[u8; 32]>, t: Seq<u8>) -> bool {
    forall|i: int, j: int| 0 <= i < j < s.len() ==> lex_lt(xor_dist(#[trigger] s[i]@, t), xor_dist(#[trigger] s[j]@, t))
}

proof fn lemma_lex_facts(a: Seq<u8>, b: Seq<u8>)
    ensures
        lex_lt(a, b) || a == b || lex_lt(b, a),
        !(lex_lt(a, b) && lex_lt(b, a)),
        lex_lt(a, b) ==> a != b,
{
    lemma_lex_order_range(a, b);
    lemma_lex_order_eq(a, b);
    lemma_lex_order_antisym(a, b);
}

/// Distinct ids lie at distinct distances from any target.
proof fn lemma_xor_injective(a: [u8; 32], b: [u8; 32], t: Seq<u8>)
    requires
        t.len() == 32,
        xor_dist(a@, t) == xor_dist(b@, t),
    ensures
        a == b,
{
    assert forall|i: int| 0 <= i < 32 implies a@[i] == b@[i] by {
        let (x, y, z) = (a@[i], b@[i], t[i]);
        assert(xor_dist(a@, t)[i] == xor_dist(b@, t)[i]);
        assert(xor_dist(a@, t)[i] == x ^ z);
        assert(xor_dist(b@, t)[i] == y ^ z);
        assert(x ^ z == y ^ z);
        assert(x == y) by (bit_vector)
            requires
                x ^ z == y ^ z,
        ;
    }
    assert(a@ =~= b@);
}

impl DhtRoutingTable {
    pub fn new(local_actor: [u8; 32]) -> (r: Self)
        ensures
            r.local_actor == local_actor,
            r.peers@ == Map::<Seq<u8>, PeerLocator>::empty(),
    {
        DhtRoutingTable { local_actor, peers: KeyedMap::new() }
    }

    /// The bytewise XOR of two ids.
    pub fn xor_distance(a: &[u8; 32], b: &[u8; 32]) -> (r: [u8; 32])
        ensures
            r@ == xor_dist(a@, b@),
    {
        let mut dist = [0u8; 32];
        let mut i: usize = 0;
        while i < 32
            invariant
                i <= 32,
                forall|j: int| 0 <= j < i ==> #[trigger] dist@[j] == a@[j] ^ b@[j],
            decreases 32 - i,
        {
            dist[i] = a[i] ^ b[i];
            i = i + 1;
        }
        assert(dist@ =~= xor_dist(a@, b@));
        dist
    }

    /// Records (or refreshes) a peer's address.
    pub fn add_peer(&mut self, actor_id: [u8; 32], socket_addr: &str, epoch: u64)
        ensures
            final(self).local_actor == old(self).local_actor,
            final(self).peers@.dom() == old(self).peers@.dom().insert(actor_id@),
            forall|k: Seq<u8>| k != actor_id@ && #[trigger] old(self).peers@.contains_key(k)
                ==> final(self).peers@[k] == old(self).peers@[k],
            final(self).peers@[actor_id@].actor_id == actor_id,
            final(self).peers@[actor_id@].socket_addr@ == socket_addr@,
            final(self).peers@[actor_id@].last_seen_epoch == epoch,
    {
        self.peers.insert(actor_id, PeerLocator {
            actor_id,
            socket_addr: socket_addr.to_string(),
            last_seen_epoch: epoch,
        });
        proof {
            assert(self.peers@.dom() =~= old(self).peers@.dom().insert(actor_id@));
        }
    }

    /// The `count` known peers closest to `target` in XOR distance, closest first.
    pub fn find_closest_nodes(&self, target: &[u8; 32], count: usize) -> (r: Vec<[u8; 32]>)
        ensures
            r@.len() == if count < self.peers@.dom().len() { count as int } else { self.peers@.dom().len() as int },
            by_distance(r@, target@),
            forall|i: int| 0 <= i < r@.len() ==> self.peers@.contains_key(#[trigger] r@[i]@),
            forall|k: [u8; 32]| #[trigger] self.peers@.contains_key(k@) && !r@.contains(k) ==>
                forall|i: int| 0 <= i < r@.len() ==> lex_lt(xor_dist(#[trigger] r@[i]@, target@), xor_dist(k@, target@)),
    {
        let keys = self.peers.key_list();
        let n = keys.len();
        let n0 = self.peers.len();
        let ghost ks = keys@;
        proof {
            lemma_sorted_keys_distinct(self.peers.keys());
        }
        let mut sorted: Vec<[u8; 32]> = Vec::new();
        let mut i: usize = 0;
        while i < n
            invariant
                i <= n,
                n == ks.len(),
                ks == keys@,
                ks.map_values(|k: [u8; 32]| k@) == self.peers.keys(),
                forall|a: int, b: int| 0 <= a < b < n ==> self.peers.keys()[a] != self.peers.keys()[b],
                sorted@.len() == i,
                by_distance(sorted@, target@),
                forall|x: [u8; 32]| sorted@.contains(x) <==> ks.take(i as int).contains(x),
            decreases n - i,
        {
            let k = keys[i];
            let dk = Self::xor_distance(&k, target);
            let mut p: usize = 0;
            while p < sorted.len() && compare_bytes(Self::xor_distance(&sorted[p], target).as_slice(), dk.as_slice()) < 0
                invariant
                    p <= sorted@.len(),
                    dk@ == xor_dist(k@, target@),
                    forall|j: int| 0 <= j < p ==> lex_lt(xor_dist(#[trigger] sorted@[j]@, target@), dk@),
                decreases sorted@.len() - p,
            {
                p = p + 1;
            }
            proof {
                assert(!sorted@.contains(k)) by {
                    if sorted@.contains(k) {
                        let w = choose|w: int| 0 <= w < i && #[trigger] ks.take(i as int)[w] == k;
                        assert(self.peers.keys()[w] == self.peers.keys()[i as int]);
                    }
                }
                if p < sorted@.len() {
                    let q = sorted@[p as int];
                    lemma_lex_facts(xor_dist(q@, target@), dk@);
                    if xor_dist(q@, target@) == dk@ {
                        lemma_xor_injective(q, k, target@);
                    }
                }
            }
            let ghost before = sorted@;
            sorted.insert(p, k);
            proof {
                let s = sorted@;
                assert forall|a: int, b: int| 0 <= a < b < s.len() implies lex_lt(xor_dist(#[trigger] s[a]@, target@), xor_dist(#[trigger] s[b]@, target@)) by {
                    if b < p {
                    } else if b == p {
                    } else if a < p {
                        assert(s[b] == before[b - 1]);
                        if b - 1 > p {
                            assert(lex_lt(xor_dist(before[p as int]@, target@), xor_dist(before[b - 1]@, target@)));
                            lemma_lex_lt_trans(dk@, xor_dist(before[p as int]@, target@), xor_dist(before[b - 1]@, target@));
                        }
                        lemma_lex_lt_trans(xor_dist(before[a]@, target@), dk@, xor_dist(before[b - 1]@, target@));
                    } else if a == p {
                        assert(s[b] == before[b - 1]);
                        if b - 1 > p {
                            assert(lex_lt(xor_dist(before[p as int]@, target@), xor_dist(before[b - 1]@, target@)));
                            lemma_lex_lt_trans(dk@, xor_dist(before[p as int]@, target@), xor_dist(before[b - 1]@, target@));
                        }
                    } else {
                        assert(s[a] == before[a - 1]);
                        assert(s[b] == before[b - 1]);
                    }
                }
                assert(ks.take(i + 1) =~= ks.take(i as int).push(k));
                assert forall|x: [u8; 32]| s.contains(x) <==> ks.take(i + 1).contains(x) by {
                    if s.contains(x) {
                        let w = choose|w: int| 0 <= w < s.len() && s[w] == x;
                        if w < p {
                            assert(before[w] == x);
                        } else if w > p {
                            assert(before[w - 1] == x);
                        }
                        if x != k {
                            assert(before.contains(x));
                            assert(ks.take(i as int).contains(x));
                            let v = choose|v: int| 0 <= v < i && #[trigger] ks.take(i as int)[v] == x;
                            assert(ks.take(i + 1)[v] == x);
                        } else {
                            assert(ks.take(i + 1)[i as int] == x);
                        }
                    }
                    if ks.take(i + 1).contains(x) {
                        let v = choose|v: int| 0 <= v < i + 1 && #[trigger] ks.take(i + 1)[v] == x;
                        if v < i {
                            assert(ks.take(i as int)[v] == x);
                            assert(before.contains(x));
                            let w = choose|w: int| 0 <= w < before.len() && before[w] == x;
                            if w < p {
                                assert(s[w] == x);
                            } else {
                                assert(s[w + 1] == x);
                            }
                        } else {
                            assert(s[p as int] == x);
                        }
                    }
                }
            }
            i = i + 1;
        }
        let c = if count < n { count } else { n };
        let mut r: Vec<[u8; 32]> = Vec::new();
        let mut j: usize = 0;
        while j < c
            invariant
                j <= c,
                c <= sorted@.len(),
                r@ == sorted@.take(j as int),
            decreases c - j,
        {
            r.push(sorted[j]);
            assert(sorted@.take(j + 1) =~= sorted@.take(j as int).push(sorted@[j as int]));
            j = j + 1;
        }
        proof {
            let s = sorted@;
            assert(ks.take(n as int) =~= ks);
            assert(self.peers.keys().len() == self.peers@.dom().len());
            assert forall|x: [u8; 32]| #[trigger] self.peers@.contains_key(x@) <==> s.contains(x) by {
                if self.peers@.contains_key(x@) {
                    assert(self.peers.keys().contains(x@));
                    let w = choose|w: int| 0 <= w < self.peers.keys().len() && self.peers.keys()[w] == x@;
                    assert(ks[w]@ == x@);
                    assert(ks[w] == x);
                    assert(ks.contains(x));
                }
                if s.contains(x) {
                    let w = choose|w: int| 0 <= w < ks.len() && ks[w] == x;
                    assert(self.peers.keys()[w] == x@);
                }
            }
            assert forall|k: [u8; 32]| #[trigger] self.peers@.contains_key(k@) && !r@.contains(k) implies
                forall|i: int| 0 <= i < r@.len() ==> lex_lt(xor_dist(#[trigger] r@[i]@, target@), xor_dist(k@, target@)) by {
                assert(s.contains(k));
                let w = choose|w: int| 0 <= w < s.len() && s[w] == k;
                if w < c {
                    assert(r@[w] == k);
                }
                assert forall|i: int| 0 <= i < r@.len() implies lex_lt(xor_dist(#[trigger] r@[i]@, target@), xor_dist(k@, target@)) by {
                    assert(r@[i] == s[i]);
                }
            }
            assert forall|i: int| 0 <= i < r@.len() implies self.peers@.contains_key(#[trigger] r@[i]@) by {
                assert(s.contains(s[i]));
            }
        }
        r
    }
}

/// The search terms of a list of words: each word cleaned, the empty ones dropped.
pub open spec fn query_terms(ws: Seq<Seq<char>>) -> Seq<Seq<char>>
    decreases ws.len(),
{
    if ws.len() == 0 {
        Seq::empty()
    } else if clean_word(ws.last()).len() > 0 {
        query_terms(ws.drop_last()).push(clean_word(ws.last()))
    } else {
        query_terms(ws.drop_last())
    }
}

/// The words a text is indexed under.
pub open spec fn indexed_under(text: Seq<char>, w: Seq<char>) -> bool {
    query_terms(ws_words(text)).contains(w)
}

/// Which document comes first in a ranking by count (higher first), then id.
pub open spec fn ranks_before(counts: Map<Seq<u8>, u64>, a: Seq<u8>, b: Seq<u8>) -> bool {
    counts[a] > counts[b] || (counts[a] == counts[b] && lex_lt(a, b))
}

/// The ids of `counts` ranked by count, highest first, ties in ascending id order.
fn rank_counts(counts: &KeyedMap<[u8; 32], u64>, top: u64) -> (r: Vec<[u8; 32]>)
    requires
        forall|d: Seq<u8>| #[trigger] counts@.contains_key(d) ==> 0 < counts@[d] <= top,
    ensures
        ({
            let rv = r@.map_values(|x: [u8; 32]| x@);
            &&& forall|i: int, j: int| 0 <= i < j < rv.len() ==> ranks_before(counts@, #[trigger] rv[i], #[trigger] rv[j])
            &&& forall|i: int| 0 <= i < rv.len() ==> counts@.contains_key(#[trigger] rv[i])
            &&& forall|d: Seq<u8>| #[trigger] counts@.contains_key(d) ==> rv.contains(d)
        }),
{
    let ids = counts.key_list();
    let n = counts.len();
    let ghost m = counts@;
    let ghost ks = counts.keys();
    let mut out: Vec<[u8; 32]> = Vec::new();
    let mut level: u64 = top;
    while level > 0
        invariant
            n == ks.len(),
            ids@.map_values(|x: [u8; 32]| x@) == ks,
            strictly_sorted(ks),
            m == counts@,
            forall|k: int| 0 <= k < ks.len() ==> #[trigger] m.contains_key(ks[k]),
            forall|d: Seq<u8>| #[trigger] m.contains_key(d) ==> ks.contains(d),
            forall|d: Seq<u8>| #[trigger] m.contains_key(d) ==> 0 < m[d] <= top,
            ({
                let ov = out@.map_values(|x: [u8; 32]| x@);
                &&& forall|i: int, j: int| 0 <= i < j < ov.len() ==> ranks_before(m, #[trigger] ov[i], #[trigger] ov[j])
                &&& forall|i: int| 0 <= i < ov.len() ==> m.contains_key(#[trigger] ov[i]) && m[ov[i]] > level
                &&& forall|d: Seq<u8>| #[trigger] m.contains_key(d) && m[d] > level ==> ov.contains(d)
            }),
        decreases level,
    {
        let mut k: usize = 0;
        while k < n
            invariant
                k <= n,
                level > 0,
                n == ks.len(),
                ids@.map_values(|x: [u8; 32]| x@) == ks,
                strictly_sorted(ks),
                m == counts@,
                forall|q: int| 0 <= q < ks.len() ==> #[trigger] m.contains_key(ks[q]),
                forall|d: Seq<u8>| #[trigger] m.contains_key(d) ==> ks.contains(d),
                forall|d: Seq<u8>| #[trigger] m.contains_key(d) ==> 0 < m[d] <= top,
                ({
                    let ov = out@.map_values(|x: [u8; 32]| x@);
                    &&& forall|i: int, j: int| 0 <= i < j < ov.len() ==> ranks_before(m, #[trigger] ov[i], #[trigger] ov[j])
                    &&& forall|i: int| 0 <= i < ov.len() ==> m.contains_key(#[trigger] ov[i])
                        && (m[ov[i]] > level || (m[ov[i]] == level && exists|q: int| 0 <= q < k && ks[q] == ov[i]))
                    &&& forall|d: Seq<u8>| #[trigger] m.contains_key(d) && m[d] > level ==> ov.contains(d)
                    &&& forall|q: int| 0 <= q < k && m[#[trigger] ks[q]] == level ==> ov.contains(ks[q])
                }),
            decreases n - k,
        {
            let id = ids[k];
            proof {
                assert(ids@.map_values(|x: [u8; 32]| x@)[k as int] == id@);
                assert(m.contains_key(ks[k as int]));
            }
            let c = match counts.get(&id) {
                Some(v) => *v,
                None => 0,
            };
            if c == level {
                let ghost ov0 = out@.map_values(|x: [u8; 32]| x@);
                out.push(id);
                proof {
                    let ov = out@.map_values(|x: [u8; 32]| x@);
                    assert(ov =~= ov0.push(id@));
                    assert forall|i: int, j: int| 0 <= i < j < ov.len() implies ranks_before(m, #[trigger] ov[i], #[trigger] ov[j]) by {
                        if j == ov.len() - 1 {
                            assert(ov[j] == ks[k as int]);
                            if m[ov[i]] == level {
                                let q = choose|q: int| 0 <= q < k && ks[q] == ov0[i];
                                assert(lex_lt(ks[q], ks[k as int]));
                            }
                        }
                    }
                    assert forall|d: Seq<u8>| #[trigger] m.contains_key(d) && m[d] > level implies ov.contains(d) by {
                        let w = choose|w: int| 0 <= w < ov0.len() && ov0[w] == d;
                        assert(ov[w] == d);
                    }
                    assert forall|q: int| 0 <= q < k + 1 && m[#[trigger] ks[q]] == level implies ov.contains(ks[q]) by {
                        if q < k {
                            let w = choose|w: int| 0 <= w < ov0.len() && ov0[w] == ks[q];
                            assert(ov[w] == ks[q]);
                        } else {
                            assert(ov[ov.len() - 1] == ks[q]);
                        }
                    }
                    assert forall|i: int| 0 <= i < ov.len() implies m.contains_key(#[trigger] ov[i])
                        && (m[ov[i]] > level || (m[ov[i]] == level && exists|q: int| 0 <= q < k + 1 && ks[q] == ov[i])) by {
                        if i == ov.len() - 1 {
                            assert(ks[k as int] == ov[i]);
                        } else {
                            assert(ov[i] == ov0[i]);
                        }
                    }
                }
            } else {
                proof {
                    let ov = out@.map_values(|x: [u8; 32]| x@);
                    assert forall|i: int| 0 <= i < ov.len() implies m.contains_key(#[trigger] ov[i])
                        && (m[ov[i]] > level || (m[ov[i]] == level && exists|q: int| 0 <= q < k + 1 && ks[q] == ov[i])) by {
                        if m[ov[i]] == level {
                            let q = choose|q: int| 0 <= q < k && ks[q] == ov[i];
                            assert(0 <= q < k + 1 && ks[q] == ov[i]);
                        }
                    }
                }
            }
            k = k + 1;
        }
        proof {
            let ov = out@.map_values(|x: [u8; 32]| x@);
            assert forall|d: Seq<u8>| #[trigger] m.contains_key(d) && m[d] > level - 1 implies ov.contains(d) by {
                if m[d] == level {
                    let q = choose|q: int| 0 <= q < ks.len() && ks[q] == d;
                    assert(m[ks[q]] == level);
                }
            }
        }
        level = level - 1;
    }
    out
}

#[derive(Debug)]
pub struct InvertedSearchIndex {
    pub index: KeyedMap<String, KeyedMap<[u8; 32], ()>>,
}

impl InvertedSearchIndex {
    pub fn new() -> (r: Self)
        ensures
            r.index@ == Map::<Seq<u8>, KeyedMap<[u8; 32], ()>>::empty(),
    {
        InvertedSearchIndex { index: KeyedMap::new() }
    }

    /// The documents indexed under a word.
    pub open spec fn docs(&self, w: Seq<char>) -> Set<Seq<u8>> {
        let k = vstd::utf8::encode_utf8(w);
        if self.index@.contains_key(k) { self.index@[k]@.dom() } else { Set::empty() }
    }

    /// How many of the terms index the document (a repeated term counts again).
    pub open spec fn hits(&self, ts: Seq<Seq<char>>, d: Seq<u8>) -> nat
        decreases ts.len(),
    {
        if ts.len() == 0 {
            0
        } else {
            self.hits(ts.drop_last(), d) + if self.docs(ts.last()).contains(d) { 1nat } else { 0nat }
        }
    }

    proof fn lemma_hits_bound(&self, ts: Seq<Seq<char>>, d: Seq<u8>)
        ensures
            self.hits(ts, d) <= ts.len(),
        decreases ts.len(),
    {
        if ts.len() > 0 {
            self.lemma_hits_bound(ts.drop_last(), d);
        }
    }

    /// Indexes the document under each of its words, reduced to their alphanumeric
    /// characters and lowercased; words that reduce to nothing are skipped.
    pub fn index_document(&mut self, doc_id: [u8; 32], text: &str)
        ensures
            forall|w: Seq<char>| #[trigger] final(self).docs(w)
                == if indexed_under(text@, w) { old(self).docs(w).insert(doc_id@) } else { old(self).docs(w) },
    {
        broadcast use vstd::utf8::encode_utf8_decode_utf8;
        let words = split_whitespace_exec(text);
        let ghost wv = words@.map_values(|w: Vec<char>| w@);
        let mut i: usize = 0;
        while i < words.len()
            invariant
                i <= words@.len(),
                wv == words@.map_values(|w: Vec<char>| w@),
                wv == ws_words(text@),
                forall|w: Seq<char>| #[trigger] self.docs(w)
                    == if query_terms(wv.take(i as int)).contains(w) { old(self).docs(w).insert(doc_id@) } else { old(self).docs(w) },
            decreases words@.len() - i,
        {
            proof {
                assert(wv.take(i + 1).drop_last() =~= wv.take(i as int));
                assert(wv.take(i + 1).last() == words@[i as int]@);
            }
            let clean = clean_word_exec(&words[i]);
            if !clean.as_str().is_empty() {
                let ghost before = *self;
                let mut set = match self.index.remove(&clean) {
                    Some(st) => st,
                    None => KeyedMap::new(),
                };
                set.insert(doc_id, ());
                self.index.insert(clean, set);
                proof {
                    let t0 = query_terms(wv.take(i as int));
                    assert(query_terms(wv.take(i + 1)) == t0.push(clean@));
                    assert forall|w: Seq<char>| #[trigger] self.docs(w)
                        == if query_terms(wv.take(i + 1)).contains(w) { old(self).docs(w).insert(doc_id@) } else { old(self).docs(w) } by {
                        if w == clean@ {
                            assert(t0.push(clean@)[t0.len() as int] == w);
                            assert(self.docs(w) =~= before.docs(w).insert(doc_id@));
                        } else {
                            vstd::utf8::encode_utf8_decode_utf8(w);
                            vstd::utf8::encode_utf8_decode_utf8(clean@);
                            assert(self.docs(w) == before.docs(w));
                            if t0.push(clean@).contains(w) {
                                let q = choose|q: int| 0 <= q < t0.len() + 1 && t0.push(clean@)[q] == w;
                                assert(t0[q] == w);
                            }
                            if t0.contains(w) {
                                let q = choose|q: int| 0 <= q < t0.len() && t0[q] == w;
                                assert(t0.push(clean@)[q] == w);
                            }
                        }
                    }
                }
            } else {
                proof {
                    assert(query_terms(wv.take(i + 1)) == query_terms(wv.take(i as int)));
                }
            }
            i = i + 1;
        }
        proof {
            assert(wv.take(words@.len() as int) =~= wv);
        }
    }

    /// The documents indexed under any of the query's terms, ranked by how many
    /// terms index them (highest first; a repeated term counts again), ties in
    /// ascending id order. A query with no terms finds nothing.
    pub fn search(&self, query: &str) -> (r: Vec<[u8; 32]>)
        ensures
            ({
                let ts = query_terms(ws_words(query@));
                let rv = r@.map_values(|x: [u8; 32]| x@);
                &&& forall|i: int| 0 <= i < rv.len() ==> self.hits(ts, #[trigger] rv[i]) > 0
                &&& forall|d: Seq<u8>| self.hits(ts, d) > 0 ==> #[trigger] rv.contains(d)
                &&& forall|i: int, j: int| 0 <= i < j < rv.len() ==> {
                    let (a, b) = (#[trigger] rv[i], #[trigger] rv[j]);
                    self.hits(ts, a) > self.hits(ts, b) || (self.hits(ts, a) == self.hits(ts, b) && lex_lt(a, b))
                }
            }),
    {
        let words = split_whitespace_exec(query);
        let ghost wv = words@.map_values(|w: Vec<char>| w@);
        let mut terms: Vec<String> = Vec::new();
        let mut i: usize = 0;
        while i < words.len()
            invariant
                i <= words@.len(),
                wv == words@.map_values(|w: Vec<char>| w@),
                terms@.map_values(|t: String| t@) == query_terms(wv.take(i as int)),
            decreases words@.len() - i,
        {
            proof {
                assert(wv.take(i + 1).drop_last() =~= wv.take(i as int));
                assert(wv.take(i + 1).last() == words@[i as int]@);
            }
            let clean = clean_word_exec(&words[i]);
            if !clean.as_str().is_empty() {
                terms.push(clean);
                proof {
                    assert(terms@.map_values(|t: String| t@) =~= query_terms(wv.take(i as int)).push(clean@));
                }
            }
            i = i + 1;
        }
        proof {
            assert(wv.take(words@.len() as int) =~= wv);
        }
        let ghost ts = terms@.map_values(|t: String| t@);
        let nt = terms.len();
        if nt == 0 {
            return Vec::new();
        }
        let mut counts: KeyedMap<[u8; 32], u64> = KeyedMap::new();
        let mut j: usize = 0;
        while j < nt
            invariant
                j <= nt,
                nt == terms@.len(),
                nt <= u64::MAX,
                ts == terms@.map_values(|t: String| t@),
                forall|d: Seq<u8>| #[trigger] counts@.contains_key(d) ==> counts@[d] > 0,
                forall|d: Seq<u8>| (if #[trigger] counts@.contains_key(d) { counts@[d] as nat } else { 0nat })
                    == self.hits(ts.take(j as int), d),
            decreases nt - j,
        {
            proof {
                assert(ts.take(j + 1).drop_last() =~= ts.take(j as int));
                assert(ts.take(j + 1).last() == terms@[j as int]@);
            }
            match self.index.get(&terms[j]) {
                Some(set) => {
                    let ids = set.key_list();
                    let ns = set.len();
                    let ghost ks = set.keys();
                    let ghost c0 = counts@;
                    proof {
                        lemma_sorted_keys_distinct(ks);
                        assert forall|d: Seq<u8>| #[trigger] c0.contains_key(d) implies c0[d] <= j by {
                            self.lemma_hits_bound(ts.take(j as int), d);
                        }
                    }
                    let mut k: usize = 0;
                    while k < ns
                        invariant
                            k <= ns,
                            ns == ks.len(),
                            ids@.map_values(|x: [u8; 32]| x@) == ks,
                            forall|a: int, b: int| 0 <= a < b < ks.len() ==> ks[a] != ks[b],
                            forall|d: Seq<u8>| #[trigger] c0.contains_key(d) ==> c0[d] > 0,
                            forall|d: Seq<u8>| #[trigger] c0.contains_key(d) ==> c0[d] <= j,
                            forall|d: Seq<u8>| #[trigger] counts@.contains_key(d) ==> counts@[d] > 0,
                            forall|d: Seq<u8>| (if #[trigger] counts@.contains_key(d) { counts@[d] as nat } else { 0nat })
                                == (if c0.contains_key(d) { c0[d] as nat } else { 0nat })
                                    + if ks.take(k as int).contains(d) { 1nat } else { 0nat },
                            j < nt,
                            nt <= u64::MAX,
                        decreases ns - k,
                    {
                        let id = ids[k];
                        proof {
                            assert(ids@.map_values(|x: [u8; 32]| x@)[k as int] == id@);
                            assert(!ks.take(k as int).contains(id@)) by {
                                if ks.take(k as int).contains(id@) {
                                    let q = choose|q: int| 0 <= q < k && #[trigger] ks.take(k as int)[q] == id@;
                                    assert(ks[q] == ks[k as int]);
                                }
                            }
                        }
                        let cur: u64 = match counts.get(&id) {
                            Some(v) => *v,
                            None => 0,
                        };
                        counts.insert(id, cur + 1);
                        proof {
                            assert forall|d: Seq<u8>| #[trigger] ks.take(k + 1).contains(d) == (ks.take(k as int).contains(d) || d == id@) by {
                                if ks.take(k + 1).contains(d) && d != id@ {
                                    let q = choose|q: int| 0 <= q < k + 1 && #[trigger] ks.take(k + 1)[q] == d;
                                    assert(ks.take(k as int)[q] == d);
                                }
                                if ks.take(k as int).contains(d) {
                                    let q = choose|q: int| 0 <= q < k && #[trigger] ks.take(k as int)[q] == d;
                                    assert(ks.take(k + 1)[q] == d);
                                }
                                if d == id@ {
                                    assert(ks.take(k + 1)[k as int] == d);
                                }
                            }
                        }
                        k = k + 1;
                    }
                    proof {
                        assert(ks.take(ns as int) =~= ks);
                        assert forall|d: Seq<u8>| #[trigger] ks.contains(d) == set@.contains_key(d) by {
                            if ks.contains(d) {
                                let q = choose|q: int| 0 <= q < ks.len() && ks[q] == d;
                                assert(set@.contains_key(ks[q]));
                            }
                        }
                    }
                }
                None => {
                    proof {
                        assert(!self.index@.contains_key(vstd::utf8::encode_utf8(terms@[j as int]@)));
                    }
                }
            }
            j = j + 1;
        }
        proof {
            assert(ts.take(nt as int) =~= ts);
            assert forall|d: Seq<u8>| #[trigger] counts@.contains_key(d) implies 0 < counts@[d] <= nt by {
                self.lemma_hits_bound(ts, d);
            }
        }
        let r = rank_counts(&counts, nt as u64);
        proof {
            let rv = r@.map_values(|x: [u8; 32]| x@);
            assert forall|d: Seq<u8>| self.hits(ts, d) > 0 implies #[trigger] rv.contains(d) by {
                if !counts@.contains_key(d) {
                    assert((if counts@.contains_key(d) { counts@[d] as nat } else { 0nat }) == self.hits(ts, d));
                }
            }
            assert forall|i: int| 0 <= i < rv.len() implies self.hits(ts, #[trigger] rv[i]) > 0 by {
                assert(counts@.contains_key(rv[i]));
            }
            assert forall|i: int, j: int| 0 <= i < j < rv.len() implies {
                let (a, b) = (#[trigger] rv[i], #[trigger] rv[j]);
                self.hits(ts, a) > self.hits(ts, b) || (self.hits(ts, a) == self.hits(ts, b) && lex_lt(a, b))
            } by {
                assert(counts@.contains_key(rv[i]));
                assert(counts@.contains_key(rv[j]));
                assert(ranks_before(counts@, rv[i], rv[j]));
            }
        }
        r
    }
}

#[derive(Debug)]
pub struct TopicPubSub {
    pub topics: KeyedMap<[u8; 32], KeyedMap<[u8; 32], ()>>,
}

impl TopicPubSub {
    pub fn new() -> (r: Self)
        ensures
            r.topics@ == Map::<Seq<u8>, KeyedMap<[u8; 32], ()>>::empty(),
    {
        TopicPubSub { topics: KeyedMap::new() }
    }

    /// The subscribers of a topic.
    pub open spec fn subscribers(&self, topic: Seq<u8>) -> Set<Seq<u8>> {
        if self.topics@.contains_key(topic) { self.topics@[topic]@.dom() } else { Set::empty() }
    }

    pub fn subscribe(&mut self, topic: [u8; 32], subscriber: [u8; 32])
        ensures
            forall|t: Seq<u8>| #[trigger] final(self).subscribers(t)
                == if t == topic@ { old(self).subscribers(t).insert(subscriber@) } else { old(self).subscribers(t) },
    {
        let mut set = match self.topics.remove(&topic) {
            Some(s) => s,
            None => KeyedMap::new(),
        };
        set.insert(subscriber, ());
        self.topics.insert(topic, set);
        proof {
            assert forall|t: Seq<u8>| #[trigger] self.subscribers(t)
                == if t == topic@ { old(self).subscribers(t).insert(subscriber@) } else { old(self).subscribers(t) } by {
                if t == topic@ {
                    assert(self.subscribers(t) =~= old(self).subscribers(t).insert(subscriber@));
                }
            }
        }
    }

    /// The topic's subscribers in ascending id order.
    pub fn publish(&self, topic: &[u8; 32]) -> (r: Vec<[u8; 32]>)
        ensures
            self.topics@.contains_key(topic@) ==> r@.map_values(|x: [u8; 32]| x@) == self.topics@[topic@].keys(),
            !self.topics@.contains_key(topic@) ==> r@.len() == 0,
    {
        match self.topics.get(topic) {
            Some(set) => set.key_list(),
            None => Vec::new(),
        }
    }
}

} // verus!
