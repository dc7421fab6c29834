//! An ordered map keyed by byte strings (32-byte identifiers or UTF-8 names),
//! kept as a vector sorted strictly by the keys' bytes. It iterates in the
//! same order as a `BTreeMap` over such keys.

use vstd::prelude::*;
use crate::bytes::{lex_lt, compare_bytes, lemma_lex_order_eq, lemma_lex_order_antisym, lemma_lex_lt_trans, lemma_lex_order_range};

verus! {

/// A key whose order is the lexicographic order of its bytes.
pub trait MapKey: Sized {
    spec fn key_view(&self) -> Seq<u8>;

    fn key_bytes(&self) -> (b: &[u8])
        ensures
            b@ == self.key_view();
}

impl MapKey for [u8; 32] {
    open spec fn key_view(&self) -> Seq<u8> {
        self@
    }

    fn key_bytes(&self) -> (b: &[u8]) {
        self.as_slice()
    }
}

impl MapKey for [u8; 2] {
    open spec fn key_view(&self) -> Seq<u8> {
        self@
    }

    fn key_bytes(&self) -> (b: &[u8]) {
        self.as_slice()
    }
}

impl MapKey for [u8; 64] {
    open spec fn key_view(&self) -> Seq<u8> {
        self@
    }

    fn key_bytes(&self) -> (b: &[u8]) {
        self.as_slice()
    }
}

impl MapKey for Vec<u8> {
    open spec fn key_view(&self) -> Seq<u8> {
        self@
    }

    fn key_bytes(&self) -> (b: &[u8]) {
        self.as_slice()
    }
}

impl MapKey for String {
    open spec fn key_view(&self) -> Seq<u8> {
        vstd::utf8::encode_utf8(self@)
    }

    fn key_bytes(&self) -> (b: &[u8]) {
        self.as_str().as_bytes()
    }
}

#[derive(Debug)]
pub struct KeyedMap<K: MapKey, V> {
    entries: Vec<(K, V)>,
}

pub open spec fn strictly_sorted(ks: Seq<Seq<u8>>) -> bool {
    forall|i: int, j: int| 0 <= i < j < ks.len() ==> lex_lt(#[trigger] ks[i], #[trigger] ks[j])
}

/// Strictly sorted keys are pairwise distinct.
pub proof fn lemma_sorted_keys_distinct(ks: Seq<Seq<u8>>)
    requires
        strictly_sorted(ks),
    ensures
        forall|a: int, b: int| 0 <= a < b < ks.len() ==> ks[a] != ks[b],
{
    assert forall|a: int, b: int| 0 <= a < b < ks.len() implies ks[a] != ks[b] by {
        if ks[a] == ks[b] {
            lemma_sorted_distinct(ks, a, b);
        }
    }
}

proof fn lemma_sorted_distinct(ks: Seq<Seq<u8>>, i: int, j: int)
    requires
        strictly_sorted(ks),
        0 <= i < ks.len(),
        0 <= j < ks.len(),
        ks[i] == ks[j],
    ensures
        i == j,
{
    if i < j {
        lemma_lex_order_eq(ks[i], ks[j]);
    } else if j < i {
        lemma_lex_order_eq(ks[j], ks[i]);
    }
}

impl<K: MapKey, V> KeyedMap<K, V> {
    /// The entries in ascending key order.
    pub closed spec fn entries_view(&self) -> Seq<(K, V)> {
        self.entries@
    }

    /// The keys' bytes in ascending order.
    pub open spec fn keys(&self) -> Seq<Seq<u8>> {
        self.entries_view().map_values(|e: (K, V)| e.0.key_view())
    }

    #[verifier::type_invariant]
    closed spec fn inv(&self) -> bool {
        strictly_sorted(self.keys())
    }

    pub open spec fn index_of_key(&self, k: Seq<u8>) -> int {
        choose|i: int| 0 <= i < self.keys().len() && self.keys()[i] == k
    }

    /// Value lookup by a key's bytes (meaningful for keys in the map).
    pub open spec fn spec_get(&self, k: Seq<u8>) -> V {
        self.entries_view()[self.index_of_key(k)].1
    }

    proof fn lemma_index(&self, i: int)
        requires
            strictly_sorted(self.keys()),
            0 <= i < self.keys().len(),
        ensures
            self@.contains_key(self.keys()[i]),
            self.index_of_key(self.keys()[i]) == i,
            self@[self.keys()[i]] == self.entries_view()[i].1,
    {
        let k = self.keys()[i];
        assert(self.keys().contains(k));
        let j = self.index_of_key(k);
        lemma_sorted_distinct(self.keys(), i, j);
    }

    pub fn new() -> (r: Self)
        ensures
            r@ == Map::<Seq<u8>, V>::empty(),
            r.keys() == Seq::<Seq<u8>>::empty(),
    {
        let r = KeyedMap { entries: Vec::new() };
        assert(r@ =~= Map::<Seq<u8>, V>::empty());
        assert(r.keys() =~= Seq::<Seq<u8>>::empty());
        r
    }

    /// Number of entries; also reports that the keys are sorted and are the map's domain.
    pub fn len(&self) -> (r: usize)
        ensures
            r == self.keys().len(),
            r == self.entries_view().len(),
            strictly_sorted(self.keys()),
            forall|i: int| 0 <= i < self.keys().len() ==> #[trigger] self@.contains_key(self.keys()[i])
                && self@[self.keys()[i]] == self.entries_view()[i].1,
            forall|k: Seq<u8>| #[trigger] self@.contains_key(k) ==> self.keys().contains(k),
            r == self@.dom().len(),
            self@.dom().finite(),
    {
        proof {
            use_type_invariant(self);
            lemma_sorted_keys_distinct(self.keys());
            assert(self@.dom() =~= self.keys().to_set());
            assert(self.keys().no_duplicates());
            self.keys().unique_seq_to_set();
            assert forall|i: int| 0 <= i < self.keys().len() implies #[trigger] self@.contains_key(self.keys()[i])
                && self@[self.keys()[i]] == self.entries_view()[i].1 by {
                self.lemma_index(i);
            }
        }
        self.entries.len()
    }

    pub fn key_at(&self, i: usize) -> (r: &K)
        requires
            i < self.keys().len(),
        ensures
            *r == self.entries_view()[i as int].0,
            r.key_view() == self.keys()[i as int],
    {
        &self.entries[i].0
    }

    pub fn value_at(&self, i: usize) -> (r: &V)
        requires
            i < self.keys().len(),
        ensures
            *r == self.entries_view()[i as int].1,
            *r == self@[self.keys()[i as int]],
    {
        proof {
            use_type_invariant(self);
            self.lemma_index(i as int);
        }
        &self.entries[i].1
    }

    /// The first position whose key is not below `kb`, and whether it holds `kb`.
    fn find(&self, kb: &[u8]) -> (r: (usize, bool))
        ensures
            r.0 <= self.keys().len(),
            forall|i: int| 0 <= i < r.0 ==> lex_lt(#[trigger] self.keys()[i], kb@),
            r.1 ==> r.0 < self.keys().len() && self.keys()[r.0 as int] == kb@,
            !r.1 ==> forall|i: int| r.0 <= i < self.keys().len() ==> lex_lt(kb@, #[trigger] self.keys()[i]),
            r.1 == self.keys().contains(kb@),
    {
        proof {
            use_type_invariant(self);
        }
        let n = self.entries.len();
        let mut i: usize = 0;
        while i < n
            invariant
                n == self.keys().len(),
                i <= n,
                strictly_sorted(self.keys()),
                forall|j: int| 0 <= j < i ==> lex_lt(#[trigger] self.keys()[j], kb@),
            decreases n - i,
        {
            let c = compare_bytes(self.entries[i].0.key_bytes(), kb);
            if c >= 0 {
                let found = c == 0;
                proof {
                    let ki = self.keys()[i as int];
                    lemma_lex_order_eq(ki, kb@);
                    lemma_lex_order_antisym(ki, kb@);
                    lemma_lex_order_range(ki, kb@);
                    if !found {
                        assert(lex_lt(kb@, ki));
                        assert forall|j: int| i <= j < self.keys().len() implies lex_lt(kb@, #[trigger] self.keys()[j]) by {
                            if j > i {
                                lemma_lex_lt_trans(kb@, ki, self.keys()[j]);
                            }
                        }
                        if self.keys().contains(kb@) {
                            let w = choose|w: int| 0 <= w < self.keys().len() && self.keys()[w] == kb@;
                            lemma_lex_order_eq(kb@, kb@);
                            if w >= i {
                                assert(lex_lt(kb@, self.keys()[w]));
                            } else {
                                assert(lex_lt(self.keys()[w], kb@));
                            }
                        }
                    } else {
                        assert(self.keys().contains(kb@));
                    }
                }
                return (i, found);
            }
            i = i + 1;
        }
        proof {
            if self.keys().contains(kb@) {
                let w = choose|w: int| 0 <= w < self.keys().len() && self.keys()[w] == kb@;
                lemma_lex_order_eq(kb@, kb@);
                assert(lex_lt(self.keys()[w], kb@));
            }
        }
        (n, false)
    }

    pub fn contains_key(&self, k: &K) -> (r: bool)
        ensures
            r == self@.contains_key(k.key_view()),
    {
        let (_, found) = self.find(k.key_bytes());
        found
    }

    pub fn get(&self, k: &K) -> (r: Option<&V>)
        ensures
            match r {
                Some(v) => self@.contains_key(k.key_view()) && *v == self@[k.key_view()],
                None => !self@.contains_key(k.key_view()),
            },
    {
        proof {
            use_type_invariant(self);
        }
        let (p, found) = self.find(k.key_bytes());
        if found {
            proof {
                self.lemma_index(p as int);
            }
            Some(&self.entries[p].1)
        } else {
            None
        }
    }

    /// Inserts or replaces the value under `k`; returns the value it replaced.
    pub fn insert(&mut self, k: K, v: V) -> (r: Option<V>)
        ensures
            final(self)@ == old(self)@.insert(k.key_view(), v),
            match r {
                Some(ov) => old(self)@.contains_key(k.key_view()) && ov == old(self)@[k.key_view()],
                None => !old(self)@.contains_key(k.key_view()),
            },
    {
        proof {
            use_type_invariant(&*self);
        }
        let ghost kv = k.key_view();
        let ghost old_map = *self;
        let (p, found) = self.find(k.key_bytes());
        let mut entries: Vec<(K, V)> = Vec::new();
        std::mem::swap(&mut entries, &mut self.entries);
        let ghost old_entries = entries@;
        let r = if found {
            proof {
                old_map.lemma_index(p as int);
            }
            let (_, ov) = entries.remove(p);
            entries.insert(p, (k, v));
            Some(ov)
        } else {
            entries.insert(p, (k, v));
            None
        };
        let ghost nm = KeyedMap::<K, V> { entries };
        proof {
            let oks = old_map.keys();
            let nks = nm.keys();
            if found {
                assert(nks =~= oks.update(p as int, kv));
            } else {
                assert(nks =~= oks.insert(p as int, kv));
            }
            assert(strictly_sorted(nks)) by {
                assert forall|i: int, j: int| 0 <= i < j < nks.len() implies lex_lt(#[trigger] nks[i], #[trigger] nks[j]) by {
                    if found {
                        if i == p {
                            assert(lex_lt(oks[i], oks[j]));
                        } else if j == p {
                            assert(lex_lt(oks[i], oks[j]));
                        } else {
                            assert(lex_lt(oks[i], oks[j]));
                        }
                    } else {
                        if i < p && j == p {
                        } else if i == p {
                            assert(lex_lt(kv, oks[j - 1]));
                        } else if i < p && j > p {
                            assert(lex_lt(oks[i], oks[j - 1]));
                        } else if i > p {
                            assert(lex_lt(oks[i - 1], oks[j - 1]));
                        }
                    }
                }
            }
            assert(nm.index_of_key(kv) == p) by {
                assert(nks[p as int] == kv);
                nm.lemma_index(p as int);
            }
            assert forall|x: Seq<u8>| #[trigger] nm@.contains_key(x) == old_map@.insert(kv, v).contains_key(x) by {
                if nm@.contains_key(x) {
                    let i = choose|i: int| 0 <= i < nks.len() && nks[i] == x;
                    if x != kv {
                        if found || i < p {
                            assert(oks[i] == x);
                        } else {
                            assert(oks[i - 1] == x);
                        }
                        assert(oks.contains(x));
                    }
                }
                if old_map@.contains_key(x) && x != kv {
                    let j = choose|j: int| 0 <= j < oks.len() && oks[j] == x;
                    if found || j < p {
                        assert(nks[j] == x);
                    } else {
                        assert(nks[j + 1] == x);
                    }
                    assert(nks.contains(x));
                }
                if x == kv {
                    assert(nks[p as int] == kv);
                    assert(nks.contains(x));
                }
            }
            assert forall|x: Seq<u8>| nm@.contains_key(x) && x != kv implies #[trigger] nm@[x] == old_map@[x] by {
                let j = choose|j: int| 0 <= j < oks.len() && oks[j] == x;
                old_map.lemma_index(j);
                let jn = if found || j < p { j } else { j + 1 };
                assert(nks[jn] == x);
                nm.lemma_index(jn);
            }
            assert(nm@ =~= old_map@.insert(kv, v));
        }
        self.entries = entries;
        r
    }

    /// Removes the entry under `k`; returns its value.
    pub fn remove(&mut self, k: &K) -> (r: Option<V>)
        ensures
            final(self)@ == old(self)@.remove(k.key_view()),
            match r {
                Some(ov) => old(self)@.contains_key(k.key_view()) && ov == old(self)@[k.key_view()],
                None => !old(self)@.contains_key(k.key_view()),
            },
    {
        proof {
            use_type_invariant(&*self);
        }
        let ghost kv = k.key_view();
        let ghost old_map = *self;
        let (p, found) = self.find(k.key_bytes());
        if !found {
            proof {
                assert(old_map@.remove(kv) =~= old_map@);
            }
            return None;
        }
        let mut entries: Vec<(K, V)> = Vec::new();
        std::mem::swap(&mut entries, &mut self.entries);
        proof {
            old_map.lemma_index(p as int);
        }
        let (_, ov) = entries.remove(p);
        let ghost nm = KeyedMap::<K, V> { entries };
        proof {
            let oks = old_map.keys();
            let nks = nm.keys();
            assert(nks =~= oks.remove(p as int));
            assert(strictly_sorted(nks)) by {
                assert forall|i: int, j: int| 0 <= i < j < nks.len() implies lex_lt(#[trigger] nks[i], #[trigger] nks[j]) by {
                    if j < p {
                        assert(lex_lt(oks[i], oks[j]));
                    } else if i < p {
                        assert(lex_lt(oks[i], oks[j + 1]));
                    } else {
                        assert(lex_lt(oks[i + 1], oks[j + 1]));
                    }
                }
            }
            assert forall|x: Seq<u8>| #[trigger] nm@.contains_key(x) == old_map@.remove(kv).contains_key(x) by {
                if nm@.contains_key(x) {
                    let i = choose|i: int| 0 <= i < nks.len() && nks[i] == x;
                    let io = if i < p { i } else { i + 1 };
                    assert(oks[io] == x);
                    assert(oks.contains(x));
                    if x == kv {
                        lemma_sorted_distinct(oks, io, p as int);
                    }
                }
                if old_map@.contains_key(x) && x != kv {
                    let j = choose|j: int| 0 <= j < oks.len() && oks[j] == x;
                    assert(j != p);
                    if j < p {
                        assert(nks[j] == x);
                    } else {
                        assert(nks[j - 1] == x);
                    }
                    assert(nks.contains(x));
                }
            }
            assert forall|x: Seq<u8>| nm@.contains_key(x) implies #[trigger] nm@[x] == old_map@.remove(kv)[x] by {
                let i = choose|i: int| 0 <= i < nks.len() && nks[i] == x;
                nm.lemma_index(i);
                let io = if i < p { i } else { i + 1 };
                assert(oks[io] == x);
                old_map.lemma_index(io);
            }
            assert(nm@ =~= old_map@.remove(kv));
        }
        self.entries = entries;
        Some(ov)
    }

    /// The keys in ascending order.
    pub fn key_list(&self) -> (r: Vec<K>)
        where K: Copy,
        ensures
            r@.map_values(|k: K| k.key_view()) == self.keys(),
            r@ == self.entries_view().map_values(|e: (K, V)| e.0),
    {
        let n = self.entries.len();
        let mut r: Vec<K> = Vec::new();
        let mut i: usize = 0;
        while i < n
            invariant
                i <= n,
                n == self.entries_view().len(),
                r@ == self.entries_view().take(i as int).map_values(|e: (K, V)| e.0),
            decreases n - i,
        {
            let k = self.entries[i].0;
            r.push(k);
            assert(self.entries_view().take(i + 1) =~= self.entries_view().take(i as int).push(self.entries_view()[i as int]));
            assert(r@ =~= self.entries_view().take(i + 1).map_values(|e: (K, V)| e.0));
            i = i + 1;
        }
        assert(self.entries_view().take(n as int) =~= self.entries_view());
        assert(r@.map_values(|k: K| k.key_view()) =~= self.keys());
        r
    }

    /// Removes every key listed in `ks`.
    pub fn remove_all(&mut self, ks: &Vec<K>)
        ensures
            forall|k: Seq<u8>| #[trigger] final(self)@.contains_key(k)
                == (old(self)@.contains_key(k) && !ks@.map_values(|x: K| x.key_view()).contains(k)),
            forall|k: Seq<u8>| #[trigger] final(self)@.contains_key(k) ==> final(self)@[k] == old(self)@[k],
    {
        let ghost ids = ks@.map_values(|x: K| x.key_view());
        let ghost m = self@;
        let mut j: usize = 0;
        while j < ks.len()
            invariant
                j <= ks@.len(),
                ids == ks@.map_values(|x: K| x.key_view()),
                forall|k: Seq<u8>| #[trigger] self@.contains_key(k)
                    == (m.contains_key(k) && !ids.take(j as int).contains(k)),
                forall|k: Seq<u8>| #[trigger] self@.contains_key(k) ==> self@[k] == m[k],
            decreases ks@.len() - j,
        {
            self.remove(&ks[j]);
            proof {
                assert(ids.take(j + 1) =~= ids.take(j as int).push(ids[j as int]));
                assert forall|k: Seq<u8>| #[trigger] self@.contains_key(k)
                    == (m.contains_key(k) && !ids.take(j + 1).contains(k)) by {
                    if ids.take(j + 1).contains(k) && k != ids[j as int] {
                        let w = choose|w: int| 0 <= w < j + 1 && #[trigger] ids.take(j + 1)[w] == k;
                        assert(ids.take(j as int)[w] == k);
                    }
                    if ids.take(j as int).contains(k) {
                        let w = choose|w: int| 0 <= w < j && #[trigger] ids.take(j as int)[w] == k;
                        assert(ids.take(j + 1)[w] == k);
                    }
                    if k == ids[j as int] {
                        assert(ids.take(j + 1)[j as int] == k);
                    }
                }
            }
            j = j + 1;
        }
        assert(ids.take(ks@.len() as int) =~= ids);
    }
}

impl<K: MapKey, V> View for KeyedMap<K, V> {
    type V = Map<Seq<u8>, V>;

    open spec fn view(&self) -> Map<Seq<u8>, V> {
        Map::new(|k: Seq<u8>| self.keys().contains(k), |k: Seq<u8>| self.spec_get(k))
    }
}

/// The index `m` with `x` listed under `k` (appended once).
pub open spec fn with_member(m: Map<Seq<u8>, Seq<[u8; 32]>>, k: Seq<u8>, x: [u8; 32]) -> Map<Seq<u8>, Seq<[u8; 32]>> {
    if m.contains_key(k) {
        if m[k].contains(x) { m } else { m.insert(k, m[k].push(x)) }
    } else {
        m.insert(k, seq![x])
    }
}

/// The index's lists as plain sequences.
pub open spec fn index_view(m: Map<Seq<u8>, Vec<[u8; 32]>>) -> Map<Seq<u8>, Seq<[u8; 32]>> {
    m.map_values(|v: Vec<[u8; 32]>| v@)
}

/// Whether `x` occurs in `v`.
pub fn list_contains(v: &Vec<[u8; 32]>, x: &[u8; 32]) -> (r: bool)
    ensures
        r == v@.contains(*x),
{
    let mut i: usize = 0;
    while i < v.len()
        invariant
            i <= v@.len(),
            forall|j: int| 0 <= j < i ==> v@[j] != *x,
        decreases v@.len() - i,
    {
        if crate::bytes::id_eq(&v[i], x) {
            assert(v@[i as int] == *x);
            return true;
        }
        i = i + 1;
    }
    false
}

/// Lists `x` under `k` in an index of 32-byte ids, unless it is already there.
pub fn add_member(idx: &mut KeyedMap<[u8; 32], Vec<[u8; 32]>>, k: [u8; 32], x: [u8; 32])
    ensures
        index_view(final(idx)@) == with_member(index_view(old(idx)@), k@, x),
{
    let ghost m = idx@;
    match idx.remove(&k) {
        Some(v) => {
            let mut v = v;
            if !list_contains(&v, &x) {
                v.push(x);
            }
            idx.insert(k, v);
            proof {
                assert(idx@ =~= m.insert(k@, v));
                assert(index_view(idx@) =~= with_member(index_view(m), k@, x));
            }
        }
        None => {
            let mut v: Vec<[u8; 32]> = Vec::new();
            v.push(x);
            idx.insert(k, v);
            proof {
                assert(v@ =~= seq![x]);
                assert(index_view(idx@) =~= with_member(index_view(m), k@, x));
            }
        }
    }
}

} // verus!
