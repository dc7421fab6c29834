//! Orphan mutations waiting for missing parents, bounded in size and in age.

use vstd::prelude::*;
use crate::keyed_map::KeyedMap;
use crate::model::{Mutation, MutationID};

verus! {

pub const MAX_DEPENDENCY_BUFFER_ENTRIES: usize = 512;
pub const DEPENDENCY_TTL_EPOCHS: u64 = 300;

/// A buffered mutation, the parents it still waits for, and the epoch it arrived in.
pub type BufferEntry = (Mutation, KeyedMap<MutationID, ()>, u64);

#[derive(Debug)]
pub struct BoundedDependencyBuffer {
    pub entries: KeyedMap<MutationID, BufferEntry>,
}

/// An entry inserted at `inserted` has outlived its time to live at `now`.
pub open spec fn ttl_expired(inserted: u64, now: u64) -> bool {
    now > inserted && now - inserted > DEPENDENCY_TTL_EPOCHS
}

/// Position `i` holds the oldest entry, the first one among equally old entries.
pub open spec fn is_oldest(ks: Seq<Seq<u8>>, m: Map<Seq<u8>, BufferEntry>, i: int) -> bool {
    &&& 0 <= i < ks.len()
    &&& forall|j: int| 0 <= j < ks.len() ==> m[ks[i]].2 <= #[trigger] m[ks[j]].2
    &&& forall|j: int| 0 <= j < i ==> m[ks[i]].2 < #[trigger] m[ks[j]].2
}

/// A parent set that admitting `newly` empties.
pub open spec fn unblocked_by(missing: Map<Seq<u8>, ()>, newly: Seq<u8>) -> bool {
    forall|x: Seq<u8>| #[trigger] missing.contains_key(x) ==> x == newly
}

impl BoundedDependencyBuffer {
    pub fn new() -> (r: Self)
        ensures
            r.entries@ == Map::<Seq<u8>, BufferEntry>::empty(),
    {
        BoundedDependencyBuffer { entries: KeyedMap::new() }
    }

    pub fn len(&self) -> (r: usize)
        ensures
            r == self.entries.keys().len(),
    {
        self.entries.len()
    }

    pub fn is_empty(&self) -> (r: bool)
        ensures
            r == (self.entries@.dom() == Set::<Seq<u8>>::empty()),
    {
        let n = self.entries.len();
        proof {
            if n == 0 {
                assert(self.entries@.dom() =~= Set::<Seq<u8>>::empty());
            } else {
                assert(self.entries@.contains_key(self.entries.keys()[0]));
            }
        }
        n == 0
    }

    /// Buffers `mutation`. A new mutation arriving when the buffer is full first
    /// evicts the oldest entry, whose id is returned.
    pub fn insert(&mut self, mutation: Mutation, missing: KeyedMap<MutationID, ()>, current_epoch: u64) -> (r: Option<MutationID>)
        ensures
            ({
                let full = old(self).entries.keys().len() >= MAX_DEPENDENCY_BUFFER_ENTRIES
                    && !old(self).entries@.contains_key(mutation.id@);
                let entry = (mutation, missing, current_epoch);
                &&& full ==> (r matches Some(k) && exists|i: int|
                        is_oldest(old(self).entries.keys(), old(self).entries@, i)
                        && #[trigger] old(self).entries.keys()[i] == k@
                        && final(self).entries@ == old(self).entries@.remove(k@).insert(mutation.id@, entry))
                &&& !full ==> (r is None && final(self).entries@ == old(self).entries@.insert(mutation.id@, entry))
            }),
    {
        let id = mutation.id;
        let n = self.entries.len();
        let mut evicted: Option<MutationID> = None;
        if n >= MAX_DEPENDENCY_BUFFER_ENTRIES && !self.entries.contains_key(&id) {
            let ghost ks = self.entries.keys();
            let ghost m = self.entries@;
            let mut best: usize = 0;
            let mut i: usize = 1;
            while i < n
                invariant
                    1 <= i <= n,
                    best < i,
                    n == ks.len(),
                    ks == self.entries.keys(),
                    m == self.entries@,
                    forall|k: int| 0 <= k < n ==> #[trigger] m.contains_key(ks[k]) && m[ks[k]] == self.entries.entries_view()[k].1,
                    forall|j: int| 0 <= j < i ==> m[ks[best as int]].2 <= #[trigger] m[ks[j]].2,
                    forall|j: int| 0 <= j < best ==> m[ks[best as int]].2 < #[trigger] m[ks[j]].2,
                decreases n - i,
            {
                let ei = self.entries.value_at(i).2;
                let eb = self.entries.value_at(best).2;
                if ei < eb {
                    best = i;
                }
                i = i + 1;
            }
            let oldest = *self.entries.key_at(best);
            assert(is_oldest(ks, m, best as int));
            self.entries.remove(&oldest);
            evicted = Some(oldest);
        }
        self.entries.insert(id, (mutation, missing, current_epoch));
        evicted
    }

    /// Drops every entry older than the time to live; returns how many were dropped.
    pub fn prune_expired(&mut self, current_epoch: u64) -> (r: usize)
        ensures
            ({
                let m = old(self).entries@;
                let pred = |k: Seq<u8>| ttl_expired(m[k].2, current_epoch);
                &&& r == old(self).entries.keys().filter(pred).len()
                &&& final(self).entries@ == Map::new(
                    |k: Seq<u8>| m.contains_key(k) && !ttl_expired(m[k].2, current_epoch),
                    |k: Seq<u8>| m[k],
                )
            }),
    {
        let ghost m = self.entries@;
        let ghost ks = self.entries.keys();
        let ghost pred = |k: Seq<u8>| ttl_expired(m[k].2, current_epoch);
        let n = self.entries.len();
        let mut expired_ids: Vec<MutationID> = Vec::new();
        let mut i: usize = 0;
        while i < n
            invariant
                i <= n,
                n == ks.len(),
                ks == self.entries.keys(),
                m == self.entries@,
                pred == (|k: Seq<u8>| ttl_expired(m[k].2, current_epoch)),
                forall|k: int| 0 <= k < n ==> #[trigger] m.contains_key(ks[k]) && m[ks[k]] == self.entries.entries_view()[k].1,
                expired_ids@.map_values(|a: MutationID| a@) == ks.take(i as int).filter(pred),
            decreases n - i,
        {
            let e = self.entries.value_at(i).2;
            let k = *self.entries.key_at(i);
            proof {
                assert(ks.take(i + 1) =~= ks.take(i as int).push(ks[i as int]));
                ks.take(i as int).lemma_filter_push(ks[i as int], pred);
            }
            if current_epoch > e && current_epoch - e > DEPENDENCY_TTL_EPOCHS {
                expired_ids.push(k);
                assert(expired_ids@.map_values(|a: MutationID| a@) =~= ks.take(i as int).filter(pred).push(ks[i as int]));
            }
            i = i + 1;
        }
        assert(ks.take(n as int) =~= ks);
        let ghost ids = expired_ids@.map_values(|a: MutationID| a@);
        let count = expired_ids.len();
        let mut j: usize = 0;
        while j < count
            invariant
                j <= count,
                count == expired_ids@.len(),
                ids == expired_ids@.map_values(|a: MutationID| a@),
                forall|k: Seq<u8>| #[trigger] self.entries@.contains_key(k)
                    == (m.contains_key(k) && !ids.take(j as int).contains(k)),
                forall|k: Seq<u8>| #[trigger] self.entries@.contains_key(k) ==> self.entries@[k] == m[k],
            decreases count - j,
        {
            let id = expired_ids[j];
            self.entries.remove(&id);
            proof {
                assert(ids.take(j + 1) =~= ids.take(j as int).push(ids[j as int]));
                assert forall|k: Seq<u8>| #[trigger] self.entries@.contains_key(k)
                    == (m.contains_key(k) && !ids.take(j + 1).contains(k)) by {
                    if ids.take(j + 1).contains(k) && k != ids[j as int] {
                        let w = choose|w: int| 0 <= w < j + 1 && #[trigger] ids.take(j + 1)[w] == k;
                        assert(w != j);
                        assert(ids.take(j as int)[w] == k);
                    }
                    if k == ids[j as int] {
                        assert(ids.take(j + 1)[j as int] == k);
                    }
                    if ids.take(j as int).contains(k) {
                        let w = choose|w: int| 0 <= w < j && ids.take(j as int)[w] == k;
                        assert(ids.take(j + 1)[w] == k);
                    }
                }
            }
            j = j + 1;
        }
        proof {
            assert(ids.take(count as int) =~= ids);
            assert forall|k: Seq<u8>| ids.contains(k) == (m.contains_key(k) && pred(k)) by {
                if ids.contains(k) {
                    ks.lemma_filter_contains_rev(pred, k);
                }
                if m.contains_key(k) && pred(k) {
                    assert(ks.contains(k));
                    let w = choose|w: int| 0 <= w < ks.len() && ks[w] == k;
                    ks.lemma_filter_contains(pred, w);
                }
            }
            assert(self.entries@ =~= Map::new(
                |k: Seq<u8>| m.contains_key(k) && !ttl_expired(m[k].2, current_epoch),
                |k: Seq<u8>| m[k],
            ));
        }
        count
    }
    /// Strikes `newly_admitted` from every entry's missing parents; the entries left
    /// with none are removed and their mutations returned in id order.
    pub fn release_unblocked(&mut self, newly_admitted: &MutationID) -> (r: Vec<Mutation>)
        ensures
            ({
                let m = old(self).entries@;
                let ready = |k: Seq<u8>| unblocked_by(m[k].1@, newly_admitted@);
                &&& r@ == old(self).entries.keys().filter(ready).map_values(|k: Seq<u8>| m[k].0)
                &&& forall|k: Seq<u8>| #[trigger] final(self).entries@.contains_key(k)
                    == (m.contains_key(k) && !ready(k))
                &&& forall|k: Seq<u8>| #[trigger] final(self).entries@.contains_key(k) ==> {
                    &&& final(self).entries@[k].0 == m[k].0
                    &&& final(self).entries@[k].1@ == m[k].1@.remove(newly_admitted@)
                    &&& final(self).entries@[k].2 == m[k].2
                }
            }),
    {
        let ghost m = self.entries@;
        let ghost ks = self.entries.keys();
        let ghost ready = |k: Seq<u8>| unblocked_by(m[k].1@, newly_admitted@);
        let n = self.entries.len();
        let mut ids: Vec<MutationID> = Vec::new();
        let mut i: usize = 0;
        while i < n
            invariant
                i <= n,
                n == ks.len(),
                ks == self.entries.keys(),
                ids@.map_values(|a: MutationID| a@) == ks.take(i as int),
            decreases n - i,
        {
            let k = *self.entries.key_at(i);
            ids.push(k);
            assert(ks.take(i + 1) =~= ks.take(i as int).push(ks[i as int]));
            assert(ids@.map_values(|a: MutationID| a@) =~= ks.take(i + 1));
            i = i + 1;
        }
        assert(ks.take(n as int) =~= ks);
        proof {
            crate::keyed_map::lemma_sorted_keys_distinct(ks);
            assert forall|k: Seq<u8>| #[trigger] m.contains_key(k) == ks.contains(k) by {
                if ks.contains(k) {
                    let w = choose|w: int| 0 <= w < ks.len() && ks[w] == k;
                    assert(m.contains_key(ks[w]));
                }
            }
            assert(ks.take(0) =~= Seq::<Seq<u8>>::empty());
        }
        let mut released: Vec<Mutation> = Vec::new();
        let mut j: usize = 0;
        while j < n
            invariant
                j <= n,
                n == ks.len(),
                ids@.len() == n,
                forall|w: int| 0 <= w < n ==> (#[trigger] ids@[w])@ == ks[w],
                forall|a: int, b: int| 0 <= a < b < n ==> ks[a] != ks[b],
                forall|k: Seq<u8>| #[trigger] m.contains_key(k) == ks.contains(k),
                ready == (|k: Seq<u8>| unblocked_by(m[k].1@, newly_admitted@)),
                released@ == ks.take(j as int).filter(ready).map_values(|k: Seq<u8>| m[k].0),
                forall|k: Seq<u8>| #[trigger] self.entries@.contains_key(k)
                    == (m.contains_key(k) && !(ks.take(j as int).contains(k) && ready(k))),
                forall|k: Seq<u8>| #[trigger] self.entries@.contains_key(k) && !ks.take(j as int).contains(k)
                    ==> self.entries@[k] == m[k],
                forall|k: Seq<u8>| #[trigger] self.entries@.contains_key(k) && ks.take(j as int).contains(k) ==> {
                    &&& self.entries@[k].0 == m[k].0
                    &&& self.entries@[k].1@ == m[k].1@.remove(newly_admitted@)
                    &&& self.entries@[k].2 == m[k].2
                },
            decreases n - j,
        {
            let id = ids[j];
            let ghost kj = ks[j as int];
            proof {
                assert(id@ == kj);
                assert(ks.take(j + 1) =~= ks.take(j as int).push(kj));
                assert(ks.contains(kj));
                if ks.take(j as int).contains(kj) {
                    let w = choose|w: int| 0 <= w < j && #[trigger] ks.take(j as int)[w] == kj;
                    assert(ks[w] == ks[j as int]);
                }
                ks.take(j as int).lemma_filter_push(kj, ready);
                assert forall|k: Seq<u8>| #[trigger] ks.take(j + 1).contains(k) == (ks.take(j as int).contains(k) || k == kj) by {
                    if ks.take(j + 1).contains(k) && k != kj {
                        let w = choose|w: int| 0 <= w < j + 1 && #[trigger] ks.take(j + 1)[w] == k;
                        assert(ks.take(j as int)[w] == k);
                    }
                    if ks.take(j as int).contains(k) {
                        let w = choose|w: int| 0 <= w < j && #[trigger] ks.take(j as int)[w] == k;
                        assert(ks.take(j + 1)[w] == k);
                    }
                    if k == kj {
                        assert(ks.take(j + 1)[j as int] == k);
                    }
                }
            }
            let taken = self.entries.remove(&id);
            match taken {
                Some(entry) => {
                    let (mutation, mut missing, epoch) = entry;
                    missing.remove(newly_admitted);
                    let left = missing.len();
                    proof {
                        if left == 0 {
                            assert forall|x: Seq<u8>| #[trigger] m[kj].1@.contains_key(x) implies x == newly_admitted@ by {
                                if x != newly_admitted@ {
                                    assert(missing@.contains_key(x));
                                    assert(missing.keys().contains(x));
                                }
                            }
                        } else {
                            let x = missing.keys()[0];
                            assert(missing@.contains_key(x));
                            assert(!unblocked_by(m[kj].1@, newly_admitted@));
                        }
                    }
                    if left == 0 {
                        released.push(mutation);
                        assert(released@ =~= ks.take(j + 1).filter(ready).map_values(|k: Seq<u8>| m[k].0));
                    } else {
                        self.entries.insert(id, (mutation, missing, epoch));
                        assert(released@ =~= ks.take(j + 1).filter(ready).map_values(|k: Seq<u8>| m[k].0));
                    }
                }
                None => {
                    assert(false);
                }
            }
            j = j + 1;
        }
        assert(ks.take(n as int) =~= ks);
        released
    }
}

} // verus!
