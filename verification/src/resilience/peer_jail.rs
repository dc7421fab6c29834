//! Penalty points per peer; crossing the threshold jails the peer for a term that
//! doubles with each jailing (up to 2^10 times the base term).

use vstd::prelude::*;
use crate::keyed_map::KeyedMap;
use crate::model::ActorID;

verus! {

pub const PENALTY_THRESHOLD: u32 = 100;
pub const BASE_JAIL_DURATION_EPOCHS: u64 = 60;

#[derive(Debug)]
pub struct PeerJail {
    pub penalties: KeyedMap<ActorID, u32>,
    pub jailed_until: KeyedMap<ActorID, u64>,
    pub jail_counts: KeyedMap<ActorID, u32>,
}

/// The jail term for a peer's `count`-th jailing: 60 epochs times 2^min(count - 1, 10).
pub open spec fn jail_duration(count: u32) -> u64 {
    let e: u64 = if count == 0 { 0 } else if count - 1 > 10 { 10 } else { (count - 1) as u64 };
    (60 * (1u64 << e)) as u64
}

impl PeerJail {
    pub fn new() -> (r: Self)
        ensures
            r.penalties@ == Map::<Seq<u8>, u32>::empty(),
            r.jailed_until@ == Map::<Seq<u8>, u64>::empty(),
            r.jail_counts@ == Map::<Seq<u8>, u32>::empty(),
    {
        PeerJail { penalties: KeyedMap::new(), jailed_until: KeyedMap::new(), jail_counts: KeyedMap::new() }
    }

    pub open spec fn points_of(&self, peer: ActorID) -> int {
        if self.penalties@.contains_key(peer@) { self.penalties@[peer@] as int } else { 0 }
    }

    pub open spec fn jailings_of(&self, peer: ActorID) -> int {
        if self.jail_counts@.contains_key(peer@) { self.jail_counts@[peer@] as int } else { 0 }
    }

    /// Adds `points` to the peer's tally. Reaching the threshold jails the peer until
    /// `current_epoch` plus its escalating term, resets the tally and returns `true`.
    pub fn record_penalty(&mut self, peer: &ActorID, points: u32, current_epoch: u64) -> (r: bool)
        requires
            old(self).points_of(*peer) + points <= u32::MAX,
            old(self).points_of(*peer) + points >= PENALTY_THRESHOLD ==> {
                &&& old(self).jailings_of(*peer) + 1 <= u32::MAX
                &&& current_epoch + jail_duration((old(self).jailings_of(*peer) + 1) as u32) <= u64::MAX
            },
        ensures
            r == (old(self).points_of(*peer) + points >= PENALTY_THRESHOLD),
            r ==> {
                &&& final(self).penalties@ == old(self).penalties@.insert(peer@, 0)
                &&& final(self).jail_counts@ == old(self).jail_counts@.insert(peer@, (old(self).jailings_of(*peer) + 1) as u32)
                &&& final(self).jailed_until@ == old(self).jailed_until@.insert(
                    peer@, (current_epoch + jail_duration((old(self).jailings_of(*peer) + 1) as u32)) as u64)
            },
            !r ==> {
                &&& final(self).penalties@ == old(self).penalties@.insert(peer@, (old(self).points_of(*peer) + points) as u32)
                &&& final(self).jail_counts@ == old(self).jail_counts@
                &&& final(self).jailed_until@ == old(self).jailed_until@
            },
    {
        let current: u32 = match self.penalties.get(peer) {
            Some(p) => *p,
            None => 0,
        };
        let total = current + points;
        if total >= PENALTY_THRESHOLD {
            let prev: u32 = match self.jail_counts.get(peer) {
                Some(c) => *c,
                None => 0,
            };
            let count = prev + 1;
            self.jail_counts.insert(*peer, count);
            let e: u32 = if count - 1 > 10 { 10 } else { count - 1 };
            let shift: u64 = 1u64 << (e as u64);
            proof {
                let ee = e as u64;
                assert(ee <= 10 ==> (1u64 << ee) <= 1024) by (bit_vector);
            }
            let duration: u64 = BASE_JAIL_DURATION_EPOCHS * shift;
            assert(duration == jail_duration(count));
            self.jailed_until.insert(*peer, current_epoch + duration);
            self.penalties.insert(*peer, 0);
            true
        } else {
            self.penalties.insert(*peer, total);
            false
        }
    }

    /// Whether the peer is still jailed at `current_epoch`; an expired term is cleared.
    pub fn is_jailed(&mut self, peer: &ActorID, current_epoch: u64) -> (r: bool)
        ensures
            r == (old(self).jailed_until@.contains_key(peer@) && current_epoch < old(self).jailed_until@[peer@]),
            final(self).jailed_until@ == if old(self).jailed_until@.contains_key(peer@) && !r {
                old(self).jailed_until@.remove(peer@)
            } else {
                old(self).jailed_until@
            },
            final(self).penalties@ == old(self).penalties@,
            final(self).jail_counts@ == old(self).jail_counts@,
    {
        match self.jailed_until.get(peer) {
            Some(until) => {
                if current_epoch < *until {
                    return true;
                }
                self.jailed_until.remove(peer);
                false
            }
            None => false,
        }
    }
}

} // verus!
