//! Per-peer token buckets refilled once per elapsed epoch.

use vstd::prelude::*;
use crate::keyed_map::KeyedMap;
use crate::model::ActorID;

verus! {

#[derive(Debug, Clone)]
pub struct TokenBucket {
    pub capacity: u32,
    pub refill_rate_per_sec: u32,
    pub current_tokens: u32,
    pub last_refill_epoch: u64,
}

/// Tokens added after `elapsed` epochs: the elapsed count is cut to 32 bits, then
/// multiplied by the rate, saturating at `u32::MAX`.
pub open spec fn refill_amount(elapsed: u64, rate: u32) -> int {
    let e = (elapsed as u32) as int;
    if e * rate > u32::MAX { u32::MAX as int } else { e * rate }
}

/// The bucket after refilling at epoch `now` (nothing happens unless `now` is later).
pub open spec fn refilled(b: TokenBucket, now: u64) -> TokenBucket {
    if now > b.last_refill_epoch {
        let sum = b.current_tokens + refill_amount((now - b.last_refill_epoch) as u64, b.refill_rate_per_sec);
        TokenBucket {
            current_tokens: if sum < b.capacity { sum as u32 } else { b.capacity },
            last_refill_epoch: now,
            ..b
        }
    } else {
        b
    }
}

/// Refilling at `now` does not overflow the token counter.
pub open spec fn refill_fits(b: TokenBucket, now: u64) -> bool {
    now > b.last_refill_epoch ==>
        b.current_tokens + refill_amount((now - b.last_refill_epoch) as u64, b.refill_rate_per_sec) <= u32::MAX
}

/// The bucket after asking for `need` tokens at `now`, and whether they were granted.
pub open spec fn consumed(b: TokenBucket, now: u64, need: u32) -> (TokenBucket, bool) {
    let r = refilled(b, now);
    if r.current_tokens >= need {
        (TokenBucket { current_tokens: (r.current_tokens - need) as u32, ..r }, true)
    } else {
        (r, false)
    }
}

impl TokenBucket {
    /// A full bucket whose last refill is `current_epoch`.
    pub fn new(capacity: u32, refill_rate_per_sec: u32, current_epoch: u64) -> (r: Self)
        ensures
            r == (TokenBucket {
                capacity,
                refill_rate_per_sec,
                current_tokens: capacity,
                last_refill_epoch: current_epoch,
            }),
    {
        TokenBucket { capacity, refill_rate_per_sec, current_tokens: capacity, last_refill_epoch: current_epoch }
    }

    /// Refills for the epochs elapsed since the last refill (capped at capacity),
    /// then takes `tokens_needed` tokens if there are that many.
    pub fn try_consume(&mut self, current_epoch: u64, tokens_needed: u32) -> (r: bool)
        requires
            refill_fits(*old(self), current_epoch),
        ensures
            (*final(self), r) == consumed(*old(self), current_epoch, tokens_needed),
    {
        if current_epoch > self.last_refill_epoch {
            let elapsed = current_epoch - self.last_refill_epoch;
            let refill_amount: u32 = match (elapsed as u32).checked_mul(self.refill_rate_per_sec) {
                Some(v) => v,
                None => u32::MAX,
            };
            let sum = self.current_tokens + refill_amount;
            self.current_tokens = if sum < self.capacity { sum } else { self.capacity };
            self.last_refill_epoch = current_epoch;
        }
        if self.current_tokens >= tokens_needed {
            self.current_tokens = self.current_tokens - tokens_needed;
            true
        } else {
            false
        }
    }
}

#[derive(Debug)]
pub struct PeerRateLimiter {
    pub default_capacity: u32,
    pub default_refill_rate: u32,
    pub peer_buckets: KeyedMap<ActorID, TokenBucket>,
}

impl PeerRateLimiter {
    pub fn new(capacity: u32, refill_rate: u32) -> (r: Self)
        ensures
            r.default_capacity == capacity,
            r.default_refill_rate == refill_rate,
            r.peer_buckets@ == Map::<Seq<u8>, TokenBucket>::empty(),
    {
        PeerRateLimiter { default_capacity: capacity, default_refill_rate: refill_rate, peer_buckets: KeyedMap::new() }
    }

    /// The peer's bucket at `now`: its own, or a fresh full one.
    pub open spec fn bucket_for(&self, peer: ActorID, now: u64) -> TokenBucket {
        if self.peer_buckets@.contains_key(peer@) {
            self.peer_buckets@[peer@]
        } else {
            TokenBucket {
                capacity: self.default_capacity,
                refill_rate_per_sec: self.default_refill_rate,
                current_tokens: self.default_capacity,
                last_refill_epoch: now,
            }
        }
    }

    /// Charges `tokens` to the peer's bucket, creating a full bucket for a new peer.
    pub fn check_and_consume(&mut self, peer: &ActorID, current_epoch: u64, tokens: u32) -> (r: bool)
        requires
            refill_fits(old(self).bucket_for(*peer, current_epoch), current_epoch),
        ensures
            r == consumed(old(self).bucket_for(*peer, current_epoch), current_epoch, tokens).1,
            final(self).peer_buckets@ == old(self).peer_buckets@.insert(
                peer@,
                consumed(old(self).bucket_for(*peer, current_epoch), current_epoch, tokens).0,
            ),
            final(self).default_capacity == old(self).default_capacity,
            final(self).default_refill_rate == old(self).default_refill_rate,
    {
        let mut bucket = match self.peer_buckets.get(peer) {
            Some(b) => TokenBucket {
                capacity: b.capacity,
                refill_rate_per_sec: b.refill_rate_per_sec,
                current_tokens: b.current_tokens,
                last_refill_epoch: b.last_refill_epoch,
            },
            None => TokenBucket::new(self.default_capacity, self.default_refill_rate, current_epoch),
        };
        let r = bucket.try_consume(current_epoch, tokens);
        self.peer_buckets.insert(*peer, bucket);
        r
    }
}

} // verus!
