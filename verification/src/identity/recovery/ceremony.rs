//! A social-recovery ceremony: guardians submit shares until a quorum can
//! reconstruct the master seed, subject to a time lock and owner cancellation.

use vstd::prelude::*;
use crate::identity::types::ActorID;
use crate::identity::recovery::shamir::{GuardianShare, combine_shares, combine_outcome, outcome_matches};

verus! {

pub struct SocialRecoveryCeremony {
    pub ceremony_id: [u8; 16],
    pub target_root_actor: ActorID,
    pub threshold: u8,
    pub time_lock_until_epoch: u64,
    pub collected_shares: Vec<GuardianShare>,
    pub is_canceled: bool,
    seen_indices: Vec<u8>,
}

impl SocialRecoveryCeremony {
    /// Guardian indices that have submitted a share (a cancellation does not forget them).
    pub closed spec fn seen(&self) -> Set<u8> {
        self.seen_indices@.to_set()
    }

    pub closed spec fn id(&self) -> [u8; 16] {
        self.ceremony_id
    }

    pub closed spec fn target(&self) -> ActorID {
        self.target_root_actor
    }

    pub closed spec fn quorum(&self) -> u8 {
        self.threshold
    }

    pub closed spec fn time_lock(&self) -> u64 {
        self.time_lock_until_epoch
    }

    pub closed spec fn shares(&self) -> Seq<GuardianShare> {
        self.collected_shares@
    }

    pub closed spec fn canceled(&self) -> bool {
        self.is_canceled
    }

    pub fn target_root(&self) -> (r: ActorID)
        ensures
            r == self.target(),
    {
        self.target_root_actor
    }

    pub fn new(
        ceremony_id: [u8; 16],
        target_root_actor: ActorID,
        threshold: u8,
        time_lock_until_epoch: u64,
    ) -> (r: Self)
        ensures
            r.id() == ceremony_id,
            r.target() == target_root_actor,
            r.quorum() == threshold,
            r.time_lock() == time_lock_until_epoch,
            r.shares() == Seq::<GuardianShare>::empty(),
            !r.canceled(),
            r.seen() == Set::<u8>::empty(),
    {
        let r = Self {
            ceremony_id,
            target_root_actor,
            threshold,
            time_lock_until_epoch,
            collected_shares: Vec::new(),
            is_canceled: false,
            seen_indices: Vec::new(),
        };
        assert(r.seen() =~= Set::<u8>::empty());
        r
    }

    /// Accepts a guardian's share unless the ceremony is canceled or that guardian
    /// already submitted; returns the number of shares collected.
    pub fn submit_share(&mut self, share: GuardianShare) -> (r: Result<usize, String>)
        ensures
            final(self).id() == old(self).id(),
            final(self).target() == old(self).target(),
            final(self).quorum() == old(self).quorum(),
            final(self).time_lock() == old(self).time_lock(),
            final(self).canceled() == old(self).canceled(),
            old(self).canceled() ==> (r matches Err(e) && e@ == "CeremonyCanceledByOwner"@) && final(self).shares() == old(self).shares() && final(self).seen() == old(self).seen(),
            !old(self).canceled() && old(self).seen().contains(share.guardian_index) ==>
                (r matches Err(e) && e@ == "DuplicateGuardianShare"@) && final(self).shares() == old(self).shares() && final(self).seen() == old(self).seen(),
            !old(self).canceled() && !old(self).seen().contains(share.guardian_index) ==> {
                &&& final(self).shares() == old(self).shares().push(share)
                &&& final(self).seen() == old(self).seen().insert(share.guardian_index)
                &&& r == Ok::<usize, String>(final(self).shares().len() as usize)
            },
    {
        if self.is_canceled {
            return Err("CeremonyCanceledByOwner".to_owned());
        }
        let mut i: usize = 0;
        while i < self.seen_indices.len()
            invariant
                i <= self.seen_indices@.len(),
                *self == *old(self),
                !self.is_canceled,
                forall|j: int| 0 <= j < i ==> self.seen_indices@[j] != share.guardian_index,
            decreases self.seen_indices.len() - i,
        {
            if self.seen_indices[i] == share.guardian_index {
                assert(self.seen_indices@.contains(share.guardian_index));
                return Err("DuplicateGuardianShare".to_owned());
            }
            i = i + 1;
        }
        assert(!self.seen_indices@.contains(share.guardian_index));
        self.seen_indices.push(share.guardian_index);
        self.collected_shares.push(share);
        proof {
            assert(self.seen_indices@.to_set() =~= old(self).seen_indices@.to_set().insert(share.guardian_index)) by {
                assert forall|x: u8| self.seen_indices@.contains(x) <==> (old(self).seen_indices@.contains(x) || x == share.guardian_index) by {
                    if self.seen_indices@.contains(x) {
                        let k = choose|k: int| 0 <= k < self.seen_indices@.len() && self.seen_indices@[k] == x;
                        if k < old(self).seen_indices@.len() {
                            assert(old(self).seen_indices@[k] == x);
                        }
                    }
                    if old(self).seen_indices@.contains(x) {
                        let k = choose|k: int| 0 <= k < old(self).seen_indices@.len() && old(self).seen_indices@[k] == x;
                        assert(self.seen_indices@[k] == x);
                    }
                    if x == share.guardian_index {
                        assert(self.seen_indices@[self.seen_indices@.len() - 1] == x);
                    }
                }
            }
        }
        Ok(self.collected_shares.len())
    }

    /// The owner cancels: the ceremony refuses further shares and forgets those collected.
    pub fn cancel_ceremony(&mut self)
        ensures
            final(self).canceled(),
            final(self).shares() == Seq::<GuardianShare>::empty(),
            final(self).seen() == old(self).seen(),
            final(self).id() == old(self).id(),
            final(self).target() == old(self).target(),
            final(self).quorum() == old(self).quorum(),
            final(self).time_lock() == old(self).time_lock(),
    {
        self.is_canceled = true;
        self.collected_shares.clear();
    }

    /// What finalizing at `current_epoch` yields: refused when canceled, short of a
    /// quorum, or before the time lock with fewer than all issued shares; otherwise
    /// the shares combined.
    pub open spec fn finalize_outcome(&self, current_epoch: u64) -> Result<Seq<u8>, Seq<char>> {
        if self.canceled() {
            Err("CeremonyCanceledByOwner"@)
        } else if self.shares().len() < self.quorum() {
            Err("InsufficientSharesForQuorum"@)
        } else if current_epoch < self.time_lock() && self.shares().len() < self.shares()[0].total_shares {
            Err("TimeLockActiveWaitRequired"@)
        } else {
            combine_outcome(self.shares(), self.quorum())
        }
    }

    /// The time lock guards the seed: the ceremony yields a seed only when it is not
    /// canceled, holds a quorum, and either the time lock has passed or every issued
    /// share is present; before the time lock, a quorum short of the issued total is
    /// refused with `TimeLockActiveWaitRequired`.
    pub proof fn lemma_time_lock_guards_seed(&self, current_epoch: u64)
        ensures
            self.finalize_outcome(current_epoch) is Ok ==> {
                &&& !self.canceled()
                &&& self.shares().len() >= self.quorum()
                &&& current_epoch >= self.time_lock() || self.shares().len() >= self.shares()[0].total_shares
            },
            !self.canceled() && self.shares().len() >= self.quorum() && current_epoch < self.time_lock()
                && self.shares().len() < self.shares()[0].total_shares
                ==> self.finalize_outcome(current_epoch) == Err::<Seq<u8>, Seq<char>>("TimeLockActiveWaitRequired"@),
    {
    }

    /// Reconstructs the seed once a quorum has been collected; before the time lock
    /// expires every one of the issued shares must be present.
    pub fn finalize_recovery(&self, current_epoch: u64) -> (r: Result<[u8; 32], String>)
        requires
            !(self.shares().len() == 0 && current_epoch < self.time_lock() && !self.canceled() && self.quorum() == 0),
        ensures
            outcome_matches(r, self.finalize_outcome(current_epoch)),
    {
        if self.is_canceled {
            return Err("CeremonyCanceledByOwner".to_owned());
        }
        if self.collected_shares.len() < self.threshold as usize {
            return Err("InsufficientSharesForQuorum".to_owned());
        }
        if current_epoch < self.time_lock_until_epoch && self.collected_shares.len() < self.collected_shares[0].total_shares as usize {
            return Err("TimeLockActiveWaitRequired".to_owned());
        }
        combine_shares(self.collected_shares.as_slice(), self.threshold)
    }
}

} // verus!
