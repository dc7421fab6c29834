//! The user's local blocklist of actors, kept only on this node.

use vstd::prelude::*;
use crate::keyed_map::KeyedMap;
use crate::identity::types::ActorID;

verus! {

#[derive(Debug)]
pub struct PersonalBlocklist {
    pub blocked_actors: KeyedMap<ActorID, ()>,
}

impl PersonalBlocklist {
    /// The set of blocked actors.
    pub open spec fn blocked(&self) -> Set<Seq<u8>> {
        self.blocked_actors@.dom()
    }

    pub fn new() -> (r: Self)
        ensures
            r.blocked() == Set::<Seq<u8>>::empty(),
    {
        let r = PersonalBlocklist { blocked_actors: KeyedMap::new() };
        assert(r.blocked() =~= Set::<Seq<u8>>::empty());
        r
    }

    /// Blocks `actor`; true when it was not blocked before.
    pub fn block_actor(&mut self, actor: ActorID) -> (r: bool)
        ensures
            final(self).blocked() == old(self).blocked().insert(actor@),
            r == !old(self).blocked().contains(actor@),
    {
        let prev = self.blocked_actors.insert(actor, ());
        proof {
            assert(self.blocked() =~= old(self).blocked().insert(actor@));
        }
        prev.is_none()
    }

    /// Unblocks `actor`; true when it was blocked.
    pub fn unblock_actor(&mut self, actor: &ActorID) -> (r: bool)
        ensures
            final(self).blocked() == old(self).blocked().remove(actor@),
            r == old(self).blocked().contains(actor@),
    {
        let prev = self.blocked_actors.remove(actor);
        proof {
            assert(self.blocked() =~= old(self).blocked().remove(actor@));
        }
        prev.is_some()
    }

    pub fn is_blocked(&self, actor: &ActorID) -> (r: bool)
        ensures
            r == self.blocked().contains(actor@),
    {
        self.blocked_actors.contains_key(actor)
    }

    /// All blocked actors in ascending order.
    pub fn list_blocked(&self) -> (r: Vec<ActorID>)
        ensures
            r@.len() == self.blocked_actors.keys().len(),
            forall|i: int| 0 <= i < r@.len() ==> #[trigger] r@[i]@ == self.blocked_actors.keys()[i],
    {
        let n = self.blocked_actors.len();
        let mut out: Vec<ActorID> = Vec::new();
        let mut i: usize = 0;
        while i < n
            invariant
                n == self.blocked_actors.keys().len(),
                i <= n,
                out@.len() == i,
                forall|j: int| 0 <= j < i ==> #[trigger] out@[j]@ == self.blocked_actors.keys()[j],
            decreases n - i,
        {
            out.push(*self.blocked_actors.key_at(i));
            i = i + 1;
        }
        out
    }
}

} // verus!
