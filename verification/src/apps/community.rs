//! Communities: channels, posts and replies, with role-based moderation and bans.

use vstd::prelude::*;
use crate::bytes::{push_all, push_le, le_bytes, id_eq};
use crate::crypto::{sha256, sha256_spec, tagged};
use crate::keyed_map::KeyedMap;
use crate::encoding::hex_encode;
use crate::text::{decimal, decimal_text};
use crate::model::ActorID;
use crate::object::types::{ObjectID, NamespaceID, ObjectType, NexObject};
use crate::encoding::{hex_decode, hex_decodable, hex_bytes};
use crate::bytes::arr32;
use crate::api::{NexAppApi, CoreRuntimeError, runtime_error_text, node_reply};
use crate::identity::types::CapabilityProof;

verus! {

/// Ranked community roles, lowest first.
#[derive(Debug, Clone, Copy, PartialEq, Eq, PartialOrd, Ord, Structural)]
pub enum CommunityRole {
    Guest,
    Member,
    Moderator,
    Admin,
    Owner,
}

/// A role's rank: Guest 0 up to Owner 4.
pub open spec fn role_rank(r: CommunityRole) -> u8 {
    match r {
        CommunityRole::Guest => 0,
        CommunityRole::Member => 1,
        CommunityRole::Moderator => 2,
        CommunityRole::Admin => 3,
        CommunityRole::Owner => 4,
    }
}

impl CommunityRole {
    pub fn rank(&self) -> (r: u8)
        ensures
            r == role_rank(*self),
    {
        match self {
            CommunityRole::Guest => 0,
            CommunityRole::Member => 1,
            CommunityRole::Moderator => 2,
            CommunityRole::Admin => 3,
            CommunityRole::Owner => 4,
        }
    }
}

#[derive(Debug, Clone, PartialEq, Eq)]
pub struct Community {
    pub community_id: ObjectID,
    pub name: String,
    pub description: String,
    pub owner_actor_id: ActorID,
    pub created_epoch: u64,
}

#[derive(Debug, Clone, PartialEq, Eq)]
pub struct CommunityChannel {
    pub channel_id: ObjectID,
    pub community_id: ObjectID,
    pub name: String,
    pub is_private: bool,
}

#[derive(Debug, Clone, PartialEq, Eq)]
pub struct CommunityPost {
    pub post_id: ObjectID,
    pub channel_id: ObjectID,
    pub author_actor_id: ActorID,
    pub title: String,
    pub content: String,
    pub created_epoch: u64,
    pub is_pinned: bool,
    pub is_locked: bool,
}

#[derive(Debug, Clone, PartialEq, Eq)]
pub struct CommunityReply {
    pub reply_id: ObjectID,
    pub post_id: ObjectID,
    pub parent_reply_id: Option<ObjectID>,
    pub author_actor_id: ActorID,
    pub body_content: String,
    pub created_epoch: u64,
}

#[derive(Debug)]
pub struct CommunityEngine {
    pub namespace_id: NamespaceID,
    pub local_actor_id: ActorID,
    pub members: KeyedMap<ActorID, (CommunityRole, u64)>,
    pub tombstoned_messages: KeyedMap<ObjectID, u64>,
}

impl CommunityEngine {
    pub fn new(namespace_id: NamespaceID, local_actor_id: ActorID) -> (r: Self)
        ensures
            r.namespace_id == namespace_id,
            r.local_actor_id == local_actor_id,
            r.members@ == Map::<Seq<u8>, (CommunityRole, u64)>::empty(),
            r.tombstoned_messages@ == Map::<Seq<u8>, u64>::empty(),
    {
        CommunityEngine { namespace_id, local_actor_id, members: KeyedMap::new(), tombstoned_messages: KeyedMap::new() }
    }
}

/// The encodings of community records stored as object payloads.
pub trait RecordCodec {
    fn encode_community(&self, c: &Community) -> Result<Vec<u8>, String>;
    fn encode_channel(&self, c: &CommunityChannel) -> Result<Vec<u8>, String>;
    fn encode_post(&self, p: &CommunityPost) -> Result<Vec<u8>, String>;
    fn encode_reply(&self, r: &CommunityReply) -> Result<Vec<u8>, String>;
}

/// Numbers separated by commas, as compact JSON writes an array's items.
pub open spec fn json_numbers(s: Seq<u8>) -> Seq<char>
    decreases s.len(),
{
    if s.len() == 0 {
        Seq::empty()
    } else if s.len() == 1 {
        decimal(s[0] as nat)
    } else {
        json_numbers(s.drop_last()) + seq![','] + decimal(s.last() as nat)
    }
}

/// The compact JSON array `[community, banned actor, banned by, epoch]` a ban record
/// holds: each id an array of its byte values, the epoch a number.
pub open spec fn ban_record_json(community: Seq<u8>, target: Seq<u8>, by: Seq<u8>, epoch: u64) -> Seq<u8> {
    vstd::utf8::encode_utf8("[["@ + json_numbers(community) + "],["@ + json_numbers(target) + "],["@
        + json_numbers(by) + "],"@ + decimal(epoch as nat) + "]"@)
}

/// `serde_json::to_vec` of the tuple `(community, target, by, epoch)` with the
/// compact formatter: a tuple and each `[u8; 32]` become arrays, bytes and the epoch
/// numbers (`itoa`). Writing into a `Vec` does not fail, and these values have no
/// serializer error, so the encoding always succeeds.
#[verifier::external_body]
fn encode_ban_record(community: &[u8; 32], target: &[u8; 32], by: &[u8; 32], epoch: u64) -> (r: Result<Vec<u8>, String>)
    ensures
        r is Ok,
        r matches Ok(v) ==> v@ == ban_record_json(community@, target@, by@, epoch),
{
    serde_json::to_vec(&(community, target, by, epoch)).map_err(|e| e.to_string())
}

/// The bytes hashed for a ban record's id.
pub open spec fn ban_record_preimage(community: Seq<u8>, target: Seq<u8>) -> Seq<u8> {
    tagged("NEX/COMMUNITY/BAN/v1", community + target)
}

/// SHA-256 of the ban domain, the community and the banned actor.
pub fn derive_ban_record_id(community_id: &ObjectID, target_actor: &ActorID) -> (r: ObjectID)
    ensures
        r@ == sha256_spec(ban_record_preimage(community_id@, target_actor@)),
{
    let mut buf: Vec<u8> = Vec::new();
    push_all(&mut buf, "NEX/COMMUNITY/BAN/v1".as_bytes());
    push_all(&mut buf, community_id.as_slice());
    push_all(&mut buf, target_actor.as_slice());
    assert(buf@ =~= ban_record_preimage(community_id@, target_actor@));
    sha256(buf.as_slice())
}

/// The ban-object key of a (community, actor) pair: the two ids side by side.
pub open spec fn pair_key(c: Seq<u8>, a: Seq<u8>) -> Seq<u8> {
    c + a
}

fn pair_of(c: &[u8; 32], a: &[u8; 32]) -> (r: [u8; 64])
    ensures
        r@ == pair_key(c@, a@),
{
    let mut r = [0u8; 64];
    let mut i: usize = 0;
    while i < 64
        invariant
            i <= 64,
            forall|j: int| 0 <= j < i ==> #[trigger] r@[j] == (if j < 32 { c@[j] } else { a@[j - 32] }),
        decreases 64 - i,
    {
        r[i] = if i < 32 { c[i] } else { a[i - 32] };
        i = i + 1;
    }
    assert(r@ =~= pair_key(c@, a@));
    r
}

pub struct NexCommunityEngine<A: NexAppApi> {
    pub local_actor_id: ActorID,
    pub api: A,
    pub communities: KeyedMap<ObjectID, Community>,
    pub channels: KeyedMap<ObjectID, CommunityChannel>,
    pub posts: KeyedMap<ObjectID, CommunityPost>,
    pub replies: KeyedMap<ObjectID, CommunityReply>,
    pub roles: KeyedMap<ObjectID, KeyedMap<ActorID, CommunityRole>>,
    pub reactions: KeyedMap<ObjectID, KeyedMap<String, KeyedMap<ActorID, ()>>>,
    pub banned_actors: KeyedMap<ObjectID, KeyedMap<ActorID, ()>>,
    pub ban_objects: KeyedMap<[u8; 64], ObjectID>,
}

impl<A: NexAppApi> NexCommunityEngine<A> {
    pub fn new(local_actor_id: ActorID, api: A) -> (r: Self)
        ensures
            r.local_actor_id == local_actor_id,
            r.api == api,
            r.communities@ == Map::<Seq<u8>, Community>::empty(),
            r.channels@ == Map::<Seq<u8>, CommunityChannel>::empty(),
            r.posts@ == Map::<Seq<u8>, CommunityPost>::empty(),
            r.replies@ == Map::<Seq<u8>, CommunityReply>::empty(),
            r.roles@ == Map::<Seq<u8>, KeyedMap<ActorID, CommunityRole>>::empty(),
            r.reactions@ == Map::<Seq<u8>, KeyedMap<String, KeyedMap<ActorID, ()>>>::empty(),
            r.banned_actors@ == Map::<Seq<u8>, KeyedMap<ActorID, ()>>::empty(),
            r.ban_objects@ == Map::<Seq<u8>, ObjectID>::empty(),
    {
        NexCommunityEngine {
            local_actor_id,
            api,
            communities: KeyedMap::new(),
            channels: KeyedMap::new(),
            posts: KeyedMap::new(),
            replies: KeyedMap::new(),
            roles: KeyedMap::new(),
            reactions: KeyedMap::new(),
            banned_actors: KeyedMap::new(),
            ban_objects: KeyedMap::new(),
        }
    }

    /// Whether `actor` is banned from the community.
    pub open spec fn banned(&self, c: Seq<u8>, actor: Seq<u8>) -> bool {
        self.banned_actors@.contains_key(c) && self.banned_actors@[c]@.contains_key(actor)
    }

    /// The actor's standing role: Guest when banned, Owner for the community's owner,
    /// else the assigned role (Guest when none).
    pub open spec fn role_of(&self, c: Seq<u8>, actor: Seq<u8>) -> CommunityRole {
        if self.banned(c, actor) {
            CommunityRole::Guest
        } else if self.communities@.contains_key(c) && self.communities@[c].owner_actor_id@ == actor {
            CommunityRole::Owner
        } else if self.roles@.contains_key(c) && self.roles@[c]@.contains_key(actor) {
            self.roles@[c]@[actor]
        } else {
            CommunityRole::Guest
        }
    }

    pub fn is_banned(&self, community_id: &ObjectID, actor: &ActorID) -> (r: bool)
        ensures
            r == self.banned(community_id@, actor@),
    {
        match self.banned_actors.get(community_id) {
            Some(bans) => bans.contains_key(actor),
            None => false,
        }
    }

    pub fn get_role(&self, community_id: &ObjectID, actor: &ActorID) -> (r: CommunityRole)
        ensures
            r == self.role_of(community_id@, actor@),
    {
        if self.is_banned(community_id, actor) {
            return CommunityRole::Guest;
        }
        match self.communities.get(community_id) {
            Some(comm) => {
                if id_eq(&comm.owner_actor_id, actor) {
                    return CommunityRole::Owner;
                }
            }
            None => {}
        }
        match self.roles.get(community_id) {
            Some(r) => match r.get(actor) {
                Some(role) => *role,
                None => CommunityRole::Guest,
            },
            None => CommunityRole::Guest,
        }
    }

    /// Gives `target_actor` a role. Refused for a banned actor, for a caller below
    /// Admin, and for a role at or above the caller's own unless the caller owns the
    /// community.
    pub fn assign_role(&mut self, community_id: ObjectID, target_actor: ActorID, role: CommunityRole) -> (r: Result<(), String>)
        ensures
            ({
                let c = community_id@;
                let caller = role_rank(old(self).role_of(c, old(self).local_actor_id@));
                &&& old(self).banned(c, target_actor@) ==> (r matches Err(e)
                    && e@ == "Unauthorized: Cannot assign role to banned actor without unbanning first"@)
                &&& !old(self).banned(c, target_actor@) && caller < 3 ==> (r matches Err(e)
                    && e@ == "Unauthorized: Must be at least Admin to assign roles"@)
                &&& !old(self).banned(c, target_actor@) && caller >= 3 && caller <= role_rank(role) && caller != 4
                    ==> (r matches Err(e) && e@ == "Unauthorized: Cannot assign a role equal or higher than your own"@)
                &&& r is Err ==> final(self).roles@ == old(self).roles@
                &&& r is Ok <==> (!old(self).banned(c, target_actor@) && caller >= 3 && (caller > role_rank(role) || caller == 4))
                &&& r is Ok ==> final(self).roles@.contains_key(c) && final(self).roles@[c]@ == (if old(self).roles@.contains_key(c) {
                        old(self).roles@[c]@ } else { Map::empty() }).insert(target_actor@, role)
                    && forall|k: Seq<u8>| k != c && #[trigger] old(self).roles@.contains_key(k) ==> final(self).roles@[k] == old(self).roles@[k]
                    && final(self).roles@.dom() == old(self).roles@.dom().insert(c)
            }),
            final(self).banned_actors@ == old(self).banned_actors@,
            final(self).communities@ == old(self).communities@,
            final(self).local_actor_id == old(self).local_actor_id,
    {
        if self.is_banned(&community_id, &target_actor) {
            return Err("Unauthorized: Cannot assign role to banned actor without unbanning first".to_owned());
        }
        let caller_role = self.get_role(&community_id, &self.local_actor_id);
        let caller = caller_role.rank();
        if caller < 3 {
            return Err("Unauthorized: Must be at least Admin to assign roles".to_owned());
        }
        if caller <= role.rank() && caller != 4 {
            return Err("Unauthorized: Cannot assign a role equal or higher than your own".to_owned());
        }
        let mut comm_roles = match self.roles.remove(&community_id) {
            Some(m) => m,
            None => KeyedMap::new(),
        };
        comm_roles.insert(target_actor, role);
        self.roles.insert(community_id, comm_roles);
        proof {
            assert(self.roles@.dom() =~= old(self).roles@.dom().insert(community_id@));
        }
        Ok(())
    }
    /// The actors banned from a community, as a set.
    pub open spec fn ban_set(&self, c: Seq<u8>) -> Set<Seq<u8>> {
        if self.banned_actors@.contains_key(c) { self.banned_actors@[c]@.dom() } else { Set::empty() }
    }

    /// The assigned roles in a community.
    pub open spec fn role_map(&self, c: Seq<u8>) -> Map<Seq<u8>, CommunityRole> {
        if self.roles@.contains_key(c) { self.roles@[c]@ } else { Map::empty() }
    }

    /// Removes `actor` from the community's assigned roles.
    fn drop_role(&mut self, c: &ObjectID, actor: &ActorID)
        ensures
            forall|k: Seq<u8>| #[trigger] final(self).role_map(k)
                == if k == c@ { old(self).role_map(k).remove(actor@) } else { old(self).role_map(k) },
            final(self).banned_actors@ == old(self).banned_actors@,
            final(self).communities@ == old(self).communities@,
            final(self).ban_objects@ == old(self).ban_objects@,
            final(self).posts@ == old(self).posts@,
            final(self).local_actor_id == old(self).local_actor_id,
    {
        match self.roles.remove(c) {
            Some(m) => {
                let mut m = m;
                m.remove(actor);
                self.roles.insert(*c, m);
            }
            None => {}
        }
        proof {
            assert forall|k: Seq<u8>| #[trigger] self.role_map(k)
                == if k == c@ { old(self).role_map(k).remove(actor@) } else { old(self).role_map(k) } by {
                if k == c@ && !old(self).roles@.contains_key(k) {
                    assert(old(self).role_map(k).remove(actor@) =~= Map::empty());
                }
            }
        }
    }

    /// Sets an actor's assigned role in a community.
    fn put_role(&mut self, c: &ObjectID, actor: &ActorID, role: CommunityRole)
        ensures
            forall|k: Seq<u8>| #[trigger] final(self).role_map(k)
                == if k == c@ { old(self).role_map(k).insert(actor@, role) } else { old(self).role_map(k) },
            final(self).banned_actors@ == old(self).banned_actors@,
            final(self).communities@ == old(self).communities@,
            final(self).ban_objects@ == old(self).ban_objects@,
            final(self).posts@ == old(self).posts@,
            final(self).local_actor_id == old(self).local_actor_id,
    {
        let mut m = match self.roles.remove(c) {
            Some(m) => m,
            None => KeyedMap::new(),
        };
        m.insert(*actor, role);
        self.roles.insert(*c, m);
    }

    /// Bans `target_actor`: the caller must be at least Admin, must outrank the target
    /// unless it owns the community, and cannot ban itself. The ban takes effect at
    /// once (role dropped, actor listed as banned); a ban record object is then
    /// created and remembered for the pair.
    pub fn ban_member(&mut self, community_id: ObjectID, target_actor: ActorID, epoch: u64) -> (r: Result<ObjectID, String>)
        ensures
            ({
                let c = community_id@;
                let caller = role_rank(old(self).role_of(c, old(self).local_actor_id@));
                let target = role_rank(old(self).role_of(c, target_actor@));
                let allowed = caller >= 3 && !(caller <= target && caller != 4) && target_actor != old(self).local_actor_id;
                &&& caller < 3 ==> (r matches Err(e) && e@ == "Unauthorized: Must be at least Admin to ban members"@)
                &&& caller >= 3 && caller <= target && caller != 4 ==> (r matches Err(e)
                    && e@ == "Unauthorized: Cannot ban a member with equal or higher role"@)
                &&& caller >= 3 && !(caller <= target && caller != 4) && target_actor == old(self).local_actor_id
                    ==> (r matches Err(e) && e@ == "InvalidOperation: Cannot ban oneself"@)
                &&& !allowed ==> final(self).banned_actors@ == old(self).banned_actors@ && final(self).roles@ == old(self).roles@
                    && final(self).ban_objects@ == old(self).ban_objects@
                &&& allowed ==> {
                    &&& forall|k: Seq<u8>| #[trigger] final(self).ban_set(k)
                        == if k == c { old(self).ban_set(k).insert(target_actor@) } else { old(self).ban_set(k) }
                    &&& forall|k: Seq<u8>| #[trigger] final(self).role_map(k)
                        == if k == c { old(self).role_map(k).remove(target_actor@) } else { old(self).role_map(k) }
                    &&& final(self).role_of(c, target_actor@) == CommunityRole::Guest
                    &&& r is Ok ==> final(self).ban_objects@ == old(self).ban_objects@.insert(pair_key(c, target_actor@), r->Ok_0)
                    &&& r is Err ==> final(self).ban_objects@ == old(self).ban_objects@
                }
            }),
            final(self).communities@ == old(self).communities@,
            final(self).local_actor_id == old(self).local_actor_id,
    {
        let caller_role = self.get_role(&community_id, &self.local_actor_id).rank();
        if caller_role < 3 {
            return Err("Unauthorized: Must be at least Admin to ban members".to_owned());
        }
        let target_role = self.get_role(&community_id, &target_actor).rank();
        if caller_role <= target_role && caller_role != 4 {
            return Err("Unauthorized: Cannot ban a member with equal or higher role".to_owned());
        }
        if id_eq(&target_actor, &self.local_actor_id) {
            return Err("InvalidOperation: Cannot ban oneself".to_owned());
        }
        let local = self.local_actor_id;
        self.drop_role(&community_id, &target_actor);
        let ghost s0 = *self;
        let mut bans = match self.banned_actors.remove(&community_id) {
            Some(b) => b,
            None => KeyedMap::new(),
        };
        bans.insert(target_actor, ());
        self.banned_actors.insert(community_id, bans);
        proof {
            assert forall|k: Seq<u8>| #[trigger] self.ban_set(k)
                == if k == community_id@ { old(self).ban_set(k).insert(target_actor@) } else { old(self).ban_set(k) } by {
                if k == community_id@ {
                    assert(self.ban_set(k) =~= old(self).ban_set(k).insert(target_actor@));
                }
            }
        }
        let ghost s1 = *self;
        let result: Result<ObjectID, String> = match encode_ban_record(&community_id, &target_actor, &local, epoch) {
            Ok(ban_payload) => {
                let mut metadata: KeyedMap<String, String> = KeyedMap::new();
                metadata.insert("community_id".to_string(), hex_encode(community_id.as_slice()));
                metadata.insert("banned_actor".to_string(), hex_encode(target_actor.as_slice()));
                metadata.insert("banned_by".to_string(), hex_encode(local.as_slice()));
                metadata.insert("epoch".to_string(), decimal_text(epoch));
                match self.api.create_object(community_id, ObjectType::Community, metadata, ban_payload) {
                    Ok(ban_obj_id) => {
                        let key = pair_of(&community_id, &target_actor);
                        self.ban_objects.insert(key, ban_obj_id);
                        Ok(ban_obj_id)
                    }
                    Err(e) => Err(runtime_error_text(&e)),
                }
            }
            Err(e) => Err(e),
        };
        proof {
            assert(self.roles == s0.roles);
            assert forall|k: Seq<u8>| #[trigger] self.role_map(k) == s0.role_map(k) by {}
            assert forall|k: Seq<u8>| #[trigger] self.ban_set(k) == s1.ban_set(k) by {}
        }
        result
    }

    /// Lifts a ban (the caller must be at least Admin) and deletes its ban record,
    /// if one is known.
    pub fn unban_member(&mut self, community_id: ObjectID, target_actor: ActorID, _epoch: u64) -> (r: Result<(), String>)
        ensures
            ({
                let c = community_id@;
                let caller = role_rank(old(self).role_of(c, old(self).local_actor_id@));
                &&& caller < 3 ==> (r matches Err(e) && e@ == "Unauthorized: Must be at least Admin to unban members"@
                    && final(self).banned_actors@ == old(self).banned_actors@ && final(self).ban_objects@ == old(self).ban_objects@)
                &&& caller >= 3 ==> r is Ok
                    && (forall|k: Seq<u8>| #[trigger] final(self).ban_set(k)
                        == if k == c { old(self).ban_set(k).remove(target_actor@) } else { old(self).ban_set(k) })
                    && final(self).ban_objects@ == old(self).ban_objects@.remove(pair_key(c, target_actor@))
            }),
            final(self).roles@ == old(self).roles@,
            final(self).communities@ == old(self).communities@,
            final(self).local_actor_id == old(self).local_actor_id,
    {
        let caller_role = self.get_role(&community_id, &self.local_actor_id).rank();
        if caller_role < 3 {
            return Err("Unauthorized: Must be at least Admin to unban members".to_owned());
        }
        match self.banned_actors.remove(&community_id) {
            Some(b) => {
                let mut b = b;
                b.remove(&target_actor);
                self.banned_actors.insert(community_id, b);
            }
            None => {}
        }
        proof {
            assert forall|k: Seq<u8>| #[trigger] self.ban_set(k)
                == if k == community_id@ { old(self).ban_set(k).remove(target_actor@) } else { old(self).ban_set(k) } by {
                if k == community_id@ {
                    assert(self.ban_set(k) =~= old(self).ban_set(k).remove(target_actor@));
                }
            }
        }
        let key = pair_of(&community_id, &target_actor);
        match self.ban_objects.remove(&key) {
            Some(ban_obj_id) => {
                let _ = self.api.delete_object(ban_obj_id, None);
            }
            None => {}
        }
        Ok(())
    }

    /// Moderators and above lock a post against replies.
    pub fn lock_post(&mut self, community_id: ObjectID, post_id: ObjectID) -> (r: Result<(), String>)
        ensures
            ({
                let caller = role_rank(old(self).role_of(community_id@, old(self).local_actor_id@));
                &&& caller < 2 ==> (r matches Err(e) && e@ == "Unauthorized: Must be at least Moderator to lock posts"@)
                &&& caller >= 2 && !old(self).posts@.contains_key(post_id@) ==> (r matches Err(e) && e@ == "Post not found"@)
                &&& r is Ok <==> caller >= 2 && old(self).posts@.contains_key(post_id@)
                &&& r is Ok ==> final(self).posts@ == old(self).posts@.insert(post_id@,
                        CommunityPost { is_locked: true, ..old(self).posts@[post_id@] })
                &&& r is Err ==> final(self).posts@ == old(self).posts@
            }),
    {
        let role = self.get_role(&community_id, &self.local_actor_id).rank();
        if role < 2 {
            return Err("Unauthorized: Must be at least Moderator to lock posts".to_owned());
        }
        match self.posts.remove(&post_id) {
            Some(p) => {
                let mut p = p;
                p.is_locked = true;
                self.posts.insert(post_id, p);
                assert(self.posts@ =~= old(self).posts@.insert(post_id@, CommunityPost { is_locked: true, ..old(self).posts@[post_id@] }));
                Ok(())
            }
            None => Err("Post not found".to_owned()),
        }
    }

    /// Moderators and above pin a post.
    pub fn pin_post(&mut self, community_id: ObjectID, post_id: ObjectID) -> (r: Result<(), String>)
        ensures
            ({
                let caller = role_rank(old(self).role_of(community_id@, old(self).local_actor_id@));
                &&& caller < 2 ==> (r matches Err(e) && e@ == "Unauthorized: Must be at least Moderator to pin posts"@)
                &&& caller >= 2 && !old(self).posts@.contains_key(post_id@) ==> (r matches Err(e) && e@ == "Post not found"@)
                &&& r is Ok <==> caller >= 2 && old(self).posts@.contains_key(post_id@)
                &&& r is Ok ==> final(self).posts@ == old(self).posts@.insert(post_id@,
                        CommunityPost { is_pinned: true, ..old(self).posts@[post_id@] })
                &&& r is Err ==> final(self).posts@ == old(self).posts@
            }),
    {
        let role = self.get_role(&community_id, &self.local_actor_id).rank();
        if role < 2 {
            return Err("Unauthorized: Must be at least Moderator to pin posts".to_owned());
        }
        match self.posts.remove(&post_id) {
            Some(p) => {
                let mut p = p;
                p.is_pinned = true;
                self.posts.insert(post_id, p);
                assert(self.posts@ =~= old(self).posts@.insert(post_id@, CommunityPost { is_pinned: true, ..old(self).posts@[post_id@] }));
                Ok(())
            }
            None => Err("Post not found".to_owned()),
        }
    }

    /// Moderators and above delete a post through the API and drop it here.
    pub fn moderate_tombstone_post(&mut self, community_id: ObjectID, post_id: ObjectID, proof: Option<CapabilityProof>) -> (r: Result<(), String>)
        ensures
            ({
                let caller = role_rank(old(self).role_of(community_id@, old(self).local_actor_id@));
                &&& caller < 2 ==> (r matches Err(e) && e@ == "Unauthorized: Must be at least Moderator to moderate post"@)
                &&& r is Ok ==> caller >= 2 && final(self).posts@ == old(self).posts@.remove(post_id@)
                &&& r is Err ==> final(self).posts@ == old(self).posts@
            }),
    {
        let role = self.get_role(&community_id, &self.local_actor_id).rank();
        if role < 2 {
            return Err("Unauthorized: Must be at least Moderator to moderate post".to_owned());
        }
        match self.api.delete_object(post_id, proof) {
            Ok(_) => {}
            Err(e) => {
                return Err(runtime_error_text(&e));
            }
        }
        self.posts.remove(&post_id);
        Ok(())
    }

    /// The actors who reacted to a post with an emoji.
    pub open spec fn reactors(&self, post: Seq<u8>, emoji: Seq<u8>) -> Set<Seq<u8>> {
        if self.reactions@.contains_key(post) && self.reactions@[post]@.contains_key(emoji) {
            self.reactions@[post]@[emoji]@.dom()
        } else {
            Set::empty()
        }
    }

    /// Records the local actor's reaction.
    pub fn add_reaction(&mut self, post_id: ObjectID, emoji: &str)
        ensures
            forall|p: Seq<u8>, e: Seq<u8>| #[trigger] final(self).reactors(p, e)
                == if p == post_id@ && e == vstd::utf8::encode_utf8(emoji@) {
                    old(self).reactors(p, e).insert(old(self).local_actor_id@)
                } else {
                    old(self).reactors(p, e)
                },
    {
        let mut per_post = match self.reactions.remove(&post_id) {
            Some(m) => m,
            None => KeyedMap::new(),
        };
        let key = emoji.to_string();
        let mut actors = match per_post.remove(&key) {
            Some(a) => a,
            None => KeyedMap::new(),
        };
        actors.insert(self.local_actor_id, ());
        per_post.insert(key, actors);
        self.reactions.insert(post_id, per_post);
        proof {
            assert forall|p: Seq<u8>, e: Seq<u8>| #[trigger] self.reactors(p, e)
                == if p == post_id@ && e == vstd::utf8::encode_utf8(emoji@) {
                    old(self).reactors(p, e).insert(old(self).local_actor_id@)
                } else {
                    old(self).reactors(p, e)
                } by {
                if p == post_id@ && e == vstd::utf8::encode_utf8(emoji@) {
                    assert(self.reactors(p, e) =~= old(self).reactors(p, e).insert(old(self).local_actor_id@));
                }
            }
        }
    }

    /// The number of reactors per emoji on a post.
    pub fn get_reactions(&self, post_id: &ObjectID) -> (r: KeyedMap<String, usize>)
        ensures
            forall|e: Seq<u8>| #[trigger] r@.contains_key(e) == (self.reactions@.contains_key(post_id@)
                && self.reactions@[post_id@]@.contains_key(e)),
            forall|e: Seq<u8>| #[trigger] r@.contains_key(e) ==> r@[e] == self.reactors(post_id@, e).len(),
    {
        let mut counts: KeyedMap<String, usize> = KeyedMap::new();
        match self.reactions.get(post_id) {
            Some(emojis) => {
                let n = emojis.len();
                let ghost ks = emojis.keys();
                let mut i: usize = 0;
                while i < n
                    invariant
                        i <= n,
                        n == ks.len(),
                        ks == emojis.keys(),
                        self.reactions@.contains_key(post_id@),
                        *emojis == self.reactions@[post_id@],
                        forall|k: int| 0 <= k < n ==> #[trigger] emojis@.contains_key(ks[k]),
                        forall|e: Seq<u8>| #[trigger] emojis@.contains_key(e) ==> ks.contains(e),
                        forall|e: Seq<u8>| #[trigger] counts@.contains_key(e) == ks.take(i as int).contains(e),
                        forall|e: Seq<u8>| #[trigger] counts@.contains_key(e) ==> counts@[e] == emojis@[e]@.dom().len(),
                    decreases n - i,
                {
                    let emoji = emojis.key_at(i);
                    let actors = emojis.value_at(i);
                    let c = actors.len();
                    counts.insert(emoji.as_str().to_string(), c);
                    proof {
                        assert(ks.take(i + 1) =~= ks.take(i as int).push(ks[i as int]));
                        assert forall|e: Seq<u8>| #[trigger] ks.take(i + 1).contains(e) == (ks.take(i as int).contains(e) || e == ks[i as int]) by {
                            if ks.take(i + 1).contains(e) && e != ks[i as int] {
                                let w = choose|w: int| 0 <= w < i + 1 && #[trigger] ks.take(i + 1)[w] == e;
                                assert(ks.take(i as int)[w] == e);
                            }
                            if ks.take(i as int).contains(e) {
                                let w = choose|w: int| 0 <= w < i && #[trigger] ks.take(i as int)[w] == e;
                                assert(ks.take(i + 1)[w] == e);
                            }
                            if e == ks[i as int] {
                                assert(ks.take(i + 1)[i as int] == e);
                            }
                        }
                    }
                    i = i + 1;
                }
                proof {
                    assert(ks.take(n as int) =~= ks);
                }
            }
            None => {}
        }
        counts
    }
    /// Creates a community owned by the local actor: its record is encoded by
    /// `codec` and stored through the API; the new object's id keys the community and
    /// the local actor's Owner role.
    pub fn create_community<C: RecordCodec>(&mut self, codec: &C, namespace_id: NamespaceID, name: &str, description: &str,
        epoch: u64, _proof: Option<CapabilityProof>) -> (r: Result<ObjectID, String>)
        ensures
            r matches Ok(id) ==> {
                &&& final(self).communities@ == old(self).communities@.insert(id@, final(self).communities@[id@])
                &&& final(self).communities@[id@].community_id@ == sha256_spec(tagged("NEX/COMMUNITY/META/v1",
                        vstd::utf8::encode_utf8(name@) + old(self).local_actor_id@ + le_bytes(epoch as nat, 8)))
                &&& final(self).communities@[id@].name@ == name@
                &&& final(self).communities@[id@].description@ == description@
                &&& final(self).communities@[id@].owner_actor_id == old(self).local_actor_id
                &&& final(self).communities@[id@].created_epoch == epoch
                &&& forall|k: Seq<u8>| #[trigger] final(self).role_map(k)
                    == if k == id@ { old(self).role_map(k).insert(old(self).local_actor_id@, CommunityRole::Owner) } else { old(self).role_map(k) }
            },
            r is Err ==> final(self).communities@ == old(self).communities@ && final(self).roles@ == old(self).roles@,
            final(self).banned_actors@ == old(self).banned_actors@,
            final(self).local_actor_id == old(self).local_actor_id,
    {
        let mut buf: Vec<u8> = Vec::new();
        push_all(&mut buf, "NEX/COMMUNITY/META/v1".as_bytes());
        push_all(&mut buf, name.as_bytes());
        push_all(&mut buf, self.local_actor_id.as_slice());
        push_le(&mut buf, epoch, 8);
        assert(buf@ =~= tagged("NEX/COMMUNITY/META/v1", vstd::utf8::encode_utf8(name@) + self.local_actor_id@ + le_bytes(epoch as nat, 8)));
        let community_id = sha256(buf.as_slice());
        let comm = Community {
            community_id,
            name: name.to_string(),
            description: description.to_string(),
            owner_actor_id: self.local_actor_id,
            created_epoch: epoch,
        };
        let payload = match codec.encode_community(&comm) {
            Ok(p) => p,
            Err(e) => {
                return Err(e);
            }
        };
        let mut metadata: KeyedMap<String, String> = KeyedMap::new();
        metadata.insert("name".to_string(), name.to_string());
        metadata.insert("owner".to_string(), hex_encode(self.local_actor_id.as_slice()));
        let outcome = self.api.create_object(namespace_id, ObjectType::Community, metadata, payload);
        self.record_community(comm, outcome)
    }

    /// Applies the node's reply to creating a community's object: on success keeps
    /// the community under the new object's id, with the local actor as its Owner,
    /// and returns that id; on failure changes nothing.
    pub fn record_community(&mut self, comm: Community, outcome: Result<ObjectID, CoreRuntimeError>) -> (r: Result<ObjectID, String>)
        ensures
            outcome is Ok <==> r is Ok,
            outcome matches Ok(id) ==> {
                &&& r == Ok::<ObjectID, String>(id)
                &&& final(self).communities@ == old(self).communities@.insert(id@, comm)
                &&& forall|k: Seq<u8>| #[trigger] final(self).role_map(k)
                    == if k == id@ { old(self).role_map(k).insert(old(self).local_actor_id@, CommunityRole::Owner) } else { old(self).role_map(k) }
            },
            r is Err ==> final(self).communities@ == old(self).communities@ && final(self).roles@ == old(self).roles@,
            final(self).banned_actors@ == old(self).banned_actors@,
            final(self).local_actor_id == old(self).local_actor_id,
    {
        let obj_id = match node_reply(outcome) {
            Ok(id) => id,
            Err(e) => {
                return Err(e);
            }
        };
        self.communities.insert(obj_id, comm);
        let local = self.local_actor_id;
        self.put_role(&obj_id, &local, CommunityRole::Owner);
        Ok(obj_id)
    }

    /// Creates a channel; the local actor must not be banned and must be at least Admin.
    pub fn create_channel<C: RecordCodec>(&mut self, codec: &C, namespace_id: NamespaceID, community_id: ObjectID, name: &str,
        is_private: bool, _proof: Option<CapabilityProof>) -> (r: Result<ObjectID, String>)
        ensures
            ({
                let banned = old(self).banned(community_id@, old(self).local_actor_id@);
                let role = role_rank(old(self).role_of(community_id@, old(self).local_actor_id@));
                &&& banned ==> (r matches Err(e) && e@ == "Unauthorized: Banned from community"@)
                &&& !banned && role < 3 ==> (r matches Err(e) && e@ == "Unauthorized: Must be Admin to create channel"@)
                &&& r is Ok ==> !banned && role >= 3
                &&& r matches Ok(id) ==> {
                    &&& final(self).channels@ == old(self).channels@.insert(id@, final(self).channels@[id@])
                    &&& final(self).channels@[id@].channel_id@ == sha256_spec(tagged("NEX/COMMUNITY/CHANNEL/v1",
                        community_id@ + vstd::utf8::encode_utf8(name@)))
                    &&& final(self).channels@[id@].community_id == community_id
                    &&& final(self).channels@[id@].name@ == name@
                    &&& final(self).channels@[id@].is_private == is_private
                }
                &&& r is Err ==> final(self).channels@ == old(self).channels@
            }),
    {
        if self.is_banned(&community_id, &self.local_actor_id) {
            return Err("Unauthorized: Banned from community".to_owned());
        }
        let role = self.get_role(&community_id, &self.local_actor_id).rank();
        if role < 3 {
            return Err("Unauthorized: Must be Admin to create channel".to_owned());
        }
        let mut buf: Vec<u8> = Vec::new();
        push_all(&mut buf, "NEX/COMMUNITY/CHANNEL/v1".as_bytes());
        push_all(&mut buf, community_id.as_slice());
        push_all(&mut buf, name.as_bytes());
        assert(buf@ =~= tagged("NEX/COMMUNITY/CHANNEL/v1", community_id@ + vstd::utf8::encode_utf8(name@)));
        let channel_id = sha256(buf.as_slice());
        let channel = CommunityChannel { channel_id, community_id, name: name.to_string(), is_private };
        let payload = match codec.encode_channel(&channel) {
            Ok(p) => p,
            Err(e) => {
                return Err(e);
            }
        };
        let mut metadata: KeyedMap<String, String> = KeyedMap::new();
        metadata.insert("community_id".to_string(), hex_encode(community_id.as_slice()));
        metadata.insert("name".to_string(), name.to_string());
        let obj_id = match self.api.create_object(namespace_id, ObjectType::Community, metadata, payload) {
            Ok(id) => id,
            Err(e) => {
                return Err(runtime_error_text(&e));
            }
        };
        self.channels.insert(obj_id, channel);
        Ok(obj_id)
    }

    /// Creates a post in a known channel whose community has not banned the local actor.
    pub fn create_post<C: RecordCodec>(&mut self, codec: &C, namespace_id: NamespaceID, channel_id: ObjectID, title: &str,
        content: &str, epoch: u64, _proof: Option<CapabilityProof>) -> (r: Result<ObjectID, String>)
        ensures
            ({
                let known = old(self).channels@.contains_key(channel_id@);
                let banned = known && old(self).banned(old(self).channels@[channel_id@].community_id@, old(self).local_actor_id@);
                &&& !known ==> (r matches Err(e) && e@ == "Channel not found"@)
                &&& banned ==> (r matches Err(e) && e@ == "Unauthorized: Banned from community"@)
                &&& r is Ok ==> known && !banned
                &&& r matches Ok(id) ==> {
                    &&& final(self).posts@ == old(self).posts@.insert(id@, final(self).posts@[id@])
                    &&& final(self).posts@[id@].post_id@ == sha256_spec(tagged("NEX/COMMUNITY/POST/v1",
                        channel_id@ + old(self).local_actor_id@ + vstd::utf8::encode_utf8(title@) + le_bytes(epoch as nat, 8)))
                    &&& final(self).posts@[id@].channel_id == channel_id
                    &&& final(self).posts@[id@].author_actor_id == old(self).local_actor_id
                    &&& final(self).posts@[id@].title@ == title@
                    &&& final(self).posts@[id@].content@ == content@
                    &&& final(self).posts@[id@].created_epoch == epoch
                    &&& !final(self).posts@[id@].is_pinned && !final(self).posts@[id@].is_locked
                }
                &&& r is Err ==> final(self).posts@ == old(self).posts@
            }),
    {
        let community_id = match self.channels.get(&channel_id) {
            Some(ch) => ch.community_id,
            None => {
                return Err("Channel not found".to_owned());
            }
        };
        if self.is_banned(&community_id, &self.local_actor_id) {
            return Err("Unauthorized: Banned from community".to_owned());
        }
        let mut buf: Vec<u8> = Vec::new();
        push_all(&mut buf, "NEX/COMMUNITY/POST/v1".as_bytes());
        push_all(&mut buf, channel_id.as_slice());
        push_all(&mut buf, self.local_actor_id.as_slice());
        push_all(&mut buf, title.as_bytes());
        push_le(&mut buf, epoch, 8);
        assert(buf@ =~= tagged("NEX/COMMUNITY/POST/v1",
            channel_id@ + self.local_actor_id@ + vstd::utf8::encode_utf8(title@) + le_bytes(epoch as nat, 8)));
        let post_id = sha256(buf.as_slice());
        let post = CommunityPost {
            post_id,
            channel_id,
            author_actor_id: self.local_actor_id,
            title: title.to_string(),
            content: content.to_string(),
            created_epoch: epoch,
            is_pinned: false,
            is_locked: false,
        };
        let payload = match codec.encode_post(&post) {
            Ok(p) => p,
            Err(e) => {
                return Err(e);
            }
        };
        let mut metadata: KeyedMap<String, String> = KeyedMap::new();
        metadata.insert("channel_id".to_string(), hex_encode(channel_id.as_slice()));
        metadata.insert("author".to_string(), hex_encode(self.local_actor_id.as_slice()));
        let obj_id = match self.api.create_object(namespace_id, ObjectType::Community, metadata, payload) {
            Ok(id) => id,
            Err(e) => {
                return Err(runtime_error_text(&e));
            }
        };
        self.posts.insert(obj_id, post);
        Ok(obj_id)
    }

    /// Replies to a known, unlocked post whose community has not banned the local actor.
    pub fn create_reply<C: RecordCodec>(&mut self, codec: &C, namespace_id: NamespaceID, post_id: ObjectID,
        parent_reply_id: Option<ObjectID>, body_content: &str, epoch: u64, _proof: Option<CapabilityProof>) -> (r: Result<ObjectID, String>)
        ensures
            ({
                let has_post = old(self).posts@.contains_key(post_id@);
                let post = old(self).posts@[post_id@];
                let has_channel = has_post && old(self).channels@.contains_key(post.channel_id@);
                let banned = has_channel && old(self).banned(old(self).channels@[post.channel_id@].community_id@, old(self).local_actor_id@);
                &&& !has_post ==> (r matches Err(e) && e@ == "Post not found"@)
                &&& has_post && !has_channel ==> (r matches Err(e) && e@ == "Channel not found"@)
                &&& banned ==> (r matches Err(e) && e@ == "Unauthorized: Banned from community"@)
                &&& has_channel && !banned && post.is_locked ==> (r matches Err(e) && e@ == "Thread is locked"@)
                &&& r is Ok ==> has_channel && !banned && !post.is_locked
                &&& r matches Ok(id) ==> {
                    &&& final(self).replies@ == old(self).replies@.insert(id@, final(self).replies@[id@])
                    &&& final(self).replies@[id@].reply_id@ == sha256_spec(tagged("NEX/COMMUNITY/REPLY/v1",
                        post_id@ + old(self).local_actor_id@ + vstd::utf8::encode_utf8(body_content@)))
                    &&& final(self).replies@[id@].post_id == post_id
                    &&& final(self).replies@[id@].parent_reply_id == parent_reply_id
                    &&& final(self).replies@[id@].author_actor_id == old(self).local_actor_id
                    &&& final(self).replies@[id@].body_content@ == body_content@
                    &&& final(self).replies@[id@].created_epoch == epoch
                }
                &&& r is Err ==> final(self).replies@ == old(self).replies@
            }),
    {
        let (channel_id, locked) = match self.posts.get(&post_id) {
            Some(p) => (p.channel_id, p.is_locked),
            None => {
                return Err("Post not found".to_owned());
            }
        };
        let community_id = match self.channels.get(&channel_id) {
            Some(ch) => ch.community_id,
            None => {
                return Err("Channel not found".to_owned());
            }
        };
        if self.is_banned(&community_id, &self.local_actor_id) {
            return Err("Unauthorized: Banned from community".to_owned());
        }
        if locked {
            return Err("Thread is locked".to_owned());
        }
        let mut buf: Vec<u8> = Vec::new();
        push_all(&mut buf, "NEX/COMMUNITY/REPLY/v1".as_bytes());
        push_all(&mut buf, post_id.as_slice());
        push_all(&mut buf, self.local_actor_id.as_slice());
        push_all(&mut buf, body_content.as_bytes());
        assert(buf@ =~= tagged("NEX/COMMUNITY/REPLY/v1", post_id@ + self.local_actor_id@ + vstd::utf8::encode_utf8(body_content@)));
        let reply_id = sha256(buf.as_slice());
        let reply = CommunityReply {
            reply_id,
            post_id,
            parent_reply_id,
            author_actor_id: self.local_actor_id,
            body_content: body_content.to_string(),
            created_epoch: epoch,
        };
        let payload = match codec.encode_reply(&reply) {
            Ok(p) => p,
            Err(e) => {
                return Err(e);
            }
        };
        let mut metadata: KeyedMap<String, String> = KeyedMap::new();
        metadata.insert("post_id".to_string(), hex_encode(post_id.as_slice()));
        metadata.insert("author".to_string(), hex_encode(self.local_actor_id.as_slice()));
        let obj_id = match self.api.create_object(namespace_id, ObjectType::Community, metadata, payload) {
            Ok(id) => id,
            Err(e) => {
                return Err(runtime_error_text(&e));
            }
        };
        self.replies.insert(obj_id, reply);
        Ok(obj_id)
    }

    /// Accepts an invitation meant for the local actor from an issuer who is at least
    /// Admin; the local actor takes the assigned role.
    pub fn accept_invitation(&mut self, token: CommunityInvitationToken) -> (r: Result<(), String>)
        ensures
            ({
                let c = token.community_id@;
                let issuer = role_rank(old(self).role_of(c, token.issuer_actor_id@));
                &&& token.invited_actor_id != old(self).local_actor_id ==> (r matches Err(e)
                    && e@ == "Invitation is not intended for local actor"@)
                &&& token.invited_actor_id == old(self).local_actor_id && issuer < 3 ==> (r matches Err(e)
                    && e@ == "Invitation issuer is not authorized (must be Admin/Owner)"@)
                &&& r is Ok <==> token.invited_actor_id == old(self).local_actor_id && issuer >= 3
                &&& r is Ok ==> forall|k: Seq<u8>| #[trigger] final(self).role_map(k)
                    == if k == c { old(self).role_map(k).insert(old(self).local_actor_id@, token.assigned_role) } else { old(self).role_map(k) }
                &&& r is Err ==> final(self).roles@ == old(self).roles@
            }),
    {
        if !id_eq(&token.invited_actor_id, &self.local_actor_id) {
            return Err("Invitation is not intended for local actor".to_owned());
        }
        let issuer_role = self.get_role(&token.community_id, &token.issuer_actor_id).rank();
        if issuer_role < 3 {
            return Err("Invitation issuer is not authorized (must be Admin/Owner)".to_owned());
        }
        let local = self.local_actor_id;
        self.put_role(&token.community_id, &local, token.assigned_role);
        Ok(())
    }
}

#[derive(Debug, Clone, PartialEq, Eq)]
pub struct CommunityInvitationToken {
    pub community_id: ObjectID,
    pub invited_actor_id: ActorID,
    pub assigned_role: CommunityRole,
    pub issuer_actor_id: ActorID,
    pub signature: Vec<u8>,
}

impl CommunityInvitationToken {
    /// SHA-256 of the invitation domain, the community, the invitee, the role's rank
    /// and the issuer.
    pub fn compute_digest(&self) -> (r: [u8; 32])
        ensures
            r@ == sha256_spec(tagged("NEX/COMMUNITY/INVITE/v1", self.community_id@ + self.invited_actor_id@
                + seq![role_rank(self.assigned_role)] + self.issuer_actor_id@)),
    {
        let mut buf: Vec<u8> = Vec::new();
        push_all(&mut buf, "NEX/COMMUNITY/INVITE/v1".as_bytes());
        push_all(&mut buf, self.community_id.as_slice());
        push_all(&mut buf, self.invited_actor_id.as_slice());
        buf.push(self.assigned_role.rank());
        push_all(&mut buf, self.issuer_actor_id.as_slice());
        assert(buf@ =~= tagged("NEX/COMMUNITY/INVITE/v1", self.community_id@ + self.invited_actor_id@
            + seq![role_rank(self.assigned_role)] + self.issuer_actor_id@));
        sha256(buf.as_slice())
    }
}

/// The ban sets as plain values, by community.
pub open spec fn ban_sets(m: Map<Seq<u8>, KeyedMap<ActorID, ()>>) -> Map<Seq<u8>, Set<Seq<u8>>> {
    Map::new(|c: Seq<u8>| m.contains_key(c), |c: Seq<u8>| m[c]@.dom())
}

/// A 32-byte id written in hex under `key` in the metadata, if it is.
pub open spec fn hex_id_meta(md: Map<Seq<u8>, String>, key: Seq<char>) -> Option<Seq<u8>> {
    let k = vstd::utf8::encode_utf8(key);
    if md.contains_key(k) && hex_decodable(vstd::utf8::encode_utf8(md[k]@))
        && hex_bytes(vstd::utf8::encode_utf8(md[k]@)).len() == 32 {
        Some(hex_bytes(vstd::utf8::encode_utf8(md[k]@)))
    } else {
        None
    }
}

/// The ban an object records: the community and the banned actor from its metadata.
pub open spec fn ban_record(o: NexObject) -> Option<(Seq<u8>, Seq<u8>)> {
    match (hex_id_meta(o.metadata@, "community_id"@), hex_id_meta(o.metadata@, "banned_actor"@)) {
        (Some(c), Some(a)) => Some((c, a)),
        _ => None,
    }
}

/// The ban sets and ban records after replaying the objects in order: a live
/// record bans, a tombstoned one lifts the ban.
pub open spec fn replayed_bans(sets: Map<Seq<u8>, Set<Seq<u8>>>, recs: Map<Seq<u8>, ObjectID>, objs: Seq<NexObject>)
    -> (Map<Seq<u8>, Set<Seq<u8>>>, Map<Seq<u8>, ObjectID>)
    decreases objs.len(),
{
    if objs.len() == 0 {
        (sets, recs)
    } else {
        let (s0, r0) = replayed_bans(sets, recs, objs.drop_last());
        let o = objs.last();
        match ban_record(o) {
            None => (s0, r0),
            Some((c, a)) => if o.tombstoned {
                (if s0.contains_key(c) { s0.insert(c, s0[c].remove(a)) } else { s0 }, r0.remove(pair_key(c, a)))
            } else {
                (s0.insert(c, (if s0.contains_key(c) { s0[c] } else { Set::empty() }).insert(a)), r0.insert(pair_key(c, a), o.object_id))
            },
        }
    }
}

fn hex_id_meta_exec(md: &KeyedMap<String, String>, key: &str) -> (r: Option<[u8; 32]>)
    ensures
        match (r, hex_id_meta(md@, key@)) {
            (Some(x), Some(y)) => x@ == y,
            (None, None) => true,
            _ => false,
        },
{
    match md.get(&key.to_string()) {
        Some(v) => match hex_decode(v.as_str()) {
            Ok(b) => if b.len() == 32 { Some(arr32(b.as_slice())) } else { None },
            Err(_) => None,
        },
        None => None,
    }
}

impl<A: NexAppApi> NexCommunityEngine<A> {
    /// Rebuilds the bans from ban records among `objects`, in order: a live record
    /// bans its actor in its community, a tombstoned one lifts the ban; objects
    /// without both ids in hex are skipped.
    pub fn rebuild_moderation_from_objects(&mut self, objects: &[NexObject])
        ensures
            ({
                let (s, rc) = replayed_bans(ban_sets(old(self).banned_actors@), old(self).ban_objects@, objects@);
                &&& ban_sets(final(self).banned_actors@) == s
                &&& final(self).ban_objects@ == rc
            }),
            final(self).roles@ == old(self).roles@,
            final(self).communities@ == old(self).communities@,
            final(self).local_actor_id == old(self).local_actor_id,
    {
        let ghost s0 = ban_sets(self.banned_actors@);
        let ghost r0 = self.ban_objects@;
        let mut i: usize = 0;
        while i < objects.len()
            invariant
                i <= objects@.len(),
                ({
                    let (s, rc) = replayed_bans(s0, r0, objects@.take(i as int));
                    &&& ban_sets(self.banned_actors@) == s
                    &&& self.ban_objects@ == rc
                }),
                self.roles@ == old(self).roles@,
                self.communities@ == old(self).communities@,
                self.local_actor_id == old(self).local_actor_id,
            decreases objects@.len() - i,
        {
            proof {
                assert(objects@.take(i + 1).drop_last() =~= objects@.take(i as int));
                assert(objects@.take(i + 1).last() == objects@[i as int]);
            }
            let obj = &objects[i];
            let c = hex_id_meta_exec(&obj.metadata, "community_id");
            let a = hex_id_meta_exec(&obj.metadata, "banned_actor");
            match (c, a) {
                (Some(comm_id), Some(banned_id)) => {
                    let ghost sb = ban_sets(self.banned_actors@);
                    let pk = pair_of(&comm_id, &banned_id);
                    if obj.tombstoned {
                        match self.banned_actors.remove(&comm_id) {
                            Some(bans) => {
                                let mut bans = bans;
                                bans.remove(&banned_id);
                                self.banned_actors.insert(comm_id, bans);
                                proof {
                                    assert(ban_sets(self.banned_actors@) =~= sb.insert(comm_id@, sb[comm_id@].remove(banned_id@)));
                                }
                            }
                            None => {}
                        }
                        self.ban_objects.remove(&pk);
                    } else {
                        let mut bans = match self.banned_actors.remove(&comm_id) {
                            Some(b) => b,
                            None => KeyedMap::new(),
                        };
                        bans.insert(banned_id, ());
                        self.banned_actors.insert(comm_id, bans);
                        proof {
                            assert(ban_sets(self.banned_actors@) =~= sb.insert(comm_id@,
                                (if sb.contains_key(comm_id@) { sb[comm_id@] } else { Set::empty() }).insert(banned_id@)));
                        }
                        self.ban_objects.insert(pk, obj.object_id);
                    }
                }
                _ => {}
            }
            i = i + 1;
        }
        proof {
            assert(objects@.take(objects@.len() as int) =~= objects@);
        }
    }
}

} // verus!
