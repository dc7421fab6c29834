//! Groups with epoch-ratcheted secrets, and shared family storage.

use vstd::prelude::*;
use crate::bytes::{push_all, be_bytes, be_vec};
use crate::crypto::{sha256_spec, tagged, hash_tagged, hash_tagged2};
use crate::keyed_map::KeyedMap;
use crate::encoding::{hex_encode, hex_lower};
use crate::text::{decimal_text, decimal};
use crate::object::types::{ObjectID, NamespaceID, ObjectType};
use crate::api::{NexAppApi, node_reply};
use crate::apps::resources::peer_key;

verus! {

#[derive(Debug, Clone, Copy, PartialEq, Eq, Structural)]
pub enum GroupRole {
    Admin,
    Member,
    Guest,
}

#[derive(Debug, Clone, Copy, PartialEq, Eq)]
pub struct GroupMember {
    pub actor_id: [u8; 32],
    pub role: GroupRole,
    pub joined_epoch: u64,
    pub is_active: bool,
}

#[derive(Debug)]
pub struct GroupState {
    pub group_id: [u8; 32],
    pub name: String,
    pub epoch: u64,
    pub members: KeyedMap<String, GroupMember>,
    pub epoch_secret: [u8; 32],
}

/// A group's id: SHA-256 over its tag, name and creator.
pub open spec fn group_id_of(name: Seq<char>, creator: Seq<u8>) -> Seq<u8> {
    sha256_spec(tagged("NEX/GROUP_ID/v1", vstd::utf8::encode_utf8(name) + creator))
}

/// The secret of a group's first epoch.
pub open spec fn initial_secret(group_id: Seq<u8>) -> Seq<u8> {
    sha256_spec(tagged("NEX/GROUP_INITIAL_SECRET/v1", group_id))
}

/// The secret of `epoch`, ratcheted forward from the previous epoch's secret.
pub open spec fn ratchet(secret: Seq<u8>, epoch: u64) -> Seq<u8> {
    sha256_spec(tagged("NEX/GROUP_RATCHET/v1", secret + be_bytes(epoch as nat, 8)))
}

impl GroupState {
    /// A group at epoch 1 whose only member is its creator, as an active admin.
    pub fn new(name: &str, creator_actor: [u8; 32]) -> (r: Self)
        ensures
            r.group_id@ == group_id_of(name@, creator_actor@),
            r.epoch_secret@ == initial_secret(r.group_id@),
            r.name@ == name@,
            r.epoch == 1,
            r.members@ == Map::<Seq<u8>, GroupMember>::empty().insert(peer_key(creator_actor@),
                GroupMember { actor_id: creator_actor, role: GroupRole::Admin, joined_epoch: 1, is_active: true }),
    {
        let group_id = hash_tagged2("NEX/GROUP_ID/v1", name.as_bytes(), creator_actor.as_slice());
        let epoch_secret = hash_tagged("NEX/GROUP_INITIAL_SECRET/v1", group_id.as_slice());
        let mut members: KeyedMap<String, GroupMember> = KeyedMap::new();
        members.insert(hex_encode(creator_actor.as_slice()),
            GroupMember { actor_id: creator_actor, role: GroupRole::Admin, joined_epoch: 1, is_active: true });
        GroupState { group_id, name: name.to_string(), epoch: 1, members, epoch_secret }
    }

    /// Adds (or replaces) a member, active and joined at the current epoch.
    pub fn add_member(&mut self, actor_id: [u8; 32], role: GroupRole)
        ensures
            final(self).members@ == old(self).members@.insert(peer_key(actor_id@),
                GroupMember { actor_id, role, joined_epoch: old(self).epoch, is_active: true }),
            final(self).epoch == old(self).epoch,
            final(self).epoch_secret == old(self).epoch_secret,
            final(self).group_id == old(self).group_id,
            final(self).name@ == old(self).name@,
    {
        let key = hex_encode(actor_id.as_slice());
        let m = GroupMember { actor_id, role, joined_epoch: self.epoch, is_active: true };
        self.members.insert(key, m);
    }

    /// Marks a member inactive, advances the epoch and ratchets the secret; an
    /// error, changing nothing, when the actor was never a member.
    pub fn remove_member(&mut self, actor_id: &[u8; 32]) -> (r: Result<(), String>)
        requires
            old(self).members@.contains_key(peer_key(actor_id@)) ==> old(self).epoch < u64::MAX,
        ensures
            ({
                let k = peer_key(actor_id@);
                &&& !old(self).members@.contains_key(k) ==> (r matches Err(e) && e@ == "Member not found"@
                    && final(self).members@ == old(self).members@ && final(self).epoch == old(self).epoch
                    && final(self).epoch_secret == old(self).epoch_secret)
                &&& old(self).members@.contains_key(k) ==> (r is Ok
                    && final(self).members@ == old(self).members@.insert(k,
                        GroupMember { is_active: false, ..old(self).members@[k] })
                    && final(self).epoch == old(self).epoch + 1
                    && final(self).epoch_secret@ == ratchet(old(self).epoch_secret@, final(self).epoch))
            }),
            final(self).group_id == old(self).group_id,
            final(self).name@ == old(self).name@,
    {
        let key = hex_encode(actor_id.as_slice());
        let found = match self.members.get(&key) {
            Some(m) => Some(*m),
            None => None,
        };
        match found {
            Some(m) => {
                self.members.insert(key, GroupMember { is_active: false, ..m });
                self.epoch = self.epoch + 1;
                let mut buf: Vec<u8> = Vec::new();
                push_all(&mut buf, self.epoch_secret.as_slice());
                let eb = be_vec(self.epoch, 8);
                push_all(&mut buf, eb.as_slice());
                let next = hash_tagged("NEX/GROUP_RATCHET/v1", buf.as_slice());
                self.epoch_secret = next;
                Ok(())
            }
            None => Err("Member not found".to_string()),
        }
    }

    pub fn is_active_member(&self, actor_id: &[u8; 32]) -> (r: bool)
        ensures
            r == (self.members@.contains_key(peer_key(actor_id@)) && self.members@[peer_key(actor_id@)].is_active),
    {
        let key = hex_encode(actor_id.as_slice());
        match self.members.get(&key) {
            Some(m) => m.is_active,
            None => false,
        }
    }

    pub fn is_admin(&self, actor_id: &[u8; 32]) -> (r: bool)
        ensures
            r == (self.members@.contains_key(peer_key(actor_id@)) && self.members@[peer_key(actor_id@)].is_active
                && self.members@[peer_key(actor_id@)].role == GroupRole::Admin),
    {
        let key = hex_encode(actor_id.as_slice());
        match self.members.get(&key) {
            Some(m) => m.is_active && m.role == GroupRole::Admin,
            None => false,
        }
    }
}

#[derive(Debug)]
pub struct FamilyStoragePool {
    pub total_quota_bytes: u64,
    pub used_bytes: u64,
    pub member_limits: KeyedMap<String, u64>,
}

impl FamilyStoragePool {
    pub fn new(total_quota_bytes: u64) -> (r: Self)
        ensures
            r.total_quota_bytes == total_quota_bytes,
            r.used_bytes == 0,
            r.member_limits@ == Map::<Seq<u8>, u64>::empty(),
    {
        FamilyStoragePool { total_quota_bytes, used_bytes: 0, member_limits: KeyedMap::new() }
    }

    pub fn set_member_limit(&mut self, actor: [u8; 32], limit: u64)
        ensures
            final(self).member_limits@ == old(self).member_limits@.insert(peer_key(actor@), limit),
            final(self).total_quota_bytes == old(self).total_quota_bytes,
            final(self).used_bytes == old(self).used_bytes,
    {
        self.member_limits.insert(hex_encode(actor.as_slice()), limit);
    }

    /// Takes `bytes` from the shared pool; an error, changing nothing, when that
    /// would exceed the pool's quota. Member limits are not consulted.
    pub fn allocate_storage(&mut self, actor: &[u8; 32], bytes: u64) -> (r: Result<(), String>)
        requires
            old(self).used_bytes + bytes <= u64::MAX,
        ensures
            old(self).used_bytes + bytes > old(self).total_quota_bytes ==> (r matches Err(e)
                && e@ == "Storage pool quota exceeded"@ && final(self).used_bytes == old(self).used_bytes),
            old(self).used_bytes + bytes <= old(self).total_quota_bytes ==> (r is Ok
                && final(self).used_bytes == old(self).used_bytes + bytes),
            final(self).total_quota_bytes == old(self).total_quota_bytes,
            final(self).member_limits@ == old(self).member_limits@,
    {
        if self.used_bytes + bytes > self.total_quota_bytes {
            return Err("Storage pool quota exceeded".to_string());
        }
        self.used_bytes = self.used_bytes + bytes;
        Ok(())
    }
}

pub struct NexGroupsService;

impl NexGroupsService {
    /// The namespace group records are stored in: 32 bytes of 0xBB.
    pub fn groups_namespace() -> (r: NamespaceID)
        ensures
            r@ == Seq::new(32, |i: int| 0xBBu8),
    {
        let r = [0xBBu8; 32];
        assert(r@ =~= Seq::new(32, |i: int| 0xBBu8));
        r
    }

    /// The metadata a group record carries: its id in hex, name, epoch and member count.
    pub fn group_metadata(group: &GroupState) -> (r: KeyedMap<String, String>)
        ensures
            r@.dom() == set![vstd::utf8::encode_utf8("group_id"@), vstd::utf8::encode_utf8("name"@),
                vstd::utf8::encode_utf8("epoch"@), vstd::utf8::encode_utf8("members_count"@)],
            r@[vstd::utf8::encode_utf8("group_id"@)]@ == hex_lower(group.group_id@),
            r@[vstd::utf8::encode_utf8("name"@)]@ == group.name@,
            r@[vstd::utf8::encode_utf8("epoch"@)]@ == decimal(group.epoch as nat),
            r@[vstd::utf8::encode_utf8("members_count"@)]@ == decimal(group.members@.dom().len()),
    {
        proof {
            reveal_strlit("group_id");
            reveal_strlit("name");
            reveal_strlit("epoch");
            reveal_strlit("members_count");
            broadcast use vstd::utf8::encode_utf8_decode_utf8;
            assert(vstd::utf8::decode_utf8(vstd::utf8::encode_utf8("group_id"@)) == "group_id"@);
            assert(vstd::utf8::decode_utf8(vstd::utf8::encode_utf8("name"@)) == "name"@);
            assert(vstd::utf8::decode_utf8(vstd::utf8::encode_utf8("epoch"@)) == "epoch"@);
            assert(vstd::utf8::decode_utf8(vstd::utf8::encode_utf8("members_count"@)) == "members_count"@);
        }
        let mut meta: KeyedMap<String, String> = KeyedMap::new();
        meta.insert("group_id".to_string(), hex_encode(group.group_id.as_slice()));
        meta.insert("name".to_string(), group.name.as_str().to_string());
        meta.insert("epoch".to_string(), decimal_text(group.epoch));
        let n = group.members.len();
        meta.insert("members_count".to_string(), decimal_text(n as u64));
        proof {
            assert(meta@.dom() =~= set![vstd::utf8::encode_utf8("group_id"@), vstd::utf8::encode_utf8("name"@),
                vstd::utf8::encode_utf8("epoch"@), vstd::utf8::encode_utf8("members_count"@)]);
        }
        meta
    }

    /// Stores a group record (`payload` is the group's encoding) in the groups
    /// namespace, with `group_metadata`; the node's reply comes back through
    /// `node_reply`: the new object's id, or the error's text.
    pub fn save_group_state<A: NexAppApi>(node: &mut A, group: &GroupState, payload: Vec<u8>) -> (r: Result<ObjectID, String>) {
        let meta = Self::group_metadata(group);
        node_reply(node.create_object(Self::groups_namespace(), ObjectType::Synthetic(15), meta, payload))
    }
}

} // verus!
