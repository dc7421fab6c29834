//! Chat: channels, masked and authenticated messages, reactions, and an offline
//! outbox.

use vstd::prelude::*;
use crate::bytes::{push_all, bytes_eq};
use crate::crypto::{sha256, sha256_spec, tagged};
use crate::keyed_map::KeyedMap;
use crate::encoding::hex_encode;
use crate::model::ActorID;
use crate::object::types::{ObjectID, NamespaceID, ObjectType};
use crate::api::{NexAppApi, CoreRuntimeError, node_reply, live_object};
use crate::identity::types::CapabilityProof;

verus! {

#[derive(Debug, Clone, Copy, PartialEq, Eq, Structural)]
pub enum ChannelType {
    Direct1to1,
    GroupMultiParty,
}

#[derive(Debug, Clone, Copy, PartialEq, Eq, Structural)]
pub enum MemberRole {
    Admin,
    Member,
}

#[derive(Debug)]
pub struct ChatChannel {
    pub channel_id: ObjectID,
    pub name: String,
    pub channel_type: ChannelType,
    pub members: KeyedMap<ActorID, MemberRole>,
}

#[derive(Debug, Clone, PartialEq, Eq)]
pub struct ChatMessage {
    pub message_id: ObjectID,
    pub channel_id: ObjectID,
    pub author_actor_id: ActorID,
    pub ciphertext: Vec<u8>,
    pub mentions: Vec<ActorID>,
    pub attachments: Vec<ObjectID>,
}

#[derive(Debug, Clone, PartialEq, Eq)]
pub struct ChatMessageEntry {
    pub message_id: ObjectID,
    pub channel_id: ObjectID,
    pub sender: ActorID,
    pub payload: Vec<u8>,
    pub sequence_index: u64,
}

#[derive(Debug)]
pub struct ChatEngine {
    pub channels: KeyedMap<String, [u8; 32]>,
    pub read_receipts: KeyedMap<[u8; 64], u64>,
    pub message_counter: u64,
}

impl ChatEngine {
    pub fn new() -> (r: Self)
        ensures
            r.channels@ == Map::<Seq<u8>, [u8; 32]>::empty(),
            r.read_receipts@ == Map::<Seq<u8>, u64>::empty(),
            r.message_counter == 0,
    {
        ChatEngine { channels: KeyedMap::new(), read_receipts: KeyedMap::new(), message_counter: 0 }
    }
}

/// The keystream block of a channel key.
pub open spec fn chat_mask(key: Seq<u8>) -> Seq<u8> {
    sha256_spec(tagged("NEX/CHAT/CIPHER/v1", key))
}

/// The authentication tag of a masked body.
pub open spec fn chat_mac(key: Seq<u8>, body: Seq<u8>) -> Seq<u8> {
    sha256_spec(tagged("NEX/CHAT/MAC/v1", key + body))
}

/// Each byte XORed with the key's mask, which repeats every 32 bytes.
pub open spec fn masked(data: Seq<u8>, mask: Seq<u8>) -> Seq<u8> {
    Seq::new(data.len(), |i: int| data[i] ^ mask[i % 32])
}

/// The sealed form of a message: the masked bytes followed by their tag.
pub open spec fn sealed(plaintext: Seq<u8>, key: Seq<u8>) -> Seq<u8> {
    let body = masked(plaintext, chat_mask(key));
    body + chat_mac(key, body)
}

/// The encodings of chat records stored as object payloads.
pub trait ChatCodec {
    fn encode_channel(&self, c: &ChatChannel) -> Result<Vec<u8>, String>;
    fn encode_message(&self, m: &ChatMessage) -> Result<Vec<u8>, String>;
    fn decode_message(&self, bytes: &[u8]) -> Result<ChatMessage, String>;
}

/// Each byte of `data` XORed with `mask`, repeating every 32 bytes.
pub fn mask_bytes(data: &[u8], mask: &[u8; 32]) -> (r: Vec<u8>)
    ensures
        r@ == masked(data@, mask@),
{
    let mut out: Vec<u8> = Vec::new();
    let mut i: usize = 0;
    while i < data.len()
        invariant
            i <= data@.len(),
            out@.len() == i,
            forall|j: int| 0 <= j < i ==> #[trigger] out@[j] == data@[j] ^ mask@[j % 32],
        decreases data@.len() - i,
    {
        out.push(data[i] ^ mask[i % 32]);
        i = i + 1;
    }
    assert(out@ =~= masked(data@, mask@));
    out
}

fn mask_of(channel_key: &[u8; 32]) -> (r: [u8; 32])
    ensures
        r@ == chat_mask(channel_key@),
{
    let mut buf: Vec<u8> = Vec::new();
    push_all(&mut buf, "NEX/CHAT/CIPHER/v1".as_bytes());
    push_all(&mut buf, channel_key.as_slice());
    sha256(buf.as_slice())
}

fn mac_of(channel_key: &[u8; 32], body: &[u8]) -> (r: [u8; 32])
    ensures
        r@ == chat_mac(channel_key@, body@),
{
    let mut buf: Vec<u8> = Vec::new();
    push_all(&mut buf, "NEX/CHAT/MAC/v1".as_bytes());
    push_all(&mut buf, channel_key.as_slice());
    push_all(&mut buf, body);
    assert(buf@ =~= tagged("NEX/CHAT/MAC/v1", channel_key@ + body@));
    sha256(buf.as_slice())
}

/// Masking twice with the same mask gives the data back.
pub proof fn lemma_unmask(data: Seq<u8>, mask: Seq<u8>)
    ensures
        masked(masked(data, mask), mask) == data,
{
    assert forall|i: int| 0 <= i < data.len() implies #[trigger] masked(masked(data, mask), mask)[i] == data[i] by {
        let (b, m) = (data[i], mask[i % 32]);
        assert((b ^ m) ^ m == b) by (bit_vector);
    }
    assert(masked(masked(data, mask), mask) =~= data);
}

pub struct NexChatEngine<A: NexAppApi> {
    pub namespace_id: NamespaceID,
    pub local_actor_id: ActorID,
    pub api: A,
    pub channels: KeyedMap<ObjectID, ChatChannel>,
    pub messages: KeyedMap<ObjectID, ChatMessage>,
    pub reactions: KeyedMap<ObjectID, KeyedMap<String, Vec<ActorID>>>,
}

impl<A: NexAppApi> NexChatEngine<A> {
    pub fn new(namespace_id: NamespaceID, local_actor_id: ActorID, api: A) -> (r: Self)
        ensures
            r.namespace_id == namespace_id,
            r.local_actor_id == local_actor_id,
            r.api == api,
            r.channels@ == Map::<Seq<u8>, ChatChannel>::empty(),
            r.messages@ == Map::<Seq<u8>, ChatMessage>::empty(),
            r.reactions@ == Map::<Seq<u8>, KeyedMap<String, Vec<ActorID>>>::empty(),
    {
        NexChatEngine {
            namespace_id,
            local_actor_id,
            api,
            channels: KeyedMap::new(),
            messages: KeyedMap::new(),
            reactions: KeyedMap::new(),
        }
    }

    /// Masks the plaintext with the channel key's keystream block and appends the tag.
    pub fn encrypt_payload(plaintext: &[u8], channel_key: &[u8; 32]) -> (r: Vec<u8>)
        ensures
            r@ == sealed(plaintext@, channel_key@),
            r@.len() == plaintext@.len() + 32,
    {
        let mask = mask_of(channel_key);
        let mut out = mask_bytes(plaintext, &mask);
        let mac = mac_of(channel_key, out.as_slice());
        push_all(&mut out, mac.as_slice());
        out
    }

    /// Checks the tag on the last 32 bytes, then unmasks the rest.
    pub fn decrypt_payload(ciphertext: &[u8], channel_key: &[u8; 32]) -> (r: Result<Vec<u8>, String>)
        ensures
            ({
                let n = ciphertext@.len();
                let body = ciphertext@.subrange(0, n - 32);
                let tag = ciphertext@.subrange(n - 32, n as int);
                &&& n < 32 ==> (r matches Err(e) && e@ == "Ciphertext too short"@)
                &&& n >= 32 && tag != chat_mac(channel_key@, body) ==> (r matches Err(e) && e@ == "MAC verification failed"@)
                &&& n >= 32 && tag == chat_mac(channel_key@, body) ==> (r matches Ok(p) && p@ == masked(body, chat_mask(channel_key@)))
            }),
    {
        if ciphertext.len() < 32 {
            return Err("Ciphertext too short".to_owned());
        }
        let n = ciphertext.len();
        let body = vstd::slice::slice_subrange(ciphertext, 0, n - 32);
        let tag = vstd::slice::slice_subrange(ciphertext, n - 32, n);
        let expected = mac_of(channel_key, body);
        if !bytes_eq(expected.as_slice(), tag) {
            return Err("MAC verification failed".to_owned());
        }
        let mask = mask_of(channel_key);
        Ok(mask_bytes(body, &mask))
    }

    /// Creates a channel named `name` whose members are the local actor (as Admin)
    /// then `extra_members` in order (a later entry for the same actor wins).
    pub fn create_channel<C: ChatCodec>(&mut self, codec: &C, name: &str, channel_type: ChannelType,
        extra_members: Vec<(ActorID, MemberRole)>) -> (r: Result<ObjectID, String>)
        ensures
            r matches Ok(id) ==> {
                &&& final(self).channels@.dom() == old(self).channels@.dom().insert(id@)
                &&& final(self).channels@[id@].channel_id@ == sha256_spec(tagged("NEX/CHAT/CHANNEL/v1",
                    old(self).namespace_id@ + vstd::utf8::encode_utf8(name@)))
                &&& final(self).channels@[id@].name@ == name@
                &&& final(self).channels@[id@].channel_type == channel_type
                &&& final(self).channels@[id@].members@ == extra_members@.fold_left(
                    Map::<Seq<u8>, MemberRole>::empty().insert(old(self).local_actor_id@, MemberRole::Admin),
                    |m: Map<Seq<u8>, MemberRole>, e: (ActorID, MemberRole)| m.insert(e.0@, e.1))
                &&& forall|k: Seq<u8>| k != id@ && #[trigger] old(self).channels@.contains_key(k)
                    ==> final(self).channels@[k] == old(self).channels@[k]
            },
            r is Err ==> final(self).channels@ == old(self).channels@,
            final(self).namespace_id == old(self).namespace_id,
            final(self).local_actor_id == old(self).local_actor_id,
    {
        let mut buf: Vec<u8> = Vec::new();
        push_all(&mut buf, "NEX/CHAT/CHANNEL/v1".as_bytes());
        push_all(&mut buf, self.namespace_id.as_slice());
        push_all(&mut buf, name.as_bytes());
        assert(buf@ =~= tagged("NEX/CHAT/CHANNEL/v1", self.namespace_id@ + vstd::utf8::encode_utf8(name@)));
        let channel_id = sha256(buf.as_slice());
        let mut members: KeyedMap<ActorID, MemberRole> = KeyedMap::new();
        members.insert(self.local_actor_id, MemberRole::Admin);
        let ghost start = Map::<Seq<u8>, MemberRole>::empty().insert(self.local_actor_id@, MemberRole::Admin);
        let ghost f = |m: Map<Seq<u8>, MemberRole>, e: (ActorID, MemberRole)| m.insert(e.0@, e.1);
        assert(members@ =~= start);
        let mut i: usize = 0;
        while i < extra_members.len()
            invariant
                i <= extra_members@.len(),
                f == (|m: Map<Seq<u8>, MemberRole>, e: (ActorID, MemberRole)| m.insert(e.0@, e.1)),
                members@ == extra_members@.take(i as int).fold_left(start, f),
            decreases extra_members@.len() - i,
        {
            let (m, role) = extra_members[i];
            members.insert(m, role);
            proof {
                let t = extra_members@.take(i + 1);
                assert(t.drop_last() =~= extra_members@.take(i as int));
                reveal_with_fuel(Seq::fold_left, 1);
            }
            i = i + 1;
        }
        assert(extra_members@.take(extra_members@.len() as int) =~= extra_members@);
        let channel = ChatChannel { channel_id, name: name.to_string(), channel_type, members };
        let payload = match codec.encode_channel(&channel) {
            Ok(p) => p,
            Err(e) => {
                return Err(e);
            }
        };
        let mut metadata: KeyedMap<String, String> = KeyedMap::new();
        metadata.insert("name".to_string(), name.to_string());
        let outcome = self.api.create_object(self.namespace_id, ObjectType::ChatChannel, metadata, payload);
        let r = self.record_channel(channel, outcome);
        proof {
            if let Ok(obj_id) = r {
                assert(self.channels@.dom() =~= old(self).channels@.dom().insert(obj_id@));
            }
        }
        r
    }

    /// Applies the node's reply to creating a channel's object: on success keeps
    /// the channel under the new object's id and returns it; on failure changes nothing.
    pub fn record_channel(&mut self, channel: ChatChannel, outcome: Result<ObjectID, CoreRuntimeError>) -> (r: Result<ObjectID, String>)
        ensures
            outcome is Ok <==> r is Ok,
            outcome matches Ok(id) ==> r == Ok::<ObjectID, String>(id)
                && final(self).channels@ == old(self).channels@.insert(id@, channel),
            r is Err ==> final(self).channels@ == old(self).channels@,
            final(self).namespace_id == old(self).namespace_id,
            final(self).local_actor_id == old(self).local_actor_id,
            final(self).messages@ == old(self).messages@,
            final(self).api == old(self).api,
    {
        match node_reply(outcome) {
            Ok(id) => {
                self.channels.insert(id, channel);
                Ok(id)
            }
            Err(e) => Err(e),
        }
    }

    /// Seals the message with the channel key, stores it through the API and keeps it.
    pub fn send_message<C: ChatCodec>(&mut self, codec: &C, channel_id: ObjectID, plaintext: &[u8], channel_key: &[u8; 32],
        mentions: Vec<ActorID>, attachments: Vec<ObjectID>, _proof: Option<CapabilityProof>) -> (r: Result<ObjectID, String>)
        ensures
            r matches Ok(id) ==> {
                let ct = sealed(plaintext@, channel_key@);
                &&& final(self).messages@.dom() == old(self).messages@.dom().insert(id@)
                &&& final(self).messages@[id@].message_id@ == sha256_spec(tagged("NEX/CHAT/MSG/v1",
                    channel_id@ + old(self).local_actor_id@ + ct))
                &&& final(self).messages@[id@].channel_id == channel_id
                &&& final(self).messages@[id@].author_actor_id == old(self).local_actor_id
                &&& final(self).messages@[id@].ciphertext@ == ct
                &&& final(self).messages@[id@].mentions == mentions
                &&& final(self).messages@[id@].attachments == attachments
                &&& forall|k: Seq<u8>| k != id@ && #[trigger] old(self).messages@.contains_key(k)
                    ==> final(self).messages@[k] == old(self).messages@[k]
            },
            r is Err ==> final(self).messages@ == old(self).messages@,
            final(self).namespace_id == old(self).namespace_id,
            final(self).local_actor_id == old(self).local_actor_id,
    {
        let ciphertext = Self::encrypt_payload(plaintext, channel_key);
        let mut buf: Vec<u8> = Vec::new();
        push_all(&mut buf, "NEX/CHAT/MSG/v1".as_bytes());
        push_all(&mut buf, channel_id.as_slice());
        push_all(&mut buf, self.local_actor_id.as_slice());
        push_all(&mut buf, ciphertext.as_slice());
        assert(buf@ =~= tagged("NEX/CHAT/MSG/v1", channel_id@ + self.local_actor_id@ + ciphertext@));
        let message_id = sha256(buf.as_slice());
        let message = ChatMessage {
            message_id,
            channel_id,
            author_actor_id: self.local_actor_id,
            ciphertext,
            mentions,
            attachments,
        };
        let payload = match codec.encode_message(&message) {
            Ok(p) => p,
            Err(e) => {
                return Err(e);
            }
        };
        let mut metadata: KeyedMap<String, String> = KeyedMap::new();
        metadata.insert("channel_id".to_string(), hex_encode(channel_id.as_slice()));
        metadata.insert("author".to_string(), hex_encode(self.local_actor_id.as_slice()));
        let outcome = self.api.create_object(self.namespace_id, ObjectType::ChatMessage, metadata, payload);
        let r = self.record_message(message, outcome);
        proof {
            if let Ok(obj_id) = r {
                assert(self.messages@.dom() =~= old(self).messages@.dom().insert(obj_id@));
            }
        }
        r
    }

    /// Applies the node's reply to storing a message's object: on success keeps the
    /// message under the new object's id and returns it; on failure changes nothing.
    pub fn record_message(&mut self, message: ChatMessage, outcome: Result<ObjectID, CoreRuntimeError>) -> (r: Result<ObjectID, String>)
        ensures
            outcome is Ok <==> r is Ok,
            outcome matches Ok(id) ==> r == Ok::<ObjectID, String>(id)
                && final(self).messages@ == old(self).messages@.insert(id@, message),
            r is Err ==> final(self).messages@ == old(self).messages@,
            final(self).namespace_id == old(self).namespace_id,
            final(self).local_actor_id == old(self).local_actor_id,
            final(self).channels@ == old(self).channels@,
            final(self).api == old(self).api,
    {
        match node_reply(outcome) {
            Ok(id) => {
                self.messages.insert(id, message);
                Ok(id)
            }
            Err(e) => Err(e),
        }
    }

    /// Reads the message's object, refuses a tombstoned one, decodes the message and
    /// opens its ciphertext. Whatever the node and codec return, a success carries
    /// a plaintext whose tag checked out under `channel_key`.
    pub fn read_message<C: ChatCodec>(&self, codec: &C, message_id: &ObjectID, channel_key: &[u8; 32])
        -> (r: Result<(ChatMessage, Vec<u8>), String>)
        ensures
            r matches Ok((m, p)) ==> {
                let n = m.ciphertext@.len();
                let body = m.ciphertext@.subrange(0, n - 32);
                &&& n >= 32
                &&& m.ciphertext@.subrange(n - 32, n as int) == chat_mac(channel_key@, body)
                &&& p@ == masked(body, chat_mask(channel_key@))
            },
    {
        let obj = match live_object(self.api.read_object(message_id), "Message is tombstoned") {
            Ok(o) => o,
            Err(e) => {
                return Err(e);
            }
        };
        let msg = match codec.decode_message(obj.payload_bytes.as_slice()) {
            Ok(m) => m,
            Err(e) => {
                return Err(e);
            }
        };
        Self::open_message(msg, channel_key)
    }

    /// A decoded message with its plaintext, or the error of opening its ciphertext.
    pub fn open_message(msg: ChatMessage, channel_key: &[u8; 32]) -> (r: Result<(ChatMessage, Vec<u8>), String>)
        ensures
            ({
                let n = msg.ciphertext@.len();
                let body = msg.ciphertext@.subrange(0, n - 32);
                let tag = msg.ciphertext@.subrange(n - 32, n as int);
                &&& n < 32 ==> (r matches Err(e) && e@ == "Ciphertext too short"@)
                &&& n >= 32 && tag != chat_mac(channel_key@, body) ==> (r matches Err(e) && e@ == "MAC verification failed"@)
                &&& n >= 32 && tag == chat_mac(channel_key@, body) ==> (r matches Ok((m, p)) && m == msg
                    && p@ == masked(body, chat_mask(channel_key@)))
            }),
    {
        match Self::decrypt_payload(msg.ciphertext.as_slice(), channel_key) {
            Ok(p) => Ok((msg, p)),
            Err(e) => Err(e),
        }
    }

    /// Deletes the message through the API and forgets it here.
    pub fn delete_message(&mut self, message_id: ObjectID, proof: Option<CapabilityProof>) -> (r: Result<(), String>)
        ensures
            r is Ok ==> final(self).messages@ == old(self).messages@.remove(message_id@),
            r is Err ==> final(self).messages@ == old(self).messages@,
    {
        let outcome = self.api.delete_object(message_id, proof);
        self.apply_message_deletion(message_id, outcome)
    }

    /// Applies the node's reply to deleting a message: on success forgets the
    /// message; on failure changes nothing.
    pub fn apply_message_deletion(&mut self, message_id: ObjectID, outcome: Result<[u8; 32], CoreRuntimeError>) -> (r: Result<(), String>)
        ensures
            outcome is Ok <==> r is Ok,
            r is Ok ==> final(self).messages@ == old(self).messages@.remove(message_id@),
            r is Err ==> final(self).messages@ == old(self).messages@,
            final(self).channels@ == old(self).channels@,
            final(self).api == old(self).api,
    {
        if let Err(e) = node_reply(outcome) {
            return Err(e);
        }
        self.messages.remove(&message_id);
        Ok(())
    }

    /// The actors who reacted to a message with an emoji, one entry per reaction.
    pub open spec fn reaction_list(&self, message: Seq<u8>, emoji: Seq<u8>) -> Seq<ActorID> {
        if self.reactions@.contains_key(message) && self.reactions@[message]@.contains_key(emoji) {
            self.reactions@[message]@[emoji]@
        } else {
            Seq::empty()
        }
    }

    /// Appends the local actor to the message's reactions with `emoji`.
    pub fn add_reaction(&mut self, message_id: ObjectID, emoji: &str)
        ensures
            forall|m: Seq<u8>, e: Seq<u8>| #[trigger] final(self).reaction_list(m, e)
                == if m == message_id@ && e == vstd::utf8::encode_utf8(emoji@) {
                    old(self).reaction_list(m, e).push(old(self).local_actor_id)
                } else {
                    old(self).reaction_list(m, e)
                },
            final(self).local_actor_id == old(self).local_actor_id,
    {
        let mut per_msg = match self.reactions.remove(&message_id) {
            Some(m) => m,
            None => KeyedMap::new(),
        };
        let key = emoji.to_string();
        let mut actors = match per_msg.remove(&key) {
            Some(a) => a,
            None => Vec::new(),
        };
        actors.push(self.local_actor_id);
        per_msg.insert(key, actors);
        self.reactions.insert(message_id, per_msg);
        proof {
            assert forall|m: Seq<u8>, e: Seq<u8>| #[trigger] self.reaction_list(m, e)
                == if m == message_id@ && e == vstd::utf8::encode_utf8(emoji@) {
                    old(self).reaction_list(m, e).push(old(self).local_actor_id)
                } else {
                    old(self).reaction_list(m, e)
                } by {
                if m == message_id@ && e == vstd::utf8::encode_utf8(emoji@) {
                    assert(self.reaction_list(m, e) =~= old(self).reaction_list(m, e).push(old(self).local_actor_id));
                }
            }
        }
    }

    /// The number of reactions per emoji on a message.
    pub fn get_reactions(&self, message_id: &ObjectID) -> (r: KeyedMap<String, usize>)
        ensures
            forall|e: Seq<u8>| #[trigger] r@.contains_key(e) == (self.reactions@.contains_key(message_id@)
                && self.reactions@[message_id@]@.contains_key(e)),
            forall|e: Seq<u8>| #[trigger] r@.contains_key(e) ==> r@[e] == self.reaction_list(message_id@, e).len(),
    {
        let mut counts: KeyedMap<String, usize> = KeyedMap::new();
        match self.reactions.get(message_id) {
            Some(emojis) => {
                let n = emojis.len();
                let ghost ks = emojis.keys();
                let mut i: usize = 0;
                while i < n
                    invariant
                        i <= n,
                        n == ks.len(),
                        ks == emojis.keys(),
                        self.reactions@.contains_key(message_id@),
                        *emojis == self.reactions@[message_id@],
                        forall|k: int| 0 <= k < n ==> #[trigger] emojis@.contains_key(ks[k]),
                        forall|e: Seq<u8>| #[trigger] emojis@.contains_key(e) ==> ks.contains(e),
                        forall|e: Seq<u8>| #[trigger] counts@.contains_key(e) == ks.take(i as int).contains(e),
                        forall|e: Seq<u8>| #[trigger] counts@.contains_key(e) ==> counts@[e] == emojis@[e]@.len(),
                    decreases n - i,
                {
                    let emoji = emojis.key_at(i);
                    let actors = emojis.value_at(i);
                    let c = actors.len();
                    counts.insert(emoji.as_str().to_string(), c);
                    proof {
                        assert(ks.take(i + 1) =~= ks.take(i as int).push(ks[i as int]));
                        assert forall|e: Seq<u8>| #[trigger] ks.take(i + 1).contains(e) == (ks.take(i as int).contains(e) || e == ks[i as int]) by {
                            if ks.take(i + 1).contains(e) && e != ks[i as int] {
                                let w = choose|w: int| 0 <= w < i + 1 && #[trigger] ks.take(i + 1)[w] == e;
                                assert(ks.take(i as int)[w] == e);
                            }
                            if ks.take(i as int).contains(e) {
                                let w = choose|w: int| 0 <= w < i && #[trigger] ks.take(i as int)[w] == e;
                                assert(ks.take(i + 1)[w] == e);
                            }
                            if e == ks[i as int] {
                                assert(ks.take(i + 1)[i as int] == e);
                            }
                        }
                    }
                    i = i + 1;
                }
                proof {
                    assert(ks.take(n as int) =~= ks);
                }
            }
            None => {}
        }
        counts
    }
}

/// Opening what sealing produced, with the same key: the tag checks out and the
/// unmasked body is the plaintext.
pub proof fn lemma_open_sealed(plaintext: Seq<u8>, key: Seq<u8>, ct: Seq<u8>)
    requires
        ct == sealed(plaintext, key),
        ct.len() == plaintext.len() + 32,
    ensures
        ({
            let n = ct.len();
            &&& n >= 32
            &&& ct.subrange(n - 32, n as int) == chat_mac(key, ct.subrange(0, n - 32))
            &&& masked(ct.subrange(0, n - 32), chat_mask(key)) == plaintext
        }),
{
    let body = masked(plaintext, chat_mask(key));
    assert(ct.subrange(0, ct.len() - 32) =~= body);
    assert(ct.subrange(ct.len() - 32, ct.len() as int) =~= chat_mac(key, body));
    lemma_unmask(plaintext, chat_mask(key));
}

#[derive(Debug)]
pub struct ChatOutbox {
    pub pending: Vec<(ObjectID, [u8; 32], String)>,
}

impl ChatOutbox {
    pub fn new() -> (r: Self)
        ensures
            r.pending@ == Seq::<(ObjectID, [u8; 32], String)>::empty(),
    {
        ChatOutbox { pending: Vec::new() }
    }

    /// Queues a message for later sending.
    pub fn spool(&mut self, channel_id: ObjectID, channel_key: [u8; 32], plaintext: &str)
        ensures
            final(self).pending@.len() == old(self).pending@.len() + 1,
            final(self).pending@.drop_last() == old(self).pending@,
            final(self).pending@.last().0 == channel_id,
            final(self).pending@.last().1 == channel_key,
            final(self).pending@.last().2@ == plaintext@,
    {
        self.pending.push((channel_id, channel_key, plaintext.to_string()));
        assert(self.pending@.drop_last() =~= old(self).pending@);
    }

    pub fn pending_count(&self) -> (r: usize)
        ensures
            r == self.pending@.len(),
    {
        self.pending.len()
    }

    /// Sends every queued message in order; the queue is emptied first, and the
    /// first failure ends the flush with its error.
    pub fn flush<A: NexAppApi, C: ChatCodec>(&mut self, engine: &mut NexChatEngine<A>, codec: &C) -> (r: Result<Vec<ObjectID>, String>)
        ensures
            final(self).pending@.len() == 0,
            r matches Ok(ids) ==> ids@.len() == old(self).pending@.len(),
    {
        let mut items: Vec<(ObjectID, [u8; 32], String)> = Vec::new();
        std::mem::swap(&mut items, &mut self.pending);
        let mut sent_ids: Vec<ObjectID> = Vec::new();
        let mut i: usize = 0;
        while i < items.len()
            invariant
                i <= items@.len(),
                sent_ids@.len() == i,
                self.pending@.len() == 0,
            decreases items@.len() - i,
        {
            let item = &items[i];
            let oid = match engine.send_message(codec, item.0, item.2.as_str().as_bytes(), &item.1, Vec::new(), Vec::new(), None) {
                Ok(id) => id,
                Err(e) => {
                    return Err(e);
                }
            };
            sent_ids.push(oid);
            i = i + 1;
        }
        Ok(sent_ids)
    }
}

} // verus!
