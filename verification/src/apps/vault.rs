//! The secrets vault: items sealed under a master key and stored as objects.

use vstd::prelude::*;
use crate::bytes::{push_all, bytes_eq, to_vec};
use crate::crypto::{sha256, sha256_spec, tagged};
use crate::keyed_map::KeyedMap;
use crate::object::types::{ObjectID, NamespaceID, ObjectType};
use crate::api::{NexAppApi, CoreRuntimeError, node_reply, live_object};
use crate::identity::types::CapabilityProof;
use crate::apps::chat::{masked, mask_bytes, lemma_unmask};

verus! {

#[derive(Debug, Clone, Copy, PartialEq, Eq, Structural)]
pub enum VaultCategory {
    Login,
    SecureNote,
    TotpSeed,
    CryptoKey,
}

/// The name of a category, as its `Debug` form prints it.
pub open spec fn category_name(c: VaultCategory) -> Seq<char> {
    match c {
        VaultCategory::Login => "Login"@,
        VaultCategory::SecureNote => "SecureNote"@,
        VaultCategory::TotpSeed => "TotpSeed"@,
        VaultCategory::CryptoKey => "CryptoKey"@,
    }
}

impl VaultCategory {
    pub fn name(&self) -> (r: String)
        ensures
            r@ == category_name(*self),
    {
        match self {
            VaultCategory::Login => "Login".to_string(),
            VaultCategory::SecureNote => "SecureNote".to_string(),
            VaultCategory::TotpSeed => "TotpSeed".to_string(),
            VaultCategory::CryptoKey => "CryptoKey".to_string(),
        }
    }
}

#[derive(Debug)]
pub struct VaultItem {
    pub item_id: ObjectID,
    pub namespace: NamespaceID,
    pub title: String,
    pub category: VaultCategory,
    pub ciphertext: Vec<u8>,
    pub updated_epoch: u64,
}

/// Whether two items hold the same values.
pub open spec fn same_item(a: VaultItem, b: VaultItem) -> bool {
    &&& a.item_id == b.item_id
    &&& a.namespace == b.namespace
    &&& a.title@ == b.title@
    &&& a.category == b.category
    &&& a.ciphertext@ == b.ciphertext@
    &&& a.updated_epoch == b.updated_epoch
}

impl VaultItem {
    /// A field-by-field copy.
    pub fn duplicate(&self) -> (r: Self)
        ensures
            same_item(r, *self),
    {
        VaultItem {
            item_id: self.item_id,
            namespace: self.namespace,
            title: self.title.as_str().to_string(),
            category: self.category,
            ciphertext: to_vec(self.ciphertext.as_slice()),
            updated_epoch: self.updated_epoch,
        }
    }
}

/// The keystream block of a master key.
pub open spec fn vault_mask(key: Seq<u8>) -> Seq<u8> {
    sha256_spec(tagged("NEX/VAULT/CIPHER/v1", key))
}

/// The authentication tag of a masked secret.
pub open spec fn vault_mac(key: Seq<u8>, body: Seq<u8>) -> Seq<u8> {
    sha256_spec(tagged("NEX/VAULT/MAC/v1", key + body))
}

/// A sealed secret: the masked bytes followed by their tag.
pub open spec fn vault_sealed(plaintext: Seq<u8>, key: Seq<u8>) -> Seq<u8> {
    let body = masked(plaintext, vault_mask(key));
    body + vault_mac(key, body)
}

/// Whether an item records, under `id`, a secret sealed into `ciphertext`.
pub open spec fn stored_item(item: VaultItem, id: ObjectID, namespace: NamespaceID, title: Seq<char>,
    category: VaultCategory, ciphertext: Seq<u8>) -> bool {
    &&& item.item_id == id
    &&& item.namespace == namespace
    &&& item.title@ == title
    &&& item.category == category
    &&& item.ciphertext@ == ciphertext
    &&& item.updated_epoch == 0
}

/// What a record codec turns vault items into and back.
pub trait VaultCodec {
    fn encode_item(&self, item: &VaultItem) -> Result<Vec<u8>, String>;
    fn decode_item(&self, bytes: &[u8]) -> Result<VaultItem, String>;
}

fn vault_mask_of(master_key: &[u8; 32]) -> (r: [u8; 32])
    ensures
        r@ == vault_mask(master_key@),
{
    let mut buf: Vec<u8> = Vec::new();
    push_all(&mut buf, "NEX/VAULT/CIPHER/v1".as_bytes());
    push_all(&mut buf, master_key.as_slice());
    sha256(buf.as_slice())
}

fn vault_mac_of(master_key: &[u8; 32], body: &[u8]) -> (r: [u8; 32])
    ensures
        r@ == vault_mac(master_key@, body@),
{
    let mut buf: Vec<u8> = Vec::new();
    push_all(&mut buf, "NEX/VAULT/MAC/v1".as_bytes());
    push_all(&mut buf, master_key.as_slice());
    push_all(&mut buf, body);
    assert(buf@ =~= tagged("NEX/VAULT/MAC/v1", master_key@ + body@));
    sha256(buf.as_slice())
}

pub struct NexVaultEngine<A: NexAppApi> {
    pub namespace_id: NamespaceID,
    pub api: A,
    pub items: KeyedMap<ObjectID, VaultItem>,
}

impl<A: NexAppApi> NexVaultEngine<A> {
    pub fn new(namespace_id: NamespaceID, api: A) -> (r: Self)
        ensures
            r.namespace_id == namespace_id,
            r.api == api,
            r.items@ == Map::<Seq<u8>, VaultItem>::empty(),
    {
        NexVaultEngine { namespace_id, api, items: KeyedMap::new() }
    }

    /// Masks the secret with the master key's keystream block and appends the tag.
    pub fn encrypt_secret(plaintext: &[u8], master_key: &[u8; 32]) -> (r: Vec<u8>)
        ensures
            r@ == vault_sealed(plaintext@, master_key@),
            r@.len() == plaintext@.len() + 32,
    {
        let mask = vault_mask_of(master_key);
        let mut out = mask_bytes(plaintext, &mask);
        let mac = vault_mac_of(master_key, out.as_slice());
        push_all(&mut out, mac.as_slice());
        out
    }

    /// Checks the tag on the last 32 bytes, then unmasks the rest.
    pub fn decrypt_secret(ciphertext: &[u8], master_key: &[u8; 32]) -> (r: Result<Vec<u8>, String>)
        ensures
            ({
                let n = ciphertext@.len();
                let body = ciphertext@.subrange(0, n - 32);
                let tag = ciphertext@.subrange(n - 32, n as int);
                &&& n < 32 ==> (r matches Err(e) && e@ == "Ciphertext too short"@)
                &&& n >= 32 && tag != vault_mac(master_key@, body) ==> (r matches Err(e)
                    && e@ == "MAC validation failure: secret is corrupted or master key is incorrect"@)
                &&& n >= 32 && tag == vault_mac(master_key@, body) ==> (r matches Ok(p)
                    && p@ == masked(body, vault_mask(master_key@)))
            }),
    {
        if ciphertext.len() < 32 {
            return Err("Ciphertext too short".to_string());
        }
        let n = ciphertext.len();
        let body = vstd::slice::slice_subrange(ciphertext, 0, n - 32);
        let tag = vstd::slice::slice_subrange(ciphertext, n - 32, n);
        let expected = vault_mac_of(master_key, body);
        if !bytes_eq(expected.as_slice(), tag) {
            return Err("MAC validation failure: secret is corrupted or master key is incorrect".to_string());
        }
        let mask = vault_mask_of(master_key);
        Ok(mask_bytes(body, &mask))
    }

    /// Seals the secret, stores the item (encoded by `codec`) with its title and
    /// category as metadata, and records it under the new object's id.
    pub fn store_item<C: VaultCodec>(
        &mut self,
        codec: &C,
        title: &str,
        category: VaultCategory,
        secret_payload: &[u8],
        master_key: &[u8; 32],
        proof: Option<CapabilityProof>,
    ) -> (r: Result<ObjectID, String>)
        ensures
            r is Err ==> final(self).items@ == old(self).items@,
            r matches Ok(id) ==> {
                &&& final(self).items@.dom() == old(self).items@.dom().insert(id@)
                &&& stored_item(final(self).items@[id@], id, old(self).namespace_id, title@, category,
                    vault_sealed(secret_payload@, master_key@))
                &&& forall|k: Seq<u8>| k != id@ && #[trigger] old(self).items@.contains_key(k)
                    ==> final(self).items@[k] == old(self).items@[k]
            },
            final(self).namespace_id == old(self).namespace_id,
    {
        let ciphertext = Self::encrypt_secret(secret_payload, master_key);
        let item = VaultItem {
            item_id: [0u8; 32],
            namespace: self.namespace_id,
            title: title.to_string(),
            category,
            ciphertext,
            updated_epoch: 0,
        };
        let encoded = match codec.encode_item(&item) {
            Ok(b) => b,
            Err(e) => {
                return Err(e);
            }
        };
        let mut meta: KeyedMap<String, String> = KeyedMap::new();
        meta.insert("title".to_string(), title.to_string());
        meta.insert("category".to_string(), category.name());
        let _ = proof;
        let outcome = self.api.create_object(self.namespace_id, ObjectType::VaultItem, meta, encoded);
        let r = self.record_item(item, outcome);
        proof {
            if let Ok(obj_id) = r {
                assert(self.items@.dom() =~= old(self).items@.dom().insert(obj_id@));
            }
        }
        r
    }

    /// Applies the node's reply to creating an item's object: on success records
    /// the item, with the new object's id as its own, under that id and returns it;
    /// on failure changes nothing.
    pub fn record_item(&mut self, item: VaultItem, outcome: Result<ObjectID, CoreRuntimeError>) -> (r: Result<ObjectID, String>)
        ensures
            outcome is Ok <==> r is Ok,
            outcome matches Ok(id) ==> r == Ok::<ObjectID, String>(id)
                && final(self).items@ == old(self).items@.insert(id@, VaultItem { item_id: id, ..item }),
            r is Err ==> final(self).items@ == old(self).items@,
            final(self).namespace_id == old(self).namespace_id,
            final(self).api == old(self).api,
    {
        match node_reply(outcome) {
            Ok(id) => {
                let final_item = VaultItem { item_id: id, ..item };
                self.items.insert(id, final_item);
                Ok(id)
            }
            Err(e) => Err(e),
        }
    }

    /// Reads the item's object, refuses a tombstoned one, decodes the item and
    /// opens its secret. Whatever the node and codec return, a success carries a
    /// secret whose sealing checked out under `master_key`.
    pub fn read_item<C: VaultCodec>(&self, codec: &C, item_id: &ObjectID, master_key: &[u8; 32])
        -> (r: Result<(VaultItem, Vec<u8>), String>)
        ensures
            r matches Ok((item, secret)) ==> {
                let n = item.ciphertext@.len();
                let body = item.ciphertext@.subrange(0, n - 32);
                &&& n >= 32
                &&& item.ciphertext@.subrange(n - 32, n as int) == vault_mac(master_key@, body)
                &&& secret@ == masked(body, vault_mask(master_key@))
            },
    {
        let obj = match live_object(self.api.read_object(item_id), "Vault item is tombstoned") {
            Ok(o) => o,
            Err(e) => {
                return Err(e);
            }
        };
        let item = match codec.decode_item(obj.payload_bytes.as_slice()) {
            Ok(i) => i,
            Err(e) => {
                return Err(e);
            }
        };
        Self::open_item(item, master_key)
    }

    /// A decoded item with its secret, or the error of opening its ciphertext.
    pub fn open_item(item: VaultItem, master_key: &[u8; 32]) -> (r: Result<(VaultItem, Vec<u8>), String>)
        ensures
            ({
                let n = item.ciphertext@.len();
                let body = item.ciphertext@.subrange(0, n - 32);
                let tag = item.ciphertext@.subrange(n - 32, n as int);
                &&& n < 32 ==> (r matches Err(e) && e@ == "Ciphertext too short"@)
                &&& n >= 32 && tag != vault_mac(master_key@, body) ==> (r matches Err(e)
                    && e@ == "MAC validation failure: secret is corrupted or master key is incorrect"@)
                &&& n >= 32 && tag == vault_mac(master_key@, body) ==> (r matches Ok((i, s)) && i == item
                    && s@ == masked(body, vault_mask(master_key@)))
            }),
    {
        match Self::decrypt_secret(item.ciphertext.as_slice(), master_key) {
            Ok(d) => Ok((item, d)),
            Err(e) => Err(e),
        }
    }

    /// Deletes the item's object, then forgets the item; the node's error comes
    /// back as its text, with the items unchanged.
    pub fn delete_item(&mut self, item_id: ObjectID, proof: Option<CapabilityProof>) -> (r: Result<(), String>)
        ensures
            r is Err ==> final(self).items@ == old(self).items@,
            r is Ok ==> final(self).items@ == old(self).items@.remove(item_id@),
            final(self).namespace_id == old(self).namespace_id,
    {
        let outcome = self.api.delete_object(item_id, proof);
        self.apply_item_deletion(item_id, outcome)
    }

    /// Applies the node's reply to deleting an item's object: on success forgets
    /// the item; on failure changes nothing.
    pub fn apply_item_deletion(&mut self, item_id: ObjectID, outcome: Result<[u8; 32], CoreRuntimeError>) -> (r: Result<(), String>)
        ensures
            outcome is Ok <==> r is Ok,
            r is Err ==> final(self).items@ == old(self).items@,
            r is Ok ==> final(self).items@ == old(self).items@.remove(item_id@),
            final(self).namespace_id == old(self).namespace_id,
            final(self).api == old(self).api,
    {
        if let Err(e) = node_reply(outcome) {
            return Err(e);
        }
        self.items.remove(&item_id);
        Ok(())
    }

    /// Copies of the items, in id order.
    pub fn list_items(&self) -> (r: Vec<VaultItem>)
        ensures
            r@.len() == self.items.entries_view().len(),
            forall|i: int| 0 <= i < r@.len() ==> same_item(#[trigger] r@[i], self.items.entries_view()[i].1),
    {
        let n = self.items.len();
        let mut out: Vec<VaultItem> = Vec::new();
        let mut i: usize = 0;
        while i < n
            invariant
                i <= n,
                n == self.items.entries_view().len(),
                out@.len() == i,
                forall|j: int| 0 <= j < i ==> same_item(#[trigger] out@[j], self.items.entries_view()[j].1),
            decreases n - i,
        {
            out.push(self.items.value_at(i).duplicate());
            i = i + 1;
        }
        out
    }
}

/// Opening a sealed secret with the key it was sealed under gives it back: the
/// tag checks out and the unmasked body is the secret.
pub proof fn lemma_vault_open_sealed(plaintext: Seq<u8>, key: Seq<u8>, ct: Seq<u8>)
    requires
        ct == vault_sealed(plaintext, key),
        ct.len() == plaintext.len() + 32,
    ensures
        ({
            let n = ct.len();
            &&& n >= 32
            &&& ct.subrange(n - 32, n as int) == vault_mac(key, ct.subrange(0, n - 32))
            &&& masked(ct.subrange(0, n - 32), vault_mask(key)) == plaintext
        }),
{
    let body = masked(plaintext, vault_mask(key));
    assert(ct.subrange(0, ct.len() - 32) =~= body);
    assert(ct.subrange(ct.len() - 32, ct.len() as int) =~= vault_mac(key, body));
    lemma_unmask(plaintext, vault_mask(key));
}

} // verus!
