//! The master identity held in cold storage: it issues and revokes device certificates.

use vstd::prelude::*;
use crate::bytes::to_vec;
use crate::crypto::{ed25519_key_valid, ed25519_public_from_seed, ed25519_sign, ed25519_public_key, ed25519_signature};
use crate::keyed_map::KeyedMap;
use crate::identity::types::{ActorID, KeyType, DeviceCertificate};
use crate::identity::authority::{derive_actor_id, actor_id_spec, device_cert_message, cert_message_spec, device_cert_spec};

verus! {

pub struct NexMasterIdentity {
    master_seed: [u8; 32],
    pub master_verifying_key: [u8; 32],
    pub root_actor_id: ActorID,
}

impl NexMasterIdentity {
    /// The identity's secret seed (visible to specifications only).
    pub closed spec fn seed(&self) -> Seq<u8> {
        self.master_seed@
    }

    pub closed spec fn root_id(&self) -> ActorID {
        self.root_actor_id
    }

    pub closed spec fn verifying_key(&self) -> [u8; 32] {
        self.master_verifying_key
    }

    pub closed spec fn wf(&self) -> bool {
        &&& self.master_verifying_key@ == ed25519_public_key(self.seed())
        &&& self.root_actor_id@ == actor_id_spec(1, self.master_verifying_key@)
        &&& ed25519_key_valid(self.master_verifying_key@)
    }

    pub fn root_actor(&self) -> (r: ActorID)
        ensures
            r == self.root_id(),
    {
        self.root_actor_id
    }

    /// The identity whose signing key is derived from `seed`.
    pub fn from_seed(seed: &[u8; 32]) -> (r: Self)
        ensures
            r.seed() == seed@,
            r.wf(),
            r.verifying_key()@ == ed25519_public_key(seed@),
            r.root_id()@ == actor_id_spec(1, ed25519_public_key(seed@)),
    {
        let vk = ed25519_public_from_seed(seed);
        let root_actor_id = derive_actor_id(KeyType::Ed25519, vk.as_slice());
        NexMasterIdentity { master_seed: *seed, master_verifying_key: vk, root_actor_id }
    }

    /// Signs a certificate for the device holding `device_pubkey_bytes`, valid from
    /// `not_before_epoch` through `expires_at_epoch`. The certificate passes
    /// `verify_device_certificate` for this identity at every epoch of that window.
    pub fn issue_device_certificate(
        &self,
        device_pubkey_bytes: &[u8; 32],
        not_before_epoch: u64,
        expires_at_epoch: u64,
    ) -> (r: Result<DeviceCertificate, String>)
        requires
            self.wf(),
        ensures
            r matches Ok(c) && {
                &&& c.master_actor_id == self.root_id()
                &&& c.device_actor_id@ == actor_id_spec(1, device_pubkey_bytes@)
                &&& c.not_before_epoch == not_before_epoch
                &&& c.expires_at_epoch == expires_at_epoch
                &&& c.master_pubkey matches Some(pk) && pk@ == self.verifying_key()@
                &&& c.signature@ == ed25519_signature(self.seed(), cert_message_spec(self.root_id()@,
                    c.device_actor_id@, not_before_epoch, expires_at_epoch))
                &&& forall|e: u64| not_before_epoch <= e <= expires_at_epoch ==>
                    (#[trigger] device_cert_spec(c, self.root_id()@, e)) is Ok
            },
    {
        let device_actor_id = derive_actor_id(KeyType::Ed25519, device_pubkey_bytes.as_slice());
        let msg = device_cert_message(&self.root_actor_id, &device_actor_id, not_before_epoch, expires_at_epoch);
        let sig = ed25519_sign(&self.master_seed, msg.as_slice());
        let c = DeviceCertificate {
            master_actor_id: self.root_actor_id,
            device_actor_id,
            not_before_epoch,
            expires_at_epoch,
            master_pubkey: Some(to_vec(self.master_verifying_key.as_slice())),
            signature: to_vec(sig.as_slice()),
        };
        Ok(c)
    }

    /// Adds `target_device_actor` to the certificate revocation list.
    pub fn revoke_device(&self, crl: &mut KeyedMap<ActorID, ()>, target_device_actor: ActorID)
        ensures
            final(crl)@.dom() == old(crl)@.dom().insert(target_device_actor@),
    {
        crl.insert(target_device_actor, ());
        proof {
            assert(crl@.dom() =~= old(crl)@.dom().insert(target_device_actor@));
        }
    }
}

} // verus!
