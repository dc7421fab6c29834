//! Verification of capability delegation chains and device certificates.

use vstd::prelude::*;
use crate::bytes::{push_all, push_le, le_bytes, id_eq, arr32, arr64};
use crate::crypto::{hash_tagged, sha256_spec, tagged, ed25519_verify_strict, ed25519_key_valid, ed25519_verifies};
use crate::keyed_map::KeyedMap;
use crate::identity::types::{ActorID, NamespaceID, ObjectID, KeyType, AuthorizationError, AuthFailure, DeviceCertificate, CapabilityToken, CapabilityProof, token_hash_spec};

verus! {

/// Identifier of the actor holding `public_key`.
pub open spec fn actor_id_spec(key_tag: u8, public_key: Seq<u8>) -> Seq<u8> {
    sha256_spec(tagged("NEX/ACTOR_ID/v1", seq![key_tag] + public_key))
}

pub fn derive_actor_id(key_type: KeyType, public_key: &[u8]) -> (r: ActorID)
    ensures
        r@ == actor_id_spec(key_type.spec_tag(), public_key@),
{
    let mut buf: Vec<u8> = Vec::new();
    buf.push(key_type.tag());
    push_all(&mut buf, public_key);
    hash_tagged("NEX/ACTOR_ID/v1", buf.as_slice())
}

pub fn hash_capability_token(token: &CapabilityToken) -> (r: [u8; 32])
    ensures
        r@ == token_hash_spec(*token),
{
    token.hash()
}

pub open spec fn opt_id_view(o: Option<[u8; 32]>) -> Option<Seq<u8>> {
    match o {
        Some(v) => Some(v@),
        None => None,
    }
}

/// The verdict on a capability proof for an operation on a namespace (and object),
/// given the tokens already seen lower in the chain. Checks run in a fixed order;
/// the first failing one decides the error.
pub open spec fn chain_spec(
    proof: CapabilityProof,
    op: u32,
    ns: Seq<u8>,
    obj: Option<Seq<u8>>,
    epoch: u64,
    revs: Map<Seq<u8>, u64>,
    root: Seq<u8>,
    visited: Set<Seq<u8>>,
) -> Result<ActorID, AuthFailure>
    decreases proof,
{
    let t = proof.token;
    let h = token_hash_spec(t);
    if visited.contains(h) {
        Err(AuthFailure::CyclicDelegationDetected)
    } else if epoch < t.not_before_epoch {
        Err(AuthFailure::NotYetValid { current_epoch: epoch, not_before: t.not_before_epoch })
    } else if epoch > t.expires_at_epoch {
        Err(AuthFailure::ExpiredCapability { current_epoch: epoch, expires_at: t.expires_at_epoch })
    } else if revs.contains_key(h) && epoch >= revs[h] {
        Err(AuthFailure::RevokedCapability { token_hash: h, revocation_epoch: revs[h] })
    } else if (t.allowed_operations & op) != op {
        Err(AuthFailure::UnauthorizedOperation { requested: op, allowed: t.allowed_operations })
    } else if t.namespace@ != ns {
        Err(AuthFailure::NamespaceMismatch)
    } else if t.object_id is Some && obj != Some(t.object_id->0@) {
        Err(AuthFailure::ObjectMismatch)
    } else if proof.signature@.len() == 0 {
        Err(AuthFailure::SignatureInvalid)
    } else if proof.issuer_pubkey is Some && (proof.issuer_pubkey->0@.len() != 32 || proof.signature@.len() != 64) {
        Err(AuthFailure::SignatureInvalid)
    } else if proof.issuer_pubkey is Some && actor_id_spec(1, proof.issuer_pubkey->0@) != t.issuer@ {
        Err(AuthFailure::RootIssuerMismatch)
    } else if proof.issuer_pubkey is Some && !ed25519_key_valid(proof.issuer_pubkey->0@) {
        Err(AuthFailure::SignatureInvalid)
    } else if proof.issuer_pubkey is Some && !ed25519_verifies(proof.issuer_pubkey->0@, h, proof.signature@) {
        Err(AuthFailure::SignatureInvalid)
    } else {
        match (t.parent_token_hash, proof.parent_proof) {
            (None, None) => if t.issuer@ != root { Err(AuthFailure::RootIssuerMismatch) } else { Ok(t.subject) },
            (Some(ph), Some(pp)) => {
                let p = pp.token;
                if ph@ != token_hash_spec(p) {
                    Err(AuthFailure::ParentAttenuationViolation("Parent token hash mismatch"@))
                } else if t.issuer != p.subject {
                    Err(AuthFailure::IssuerSubjectMismatch)
                } else if (t.allowed_operations & !p.allowed_operations) != 0 {
                    Err(AuthFailure::ParentAttenuationViolation("Privilege escalation: operation not in parent"@))
                } else if t.namespace != p.namespace {
                    Err(AuthFailure::ParentAttenuationViolation("Namespace widening violation"@))
                } else if p.object_id is Some && t.object_id != p.object_id {
                    Err(AuthFailure::ParentAttenuationViolation("Object scope widening violation"@))
                } else if t.not_before_epoch < p.not_before_epoch || t.expires_at_epoch > p.expires_at_epoch {
                    Err(AuthFailure::ParentAttenuationViolation("Temporal window exceeds parent"@))
                } else if p.delegation_depth == 0 {
                    Err(AuthFailure::DelegationDepthExceeded)
                } else if t.delegation_depth >= p.delegation_depth {
                    Err(AuthFailure::ParentAttenuationViolation("Delegation depth must strictly decrement"@))
                } else {
                    match chain_spec(*pp, p.allowed_operations, p.namespace@, opt_id_view(p.object_id), epoch, revs,
                        root, visited.insert(h)) {
                        Err(e) => Err(e),
                        Ok(_) => Ok(t.subject),
                    }
                }
            },
            _ => Err(AuthFailure::ParentAttenuationViolation("Mismatched parent token hash and parent proof"@)),
        }
    }
}

/// What an accepted proof guarantees of its own token: it was not already seen
/// lower in the chain, the epoch lies in its validity window, it is not revoked by
/// then, it allows the requested operations on the requested namespace (and object,
/// when it names one), it carries a signature, and — when it has no parent — it was
/// issued by the root authority and names no parent; the verdict is its subject.
pub proof fn lemma_accepted_token_valid(
    proof: CapabilityProof,
    op: u32,
    ns: Seq<u8>,
    obj: Option<Seq<u8>>,
    epoch: u64,
    revs: Map<Seq<u8>, u64>,
    root: Seq<u8>,
    visited: Set<Seq<u8>>,
)
    requires
        chain_spec(proof, op, ns, obj, epoch, revs, root, visited) is Ok,
    ensures
        ({
            let t = proof.token;
            let h = token_hash_spec(t);
            &&& chain_spec(proof, op, ns, obj, epoch, revs, root, visited) == Ok::<ActorID, AuthFailure>(t.subject)
            &&& !visited.contains(h)
            &&& t.not_before_epoch <= epoch <= t.expires_at_epoch
            &&& !(revs.contains_key(h) && epoch >= revs[h])
            &&& t.allowed_operations & op == op
            &&& t.namespace@ == ns
            &&& t.object_id is Some ==> obj == Some(t.object_id->0@)
            &&& proof.signature@.len() > 0
            &&& proof.parent_proof is None ==> t.parent_token_hash is None && t.issuer@ == root
            &&& proof.parent_proof is Some ==> t.parent_token_hash is Some
        }),
{
}

/// Attenuation: whenever a delegated proof is accepted, its token stays inside its
/// parent's grant — the parent is the token its hash names, the issuer is the
/// parent's subject, the operations are a subset of the parent's, the namespace is
/// the parent's, the validity window lies within the parent's window, the
/// delegation depth strictly decreases, and the parent's own proof is accepted for
/// the parent's grant (so the same holds all the way up the chain).
pub proof fn lemma_accepted_delegation_attenuates(
    proof: CapabilityProof,
    op: u32,
    ns: Seq<u8>,
    obj: Option<Seq<u8>>,
    epoch: u64,
    revs: Map<Seq<u8>, u64>,
    root: Seq<u8>,
    visited: Set<Seq<u8>>,
)
    requires
        chain_spec(proof, op, ns, obj, epoch, revs, root, visited) is Ok,
        proof.parent_proof is Some,
    ensures
        ({
            let t = proof.token;
            let pp = proof.parent_proof->0;
            let p = pp.token;
            &&& t.parent_token_hash matches Some(ph) && ph@ == token_hash_spec(p)
            &&& t.issuer == p.subject
            &&& t.allowed_operations & !p.allowed_operations == 0
            &&& t.namespace == p.namespace
            &&& p.not_before_epoch <= t.not_before_epoch
            &&& t.expires_at_epoch <= p.expires_at_epoch
            &&& t.delegation_depth < p.delegation_depth
            &&& p.not_before_epoch <= epoch <= p.expires_at_epoch
            &&& chain_spec(*pp, p.allowed_operations, p.namespace@, opt_id_view(p.object_id), epoch, revs, root,
                visited.insert(token_hash_spec(t))) is Ok
        }),
{
    let pp = proof.parent_proof->0;
    let p = pp.token;
    let h = token_hash_spec(proof.token);
    if chain_spec(*pp, p.allowed_operations, p.namespace@, opt_id_view(p.object_id), epoch, revs, root,
        visited.insert(h)) is Ok {
        reveal_with_fuel(chain_spec, 2);
    }
}

/// Agreement of an executable verdict with its specification.
pub open spec fn auth_matches(r: Result<ActorID, AuthorizationError>, s: Result<ActorID, AuthFailure>) -> bool {
    match (r, s) {
        (Ok(a), Ok(b)) => a == b,
        (Err(e), Err(f)) => e@ == f,
        _ => false,
    }
}

/// Verifies a capability proof for `requested_op` on `target_namespace` (and
/// `target_object`) at `current_epoch`, walking delegations up to `root_authority`.
/// On success returns the subject authorized by the leaf token.
pub fn verify_capability_chain(
    proof: &CapabilityProof,
    requested_op: u32,
    target_namespace: &NamespaceID,
    target_object: Option<&ObjectID>,
    current_epoch: u64,
    active_revocations: &KeyedMap<[u8; 32], u64>,
    root_authority: &ActorID,
) -> (r: Result<ActorID, AuthorizationError>)
    ensures
        auth_matches(r, chain_spec(*proof, requested_op, target_namespace@,
            match target_object { Some(o) => Some(o@), None => None }, current_epoch,
            active_revocations@, root_authority@, Set::empty())),
{
    let mut visited: KeyedMap<[u8; 32], ()> = KeyedMap::new();
    proof {
        assert(visited@.dom() =~= Set::<Seq<u8>>::empty());
    }
    verify_capability_recursive(proof, requested_op, target_namespace,
        match target_object { Some(o) => Some(*o), None => None },
        current_epoch, active_revocations, root_authority, &mut visited)
}

fn verify_capability_recursive(
    proof: &CapabilityProof,
    requested_op: u32,
    target_namespace: &NamespaceID,
    target_object: Option<ObjectID>,
    current_epoch: u64,
    active_revocations: &KeyedMap<[u8; 32], u64>,
    root_authority: &ActorID,
    visited: &mut KeyedMap<[u8; 32], ()>,
) -> (r: Result<ActorID, AuthorizationError>)
    ensures
        auth_matches(r, chain_spec(*proof, requested_op, target_namespace@, opt_id_view(target_object),
            current_epoch, active_revocations@, root_authority@, old(visited)@.dom())),
    decreases proof,
{
    let token = &proof.token;
    let token_hash = hash_capability_token(token);
    let ghost h = token_hash@;
    if visited.contains_key(&token_hash) {
        return Err(AuthorizationError::CyclicDelegationDetected);
    }
    visited.insert(token_hash, ());
    if current_epoch < token.not_before_epoch {
        return Err(AuthorizationError::NotYetValid { current_epoch, not_before: token.not_before_epoch });
    }
    if current_epoch > token.expires_at_epoch {
        return Err(AuthorizationError::ExpiredCapability { current_epoch, expires_at: token.expires_at_epoch });
    }
    match active_revocations.get(&token_hash) {
        Some(revocation_epoch) => {
            if current_epoch >= *revocation_epoch {
                return Err(AuthorizationError::RevokedCapability { token_hash, revocation_epoch: *revocation_epoch });
            }
        }
        None => {}
    }
    if (token.allowed_operations & requested_op) != requested_op {
        return Err(AuthorizationError::UnauthorizedOperation { requested: requested_op, allowed: token.allowed_operations });
    }
    if !id_eq(&token.namespace, target_namespace) {
        return Err(AuthorizationError::NamespaceMismatch);
    }
    match &token.object_id {
        Some(token_obj) => {
            let same = match &target_object {
                Some(t) => id_eq(t, token_obj),
                None => false,
            };
            if !same {
                proof {
                    if target_object is Some && target_object->0@ == token_obj@ {
                        vstd::array::axiom_array_ext_equal(target_object->0, *token_obj);
                    }
                }
                return Err(AuthorizationError::ObjectMismatch);
            }
        }
        None => {}
    }
    if proof.signature.len() == 0 {
        return Err(AuthorizationError::SignatureInvalid);
    }
    match &proof.issuer_pubkey {
        Some(pubkey_bytes) => {
            if pubkey_bytes.len() != 32 || proof.signature.len() != 64 {
                return Err(AuthorizationError::SignatureInvalid);
            }
            let expected_actor = derive_actor_id(KeyType::Ed25519, pubkey_bytes.as_slice());
            if !id_eq(&expected_actor, &token.issuer) {
                return Err(AuthorizationError::RootIssuerMismatch);
            }
            let pk = arr32(pubkey_bytes.as_slice());
            let sig = arr64(proof.signature.as_slice());
            match ed25519_verify_strict(&pk, token_hash.as_slice(), &sig) {
                None => {
                    return Err(AuthorizationError::SignatureInvalid);
                }
                Some(ok) => {
                    if !ok {
                        return Err(AuthorizationError::SignatureInvalid);
                    }
                }
            }
        }
        None => {}
    }
    match (&token.parent_token_hash, &proof.parent_proof) {
        (None, None) => {
            if !id_eq(&token.issuer, root_authority) {
                return Err(AuthorizationError::RootIssuerMismatch);
            }
            Ok(token.subject)
        }
        (Some(parent_hash), Some(parent_proof)) => {
            let ptok = &parent_proof.token;
            let actual_parent_hash = hash_capability_token(ptok);
            if !id_eq(parent_hash, &actual_parent_hash) {
                return Err(AuthorizationError::ParentAttenuationViolation("Parent token hash mismatch".to_owned()));
            }
            if !id_eq(&token.issuer, &ptok.subject) {
                return Err(AuthorizationError::IssuerSubjectMismatch);
            }
            if (token.allowed_operations & !ptok.allowed_operations) != 0 {
                return Err(AuthorizationError::ParentAttenuationViolation(
                    "Privilege escalation: operation not in parent".to_owned()));
            }
            if !id_eq(&token.namespace, &ptok.namespace) {
                return Err(AuthorizationError::ParentAttenuationViolation("Namespace widening violation".to_owned()));
            }
            match &ptok.object_id {
                Some(parent_obj) => {
                    let same = match &token.object_id {
                        Some(o) => id_eq(o, parent_obj),
                        None => false,
                    };
                    if !same {
                        return Err(AuthorizationError::ParentAttenuationViolation(
                            "Object scope widening violation".to_owned()));
                    }
                }
                None => {}
            }
            if token.not_before_epoch < ptok.not_before_epoch || token.expires_at_epoch > ptok.expires_at_epoch {
                return Err(AuthorizationError::ParentAttenuationViolation("Temporal window exceeds parent".to_owned()));
            }
            if ptok.delegation_depth == 0 {
                return Err(AuthorizationError::DelegationDepthExceeded);
            }
            if token.delegation_depth >= ptok.delegation_depth {
                return Err(AuthorizationError::ParentAttenuationViolation(
                    "Delegation depth must strictly decrement".to_owned()));
            }
            proof {
                assert(visited@.dom() =~= old(visited)@.dom().insert(h));
            }
            let pr = verify_capability_recursive(parent_proof, ptok.allowed_operations, &ptok.namespace,
                ptok.object_id, current_epoch, active_revocations, root_authority, visited);
            match pr {
                Err(e) => Err(e),
                Ok(_) => Ok(token.subject),
            }
        }
        _ => Err(AuthorizationError::ParentAttenuationViolation(
            "Mismatched parent token hash and parent proof".to_owned())),
    }
}

/// The message a device certificate's signature covers.
pub open spec fn cert_message_spec(master: Seq<u8>, device: Seq<u8>, not_before: u64, expires_at: u64) -> Seq<u8> {
    sha256_spec(tagged("NEX/DEVICE_CERT/v1", master + device + le_bytes(not_before as nat, 8) + le_bytes(expires_at as nat, 8)))
}

pub fn device_cert_message(master: &ActorID, device: &ActorID, not_before: u64, expires_at: u64) -> (r: [u8; 32])
    ensures
        r@ == cert_message_spec(master@, device@, not_before, expires_at),
{
    let mut buf: Vec<u8> = Vec::new();
    push_all(&mut buf, master.as_slice());
    push_all(&mut buf, device.as_slice());
    push_le(&mut buf, not_before, 8);
    push_le(&mut buf, expires_at, 8);
    hash_tagged("NEX/DEVICE_CERT/v1", buf.as_slice())
}

/// The verdict on a device certificate presented for `master_actor` at `epoch`.
/// The signature is checked only when a 32-byte master key and a 64-byte signature
/// are attached and the key bytes decode.
pub open spec fn device_cert_spec(cert: DeviceCertificate, master_actor: Seq<u8>, epoch: u64) -> Result<(), AuthFailure> {
    if cert.master_actor_id@ != master_actor {
        Err(AuthFailure::RootIssuerMismatch)
    } else if epoch < cert.not_before_epoch {
        Err(AuthFailure::NotYetValid { current_epoch: epoch, not_before: cert.not_before_epoch })
    } else if epoch > cert.expires_at_epoch {
        Err(AuthFailure::ExpiredCapability { current_epoch: epoch, expires_at: cert.expires_at_epoch })
    } else if cert.signature@.len() == 0 {
        Err(AuthFailure::SignatureInvalid)
    } else if cert.master_pubkey is Some && cert.master_pubkey->0@.len() == 32 && cert.signature@.len() == 64 {
        let pk = cert.master_pubkey->0@;
        if actor_id_spec(1, pk) != cert.master_actor_id@ {
            Err(AuthFailure::RootIssuerMismatch)
        } else if ed25519_key_valid(pk) && !ed25519_verifies(pk,
            cert_message_spec(cert.master_actor_id@, cert.device_actor_id@, cert.not_before_epoch, cert.expires_at_epoch),
            cert.signature@) {
            Err(AuthFailure::SignatureInvalid)
        } else {
            Ok(())
        }
    } else {
        Ok(())
    }
}

pub open spec fn unit_auth_matches(r: Result<(), AuthorizationError>, s: Result<(), AuthFailure>) -> bool {
    match (r, s) {
        (Ok(_), Ok(_)) => true,
        (Err(e), Err(f)) => e@ == f,
        _ => false,
    }
}

pub fn verify_device_certificate(
    cert: &DeviceCertificate,
    master_actor: &ActorID,
    current_epoch: u64,
) -> (r: Result<(), AuthorizationError>)
    ensures
        unit_auth_matches(r, device_cert_spec(*cert, master_actor@, current_epoch)),
{
    if !id_eq(&cert.master_actor_id, master_actor) {
        return Err(AuthorizationError::RootIssuerMismatch);
    }
    if current_epoch < cert.not_before_epoch {
        return Err(AuthorizationError::NotYetValid { current_epoch, not_before: cert.not_before_epoch });
    }
    if current_epoch > cert.expires_at_epoch {
        return Err(AuthorizationError::ExpiredCapability { current_epoch, expires_at: cert.expires_at_epoch });
    }
    if cert.signature.len() == 0 {
        return Err(AuthorizationError::SignatureInvalid);
    }
    match &cert.master_pubkey {
        Some(pubkey_bytes) => {
            if pubkey_bytes.len() == 32 && cert.signature.len() == 64 {
                let expected_actor = derive_actor_id(KeyType::Ed25519, pubkey_bytes.as_slice());
                if !id_eq(&expected_actor, &cert.master_actor_id) {
                    return Err(AuthorizationError::RootIssuerMismatch);
                }
                let pk = arr32(pubkey_bytes.as_slice());
                let sig = arr64(cert.signature.as_slice());
                let msg = device_cert_message(&cert.master_actor_id, &cert.device_actor_id,
                    cert.not_before_epoch, cert.expires_at_epoch);
                match ed25519_verify_strict(&pk, msg.as_slice(), &sig) {
                    Some(ok) => {
                        if !ok {
                            return Err(AuthorizationError::SignatureInvalid);
                        }
                    }
                    None => {}
                }
            }
        }
        None => {}
    }
    Ok(())
}

/// Like `verify_device_certificate`, but a device on the revocation list is refused first.
pub fn verify_device_certificate_with_crl(
    cert: &DeviceCertificate,
    master_actor: &ActorID,
    current_epoch: u64,
    revoked_devices: &KeyedMap<ActorID, ()>,
) -> (r: Result<(), AuthorizationError>)
    ensures
        unit_auth_matches(r, if revoked_devices@.contains_key(cert.device_actor_id@) {
            Err(AuthFailure::CertificateInvalid)
        } else {
            device_cert_spec(*cert, master_actor@, current_epoch)
        }),
{
    if revoked_devices.contains_key(&cert.device_actor_id) {
        return Err(AuthorizationError::CertificateInvalid);
    }
    verify_device_certificate(cert, master_actor, current_epoch)
}

} // verus!
