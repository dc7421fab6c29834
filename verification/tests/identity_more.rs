use nex_core::crypto::{ed25519_sign, ed25519_public_from_seed};
use nex_core::identity::authority::{derive_actor_id, verify_capability_chain, verify_device_certificate,
    verify_device_certificate_with_crl};
use nex_core::identity::master::NexMasterIdentity;
use nex_core::identity::recovery::shamir::{split_secret, combine_shares};
use nex_core::identity::types::{AuthorizationError, CapabilityProof, CapabilityToken, KeyType, OP_ALL, OP_READ, OP_WRITE};
use nex_core::keyed_map::KeyedMap;

const NS: [u8; 32] = [0x33; 32];

fn token(issuer: [u8; 32], subject: [u8; 32], ops: u32, depth: u8, parent: Option<[u8; 32]>) -> CapabilityToken {
    CapabilityToken {
        issuer,
        subject,
        namespace: NS,
        object_id: None,
        allowed_operations: ops,
        delegation_depth: depth,
        not_before_epoch: 10,
        expires_at_epoch: 100,
        parent_token_hash: parent,
    }
}

fn signed(seed: &[u8; 32], t: CapabilityToken, parent: Option<CapabilityProof>) -> CapabilityProof {
    let pk = ed25519_public_from_seed(seed);
    let sig = ed25519_sign(seed, &t.hash());
    CapabilityProof { token: t, issuer_pubkey: Some(pk.to_vec()), parent_proof: parent.map(Box::new), signature: sig.to_vec() }
}

fn no_revocations() -> KeyedMap<[u8; 32], u64> {
    KeyedMap::new()
}

#[test]
fn signed_root_capability_authorizes_its_subject() {
    let seed = [1u8; 32];
    let root = derive_actor_id(KeyType::Ed25519, &ed25519_public_from_seed(&seed));
    let alice = [0xA1; 32];
    let proof = signed(&seed, token(root, alice, OP_ALL, 2, None), None);
    assert_eq!(verify_capability_chain(&proof, OP_READ, &NS, None, 50, &no_revocations(), &root), Ok(alice));
    assert_eq!(verify_capability_chain(&proof, OP_READ, &[0u8; 32], None, 50, &no_revocations(), &root),
        Err(AuthorizationError::NamespaceMismatch));
    assert_eq!(verify_capability_chain(&proof, OP_READ, &NS, None, 101, &no_revocations(), &root),
        Err(AuthorizationError::ExpiredCapability { current_epoch: 101, expires_at: 100 }));
    assert_eq!(verify_capability_chain(&proof, OP_READ, &NS, None, 9, &no_revocations(), &root),
        Err(AuthorizationError::NotYetValid { current_epoch: 9, not_before: 10 }));
}

#[test]
fn tampered_signature_is_refused() {
    let seed = [1u8; 32];
    let root = derive_actor_id(KeyType::Ed25519, &ed25519_public_from_seed(&seed));
    let mut proof = signed(&seed, token(root, [0xA1; 32], OP_ALL, 2, None), None);
    proof.signature[0] ^= 1;
    assert_eq!(verify_capability_chain(&proof, OP_READ, &NS, None, 50, &no_revocations(), &root),
        Err(AuthorizationError::SignatureInvalid));
}

#[test]
fn revoked_capability_is_refused() {
    let seed = [1u8; 32];
    let root = derive_actor_id(KeyType::Ed25519, &ed25519_public_from_seed(&seed));
    let t = token(root, [0xA1; 32], OP_ALL, 2, None);
    let proof = signed(&seed, t, None);
    let mut revs: KeyedMap<[u8; 32], u64> = KeyedMap::new();
    revs.insert(t.hash(), 40);
    assert_eq!(verify_capability_chain(&proof, OP_READ, &NS, None, 39, &revs, &root), Ok([0xA1; 32]));
    assert_eq!(verify_capability_chain(&proof, OP_READ, &NS, None, 40, &revs, &root),
        Err(AuthorizationError::RevokedCapability { token_hash: t.hash(), revocation_epoch: 40 }));
}

#[test]
fn delegation_attenuates_and_refuses_escalation() {
    let root_seed = [1u8; 32];
    let alice_seed = [2u8; 32];
    let root = derive_actor_id(KeyType::Ed25519, &ed25519_public_from_seed(&root_seed));
    let alice = derive_actor_id(KeyType::Ed25519, &ed25519_public_from_seed(&alice_seed));
    let bob = [0xB0; 32];
    let parent_t = token(root, alice, OP_READ | OP_WRITE, 1, None);
    let parent = signed(&root_seed, parent_t, None);
    let child = signed(&alice_seed, token(alice, bob, OP_READ, 0, Some(parent_t.hash())), Some(parent));
    assert_eq!(verify_capability_chain(&child, OP_READ, &NS, None, 50, &no_revocations(), &root), Ok(bob));
    assert_eq!(verify_capability_chain(&child, OP_WRITE, &NS, None, 50, &no_revocations(), &root),
        Err(AuthorizationError::UnauthorizedOperation { requested: OP_WRITE, allowed: OP_READ }));

    let parent2 = signed(&root_seed, parent_t, None);
    let greedy = signed(&alice_seed, token(alice, bob, OP_ALL, 0, Some(parent_t.hash())), Some(parent2));
    assert_eq!(verify_capability_chain(&greedy, OP_READ, &NS, None, 50, &no_revocations(), &root),
        Err(AuthorizationError::ParentAttenuationViolation("Privilege escalation: operation not in parent".to_string())));
}

#[test]
fn wrong_root_is_refused() {
    let seed = [1u8; 32];
    let root = derive_actor_id(KeyType::Ed25519, &ed25519_public_from_seed(&seed));
    let proof = signed(&seed, token(root, [0xA1; 32], OP_ALL, 2, None), None);
    assert_eq!(verify_capability_chain(&proof, OP_READ, &NS, None, 50, &no_revocations(), &[0x77; 32]),
        Err(AuthorizationError::RootIssuerMismatch));
}

#[test]
fn device_certificates_hold_within_their_window() {
    let master = NexMasterIdentity::from_seed(&[0x42; 32]);
    let root = master.root_actor();
    let cert = master.issue_device_certificate(&[0x11; 32], 10, 20).unwrap();
    assert_eq!(cert.device_actor_id, derive_actor_id(KeyType::Ed25519, &[0x11; 32]));
    assert_eq!(verify_device_certificate(&cert, &root, 10), Ok(()));
    assert_eq!(verify_device_certificate(&cert, &root, 20), Ok(()));
    assert_eq!(verify_device_certificate(&cert, &root, 9),
        Err(AuthorizationError::NotYetValid { current_epoch: 9, not_before: 10 }));
    assert_eq!(verify_device_certificate(&cert, &root, 21),
        Err(AuthorizationError::ExpiredCapability { current_epoch: 21, expires_at: 20 }));
    assert_eq!(verify_device_certificate(&cert, &[0u8; 32], 15), Err(AuthorizationError::RootIssuerMismatch));
    let mut forged = cert.clone();
    forged.expires_at_epoch = 30;
    assert_eq!(verify_device_certificate(&forged, &root, 15), Err(AuthorizationError::SignatureInvalid));
    let mut crl: KeyedMap<[u8; 32], ()> = KeyedMap::new();
    master.revoke_device(&mut crl, cert.device_actor_id);
    assert_eq!(verify_device_certificate_with_crl(&cert, &root, 15, &crl), Err(AuthorizationError::CertificateInvalid));
}

#[test]
fn shamir_threshold_shares_recover_the_secret() {
    let secret = [0x5A; 32];
    let coeffs: Vec<Vec<u8>> = (0..32u8).map(|b| vec![b.wrapping_mul(7).wrapping_add(3), b ^ 0x99]).collect();
    let shares = split_secret(&secret, 3, 5, 1, &coeffs).unwrap();
    assert_eq!(shares.len(), 5);
    assert_eq!(shares[4].guardian_index, 5);
    assert_ne!(shares[0].share_data, secret);
    assert_eq!(combine_shares(&[shares[0], shares[2], shares[4]], 3), Ok(secret));
    assert_eq!(combine_shares(&[shares[1], shares[3], shares[0]], 3), Ok(secret));
    assert_eq!(combine_shares(&[shares[1], shares[3]], 3), Err("InsufficientSharesForQuorum".to_string()));
}

#[test]
fn shamir_rejects_bad_parameters() {
    let secret = [1u8; 32];
    let coeffs: Vec<Vec<u8>> = (0..32).map(|_| vec![1u8]).collect();
    assert_eq!(split_secret(&secret, 0, 5, 1, &coeffs).unwrap_err(), "InvalidThreshold");
    assert_eq!(split_secret(&secret, 6, 5, 1, &coeffs).unwrap_err(), "InvalidThreshold");
    assert_eq!(split_secret(&secret, 2, 5, 1, &coeffs[..31]).unwrap_err(), "InvalidRandomCoeffsCount");
    assert_eq!(split_secret(&secret, 3, 5, 1, &coeffs).unwrap_err(), "InvalidDegreeForCoeffs");
}

#[test]
fn shamir_quorum_recovers_despite_repeated_shares() {
    let secret = [0x21; 32];
    let coeffs: Vec<Vec<u8>> = (0..32u8).map(|b| vec![b ^ 0x10, b.wrapping_add(9)]).collect();
    let shares = split_secret(&secret, 3, 5, 1, &coeffs).unwrap();
    assert_eq!(combine_shares(&[shares[3], shares[3], shares[1], shares[3], shares[4]], 3), Ok(secret));
    assert_eq!(combine_shares(&[shares[2], shares[2], shares[2]], 3), Err("DuplicateSharesFound".to_string()));
}
