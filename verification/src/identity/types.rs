//! Capability tokens, device certificates and authorization errors.

use vstd::prelude::*;
use crate::bytes::{push_all, push_le, le_bytes};
use crate::crypto::{hash_tagged, sha256_spec, tagged};
use crate::text::{decimal, decimal_text, bytes_debug, bytes_debug_text, str_debug, str_debug_text};

verus! {

pub type ActorID = [u8; 32];
pub type NamespaceID = [u8; 32];
pub type ObjectID = [u8; 32];

pub const OP_REGISTER_LWW: u32 = 0x01;
pub const OP_SET_ADD: u32 = 0x02;
pub const OP_SET_REMOVE: u32 = 0x04;
pub const OP_SEQUENCE_INSERT: u32 = 0x08;
pub const OP_OBJECT_TOMBSTONE: u32 = 0x10;
pub const OP_READ: u32 = 0x01;
pub const OP_WRITE: u32 = 0x02;
pub const OP_ALL: u32 = 0x1F;

#[derive(Debug, Clone, Copy, PartialEq, Eq, Structural)]
pub enum KeyType {
    Ed25519,
    Secp256k1,
}

impl KeyType {
    /// The one-byte tag of the key type (1 for Ed25519, 2 for secp256k1).
    pub open spec fn spec_tag(self) -> u8 {
        match self {
            KeyType::Ed25519 => 1u8,
            KeyType::Secp256k1 => 2u8,
        }
    }

    pub fn tag(&self) -> (r: u8)
        ensures
            r == self.spec_tag(),
    {
        match self {
            KeyType::Ed25519 => 1,
            KeyType::Secp256k1 => 2,
        }
    }
}

#[derive(Debug, Clone, PartialEq, Eq)]
pub enum AuthorizationError {
    SignatureInvalid,
    ExpiredCapability { current_epoch: u64, expires_at: u64 },
    NotYetValid { current_epoch: u64, not_before: u64 },
    RevokedCapability { token_hash: [u8; 32], revocation_epoch: u64 },
    UnauthorizedOperation { requested: u32, allowed: u32 },
    NamespaceMismatch,
    ObjectMismatch,
    RootIssuerMismatch,
    IssuerSubjectMismatch,
    ParentAttenuationViolation(String),
    DelegationDepthExceeded,
    CircularDelegationDetected,
    CyclicDelegationDetected,
    CertificateInvalid,
    InvalidHierarchy,
}

/// The mathematical content of an authorization error (messages as character sequences).
pub enum AuthFailure {
    SignatureInvalid,
    ExpiredCapability { current_epoch: u64, expires_at: u64 },
    NotYetValid { current_epoch: u64, not_before: u64 },
    RevokedCapability { token_hash: Seq<u8>, revocation_epoch: u64 },
    UnauthorizedOperation { requested: u32, allowed: u32 },
    NamespaceMismatch,
    ObjectMismatch,
    RootIssuerMismatch,
    IssuerSubjectMismatch,
    ParentAttenuationViolation(Seq<char>),
    DelegationDepthExceeded,
    CircularDelegationDetected,
    CyclicDelegationDetected,
    CertificateInvalid,
    InvalidHierarchy,
}

impl View for AuthorizationError {
    type V = AuthFailure;

    open spec fn view(&self) -> AuthFailure {
        match *self {
            AuthorizationError::SignatureInvalid => AuthFailure::SignatureInvalid,
            AuthorizationError::ExpiredCapability { current_epoch, expires_at } =>
                AuthFailure::ExpiredCapability { current_epoch, expires_at },
            AuthorizationError::NotYetValid { current_epoch, not_before } =>
                AuthFailure::NotYetValid { current_epoch, not_before },
            AuthorizationError::RevokedCapability { token_hash, revocation_epoch } =>
                AuthFailure::RevokedCapability { token_hash: token_hash@, revocation_epoch },
            AuthorizationError::UnauthorizedOperation { requested, allowed } =>
                AuthFailure::UnauthorizedOperation { requested, allowed },
            AuthorizationError::NamespaceMismatch => AuthFailure::NamespaceMismatch,
            AuthorizationError::ObjectMismatch => AuthFailure::ObjectMismatch,
            AuthorizationError::RootIssuerMismatch => AuthFailure::RootIssuerMismatch,
            AuthorizationError::IssuerSubjectMismatch => AuthFailure::IssuerSubjectMismatch,
            AuthorizationError::ParentAttenuationViolation(s) => AuthFailure::ParentAttenuationViolation(s@),
            AuthorizationError::DelegationDepthExceeded => AuthFailure::DelegationDepthExceeded,
            AuthorizationError::CircularDelegationDetected => AuthFailure::CircularDelegationDetected,
            AuthorizationError::CyclicDelegationDetected => AuthFailure::CyclicDelegationDetected,
            AuthorizationError::CertificateInvalid => AuthFailure::CertificateInvalid,
            AuthorizationError::InvalidHierarchy => AuthFailure::InvalidHierarchy,
        }
    }
}

/// The derived `Debug` text of an authorization error.
pub open spec fn auth_failure_debug(f: AuthFailure) -> Seq<char> {
    match f {
        AuthFailure::SignatureInvalid => "SignatureInvalid"@,
        AuthFailure::ExpiredCapability { current_epoch, expires_at } => "ExpiredCapability { current_epoch: "@
            + decimal(current_epoch as nat) + ", expires_at: "@ + decimal(expires_at as nat) + " }"@,
        AuthFailure::NotYetValid { current_epoch, not_before } => "NotYetValid { current_epoch: "@
            + decimal(current_epoch as nat) + ", not_before: "@ + decimal(not_before as nat) + " }"@,
        AuthFailure::RevokedCapability { token_hash, revocation_epoch } => "RevokedCapability { token_hash: "@
            + bytes_debug(token_hash) + ", revocation_epoch: "@ + decimal(revocation_epoch as nat) + " }"@,
        AuthFailure::UnauthorizedOperation { requested, allowed } => "UnauthorizedOperation { requested: "@
            + decimal(requested as nat) + ", allowed: "@ + decimal(allowed as nat) + " }"@,
        AuthFailure::NamespaceMismatch => "NamespaceMismatch"@,
        AuthFailure::ObjectMismatch => "ObjectMismatch"@,
        AuthFailure::RootIssuerMismatch => "RootIssuerMismatch"@,
        AuthFailure::IssuerSubjectMismatch => "IssuerSubjectMismatch"@,
        AuthFailure::ParentAttenuationViolation(m) => "ParentAttenuationViolation("@ + str_debug(m) + ")"@,
        AuthFailure::DelegationDepthExceeded => "DelegationDepthExceeded"@,
        AuthFailure::CircularDelegationDetected => "CircularDelegationDetected"@,
        AuthFailure::CyclicDelegationDetected => "CyclicDelegationDetected"@,
        AuthFailure::CertificateInvalid => "CertificateInvalid"@,
        AuthFailure::InvalidHierarchy => "InvalidHierarchy"@,
    }
}

/// `head`, the numeral of `a`, `mid`, the numeral of `b`, then ` }`.
fn two_numbers_text(head: &str, a: u64, mid: &str, b: u64) -> (r: String)
    ensures
        r@ == head@ + decimal(a as nat) + mid@ + decimal(b as nat) + " }"@,
{
    let mut r = head.to_string();
    let da = decimal_text(a);
    vstd::string::StringExecFns::append(&mut r, da.as_str());
    vstd::string::StringExecFns::append(&mut r, mid);
    let db = decimal_text(b);
    vstd::string::StringExecFns::append(&mut r, db.as_str());
    vstd::string::StringExecFns::append(&mut r, " }");
    r
}

impl AuthorizationError {
    /// The error's derived `Debug` text.
    pub fn debug_text(&self) -> (r: String)
        ensures
            r@ == auth_failure_debug(self@),
    {
        match self {
            AuthorizationError::SignatureInvalid => "SignatureInvalid".to_string(),
            AuthorizationError::ExpiredCapability { current_epoch, expires_at } =>
                two_numbers_text("ExpiredCapability { current_epoch: ", *current_epoch, ", expires_at: ", *expires_at),
            AuthorizationError::NotYetValid { current_epoch, not_before } =>
                two_numbers_text("NotYetValid { current_epoch: ", *current_epoch, ", not_before: ", *not_before),
            AuthorizationError::RevokedCapability { token_hash, revocation_epoch } => {
                let mut r = "RevokedCapability { token_hash: ".to_string();
                let h = bytes_debug_text(token_hash.as_slice());
                vstd::string::StringExecFns::append(&mut r, h.as_str());
                vstd::string::StringExecFns::append(&mut r, ", revocation_epoch: ");
                let d = decimal_text(*revocation_epoch);
                vstd::string::StringExecFns::append(&mut r, d.as_str());
                vstd::string::StringExecFns::append(&mut r, " }");
                r
            }
            AuthorizationError::UnauthorizedOperation { requested, allowed } =>
                two_numbers_text("UnauthorizedOperation { requested: ", *requested as u64, ", allowed: ", *allowed as u64),
            AuthorizationError::NamespaceMismatch => "NamespaceMismatch".to_string(),
            AuthorizationError::ObjectMismatch => "ObjectMismatch".to_string(),
            AuthorizationError::RootIssuerMismatch => "RootIssuerMismatch".to_string(),
            AuthorizationError::IssuerSubjectMismatch => "IssuerSubjectMismatch".to_string(),
            AuthorizationError::ParentAttenuationViolation(m) => {
                let mut r = "ParentAttenuationViolation(".to_string();
                let d = str_debug_text(m.as_str());
                vstd::string::StringExecFns::append(&mut r, d.as_str());
                vstd::string::StringExecFns::append(&mut r, ")");
                r
            }
            AuthorizationError::DelegationDepthExceeded => "DelegationDepthExceeded".to_string(),
            AuthorizationError::CircularDelegationDetected => "CircularDelegationDetected".to_string(),
            AuthorizationError::CyclicDelegationDetected => "CyclicDelegationDetected".to_string(),
            AuthorizationError::CertificateInvalid => "CertificateInvalid".to_string(),
            AuthorizationError::InvalidHierarchy => "InvalidHierarchy".to_string(),
        }
    }
}

#[derive(Debug, Clone, PartialEq, Eq)]
pub struct DeviceCertificate {
    pub master_actor_id: ActorID,
    pub device_actor_id: ActorID,
    pub not_before_epoch: u64,
    pub expires_at_epoch: u64,
    pub master_pubkey: Option<Vec<u8>>,
    pub signature: Vec<u8>,
}

#[derive(Debug, Clone, Copy, PartialEq, Eq)]
pub struct CapabilityToken {
    pub issuer: ActorID,
    pub subject: ActorID,
    pub namespace: NamespaceID,
    pub object_id: Option<ObjectID>,
    pub allowed_operations: u32,
    pub delegation_depth: u8,
    pub not_before_epoch: u64,
    pub expires_at_epoch: u64,
    pub parent_token_hash: Option<[u8; 32]>,
}

/// An optional 32-byte value as a presence byte followed by the value.
pub open spec fn opt_bytes(o: Option<[u8; 32]>) -> Seq<u8> {
    match o {
        Some(v) => seq![1u8] + v@,
        None => seq![0u8],
    }
}

/// The canonical byte layout of a capability token.
pub open spec fn token_bytes_spec(t: CapabilityToken) -> Seq<u8> {
    t.issuer@ + t.subject@ + t.namespace@ + opt_bytes(t.object_id)
        + le_bytes(t.allowed_operations as nat, 4) + seq![t.delegation_depth]
        + le_bytes(t.not_before_epoch as nat, 8) + le_bytes(t.expires_at_epoch as nat, 8)
        + opt_bytes(t.parent_token_hash)
}

/// The domain-separated hash of a capability token.
pub open spec fn token_hash_spec(t: CapabilityToken) -> Seq<u8> {
    sha256_spec(tagged("NEX/CAPABILITY_TOKEN/v1", token_bytes_spec(t)))
}

fn push_opt(buf: &mut Vec<u8>, o: &Option<[u8; 32]>)
    ensures
        final(buf)@ == old(buf)@ + opt_bytes(*o),
{
    match o {
        Some(v) => {
            buf.push(1);
            push_all(buf, v.as_slice());
        }
        None => {
            buf.push(0);
        }
    }
}

impl CapabilityToken {
    pub fn canonical_bytes(&self) -> (r: Vec<u8>)
        ensures
            r@ == token_bytes_spec(*self),
    {
        let mut buf: Vec<u8> = Vec::new();
        push_all(&mut buf, self.issuer.as_slice());
        push_all(&mut buf, self.subject.as_slice());
        push_all(&mut buf, self.namespace.as_slice());
        push_opt(&mut buf, &self.object_id);
        push_le(&mut buf, self.allowed_operations as u64, 4);
        buf.push(self.delegation_depth);
        push_le(&mut buf, self.not_before_epoch, 8);
        push_le(&mut buf, self.expires_at_epoch, 8);
        push_opt(&mut buf, &self.parent_token_hash);
        assert(buf@ =~= token_bytes_spec(*self));
        buf
    }

    pub fn hash(&self) -> (r: [u8; 32])
        ensures
            r@ == token_hash_spec(*self),
    {
        let b = self.canonical_bytes();
        hash_tagged("NEX/CAPABILITY_TOKEN/v1", b.as_slice())
    }
}

#[derive(Debug)]
pub struct CapabilityProof {
    pub token: CapabilityToken,
    pub issuer_pubkey: Option<Vec<u8>>,
    pub parent_proof: Option<Box<CapabilityProof>>,
    pub signature: Vec<u8>,
}

#[derive(Debug, Clone, PartialEq, Eq)]
pub struct RevocationEpochFence {
    pub issuer: ActorID,
    pub target_subject: ActorID,
    pub target_namespace: Option<NamespaceID>,
    pub revoked_at_epoch: u64,
    pub reason: String,
    pub issuer_pubkey: Option<Vec<u8>>,
    pub signature: Vec<u8>,
}

} // verus!
