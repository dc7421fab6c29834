//! The cryptographic primitives that the library takes from outside crates.
//! Each function here makes one call and states what the crate promises of it.

use vstd::prelude::*;
use sha2::Digest;
use ed25519_dalek::Signer;
use ed25519_dalek::Verifier;
use vstd::string::*;
use crate::bytes::push_all;

verus! {

/// The SHA-256 digest of a byte string (FIPS 180-4), as `sha2` computes it.
pub uninterp spec fn sha256_spec(data: Seq<u8>) -> Seq<u8>;

/// Calls `sha2::Sha256::digest` on `data`.
/// Claimed: the 32-byte result is the SHA-256 digest of exactly the bytes of `data`;
/// feeding a hasher several pieces with `update` digests their concatenation, so the
/// library always builds the whole preimage first and hashes it once.
#[verifier::external_body]
pub fn sha256(data: &[u8]) -> (r: [u8; 32])
    ensures
        r@ == sha256_spec(data@),
{
    sha2::Sha256::digest(data).into()
}

/// Whether 32 bytes decode to an Ed25519 verifying key.
pub uninterp spec fn ed25519_key_valid(pk: Seq<u8>) -> bool;

/// Whether `sig` is a valid strict Ed25519 signature of `msg` under `pk`.
pub uninterp spec fn ed25519_verifies(pk: Seq<u8>, msg: Seq<u8>, sig: Seq<u8>) -> bool;

/// The verifying key derived from a 32-byte Ed25519 secret seed.
pub uninterp spec fn ed25519_public_key(seed: Seq<u8>) -> Seq<u8>;

/// The deterministic Ed25519 signature of `msg` by the key of `seed`.
pub uninterp spec fn ed25519_signature(seed: Seq<u8>, msg: Seq<u8>) -> Seq<u8>;

/// Calls `ed25519_dalek::VerifyingKey::from_bytes` on `pk` and, when the bytes decode
/// to a key, `verify_strict` of `msg` against `Signature::from_bytes(sig)`.
/// Claimed: `None` exactly when the key bytes do not decode; otherwise whether the
/// signature verifies. Both outcomes depend on the three byte strings alone.
#[verifier::external_body]
pub fn ed25519_verify_strict(pk: &[u8; 32], msg: &[u8], sig: &[u8; 64]) -> (r: Option<bool>)
    ensures
        r is None <==> !ed25519_key_valid(pk@),
        r matches Some(b) ==> b == ed25519_verifies(pk@, msg@, sig@),
{
    match ed25519_dalek::VerifyingKey::from_bytes(pk) {
        Ok(vk) => Some(vk.verify_strict(msg, &ed25519_dalek::Signature::from_bytes(sig)).is_ok()),
        Err(_) => None,
    }
}

/// Whether `sig` passes the (cofactorless, non-strict) Ed25519 check of `msg` under `pk`.
pub uninterp spec fn ed25519_verifies_lax(pk: Seq<u8>, msg: Seq<u8>, sig: Seq<u8>) -> bool;

/// Calls `ed25519_dalek::VerifyingKey::from_bytes` on `pk` and, when the bytes decode
/// to a key, `Verifier::verify` of `msg` against `Signature::from_bytes(sig)`.
/// Claimed: the outer `Err` exactly when the key bytes do not decode; otherwise an
/// inner `Ok` exactly when the signature verifies, a function of the three byte
/// strings. Each `Err` holds the `Debug` text of the crate's error, whose wording
/// is left unsaid.
#[verifier::external_body]
pub fn ed25519_verify_lax(pk: &[u8; 32], msg: &[u8], sig: &[u8; 64]) -> (r: Result<Result<(), String>, String>)
    ensures
        r is Err <==> !ed25519_key_valid(pk@),
        r matches Ok(v) ==> (v is Ok <==> ed25519_verifies_lax(pk@, msg@, sig@)),
{
    match ed25519_dalek::VerifyingKey::from_bytes(pk) {
        Ok(vk) => match vk.verify(msg, &ed25519_dalek::Signature::from_bytes(sig)) {
            Ok(()) => Ok(Ok(())),
            Err(e) => Ok(Err(format!("{:?}", e))),
        },
        Err(e) => Err(format!("{:?}", e)),
    }
}

/// Calls `ed25519_dalek::SigningKey::from_bytes(seed).verifying_key().to_bytes()`.
/// Claimed: the result is a function of the seed, and it decodes as a verifying key.
#[verifier::external_body]
pub fn ed25519_public_from_seed(seed: &[u8; 32]) -> (r: [u8; 32])
    ensures
        r@ == ed25519_public_key(seed@),
        ed25519_key_valid(r@),
{
    ed25519_dalek::SigningKey::from_bytes(seed).verifying_key().to_bytes()
}

/// Calls `ed25519_dalek::SigningKey::from_bytes(seed)` and signs `msg` with it
/// (`Signer::sign`, deterministic per RFC 8032), returning the signature bytes.
/// Claimed: the signature is a function of seed and message, and it passes
/// `verify_strict` under the seed's verifying key.
#[verifier::external_body]
pub fn ed25519_sign(seed: &[u8; 32], msg: &[u8]) -> (r: [u8; 64])
    ensures
        r@ == ed25519_signature(seed@, msg@),
        ed25519_verifies(ed25519_public_key(seed@), msg@, r@),
{
    ed25519_dalek::SigningKey::from_bytes(seed).sign(msg).to_bytes()
}

/// The bytes of a domain tag followed by the data it separates.
pub open spec fn tagged(tag: &str, data: Seq<u8>) -> Seq<u8> {
    tag.spec_bytes() + data
}

/// SHA-256 of a domain tag followed by `data`.
pub fn hash_tagged(tag: &str, data: &[u8]) -> (r: [u8; 32])
    ensures
        r@ == sha256_spec(tagged(tag, data@)),
{
    let mut buf: Vec<u8> = Vec::new();
    push_all(&mut buf, tag.as_bytes());
    push_all(&mut buf, data);
    sha256(buf.as_slice())
}

/// SHA-256 of a domain tag followed by two byte strings.
pub fn hash_tagged2(tag: &str, a: &[u8], b: &[u8]) -> (r: [u8; 32])
    ensures
        r@ == sha256_spec(tagged(tag, a@ + b@)),
{
    let mut buf: Vec<u8> = Vec::new();
    push_all(&mut buf, tag.as_bytes());
    push_all(&mut buf, a);
    push_all(&mut buf, b);
    assert(buf@ =~= tag.spec_bytes() + (a@ + b@));
    sha256(buf.as_slice())
}

} // verus!
