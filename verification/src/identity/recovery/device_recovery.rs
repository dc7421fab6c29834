//! The 3-of-5 recovery plan and the replacement of a lost device.

use vstd::prelude::*;
use crate::keyed_map::KeyedMap;
use crate::identity::types::{ActorID, KeyType, DeviceCertificate};
use crate::identity::master::NexMasterIdentity;
use crate::identity::authority::{derive_actor_id, actor_id_spec};
use crate::identity::recovery::shamir::{GuardianShare, split_secret, share_byte, combine_outcome, lemma_combine_split};
use crate::identity::recovery::ceremony::SocialRecoveryCeremony;
use crate::crypto::ed25519_public_key;
use rand::RngCore;
use rand::SeedableRng;

verus! {

#[derive(Debug, Clone, Copy, PartialEq, Eq, Structural)]
pub enum GuardianFactorType {
    EmergencyPaperKey,
    FamilyGuardian,
    TrustedPeer,
    SecondaryDevice,
    EncryptedVault,
}

impl GuardianFactorType {
    pub fn label(&self) -> (r: &'static str)
        ensures
            r@ == match *self {
                GuardianFactorType::EmergencyPaperKey => "Emergency Safety Key (Paper / Safe)"@,
                GuardianFactorType::FamilyGuardian => "Family Living Circle Guardian"@,
                GuardianFactorType::TrustedPeer => "Trusted Social Guardian"@,
                GuardianFactorType::SecondaryDevice => "Secondary Hardware Device"@,
                GuardianFactorType::EncryptedVault => "Decentralized Encrypted Vault"@,
            },
    {
        match self {
            GuardianFactorType::EmergencyPaperKey => "Emergency Safety Key (Paper / Safe)",
            GuardianFactorType::FamilyGuardian => "Family Living Circle Guardian",
            GuardianFactorType::TrustedPeer => "Trusted Social Guardian",
            GuardianFactorType::SecondaryDevice => "Secondary Hardware Device",
            GuardianFactorType::EncryptedVault => "Decentralized Encrypted Vault",
        }
    }
}

#[derive(Debug, Clone, Copy, PartialEq, Eq, Structural)]
pub enum GuardianStatus {
    Configured,
    Escrowed,
    Verified,
}

#[derive(Debug, Clone, PartialEq, Eq)]
pub struct GuardianRecord {
    pub guardian_index: u8,
    pub name: String,
    pub factor_type: GuardianFactorType,
    pub assigned_actor_id: Option<ActorID>,
    pub status: GuardianStatus,
}

#[derive(Debug, Clone, PartialEq, Eq)]
pub struct RecoveryPlan {
    pub root_actor_id: ActorID,
    pub threshold: u8,
    pub total_shares: u8,
    pub created_epoch: u64,
    pub time_lock_epochs: u64,
    pub guardians: Vec<GuardianRecord>,
}

#[derive(Debug, Clone, PartialEq, Eq)]
pub struct DeviceRecoveryResult {
    pub root_actor_id: ActorID,
    pub replacement_device_actor_id: ActorID,
    pub replacement_certificate: DeviceCertificate,
    pub revoked_device_actor_id: Option<ActorID>,
    pub recovery_epoch: u64,
}

/// The share bytes are the values, at each share's guardian index, of polynomials of
/// degree two whose constant terms are the bytes of `seed`, with coefficients `coeffs`.
pub open spec fn sharing_with(shares: Seq<GuardianShare>, seed: Seq<u8>, coeffs: Seq<Seq<u8>>) -> bool {
    &&& coeffs.len() == 32
    &&& forall|b: int| 0 <= b < 32 ==> #[trigger] coeffs[b].len() == 2
    &&& forall|s: int, b: int| 0 <= s < shares.len() && 0 <= b < 32 ==> #[trigger] shares[s].share_data@[b]
        == share_byte(seed[b], coeffs[b], shares[s].guardian_index)
}

/// The shares are a three-of-n sharing of `seed`, whatever coefficients were drawn.
pub open spec fn sharing_of(shares: Seq<GuardianShare>, seed: Seq<u8>) -> bool {
    exists|coeffs: Seq<Seq<u8>>| sharing_with(shares, seed, coeffs)
}

/// Any three (or more) shares of a recovery plan with distinct guardian indices
/// reconstruct the master seed.
pub proof fn lemma_quorum_recovers(shares: Seq<GuardianShare>, picked: Seq<GuardianShare>, seed: Seq<u8>)
    requires
        sharing_of(shares, seed),
        seed.len() == 32,
        forall|i: int| 0 <= i < picked.len() ==> #[trigger] shares.contains(picked[i]),
        picked.len() >= 3,
        forall|i: int, j: int| 0 <= i < j < picked.len() ==> picked[i].guardian_index != picked[j].guardian_index,
    ensures
        combine_outcome(picked, 3) == Ok::<Seq<u8>, Seq<char>>(seed),
{
    let coeffs = choose|coeffs: Seq<Seq<u8>>| sharing_with(shares, seed, coeffs);
    assert forall|i: int, b: int| 0 <= i < picked.len() && 0 <= b < 32 implies #[trigger] picked[i].share_data@[b]
        == share_byte(seed[b], coeffs[b], picked[i].guardian_index) by {
        assert(shares.contains(picked[i]));
        let s = choose|s: int| 0 <= s < shares.len() && shares[s] == picked[i];
        assert(shares[s].share_data@[b] == share_byte(seed[b], coeffs[b], shares[s].guardian_index));
    }
    lemma_combine_split(picked, 3, seed, coeffs);
}

/// A ceremony that has collected at least three shares of a recovery plan, with
/// distinct guardian indices, and is neither canceled nor held by its time lock,
/// reconstructs the master seed.
pub proof fn lemma_ceremony_recovers(shares: Seq<GuardianShare>, seed: Seq<u8>, c: SocialRecoveryCeremony, epoch: u64)
    requires
        sharing_of(shares, seed),
        seed.len() == 32,
        forall|i: int| 0 <= i < c.shares().len() ==> #[trigger] shares.contains(c.shares()[i]),
        c.shares().len() >= 3,
        forall|i: int, j: int| 0 <= i < j < c.shares().len() ==> c.shares()[i].guardian_index != c.shares()[j].guardian_index,
        c.quorum() == 3,
        !c.canceled(),
        epoch >= c.time_lock() || c.shares().len() >= c.shares()[0].total_shares,
    ensures
        c.finalize_outcome(epoch) == Ok::<Seq<u8>, Seq<char>>(seed),
{
    lemma_quorum_recovers(shares, c.shares(), seed);
}

pub struct DeviceRecoveryWorkflow;

/// `n` bytes from an `StdRng` seeded from the operating system's entropy
/// (`StdRng::from_entropy`, then `fill_bytes`). Claimed: only the length; the
/// bytes are whatever the generator produced.
#[verifier::external_body]
fn random_bytes(n: usize) -> (r: Vec<u8>)
    ensures
        r@.len() == n,
{
    let mut rng = rand::rngs::StdRng::from_entropy();
    let mut bytes = vec![0u8; n];
    rng.fill_bytes(&mut bytes);
    bytes
}

/// `bytes` cut into `rows` consecutive rows of `width` bytes.
fn rows_of(bytes: &Vec<u8>, rows: usize, width: usize) -> (r: Vec<Vec<u8>>)
    requires
        bytes@.len() == rows * width,
    ensures
        r@.len() == rows,
        forall|i: int| 0 <= i < rows ==> (#[trigger] r@[i])@ == bytes@.subrange(i * width, i * width + width),
{
    let mut out: Vec<Vec<u8>> = Vec::new();
    let mut i: usize = 0;
    while i < rows
        invariant
            i <= rows,
            bytes@.len() == rows * width,
            out@.len() == i,
            forall|j: int| 0 <= j < i ==> (#[trigger] out@[j])@ == bytes@.subrange(j * width, j * width + width),
        decreases rows - i,
    {
        proof {
            assert((i + 1) * width <= rows * width) by (nonlinear_arith)
                requires i + 1 <= rows;
            assert((i + 1) * width == i * width + width) by (nonlinear_arith);
            assert(bytes@.len() == bytes.len());
        }
        let start = i * width;
        let mut row: Vec<u8> = Vec::new();
        let mut c: usize = 0;
        while c < width
            invariant
                c <= width,
                start == i * width,
                start + width <= bytes@.len(),
                bytes@.len() == bytes.len(),
                row@ == bytes@.subrange(start as int, start + c),
            decreases width - c,
        {
            row.push(bytes[start + c]);
            c = c + 1;
            assert(row@ =~= bytes@.subrange(start as int, start + c));
        }
        out.push(row);
        i = i + 1;
    }
    out
}

/// 32 rows of `width` random bytes, from one draw of `32 * width` bytes.
fn random_coefficient_rows(width: usize) -> (r: Vec<Vec<u8>>)
    requires
        32 * width <= usize::MAX,
    ensures
        r@.len() == 32,
        forall|i: int| 0 <= i < 32 ==> (#[trigger] r@[i])@.len() == width,
{
    let bytes = random_bytes(32 * width);
    let r = rows_of(&bytes, 32, width);
    assert forall|i: int| 0 <= i < 32 implies (#[trigger] r@[i])@.len() == width by {
        assert(i * width + width <= 32 * width) by (nonlinear_arith)
            requires 0 <= i < 32, width >= 0;
        assert(0 <= i * width) by (nonlinear_arith)
            requires 0 <= i, width >= 0;
    }
    r
}

/// Sixteen bytes from `rand::thread_rng().fill_bytes`. Claimed: nothing about their values.
#[verifier::external_body]
fn random_ceremony_id() -> (r: [u8; 16]) {
    let mut id = [0u8; 16];
    rand::thread_rng().fill_bytes(&mut id);
    id
}

pub open spec fn default_guardian_name(i: int) -> Seq<char> {
    if i == 0 { "Emergency Master Safety Key"@ }
    else if i == 1 { "Amy (Family Guardian)"@ }
    else if i == 2 { "Bob (Trusted Friend)"@ }
    else if i == 3 { "MacBook Pro (Hardware Device)"@ }
    else { "Sovereign Decentralized Vault"@ }
}

pub open spec fn factor_for(i: int) -> GuardianFactorType {
    if i == 0 { GuardianFactorType::EmergencyPaperKey }
    else if i == 1 { GuardianFactorType::FamilyGuardian }
    else if i == 2 { GuardianFactorType::TrustedPeer }
    else if i == 3 { GuardianFactorType::SecondaryDevice }
    else { GuardianFactorType::EncryptedVault }
}

impl DeviceRecoveryWorkflow {
    /// Sets up the 3-of-5 recovery of the identity of `master_seed`: five shares of the
    /// seed (with fresh random polynomial coefficients) and the guardians who hold them.
    pub fn setup_3_of_5_recovery(
        master_seed: &[u8; 32],
        epoch: u64,
        guardian_labels: Option<[&str; 5]>,
        time_lock_epochs: u64,
    ) -> (r: Result<(RecoveryPlan, Vec<GuardianShare>), String>)
        ensures
            r matches Ok((plan, shares)) && {
                &&& plan.root_actor_id@ == actor_id_spec(1, ed25519_public_key(master_seed@))
                &&& plan.threshold == 3 && plan.total_shares == 5
                &&& plan.created_epoch == epoch && plan.time_lock_epochs == time_lock_epochs
                &&& plan.guardians@.len() == 5
                &&& forall|i: int| 0 <= i < 5 ==> {
                    let g = #[trigger] plan.guardians@[i];
                    &&& g.guardian_index == i + 1
                    &&& g.name@ == match guardian_labels { Some(l) => l[i]@, None => default_guardian_name(i) }
                    &&& g.factor_type == factor_for(i)
                    &&& g.assigned_actor_id is None
                    &&& g.status == GuardianStatus::Verified
                }
                &&& shares@.len() == 5
                &&& forall|s: int| 0 <= s < 5 ==> {
                    let sh = #[trigger] shares@[s];
                    &&& sh.guardian_index == s + 1 && sh.threshold == 3 && sh.total_shares == 5 && sh.epoch == epoch
                }
                &&& sharing_of(shares@, master_seed@)
            },
    {
        let master = NexMasterIdentity::from_seed(master_seed);
        let root_actor_id = master.root_actor();
        let random_coefficients = random_coefficient_rows(2);
        let shares = match split_secret(master_seed, 3, 5, epoch, random_coefficients.as_slice()) {
            Ok(s) => s,
            Err(e) => { return Err(e); }
        };
        proof {
            let coeffs = random_coefficients@.map_values(|v: Vec<u8>| v@);
            assert(coeffs.len() == 32 && forall|b: int| 0 <= b < 32 ==> #[trigger] coeffs[b].len() == 2);
            assert forall|s: int, b: int| 0 <= s < shares@.len() && 0 <= b < 32 implies #[trigger] shares@[s].share_data@[b]
                == share_byte(master_seed@[b], coeffs[b], shares@[s].guardian_index) by {
                assert(shares@[s].share_data@[b] == share_byte(master_seed@[b], random_coefficients@[b]@, (s + 1) as u8));
            }
            assert(sharing_with(shares@, master_seed@, coeffs));
        }
        let default_names: [&str; 5] = [
            "Emergency Master Safety Key",
            "Amy (Family Guardian)",
            "Bob (Trusted Friend)",
            "MacBook Pro (Hardware Device)",
            "Sovereign Decentralized Vault",
        ];
        let names = match guardian_labels { Some(l) => l, None => default_names };
        let factor_types: [GuardianFactorType; 5] = [
            GuardianFactorType::EmergencyPaperKey,
            GuardianFactorType::FamilyGuardian,
            GuardianFactorType::TrustedPeer,
            GuardianFactorType::SecondaryDevice,
            GuardianFactorType::EncryptedVault,
        ];
        let mut guardians: Vec<GuardianRecord> = Vec::new();
        let mut i: usize = 0;
        while i < 5
            invariant
                i <= 5,
                guardians@.len() == i,
                names == match guardian_labels { Some(l) => l, None => default_names },
                default_names@ == seq!["Emergency Master Safety Key", "Amy (Family Guardian)", "Bob (Trusted Friend)",
                    "MacBook Pro (Hardware Device)", "Sovereign Decentralized Vault"],
                factor_types@ == seq![GuardianFactorType::EmergencyPaperKey, GuardianFactorType::FamilyGuardian,
                    GuardianFactorType::TrustedPeer, GuardianFactorType::SecondaryDevice, GuardianFactorType::EncryptedVault],
                forall|k: int| 0 <= k < i ==> {
                    let g = #[trigger] guardians@[k];
                    &&& g.guardian_index == k + 1
                    &&& g.name@ == match guardian_labels { Some(l) => l[k]@, None => default_guardian_name(k) }
                    &&& g.factor_type == factor_for(k)
                    &&& g.assigned_actor_id is None
                    &&& g.status == GuardianStatus::Verified
                },
            decreases 5 - i,
        {
            guardians.push(GuardianRecord {
                guardian_index: (i + 1) as u8,
                name: names[i].to_owned(),
                factor_type: factor_types[i],
                assigned_actor_id: None,
                status: GuardianStatus::Verified,
            });
            i = i + 1;
        }
        let plan = RecoveryPlan {
            root_actor_id,
            threshold: 3,
            total_shares: 5,
            created_epoch: epoch,
            time_lock_epochs,
            guardians,
        };
        Ok((plan, shares))
    }

    /// Opens a 3-guardian recovery ceremony (with a fresh random id) for `target_root_actor`.
    pub fn start_ceremony(target_root_actor: ActorID, time_lock_until_epoch: u64) -> (r: SocialRecoveryCeremony)
        ensures
            r.target() == target_root_actor,
            r.quorum() == 3,
            r.time_lock() == time_lock_until_epoch,
            r.shares() == Seq::<GuardianShare>::empty(),
            !r.canceled(),
    {
        let ceremony_id = random_ceremony_id();
        SocialRecoveryCeremony::new(ceremony_id, target_root_actor, 3, time_lock_until_epoch)
    }

    /// Completes a recovery: reconstructs the seed from the ceremony, checks that it
    /// yields the same root actor, certifies the replacement device for 100,000 epochs
    /// and revokes the lost device.
    pub fn execute_device_recovery(
        ceremony: &SocialRecoveryCeremony,
        replacement_device_pubkey: &[u8; 32],
        lost_device_actor_id: Option<ActorID>,
        current_epoch: u64,
        crl: &mut KeyedMap<ActorID, ()>,
    ) -> (r: Result<DeviceRecoveryResult, String>)
        requires
            current_epoch <= u64::MAX - 100000,
            !(ceremony.shares().len() == 0 && current_epoch < ceremony.time_lock() && !ceremony.canceled() && ceremony.quorum() == 0),
        ensures
            match ceremony.finalize_outcome(current_epoch) {
                Err(m) => r matches Err(e) && e@ == m,
                Ok(seed) => if actor_id_spec(1, ed25519_public_key(seed)) == ceremony.target()@ {
                    r is Ok
                } else {
                    r matches Err(e) && e@ == "RecoveredActorIdMismatch"@
                },
            },
            r matches Ok(res) ==> {
                &&& res.root_actor_id == ceremony.target()
                &&& res.replacement_device_actor_id@ == actor_id_spec(1, replacement_device_pubkey@)
                &&& res.replacement_certificate.master_actor_id == ceremony.target()
                &&& res.replacement_certificate.device_actor_id == res.replacement_device_actor_id
                &&& res.replacement_certificate.not_before_epoch == current_epoch
                &&& res.replacement_certificate.expires_at_epoch == current_epoch + 100000
                &&& res.revoked_device_actor_id == lost_device_actor_id
                &&& res.recovery_epoch == current_epoch
                &&& final(crl)@.dom() == match lost_device_actor_id {
                    Some(a) => old(crl)@.dom().insert(a@),
                    None => old(crl)@.dom(),
                }
            },
            r is Err ==> final(crl)@ == old(crl)@,
    {
        let reconstructed_seed = ceremony.finalize_recovery(current_epoch)?;
        let master = NexMasterIdentity::from_seed(&reconstructed_seed);
        let recovered_root = master.root_actor();
        let target = ceremony.target_root();
        if !crate::bytes::id_eq(&recovered_root, &target) {
            return Err("RecoveredActorIdMismatch".to_owned());
        }
        let not_before = current_epoch;
        let expires_at = current_epoch + 100000;
        let replacement_cert = master.issue_device_certificate(replacement_device_pubkey, not_before, expires_at)?;
        let replacement_device_actor = derive_actor_id(KeyType::Ed25519, replacement_device_pubkey.as_slice());
        match lost_device_actor_id {
            Some(lost_actor) => {
                master.revoke_device(crl, lost_actor);
            }
            None => {}
        }
        Ok(DeviceRecoveryResult {
            root_actor_id: master.root_actor(),
            replacement_device_actor_id: replacement_device_actor,
            replacement_certificate: replacement_cert,
            revoked_device_actor_id: lost_device_actor_id,
            recovery_epoch: current_epoch,
        })
    }
}

} // verus!
