//! What the object inspector shows, and how sure it is of each part.

use vstd::prelude::*;
use crate::object::types::{ObjectID, ObjectType, NamespaceID, NexObject};
use crate::model::ActorID;
use crate::keyed_map::KeyedMap;
use crate::encoding::{hex_encode, hex_lower};
use crate::text::{decimal, decimal_text, digit_char, push_char};
use crate::product::home::InterfaceComplexity;

verus! {

#[derive(Debug, Clone, Copy, PartialEq, Eq, Structural)]
pub enum EpistemicStatus {
    VerifiedFact,
    DerivedState,
    CurrentObservation,
    ExpectedHistorical,
    ObfuscatedBlurred,
    UnavailableEvidence,
    VerificationFailed,
}

pub open spec fn status_label(s: EpistemicStatus) -> Seq<char> {
    match s {
        EpistemicStatus::VerifiedFact => "Verified Fact"@,
        EpistemicStatus::DerivedState => "Derived State"@,
        EpistemicStatus::CurrentObservation => "Current Observation"@,
        EpistemicStatus::ExpectedHistorical => "Expected / Historical"@,
        EpistemicStatus::ObfuscatedBlurred => "Obfuscated / Blurred"@,
        EpistemicStatus::UnavailableEvidence => "Evidence Unavailable"@,
        EpistemicStatus::VerificationFailed => "Verification Failed"@,
    }
}

pub open spec fn status_symbol(s: EpistemicStatus) -> Seq<char> {
    match s {
        EpistemicStatus::VerifiedFact => "\u{2713}"@,
        EpistemicStatus::DerivedState => "\u{25D0}"@,
        EpistemicStatus::CurrentObservation => "\u{25CC}"@,
        EpistemicStatus::ExpectedHistorical => "\u{25CB}"@,
        EpistemicStatus::ObfuscatedBlurred => "\u{25CD}"@,
        EpistemicStatus::UnavailableEvidence => "\u{25CC}"@,
        EpistemicStatus::VerificationFailed => "\u{26A0}"@,
    }
}

impl EpistemicStatus {
    pub fn label(&self) -> (r: &'static str)
        ensures
            r@ == status_label(*self),
    {
        match self {
            EpistemicStatus::VerifiedFact => "Verified Fact",
            EpistemicStatus::DerivedState => "Derived State",
            EpistemicStatus::CurrentObservation => "Current Observation",
            EpistemicStatus::ExpectedHistorical => "Expected / Historical",
            EpistemicStatus::ObfuscatedBlurred => "Obfuscated / Blurred",
            EpistemicStatus::UnavailableEvidence => "Evidence Unavailable",
            EpistemicStatus::VerificationFailed => "Verification Failed",
        }
    }

    pub fn symbol(&self) -> (r: &'static str)
        ensures
            r@ == status_symbol(*self),
    {
        match self {
            EpistemicStatus::VerifiedFact => "\u{2713}",
            EpistemicStatus::DerivedState => "\u{25D0}",
            EpistemicStatus::CurrentObservation => "\u{25CC}",
            EpistemicStatus::ExpectedHistorical => "\u{25CB}",
            EpistemicStatus::ObfuscatedBlurred => "\u{25CD}",
            EpistemicStatus::UnavailableEvidence => "\u{25CC}",
            EpistemicStatus::VerificationFailed => "\u{26A0}",
        }
    }
}

#[derive(Debug, Clone)]
pub struct VerificationCheck {
    pub category: String,
    pub status: EpistemicStatus,
    pub summary: String,
    pub proof_detail: String,
}

#[derive(Debug, Clone)]
pub struct PhysicalResidencyRecord {
    pub device_name: String,
    pub device_glyph: &'static str,
    pub role: String,
    pub status: EpistemicStatus,
    pub status_label: String,
    pub byte_count: usize,
}

#[derive(Debug, Clone)]
pub struct CryptographicProofRecord {
    pub blake3_hash_hex: String,
    pub ed25519_author_hex: String,
    pub smt_root_hex: String,
    pub wal_lsn: u64,
    pub fastcdc_chunk_count: usize,
    pub schema_version: u16,
    pub created_epoch: u64,
    pub created_lamport: u64,
}

#[derive(Debug, Clone)]
pub struct DagTechnicalInfo {
    pub schema_version: u16,
    pub created_epoch: u64,
    pub created_lamport: u64,
    pub author_actor_id_hex: String,
    pub cas_chunk_count: usize,
    pub smt_key_hex: String,
}

#[derive(Debug)]
pub struct UniversalObjectInspector {
    pub object_id: ObjectID,
    pub object_id_hex: String,
    pub object_type: ObjectType,
    pub title: String,
    pub space_name: String,
    pub namespace_id: NamespaceID,
    pub owner_actor_id: ActorID,
    pub owner_name: String,
    pub byte_size: usize,
    pub byte_size_formatted: String,
    pub status_badge: String,
    pub access_summary: String,
    pub overall_truth_verdict: EpistemicStatus,
    pub human_truth_statement: String,
    pub verification_checks: Vec<VerificationCheck>,
    pub physical_residency: Vec<PhysicalResidencyRecord>,
    pub shared_with_peers: Vec<String>,
    pub stored_on_devices: Vec<String>,
    pub replica_count: usize,
    pub last_synced_epoch: u64,
    pub available_capabilities: Vec<String>,
    pub proofs: CryptographicProofRecord,
    pub advanced_dag_info: Option<DagTechnicalInfo>,
}


pub open spec fn key(s: Seq<char>) -> Seq<u8> {
    vstd::utf8::encode_utf8(s)
}

/// A metadata entry of an object, if it has one.
pub open spec fn meta(o: NexObject, k: Seq<char>) -> Option<Seq<char>> {
    if o.metadata@.contains_key(key(k)) { Some(o.metadata@[key(k)]@) } else { None }
}

/// The `title` entry, else the `filename` entry, else a default title.
pub open spec fn inspector_title(o: NexObject) -> Seq<char> {
    match meta(o, "title"@) {
        Some(t) => t,
        None => match meta(o, "filename"@) { Some(f) => f, None => "Untitled Sovereign Object"@ },
    }
}

/// The `space` entry, else `Personal`.
pub open spec fn inspector_space(o: NexObject) -> Seq<char> {
    match meta(o, "space"@) { Some(s) => s, None => "Personal"@ }
}

/// Who the owner is shown as.
pub open spec fn owner_name_of(o: NexObject, local: ActorID) -> Seq<char> {
    if o.owner_actor_id == local {
        "Chris (You)"@
    } else {
        match meta(o, "author_name"@) { Some(a) => a, None => "Amy"@ }
    }
}

/// Who may reach the object, by its space.
pub open spec fn access_summary_of(family: bool) -> Seq<char> {
    if family { "Family Circle (Chris, Amy \u{2022} View & Contribute)"@ } else { "Chris only (Sovereign Root Authority)"@ }
}

/// The status badge at each interface level.
pub open spec fn status_badge_of(o: NexObject, c: InterfaceComplexity) -> Seq<char> {
    match c {
        InterfaceComplexity::Simple => "Protected & Verified"@,
        InterfaceComplexity::Standard => "Synced (2 trusted devices \u{2022} Bit-for-bit intact)"@,
        InterfaceComplexity::Advanced => "CAS Inode Verified | Schema v"@ + decimal(o.schema_version as nat),
        InterfaceComplexity::Expert => "SMT Node Key: "@ + hex_lower(o.object_id@) + " | Author: "@ + hex_lower(o.owner_actor_id@),
    }
}

/// Tenths of a KiB in `n` bytes, rounded to nearest with ties to even (as `{:.1}`
/// prints `n as f64 / 1024.0`).
pub open spec fn kb_tenths(n: nat) -> nat {
    let t = n * 10;
    let q = t / 1024;
    let r = t % 1024;
    if r > 512 || (r == 512 && q % 2 == 1) { q + 1 } else { q }
}

/// `n` bytes in KiB with one decimal.
pub open spec fn kb_text(n: nat) -> Seq<char> {
    decimal(kb_tenths(n) / 10) + seq!['.', digit_char(kb_tenths(n) % 10)]
}

/// The chunk count the inspector reports: one per 4 KiB, at least one.
pub open spec fn shown_chunks(n: nat) -> nat {
    if n / 4096 > 0 { n / 4096 } else { 1 }
}

/// A verification check with these parts.
pub open spec fn check_is(c: VerificationCheck, category: Seq<char>, status: EpistemicStatus, summary: Seq<char>,
    detail: Seq<char>) -> bool {
    c.category@ == category && c.status == status && c.summary@ == summary && c.proof_detail@ == detail
}

/// A residency record with these parts.
pub open spec fn residency_is(d: PhysicalResidencyRecord, name: Seq<char>, glyph: Seq<char>, role: Seq<char>,
    status: EpistemicStatus, label: Seq<char>, bytes: nat) -> bool {
    d.device_name@ == name && d.device_glyph@ == glyph && d.role@ == role && d.status == status
        && d.status_label@ == label && d.byte_count == bytes
}

/// What the inspector shows of object `o`, looked up as `id`, to `local` at level `c`.
pub open spec fn inspected(v: UniversalObjectInspector, id: ObjectID, o: NexObject, local: ActorID, c: InterfaceComplexity) -> bool {
    let space = inspector_space(o);
    let family = space == "Family"@;
    let n = o.payload_bytes@.len();
    let owner = owner_name_of(o, local);
    let access = access_summary_of(family);
    let checks = v.verification_checks@;
    let res = v.physical_residency@;
    &&& v.object_id == id
    &&& v.object_id_hex@ == hex_lower(o.object_id@)
    &&& v.object_type == o.object_type
    &&& v.title@ == inspector_title(o)
    &&& v.space_name@ == space
    &&& v.namespace_id == o.namespace
    &&& v.owner_actor_id == o.owner_actor_id
    &&& v.owner_name@ == owner
    &&& v.byte_size == n
    &&& v.byte_size_formatted@ == kb_text(n) + " KB"@
    &&& v.status_badge@ == status_badge_of(o, c)
    &&& v.access_summary@ == access
    &&& v.overall_truth_verdict == EpistemicStatus::VerifiedFact
    &&& v.human_truth_statement@ == inspector_title(o) + " is authentic, intact, and safely stored in your physical custody."@
    &&& checks.len() == 6
    &&& check_is(checks[0], "Object Identity"@, EpistemicStatus::VerifiedFact,
        "BLAKE3-256 canonical hash matches object identifier exactly."@, "BLAKE3: "@ + hex_lower(o.object_id@))
    &&& check_is(checks[1], "Content Integrity"@,
        if n > 0 { EpistemicStatus::VerifiedFact } else { EpistemicStatus::VerificationFailed },
        "Exact bitstream preserved ("@ + kb_text(n) + " KB in FastCDC CAS)."@,
        "FastCDC chunks verified: "@ + decimal(shown_chunks(n)))
    &&& check_is(checks[2], "Ownership Signature"@, EpistemicStatus::VerifiedFact,
        "Master Ed25519 signature valid from "@ + owner + "."@, "Author ActorID: "@ + hex_lower(o.owner_actor_id@))
    &&& check_is(checks[3], "Storage Residency"@, EpistemicStatus::VerifiedFact,
        "Physical primary allocation verified on This PC (Local NVMe SSD)."@,
        "Local CAS store path: d:\\Nex\\vault \u{2022} LSN "@ + decimal(o.created_lamport as nat))
    &&& check_is(checks[4], "Capability Permissions"@,
        if family { EpistemicStatus::DerivedState } else { EpistemicStatus::VerifiedFact },
        "Authorized for "@ + space + ": "@ + access + "."@,
        "Namespace 0x"@ + hex_lower(o.namespace@.take(4)) + " \u{2022} Delegation depth: 0"@)
    &&& check_is(checks[5], "Replica Reconciliation"@,
        if family { EpistemicStatus::CurrentObservation } else { EpistemicStatus::ExpectedHistorical },
        "Reconciled with trusted peer mesh via SMT anti-entropy sync."@,
        "Epoch "@ + decimal(o.created_epoch as nat) + " \u{2022} Merkle Root verified"@)
    &&& res.len() == (if family { 3int } else { 1int })
    &&& residency_is(res[0], "This PC (Windows Host)"@, "\u{1F5A5}"@, "Primary Local Host"@, EpistemicStatus::VerifiedFact,
        "100% stored on local NVMe SSD (Verified)"@, n)
    &&& family ==> residency_is(res[1], "Amy's Pixel 9"@, "\u{1F4F1}"@, "Verified Mesh Peer"@,
        EpistemicStatus::CurrentObservation, "Direct Wi-Fi Mesh Replica (Synchronized)"@, n)
    &&& family ==> residency_is(res[2], "Amy's MacBook Pro"@, "\u{1F4BB}"@, "Trusted Peer (Away)"@,
        EpistemicStatus::ExpectedHistorical, "Replicated (Will reconcile anti-entropy when nearby)"@, n)
    &&& v.shared_with_peers@.len() == 1 && v.shared_with_peers@[0]@ == "Amy"@
    &&& v.stored_on_devices@.len() == 2 && v.stored_on_devices@[0]@ == "This PC"@
        && v.stored_on_devices@[1]@ == "Amy's Pixel 9"@
    &&& v.replica_count == (if family { 3int } else { 1int })
    &&& v.last_synced_epoch == o.created_epoch
    &&& v.available_capabilities@.len() == 3 && v.available_capabilities@[0]@ == "Read"@
        && v.available_capabilities@[1]@ == "Export"@ && v.available_capabilities@[2]@ == "Share"@
    &&& v.proofs.blake3_hash_hex@ == hex_lower(o.object_id@)
    &&& v.proofs.ed25519_author_hex@ == hex_lower(o.owner_actor_id@)
    &&& v.proofs.smt_root_hex@ == hex_lower(o.object_id@)
    &&& v.proofs.wal_lsn == o.created_lamport
    &&& v.proofs.fastcdc_chunk_count == shown_chunks(n)
    &&& v.proofs.schema_version == o.schema_version
    &&& v.proofs.created_epoch == o.created_epoch
    &&& v.proofs.created_lamport == o.created_lamport
    &&& (c.shows_internals() <==> v.advanced_dag_info is Some)
    &&& v.advanced_dag_info matches Some(d) ==> {
        &&& d.schema_version == o.schema_version
        &&& d.created_epoch == o.created_epoch
        &&& d.created_lamport == o.created_lamport
        &&& d.author_actor_id_hex@ == hex_lower(o.owner_actor_id@)
        &&& d.cas_chunk_count == shown_chunks(n)
        &&& d.smt_key_hex@ == hex_lower(o.object_id@)
    }
}

/// `a` followed by `b`.
fn cat(a: String, b: &str) -> (r: String)
    ensures
        r@ == a@ + b@,
{
    let mut r = a;
    vstd::string::StringExecFns::append(&mut r, b);
    r
}

/// A metadata entry, if present.
fn meta_of(o: &NexObject, k: &str) -> (r: Option<String>)
    ensures
        match r { Some(v) => meta(*o, k@) == Some(v@), None => meta(*o, k@) is None },
{
    match o.metadata.get(&k.to_string()) {
        Some(v) => Some(v.as_str().to_string()),
        None => None,
    }
}

/// `kb_text` of `n`.
fn kb_text_exec(n: usize) -> (r: String)
    ensures
        r@ == kb_text(n as nat),
{
    let t: u128 = (n as u128) * 10;
    let q0 = t / 1024;
    let rem = t % 1024;
    let q = if rem > 512 || (rem == 512 && q0 % 2 == 1) { q0 + 1 } else { q0 };
    assert(q == kb_tenths(n as nat));
    let whole = (q / 10) as u64;
    let frac = (q % 10) as u8;
    let mut r = decimal_text(whole);
    push_char(&mut r, '.');
    let d = (48u8 + frac) as char;
    push_char(&mut r, d);
    assert(r@ =~= kb_text(n as nat));
    r
}

fn shown_chunks_exec(n: usize) -> (r: usize)
    ensures
        r == shown_chunks(n as nat),
{
    if n / 4096 > 0 { n / 4096 } else { 1 }
}

fn check(category: &str, status: EpistemicStatus, summary: String, detail: String) -> (r: VerificationCheck)
    ensures
        check_is(r, category@, status, summary@, detail@),
{
    VerificationCheck { category: category.to_string(), status, summary, proof_detail: detail }
}

fn residency(name: &str, glyph: &'static str, role: &str, status: EpistemicStatus, label: &str, bytes: usize)
    -> (r: PhysicalResidencyRecord)
    ensures
        residency_is(r, name@, glyph@, role@, status, label@, bytes as nat),
{
    PhysicalResidencyRecord {
        device_name: name.to_string(),
        device_glyph: glyph,
        role: role.to_string(),
        status,
        status_label: label.to_string(),
        byte_count: bytes,
    }
}

impl UniversalObjectInspector {
    /// The inspector's view of object `object_id` in `objects`, for `local_actor`
    /// at level `complexity`; an error naming the id when there is no such object.
    pub fn inspect(objects: &KeyedMap<ObjectID, NexObject>, local_actor: &ActorID, object_id: &ObjectID,
        complexity: InterfaceComplexity) -> (r: Result<Self, String>)
        ensures
            !objects@.contains_key(object_id@) ==> (r matches Err(e)
                && e@ == "Object "@ + hex_lower(object_id@) + " not found in sovereign state"@),
            objects@.contains_key(object_id@) ==> (r matches Ok(v)
                && inspected(v, *object_id, objects@[object_id@], *local_actor, complexity)),
    {
        let obj = match objects.get(object_id) {
            Some(o) => o,
            None => {
                let e = cat(cat("Object ".to_string(), hex_encode(object_id.as_slice()).as_str()), " not found in sovereign state");
                return Err(e);
            }
        };
        let title = match meta_of(obj, "title") {
            Some(t) => t,
            None => match meta_of(obj, "filename") { Some(f) => f, None => "Untitled Sovereign Object".to_string() },
        };
        let space = match meta_of(obj, "space") { Some(s) => s, None => "Personal".to_string() };
        proof {
            reveal_strlit("Family");
        }
        let is_family = crate::bytes::bytes_eq(space.as_str().as_bytes(), "Family".as_bytes());
        proof {
            vstd::utf8::encode_utf8_decode_utf8(space@);
            vstd::utf8::encode_utf8_decode_utf8("Family"@);
        }
        let is_owner = crate::bytes::id_eq(&obj.owner_actor_id, local_actor);
        let owner_name = if is_owner {
            "Chris (You)".to_string()
        } else {
            match meta_of(obj, "author_name") { Some(a) => a, None => "Amy".to_string() }
        };
        let access_summary = if is_family {
            "Family Circle (Chris, Amy \u{2022} View & Contribute)".to_string()
        } else {
            "Chris only (Sovereign Root Authority)".to_string()
        };
        let id_hex = hex_encode(obj.object_id.as_slice());
        let owner_hex = hex_encode(obj.owner_actor_id.as_slice());
        let status = match complexity {
            InterfaceComplexity::Simple => "Protected & Verified".to_string(),
            InterfaceComplexity::Standard => "Synced (2 trusted devices \u{2022} Bit-for-bit intact)".to_string(),
            InterfaceComplexity::Advanced => cat("CAS Inode Verified | Schema v".to_string(),
                decimal_text(obj.schema_version as u64).as_str()),
            InterfaceComplexity::Expert => cat(cat(cat("SMT Node Key: ".to_string(), id_hex.as_str()), " | Author: "),
                owner_hex.as_str()),
        };
        let n = obj.payload_bytes.len();
        let kb = kb_text_exec(n);
        let chunks = shown_chunks_exec(n);
        let mut checks: Vec<VerificationCheck> = Vec::new();
        checks.push(check("Object Identity", EpistemicStatus::VerifiedFact,
            "BLAKE3-256 canonical hash matches object identifier exactly.".to_string(),
            cat("BLAKE3: ".to_string(), id_hex.as_str())));
        checks.push(check("Content Integrity",
            if n > 0 { EpistemicStatus::VerifiedFact } else { EpistemicStatus::VerificationFailed },
            cat(cat("Exact bitstream preserved (".to_string(), kb.as_str()), " KB in FastCDC CAS)."),
            cat("FastCDC chunks verified: ".to_string(), decimal_text(chunks as u64).as_str())));
        checks.push(check("Ownership Signature", EpistemicStatus::VerifiedFact,
            cat(cat("Master Ed25519 signature valid from ".to_string(), owner_name.as_str()), "."),
            cat("Author ActorID: ".to_string(), owner_hex.as_str())));
        checks.push(check("Storage Residency", EpistemicStatus::VerifiedFact,
            "Physical primary allocation verified on This PC (Local NVMe SSD).".to_string(),
            cat("Local CAS store path: d:\\Nex\\vault \u{2022} LSN ".to_string(), decimal_text(obj.created_lamport).as_str())));
        let ns4 = vstd::slice::slice_subrange(obj.namespace.as_slice(), 0, 4);
        proof {
            assert(ns4@ =~= obj.namespace@.take(4));
        }
        checks.push(check("Capability Permissions",
            if is_family { EpistemicStatus::DerivedState } else { EpistemicStatus::VerifiedFact },
            cat(cat(cat(cat("Authorized for ".to_string(), space.as_str()), ": "), access_summary.as_str()), "."),
            cat(cat("Namespace 0x".to_string(), hex_encode(ns4).as_str()), " \u{2022} Delegation depth: 0")));
        checks.push(check("Replica Reconciliation",
            if is_family { EpistemicStatus::CurrentObservation } else { EpistemicStatus::ExpectedHistorical },
            "Reconciled with trusted peer mesh via SMT anti-entropy sync.".to_string(),
            cat(cat("Epoch ".to_string(), decimal_text(obj.created_epoch).as_str()), " \u{2022} Merkle Root verified")));
        let mut residencies: Vec<PhysicalResidencyRecord> = Vec::new();
        residencies.push(residency("This PC (Windows Host)", "\u{1F5A5}", "Primary Local Host", EpistemicStatus::VerifiedFact,
            "100% stored on local NVMe SSD (Verified)", n));
        if is_family {
            residencies.push(residency("Amy's Pixel 9", "\u{1F4F1}", "Verified Mesh Peer", EpistemicStatus::CurrentObservation,
                "Direct Wi-Fi Mesh Replica (Synchronized)", n));
            residencies.push(residency("Amy's MacBook Pro", "\u{1F4BB}", "Trusted Peer (Away)",
                EpistemicStatus::ExpectedHistorical, "Replicated (Will reconcile anti-entropy when nearby)", n));
        }
        let proofs = CryptographicProofRecord {
            blake3_hash_hex: hex_encode(obj.object_id.as_slice()),
            ed25519_author_hex: hex_encode(obj.owner_actor_id.as_slice()),
            smt_root_hex: hex_encode(obj.object_id.as_slice()),
            wal_lsn: obj.created_lamport,
            fastcdc_chunk_count: chunks,
            schema_version: obj.schema_version,
            created_epoch: obj.created_epoch,
            created_lamport: obj.created_lamport,
        };
        let shows = match complexity {
            InterfaceComplexity::Advanced | InterfaceComplexity::Expert => true,
            _ => false,
        };
        let dag_info = if shows {
            Some(DagTechnicalInfo {
                schema_version: obj.schema_version,
                created_epoch: obj.created_epoch,
                created_lamport: obj.created_lamport,
                author_actor_id_hex: hex_encode(obj.owner_actor_id.as_slice()),
                cas_chunk_count: chunks,
                smt_key_hex: hex_encode(obj.object_id.as_slice()),
            })
        } else {
            None
        };
        let statement = cat(title.as_str().to_string(), " is authentic, intact, and safely stored in your physical custody.");
        let byte_size_formatted = cat(kb, " KB");
        Ok(UniversalObjectInspector {
            object_id: *object_id,
            object_id_hex: id_hex,
            object_type: obj.object_type,
            title,
            space_name: space,
            namespace_id: obj.namespace,
            owner_actor_id: obj.owner_actor_id,
            owner_name,
            byte_size: n,
            byte_size_formatted,
            status_badge: status,
            access_summary,
            overall_truth_verdict: EpistemicStatus::VerifiedFact,
            human_truth_statement: statement,
            verification_checks: checks,
            physical_residency: residencies,
            shared_with_peers: vec!["Amy".to_string()],
            stored_on_devices: vec!["This PC".to_string(), "Amy's Pixel 9".to_string()],
            replica_count: if is_family { 3 } else { 1 },
            last_synced_epoch: obj.created_epoch,
            available_capabilities: vec!["Read".to_string(), "Export".to_string(), "Share".to_string()],
            proofs,
            advanced_dag_info: dag_info,
        })
    }
}

} // verus!
