//! Advertisements, routes and endpoint hints, with the digests that bind them.

use vstd::prelude::*;
use crate::bytes::{push_all, push_le, le_bytes, bytes_eq, id_eq};
use crate::crypto::{sha256, sha256_spec, tagged};
use crate::model::ActorID;

verus! {

pub const DOMAIN_DISCOVERY_ADV: &'static str = "NEX/DISCOVERY_ADV/v1";
pub const DOMAIN_BLIND_TOPIC: &'static str = "NEX/BLIND_TOPIC/v1";

pub const TRANSPORT_TAG_LOCAL_IPC: u16 = 0x00;
pub const TRANSPORT_TAG_RETICULUM: u16 = 0x01;
pub const TRANSPORT_TAG_QUIC: u16 = 0x02;
pub const TRANSPORT_TAG_WEBRTC: u16 = 0x03;
pub const TRANSPORT_TAG_TCP: u16 = 0x04;

#[derive(Debug, Clone, PartialEq, Eq)]
pub struct EndpointHint {
    pub transport_tag: u16,
    pub address_bytes: Vec<u8>,
    /// Higher is preferred.
    pub priority: u8,
}

#[derive(Debug, Clone, PartialEq, Eq)]
pub struct DiscoveryAdvertisement {
    pub actor_id: ActorID,
    pub namespace_or_topic: [u8; 32],
    pub sequence: u64,
    pub not_before_epoch: u64,
    pub expires_at_epoch: u64,
    pub endpoint_hints: Vec<EndpointHint>,
    pub offered_capabilities: u32,
    pub signature: Vec<u8>,
}

#[derive(Debug, Clone, PartialEq, Eq)]
pub struct RouteEntry {
    pub destination: ActorID,
    pub next_hop: ActorID,
    pub hop_count: u8,
    pub sequence: u64,
    pub expires_at_epoch: u64,
    pub endpoint_hints: Vec<EndpointHint>,
}

#[derive(Debug, Clone, PartialEq, Eq, Structural)]
pub enum DiscoveryError {
    SignatureInvalid,
    ExpiredAdvertisement { current_epoch: u64, expires_at: u64 },
    PrematureAdvertisement { current_epoch: u64, not_before: u64 },
    StaleSequence { current_sequence: u64, incoming_sequence: u64 },
    RoutingTableFull,
    InvalidEndpoint,
}

/// An endpoint hint as plain values: transport tag, address bytes, priority.
pub open spec fn hint_view(h: EndpointHint) -> (u16, Seq<u8>, u8) {
    (h.transport_tag, h.address_bytes@, h.priority)
}

pub open spec fn hints_view(hs: Seq<EndpointHint>) -> Seq<(u16, Seq<u8>, u8)> {
    hs.map_values(|h: EndpointHint| hint_view(h))
}

/// An advertisement as plain values.
pub struct AdvertisementView {
    pub actor_id: Seq<u8>,
    pub namespace_or_topic: Seq<u8>,
    pub sequence: u64,
    pub not_before_epoch: u64,
    pub expires_at_epoch: u64,
    pub endpoint_hints: Seq<(u16, Seq<u8>, u8)>,
    pub offered_capabilities: u32,
    pub signature: Seq<u8>,
}

pub open spec fn adv_view(a: DiscoveryAdvertisement) -> AdvertisementView {
    AdvertisementView {
        actor_id: a.actor_id@,
        namespace_or_topic: a.namespace_or_topic@,
        sequence: a.sequence,
        not_before_epoch: a.not_before_epoch,
        expires_at_epoch: a.expires_at_epoch,
        endpoint_hints: hints_view(a.endpoint_hints@),
        offered_capabilities: a.offered_capabilities,
        signature: a.signature@,
    }
}

/// A route as plain values.
pub struct RouteView {
    pub destination: Seq<u8>,
    pub next_hop: Seq<u8>,
    pub hop_count: u8,
    pub sequence: u64,
    pub expires_at_epoch: u64,
    pub endpoint_hints: Seq<(u16, Seq<u8>, u8)>,
}

pub open spec fn route_view(r: RouteEntry) -> RouteView {
    RouteView {
        destination: r.destination@,
        next_hop: r.next_hop@,
        hop_count: r.hop_count,
        sequence: r.sequence,
        expires_at_epoch: r.expires_at_epoch,
        endpoint_hints: hints_view(r.endpoint_hints@),
    }
}

/// A field-by-field copy of an endpoint hint.
pub fn copy_hint(h: &EndpointHint) -> (r: EndpointHint)
    ensures
        hint_view(r) == hint_view(*h),
{
    EndpointHint {
        transport_tag: h.transport_tag,
        address_bytes: crate::bytes::to_vec(h.address_bytes.as_slice()),
        priority: h.priority,
    }
}

/// A field-by-field copy of a list of endpoint hints.
pub fn copy_hints(hs: &Vec<EndpointHint>) -> (r: Vec<EndpointHint>)
    ensures
        hints_view(r@) == hints_view(hs@),
{
    let mut r: Vec<EndpointHint> = Vec::new();
    let mut i: usize = 0;
    while i < hs.len()
        invariant
            i <= hs@.len(),
            hints_view(r@) == hints_view(hs@.take(i as int)),
        decreases hs@.len() - i,
    {
        let ghost before = r@;
        let h = copy_hint(&hs[i]);
        r.push(h);
        assert(hints_view(r@) =~= hints_view(before).push(hint_view(h)));
        assert(hs@.take(i + 1) =~= hs@.take(i as int).push(hs@[i as int]));
        assert(hints_view(hs@.take(i + 1)) =~= hints_view(hs@.take(i as int)).push(hint_view(hs@[i as int])));
        i = i + 1;
    }
    assert(hs@.take(hs@.len() as int) =~= hs@);
    r
}

/// Whether two hint lists are equal field by field.
pub fn hints_eq(a: &Vec<EndpointHint>, b: &Vec<EndpointHint>) -> (r: bool)
    ensures
        r == (hints_view(a@) == hints_view(b@)),
{
    if a.len() != b.len() {
        proof {
            assert(hints_view(a@).len() != hints_view(b@).len());
        }
        return false;
    }
    let mut i: usize = 0;
    while i < a.len()
        invariant
            i <= a@.len(),
            a@.len() == b@.len(),
            forall|j: int| 0 <= j < i ==> hint_view(#[trigger] a@[j]) == hint_view(b@[j]),
        decreases a@.len() - i,
    {
        let same = a[i].transport_tag == b[i].transport_tag && a[i].priority == b[i].priority
            && bytes_eq(a[i].address_bytes.as_slice(), b[i].address_bytes.as_slice());
        if !same {
            proof {
                assert(hints_view(a@)[i as int] != hints_view(b@)[i as int]);
            }
            return false;
        }
        i = i + 1;
    }
    assert(hints_view(a@) =~= hints_view(b@));
    true
}

/// Whether two advertisements are equal field by field.
pub fn adv_eq(a: &DiscoveryAdvertisement, b: &DiscoveryAdvertisement) -> (r: bool)
    ensures
        r == (adv_view(*a) == adv_view(*b)),
{
    id_eq(&a.actor_id, &b.actor_id) && id_eq(&a.namespace_or_topic, &b.namespace_or_topic)
        && a.sequence == b.sequence && a.not_before_epoch == b.not_before_epoch
        && a.expires_at_epoch == b.expires_at_epoch && hints_eq(&a.endpoint_hints, &b.endpoint_hints)
        && a.offered_capabilities == b.offered_capabilities
        && bytes_eq(a.signature.as_slice(), b.signature.as_slice())
}

/// The bytes hashed for a topic blinded for one epoch.
pub open spec fn blinded_topic_preimage(secret: Seq<u8>, epoch: u64) -> Seq<u8> {
    tagged(DOMAIN_BLIND_TOPIC, secret + le_bytes(epoch as nat, 8))
}

/// SHA-256 of the blinding domain, the namespace secret and the epoch (little-endian).
pub fn derive_blinded_topic(namespace_secret: &[u8; 32], epoch: u64) -> (r: [u8; 32])
    ensures
        r@ == sha256_spec(blinded_topic_preimage(namespace_secret@, epoch)),
{
    let mut buf: Vec<u8> = Vec::new();
    push_all(&mut buf, DOMAIN_BLIND_TOPIC.as_bytes());
    push_all(&mut buf, namespace_secret.as_slice());
    push_le(&mut buf, epoch, 8);
    assert(buf@ =~= blinded_topic_preimage(namespace_secret@, epoch));
    sha256(buf.as_slice())
}

/// The bytes of the first `n` endpoint hints as they enter the advertisement digest.
pub open spec fn hints_preimage(hs: Seq<EndpointHint>, n: int) -> Seq<u8>
    decreases n,
{
    if n <= 0 {
        Seq::empty()
    } else {
        hints_preimage(hs, n - 1) + le_bytes(hs[n - 1].transport_tag as nat, 2) + seq![hs[n - 1].priority]
            + hs[n - 1].address_bytes@
    }
}

/// The bytes hashed for an advertisement body (every field but the signature).
pub open spec fn adv_body_preimage(adv: DiscoveryAdvertisement) -> Seq<u8> {
    tagged(DOMAIN_DISCOVERY_ADV, adv.actor_id@ + adv.namespace_or_topic@
        + le_bytes(adv.sequence as nat, 8) + le_bytes(adv.not_before_epoch as nat, 8)
        + le_bytes(adv.expires_at_epoch as nat, 8)
        + hints_preimage(adv.endpoint_hints@, adv.endpoint_hints@.len() as int)
        + le_bytes(adv.offered_capabilities as nat, 4))
}

/// SHA-256 over the advertisement body: domain, ids, sequence and validity window,
/// each endpoint hint (tag, priority, address), then the capability bits.
pub fn hash_discovery_advertisement_body(adv: &DiscoveryAdvertisement) -> (r: [u8; 32])
    ensures
        r@ == sha256_spec(adv_body_preimage(*adv)),
{
    let mut buf: Vec<u8> = Vec::new();
    push_all(&mut buf, DOMAIN_DISCOVERY_ADV.as_bytes());
    push_all(&mut buf, adv.actor_id.as_slice());
    push_all(&mut buf, adv.namespace_or_topic.as_slice());
    push_le(&mut buf, adv.sequence, 8);
    push_le(&mut buf, adv.not_before_epoch, 8);
    push_le(&mut buf, adv.expires_at_epoch, 8);
    let ghost head = buf@;
    let mut i: usize = 0;
    while i < adv.endpoint_hints.len()
        invariant
            i <= adv.endpoint_hints@.len(),
            buf@ == head + hints_preimage(adv.endpoint_hints@, i as int),
        decreases adv.endpoint_hints@.len() - i,
    {
        let h = &adv.endpoint_hints[i];
        push_le(&mut buf, h.transport_tag as u64, 2);
        buf.push(h.priority);
        push_all(&mut buf, h.address_bytes.as_slice());
        assert(buf@ =~= head + hints_preimage(adv.endpoint_hints@, i + 1));
        i = i + 1;
    }
    push_le(&mut buf, adv.offered_capabilities as u64, 4);
    assert(buf@ =~= adv_body_preimage(*adv));
    sha256(buf.as_slice())
}

} // verus!
