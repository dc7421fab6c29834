//! The person and device panels, the guided journey's summary, and file ingestion.

use vstd::prelude::*;
use crate::object::types::ObjectID;
use crate::model::ActorID;

verus! {

#[derive(Debug, Clone, PartialEq, Eq)]
pub enum TrustTier {
    VerifiedSovereignPeer,
    IntroducedByFriend,
    UnknownPeer,
}

#[derive(Debug)]
pub struct PersonContextualSurface {
    pub display_name: String,
    pub actor_id: ActorID,
    pub actor_id_hex: String,
    pub trust_tier: TrustTier,
    pub trust_badge: String,
    pub is_connected_mesh: bool,
    pub connection_type_label: String,
    pub shared_spaces: Vec<String>,
    pub shared_objects_count: usize,
    pub recent_shared_object_titles: Vec<String>,
    pub known_devices: Vec<String>,
    pub quick_actions: Vec<String>,
    pub technical_identity_info: Option<String>,
}

pub struct PersonPanelController;

#[derive(Debug)]
pub struct DeviceContextualSurface {
    pub device_name: String,
    pub device_actor_id_hex: String,
    pub is_local_device: bool,
    pub connection_badge: String,
    pub transport_type_label: String,
    pub latency_ms: u32,
    pub storage_quota_label: String,
    pub storage_used_bytes: usize,
    pub sync_health_label: String,
    pub hardware_keystore_backed: bool,
    pub key_protection_status: String,
    pub certificate_validity: String,
    pub technical_device_info: Option<String>,
}

pub struct DevicePanelController;

pub struct HumanJourneySummary {
    pub photo_object_id: ObjectID,
    pub mobile_home_title: String,
    pub desktop_home_title: String,
    pub inspector_title: String,
    pub inspector_replica_count: usize,
    pub person_panel_name: String,
    pub device_panel_name: String,
    pub recovered_synced_photos: usize,
}

pub struct SovereignJourneyOrchestrator;

/// The largest file ingested inline: 2 MiB.
pub const MAX_INLINE_PAYLOAD_SIZE: usize = 2097152;

pub struct LocalFileIngestor;

} // verus!
