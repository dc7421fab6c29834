//! LAN discovery beacons.

use vstd::prelude::*;
use crate::model::ActorID;

verus! {

pub const DEFAULT_BEACON_PORT: u16 = 42424;

/// The beacon magic, `NXBC`.
pub open spec fn beacon_magic() -> Seq<u8> {
    seq![0x4eu8, 0x58u8, 0x42u8, 0x43u8]
}

#[derive(Debug, Clone, PartialEq, Eq)]
pub struct DiscoveryBeacon {
    pub magic: [u8; 4],
    pub actor_id: ActorID,
    pub tcp_port: u16,
    pub blinded_topic: [u8; 32],
    pub timestamp_epoch: u64,
    pub node_name: String,
}

impl DiscoveryBeacon {
    /// A beacon stamped with `timestamp_epoch`, the current Unix time in seconds
    /// (zero if the clock reads before the epoch).
    pub fn new(actor_id: ActorID, tcp_port: u16, blinded_topic: [u8; 32], node_name: &str, timestamp_epoch: u64) -> (r: Self)
        ensures
            r.magic@ == beacon_magic(),
            r.actor_id == actor_id,
            r.tcp_port == tcp_port,
            r.blinded_topic == blinded_topic,
            r.timestamp_epoch == timestamp_epoch,
            r.node_name@ == node_name@,
    {
        let magic: [u8; 4] = [0x4e, 0x58, 0x42, 0x43];
        assert(magic@ =~= beacon_magic());
        DiscoveryBeacon {
            magic,
            actor_id,
            tcp_port,
            blinded_topic,
            timestamp_epoch,
            node_name: node_name.to_string(),
        }
    }

    /// Whether decoded beacon bytes carry the right magic.
    pub fn has_valid_magic(&self) -> (r: bool)
        ensures
            r == (self.magic@ == beacon_magic()),
    {
        let r = self.magic[0] == 0x4e && self.magic[1] == 0x58 && self.magic[2] == 0x42 && self.magic[3] == 0x43;
        proof {
            if r {
                assert(self.magic@ =~= beacon_magic());
            } else {
                assert(self.magic@ != beacon_magic());
            }
        }
        r
    }
}

} // verus!
