//! Identity: actors, capability tokens, device certificates, blocklists and recovery.

pub mod types;
pub mod authority;
pub mod blocklist;
pub mod master;
pub mod recovery;
pub mod pairing;
