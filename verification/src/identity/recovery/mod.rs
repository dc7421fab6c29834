//! Social recovery of a master identity.

pub mod shamir;
pub mod field;
pub mod polynomial;
pub mod ceremony;
pub mod device_recovery;
