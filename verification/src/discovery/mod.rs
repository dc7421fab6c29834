//! Peer discovery: signed advertisements, blinded topics, and the routing table
//! built from them.

pub mod types;
pub mod routing_table;
pub mod beacon;
