//! Local defences against misbehaving peers: token-bucket rate limits, escalating
//! jail terms, a bounded orphan buffer, and cheap proof pre-checks.

pub mod rate_limiter;
pub mod peer_jail;
pub mod bounded_buffer;
pub mod preflight_shield;
