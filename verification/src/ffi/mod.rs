//! What the foreign-function interface shares with the verified core: handle and
//! status codes, and the framing of content-addressed chunk streams.

pub mod handle;
pub mod stream;
pub mod c_abi;
