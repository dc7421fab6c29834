//! Applications built on the verified core.

pub mod erasure;
pub mod gf28;
pub mod resources;
pub mod compute;
pub mod discovery;
pub mod drive;
pub mod community;
pub mod chat;
pub mod platform;
pub mod web;
pub mod groups;
pub mod maps;
pub mod vault;
pub mod backup;
pub mod extensions;
pub mod photos;
