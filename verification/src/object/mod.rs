//! Typed objects and the store that indexes them by namespace and owner.

pub mod types;
pub mod store;
