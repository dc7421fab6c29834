//! The desktop product surface: spaces, interface levels, navigation and the
//! records the object inspector and panels present.

pub mod inspector;
pub mod settings;
pub mod home;
pub mod desktop_app;
pub mod panels;
pub mod ingest;
pub mod view;
