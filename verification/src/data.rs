//! Unit and weapon profiles, and the collection they are loaded into.

pub mod loader;
pub mod models;
