//! Provider services: catalogs, their cache, and adapter identities.
pub mod cache;
pub mod catalog;
pub mod opencode;
