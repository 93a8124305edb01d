//! Bounded, immutable command source capture without Lua evaluation.
pub mod bundle;
pub mod names;
pub mod reader;
