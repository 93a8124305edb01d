//! Shared, library-owned command execution state.
pub mod budget;

pub use budget::{ExecutionContext, Limits, Resources, RunState};
