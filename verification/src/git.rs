//! Plan validation for the plan-only commit command.
pub mod plan;
pub mod snapshot;
