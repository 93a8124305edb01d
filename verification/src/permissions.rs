//! Broker-owned action identity and host-owned in-memory policy contracts.
pub mod action;
pub mod policy;

pub use action::{Environment, Operation, PathIdentity, PreparedAction, ResolvedPath, Seen};
pub use policy::{ApprovedAction, Broker, Decision, Policy, RequestedCapabilities};
