//! Effects an approved action performs; the bounded capture of their output.
pub mod process;
