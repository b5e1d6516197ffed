//! The decisions behind the `snapshot` and `replay` commands.

pub mod snapshot;
pub mod replay;
