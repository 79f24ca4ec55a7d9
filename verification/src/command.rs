//! What the subcommands decide and compute.

pub mod list;
pub mod registry;
