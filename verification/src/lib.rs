//! Inventory, classification and selective removal of cached dependency
//! artifacts.

pub mod artifact;
pub mod command;
pub mod config_file;
pub mod crate_detail;
pub mod dir_path;
pub mod list_crate;
pub mod lock_file;
pub mod reference;
pub mod scan;
pub mod semver;
pub mod store;
pub mod text;
pub mod trim;
