//! A key-value store that keeps every entry as a pair of files below a root
//! directory, sharded by a prefix of the SHA-256 digest of the serialized key.
//!
//! This crate holds the storage engine as pure, verified decisions: where an
//! entry lives, what a directory listing says about it, and which file-system
//! actions an operation calls for. Touching the disk is left to the caller.

pub mod digest;
pub mod layout;
pub mod listing;
pub mod plan;
pub mod effect;
pub mod lemmas;
pub mod store;
pub mod laws;

pub use layout::{combine_string, create_file_path};
pub use listing::Node;
pub use plan::{Action, InsertPlan, RemovePlan, StoreError};
pub use store::KVStore;
