//! An in-memory string key-value store with git-like versioning: the current
//! mapping can be recorded as a checkpoint, restored from an earlier
//! checkpoint, and the checkpoint history can be pruned to its newest entry.

mod element;
pub mod laws;
mod table;

pub use element::{lookup, pruned, rolled_back, value_of, Element};
pub use table::Table;
