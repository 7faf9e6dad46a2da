//! The configuration as the requests see it: immutable snapshots that are
//! replaced as a whole.

pub mod snapshot;

pub use snapshot::{SnapshotHandle, SnapshotStore};
