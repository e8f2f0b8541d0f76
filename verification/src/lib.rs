//! Point-in-time process-tree introspection.
//!
//! Given a flat snapshot of the processes that were running at one moment
//! (each with its pid, parent pid, and whatever per-process data the
//! platform layer managed to read), this library builds the tree of one
//! root process and its descendants.  Every step of that construction is
//! verified: which entries become children of which node, how raw
//! command-line buffers are tokenized, how native tick counts become
//! Unix timestamps, and how missing data degrades to documented defaults.
//!
//! The platform layer that takes the snapshot and performs the raw
//! cross-process reads lives outside this library; it hands in plain
//! values and receives the finished tree.

pub mod cmdline;
pub mod node;
pub mod params;
pub mod timing;
pub mod tree;
pub mod wide;

pub use node::{LocalProcessInfo, LocalProcessStatus, RawProcess};
pub use params::RawParams;
pub use timing::{FileTicks, Timestamp};
pub use tree::build;
