//! One-way directory synchronization core.
//!
//! The library models a filesystem snapshot as a tree of plain values and
//! verifies the reconciliation logic of a mirror tool: copying files that are
//! missing or stale in a destination, creating missing directories, and
//! pruning destination entries that have no counterpart in the source.
//! All actual filesystem work is driven from outside the library by applying
//! the action lists these functions return.

pub mod copy;
pub mod laws;
pub mod prune;
pub mod tree;
pub mod utils;

pub use tree::Node;
