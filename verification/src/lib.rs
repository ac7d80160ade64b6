//! A recursive directory-tree cleaner, verified over a model of the file tree.
//!
//! Each directory may carry a configuration file whose non-empty, non-comment
//! lines are glob patterns. Cleaning a directory deletes the entries those
//! patterns match, then visits every remaining subdirectory; a subdirectory
//! with its own configuration file replaces the inherited pattern list for
//! its whole subtree. Faults (an unreadable directory, a write-protected
//! path) are isolated: they stop work in their own directory but never stop
//! the traversal of siblings.

pub mod cleaner;
pub mod config;
pub mod laws;
pub mod pattern;
pub mod probe;
pub mod tree;
