//! The filesystem core of a desktop editor backend: classifying directory
//! entries, listing a directory one level deep, projecting a subtree to a
//! bounded depth, and keeping the registry of watched paths together with the
//! normalization of their change events.
//!
//! The library does no I/O. Callers read the filesystem and hand over what
//! they read (`tree::Listing`, `tree::Snapshot`); native watch handles are
//! held by the registry as an opaque type parameter.
use vstd::prelude::*;

pub mod classify;
pub mod node;
pub mod order;
pub mod shape;
pub mod tree;
pub mod watcher;

verus! {

} // verus!
