//! The error taxonomy of the store.
//!
//! Every failure a store operation can report is one of these kinds; they are
//! typed, recoverable values, never panics.

use vstd::prelude::*;

verus! {

/// Why a store operation was refused.
#[derive(Clone, Copy, Debug, PartialEq, Eq, Structural)]
pub enum HierarchyError {
    /// An entity was given as its own parent, or a climb variation points at
    /// itself.
    SelfReference,
    /// The proposed parent edge would close a loop in the containment forest.
    CycleDetected,
    /// The id given as a parent does not reference an existing entity.
    ParentNotFound,
    /// A referenced id (other than a parent) does not exist.
    ForeignKeyViolation,
    /// Both or neither parent kind was supplied where exactly one is required.
    MutualExclusionViolation,
    /// The entity to delete is still referenced as a parent by a live row.
    RestrictedDelete,
    /// The row to insert would duplicate a key that must be unique.
    UniquenessViolation,
    /// The operation targets a row that does not exist.
    NotFound,
}

} // verus!
