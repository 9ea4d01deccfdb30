//! A verified catalog of climbing areas, formations and climbs.
//!
//! The heart of the crate is [`Database`], an in-memory relational store for
//! a climbing-route catalog: entity tables (areas, formations, climbs,
//! climbers, ascents, grades, descriptions), the three parent-pointer
//! relations that nest them into a geographic containment forest, and the
//! many-to-many association tables that link them.  Every mutating operation
//! carries a contract describing exactly how it changes the abstract state,
//! and the store maintains the forest invariants — no self-parenting, no
//! cycles, exactly one parent kind per row, foreign-key integrity, cascade
//! and restrict rules on delete — as a verified invariant.

pub mod assoc;
pub(crate) mod cascade;
pub mod compose;
pub mod db;
pub mod deletes;
pub mod descriptions;
pub mod errors;
pub mod forest;
pub mod hierarchy;
pub mod laws;
pub mod models;
pub mod names;
pub mod queries;
pub mod state;
pub mod table;

pub use db::Database;
pub use errors::HierarchyError;
pub use models::{Coordinate, KVPair, Parent};
