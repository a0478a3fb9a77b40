//! Reconciliation engine and filter query builder for an academic course
//! handbook store.
//!
//! The store keeps two relations: majors (identified by title) and units
//! (identified by the composite key of name, owning major and category).
//! A periodically scraped snapshot of the catalog is merged into the store
//! by the reconciliation engine; ad-hoc lookups are answered by the filter
//! query builder. Parameterized SQL text for a relational backend is
//! produced by the statement builders, so that a host program can replay
//! the same merge against a durable database.

pub mod json;
pub mod laws;
pub mod models;
pub mod parse;
pub mod queries;
pub mod reconcile;
pub mod sql;
pub mod store;
