//! Encounter persistence and search engine.
//!
//! The library owns the logic of a store of combat encounters: the versioned
//! schema migration planner, the codec for the denormalized roster text, the
//! trigram-style search index kept in step with the preview rows, the dynamic
//! query composer with its sort allow-list, and the record repository over an
//! in-memory relational model. A thin shell executes the planned statements
//! and composed queries against the actual database file.

pub mod codec;
pub mod json;
pub mod query;
pub mod schema;
pub mod search;
pub mod store;
