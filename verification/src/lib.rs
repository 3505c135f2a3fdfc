//! Persistence core of a small personal task tracker.
//!
//! Task records live in a single local database; a one-time migration
//! imports records from a superseded flat-file format.  The store, the
//! legacy decoder and the migration logic are verified; the database
//! engine, the clock and the random generator are reached through a
//! small set of trusted wrappers.

pub mod app_state;
pub mod legacy;
pub mod migrate;
pub mod store;
pub mod task;
pub mod text;
