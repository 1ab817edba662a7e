//! Verified core of a minimal to-do list application.
//!
//! The crate models the persistent store of a single-table to-do database
//! (`todo(id INTEGER PRIMARY KEY, name TEXT NOT NULL)`), the in-memory view
//! model that the rendering layer reads, and the platform path policy that
//! decides where the database file lives.  All durable I/O (the file itself,
//! environment lookups, the host windowing layer) stays outside the crate;
//! callers hand the results of those lookups in as plain values.

pub mod entry;
pub mod errors;
pub mod platform;
pub mod store;
pub mod text;
pub mod view;
