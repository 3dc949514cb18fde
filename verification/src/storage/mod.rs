//! Storage layout: the data directory, attestation file names and ordering,
//! and index rows.
pub mod filesystem;
pub mod paths;
pub mod sqlite;
