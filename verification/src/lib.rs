//! Verified core of a cryptographically chained deployment timeline.
pub mod attestation;
pub mod canonical;
pub mod cli;
pub mod commands;
pub mod digest;
pub mod error;
pub mod storage;
pub mod text;
pub mod timestamp;
pub mod util;
