//! Attestation documents, their hash chain, signing and verification.
pub mod chain;
pub mod model;
pub mod signer;
pub mod tamper;
pub mod verify;
