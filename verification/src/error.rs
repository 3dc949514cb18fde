//! Error values of the library.
use vstd::prelude::*;

verus! {

/// A payload could not be put in canonical form.
///
/// The canonical encoder of this library is total, so no function here
/// produces this value; the functions that return it keep a `Result` so that
/// callers handle the case.
#[derive(Debug, Clone, Copy, PartialEq, Eq, Structural)]
pub enum CanonicalError {
    Canonicalization,
}


/// Why a signature did not verify.
#[derive(Debug, Clone, Copy, PartialEq, Eq, Structural)]
pub enum SignatureError {
    /// The signature text is not hex.
    InvalidHex,
    /// The signature does not have 64 bytes; it has this many.
    SignatureLength(usize),
    /// The public key does not have 32 bytes; it has this many.
    KeyLength(usize),
    /// The public key bytes are not a valid Ed25519 point.
    KeyRejected,
    /// The signature does not verify under the key.
    Mismatch,
}


/// Why key file bytes could not be read as a key.
#[derive(Debug, Clone, Copy, PartialEq, Eq, Structural)]
pub enum KeyError {
    /// A PEM document with no base64 body.
    EmptyPem,
    /// The PEM body is not valid base64.
    InvalidBase64,
    /// The hex text did not decode.
    InvalidHex,
    /// Neither PEM, nor hex of the expected length, nor raw bytes of the
    /// expected length; the file has this many bytes.
    UnrecognizedEncoding(usize),
    /// The decoded key does not have 32 bytes; it has this many.
    WrongLength(usize),
}


/// Why an attestation did not verify.
#[derive(Debug)]
pub enum VerifyError {
    /// The recomputed hash differs from the recorded one (the document was
    /// tampered with).
    HashMismatch { expected: String, found: String },
    /// The signature does not verify under the given key.
    Signature(SignatureError),
    /// The signature does not verify under the loaded key with the signer's key id.
    SignatureForKey { key_id: String, error: SignatureError },
    /// No public key was given.
    NoKeys,
    /// No loaded key has the signer's key id, and none verifies the signature.
    NoMatchingKey { key_id: String, keys_loaded: usize },
}


/// A `--claim` value that names no known claim (given lower-cased).
#[derive(Debug)]
pub enum ClaimError {
    Unknown(String),
}

/// Why a timeline centre could not be read.
#[derive(Debug, Clone, Copy, PartialEq, Eq, Structural)]
pub enum TimelineError {
    /// The text looks like RFC 3339 (it has `+` or ends with `Z`) but does not parse as it.
    InvalidRfc3339,
    /// The text parses neither as `YYYY-MM-DDTHH:MM:SS` nor as `YYYY-MM-DD HH:MM:SS`.
    InvalidTimestamp,
}

} // verus!
