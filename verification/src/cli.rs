//! The command line as values: the subcommands and their arguments.
use vstd::prelude::*;

verus! {

/// A parsed command line.
#[derive(Debug)]
pub struct Cli {
    pub command: Commands,
}

/// The subcommands.
#[derive(Debug)]
pub enum Commands {
    /// Generate an Ed25519 signing keypair
    Keygen(KeygenArgs),
    /// Wrap and attest a deployment command
    Run(RunArgs),
    /// Show recent deployment history
    History(HistoryArgs),
    /// Query deployments around a specific time
    Timeline(TimelineArgs),
    /// Verify chain integrity (exits 1 if anything is wrong)
    Verify(VerifyArgs),
    /// Export attestations as JSON
    Export(ExportArgs),
    /// Rebuild the SQLite index from JSON attestations
    Rebuild(RebuildArgs),
}

/// Arguments of `keygen`.
#[derive(Debug)]
pub struct KeygenArgs {
    /// Overwrite existing key (previous public key is archived)
    pub force: bool,
}

/// Arguments of `run`.
#[derive(Debug)]
pub struct RunArgs {
    /// Environment label (e.g. production, staging)
    pub env: Option<String>,
    /// Explicit compliance claims to record (never inferred).
    pub claim: Vec<String>,
    /// Exit 0 even if the wrapped command failed (still records the real exit code)
    pub ignore_fail: bool,
    /// The deployment command to run
    pub command: Vec<String>,
}

/// Arguments of `history`.
#[derive(Debug)]
pub struct HistoryArgs {
    /// Number of recent deployments to show
    pub limit: usize,
}

/// Arguments of `timeline`.
#[derive(Debug)]
pub struct TimelineArgs {
    /// Center timestamp (ISO8601, e.g. 2026-02-16T15:30:00)
    pub timestamp: String,
    /// Window in minutes (± around the timestamp)
    pub window: i64,
}

/// Arguments of `verify`.
#[derive(Debug)]
pub struct VerifyArgs {
    /// Path to a specific attestation JSON file
    pub file: Option<String>,
}

/// Arguments of `export`.
#[derive(Debug)]
pub struct ExportArgs {
    /// Export format (json only)
    pub format: String,
    /// Output file (stdout if omitted)
    pub output: Option<String>,
}

/// Arguments of `rebuild` (none).
#[derive(Debug)]
pub struct RebuildArgs {}

} // verus!
