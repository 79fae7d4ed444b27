//! The arguments of each subcommand, as plain values. Paths are held as
//! text; the command-line parser that fills them lives with the program.
use vstd::prelude::*;

use crate::config::{ClonePressure, PrimeMode};

verus! {

/// `cargo warm path`.
#[derive(Debug, Clone)]
pub struct PathArgs {
    /// `--workspace`, `.` by default.
    pub workspace: String,
    /// `--manifest-path`, repeatable; `Cargo.toml` by default.
    pub manifests: Vec<String>,
    pub json: bool,
}

/// `cargo warm seed`.
#[derive(Debug, Clone)]
pub struct SeedArgs {
    /// `--from`: the warm checkout; chosen automatically when absent.
    pub source: Option<String>,
    /// `--to`, `.` by default.
    pub destination: String,
    pub manifests: Vec<String>,
    /// Also seed Cargo's target directory when Cargo reports a separate build directory.
    pub include_target: bool,
    /// Allow a physical copy when copy-on-write cloning is unavailable.
    pub copy_fallback: bool,
    /// Additional workspace-relative paths to clone (repeatable).
    pub seed_paths: Vec<String>,
    pub no_freshness_rebase: bool,
    /// `--prime`: run one relocatable rustc session after seeding.
    pub prime: bool,
    /// Allow priming to use rustc's unstable relocation flag on stable/beta.
    pub unstable_bootstrap: bool,
    /// `--profile`.
    pub profile: Option<String>,
    /// `--config`: a configuration file other than the project's.
    pub config: Option<String>,
    /// `--prime-mode`.
    pub prime_mode: Option<PrimeMode>,
    /// `--clone-pressure`.
    pub clone_pressure: Option<ClonePressure>,
    /// `--clone-workers`.
    pub clone_workers: Option<usize>,
    /// `--timings`: report how long each phase took.
    pub timings: bool,
}

/// `cargo warm doctor`.
#[derive(Debug, Clone)]
pub struct DoctorArgs {
    /// Warm checkout to compare against; the nearest compatible worktree by default.
    pub source: Option<String>,
    /// Worktree to diagnose, `.` by default.
    pub destination: String,
    pub manifests: Vec<String>,
    /// Run `cargo check` with fingerprint logging and report the actual rebuild reasons.
    pub probe: bool,
    /// Emit a machine-readable report.
    pub json: bool,
    pub profile: Option<String>,
    pub config: Option<String>,
}

/// `cargo warm check`.
#[derive(Debug, Clone)]
pub struct CheckArgs {
    /// Allow the unstable relocation flag on a stable toolchain.
    pub unstable_bootstrap: bool,
    /// Arguments forwarded to `cargo check`.
    pub cargo_args: Vec<String>,
}

/// `cargo warm gc`.
#[derive(Debug, Clone, Copy)]
pub struct GcArgs {
    pub dry_run: bool,
}

} // verus!
