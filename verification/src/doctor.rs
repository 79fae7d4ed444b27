//! The doctor's judgement: which profile to start from, what to benchmark,
//! what to watch out for, and the starter configuration it prints.
use vstd::prelude::*;

use crate::compiler::RustcChannel;
use crate::config::EffectiveSeedConfig;
use crate::freshness::{count_outputs, FreshnessReport};
use crate::numbers::{decimal, push_decimal};
use crate::order::views;
use crate::project::ProjectShape;
use crate::text::{chars_of, extend, join, join_texts, str_eq, string_of};
use crate::json::{array_at, str_at, target_has_kind, target_has_kind_spec, Json};
use crate::paths::{paths_equal, same_path};

verus! {

/// Entry counts of a Cargo build directory.
#[derive(Debug, Clone)]
pub struct CacheHealth {
    pub deps_entries: usize,
    pub incremental_entries: usize,
}

/// A workspace package's build script.
#[derive(Debug, Clone)]
pub struct BuildScriptReport {
    pub package: String,
    pub path: String,
}

/// What the doctor found about one manifest's caches.
#[derive(Debug, Clone)]
pub struct ManifestReport {
    pub manifest: String,
    pub source_build_directory: Option<String>,
    pub destination_build_directory: Option<String>,
    pub destination_target_directory: String,
    pub separate_build_directory: bool,
    pub source_cache_exists: bool,
    pub destination_cache_exists: bool,
    pub source_cache_health: Option<CacheHealth>,
    pub destination_cache_health: Option<CacheHealth>,
    pub build_scripts: Vec<BuildScriptReport>,
}

/// The profile the doctor recommends, why, and what to compare it with.
#[derive(Debug, Clone)]
pub struct ProfileRecommendation {
    pub profile: String,
    pub reasons: Vec<String>,
    pub cautions: Vec<String>,
    pub benchmark_profiles: Vec<String>,
    pub config_example: String,
}

/// One `cargo check` run with fingerprint logging, and what it reported.
#[derive(Debug)]
pub struct ProbeReport {
    pub manifest: String,
    pub elapsed_ms: u128,
    pub cargo_success: bool,
    pub reasons: Vec<crate::fingerprint::FingerprintReason>,
}

/// Everything `cargo warm doctor` found.
#[derive(Debug)]
pub struct DoctorReport {
    pub config_path: Option<String>,
    pub active_profile: crate::config::SeedProfile,
    pub available_profiles: Vec<String>,
    pub recommendation: ProfileRecommendation,
    pub project: ProjectShape,
    /// A warm peer was found to compare with.
    pub comparison_available: bool,
    pub source: String,
    pub destination: String,
    pub source_reason: String,
    pub source_head: Option<String>,
    pub destination_head: Option<String>,
    pub same_revision: bool,
    pub source_clean: bool,
    pub destination_clean: bool,
    pub tracked_mtimes: Option<TrackedMtimeSummary>,
    pub manifests: Vec<ManifestReport>,
    pub freshness: FreshnessReport,
    pub auto_materializable_paths: Vec<String>,
    pub probes: Vec<ProbeReport>,
}

/// How tracked files' mtimes compare between two clean worktrees.
#[derive(Debug, Clone)]
pub struct TrackedMtimeSummary {
    pub tracked_files: usize,
    pub destination_newer: usize,
    pub same_mtime: usize,
    pub source_newer: usize,
    pub missing: usize,
}

/// How one tracked file's mtimes compare.
#[derive(Debug, Clone, Copy, PartialEq, Eq, Structural)]
pub enum MtimeComparison {
    /// One of the two files could not be inspected.
    Missing,
    DestinationNewer,
    SourceNewer,
    Same,
}

impl TrackedMtimeSummary {
    pub fn new() -> (summary: Self)
        ensures
            summary.tracked_files == 0,
            summary.destination_newer == 0,
            summary.same_mtime == 0,
            summary.source_newer == 0,
            summary.missing == 0,
    {
        TrackedMtimeSummary {
            tracked_files: 0,
            destination_newer: 0,
            same_mtime: 0,
            source_newer: 0,
            missing: 0,
        }
    }

    /// Counts one more tracked file and how its mtimes compare.
    pub fn record(&mut self, comparison: MtimeComparison)
        requires
            old(self).tracked_files < usize::MAX,
            old(self).destination_newer + old(self).same_mtime + old(self).source_newer + old(
                self,
            ).missing <= old(self).tracked_files,
        ensures
            final(self).tracked_files == old(self).tracked_files + 1,
            final(self).missing == old(self).missing + if comparison == MtimeComparison::Missing {
                1int
            } else {
                0
            },
            final(self).destination_newer == old(self).destination_newer + if comparison
                == MtimeComparison::DestinationNewer {
                1int
            } else {
                0
            },
            final(self).source_newer == old(self).source_newer + if comparison
                == MtimeComparison::SourceNewer {
                1int
            } else {
                0
            },
            final(self).same_mtime == old(self).same_mtime + if comparison == MtimeComparison::Same {
                1int
            } else {
                0
            },
            final(self).destination_newer + final(self).same_mtime + final(self).source_newer
                + final(self).missing <= final(self).tracked_files,
    {
        self.tracked_files = self.tracked_files + 1;
        match comparison {
            MtimeComparison::Missing => self.missing = self.missing + 1,
            MtimeComparison::DestinationNewer => self.destination_newer = self.destination_newer + 1,
            MtimeComparison::SourceNewer => self.source_newer = self.source_newer + 1,
            MtimeComparison::Same => self.same_mtime = self.same_mtime + 1,
        }
    }
}

/// How a worktree's cleanliness is shown.
pub fn clean_label(clean: bool) -> (label: &'static str)
    ensures
        label@ == if clean {
            "clean"@
        } else {
            "dirty"@
        },
{
    if clean {
        "clean"
    } else {
        "dirty"
    }
}

// ---------------------------------------------------------------------------
// Messages
// ---------------------------------------------------------------------------

pub open spec fn msg_unsupported(release: Seq<char>) -> Seq<char> {
    "rustc "@ + release
        + " predates relocatable incremental support, so compiler priming is unavailable"@
}

pub open spec fn msg_small(lines: nat, files: nat) -> Seq<char> {
    "the selected local package set is relatively small ("@ + decimal(lines)
        + " Rust lines across "@ + decimal(files)
        + " files), so provisioning latency is likely more valuable than an eager prime"@
}

pub open spec fn msg_large(lines: nat, files: nat, direct: nat) -> Seq<char> {
    "the selected package set is large ("@ + decimal(lines) + " Rust lines across "@ + decimal(
        files,
    ) + " files) and has "@ + decimal(direct)
        + " direct build script(s); large crates can retain a first-edit tax until the package build boundary is re-established"@
}

pub open spec fn msg_medium(lines: nat, files: nat) -> Seq<char> {
    "the selected package set is large enough to benefit from a relocatable rustc prime ("@
        + decimal(lines) + " Rust lines across "@ + decimal(files) + " files)"@
}

pub open spec fn msg_deep_caution() -> Seq<char> {
    "`deep` intentionally makes the selected package's own build script stale during provisioning; benchmark it before making it the default if that build script is expensive"@
}

pub open spec fn msg_materializable(n: nat) -> Seq<char> {
    decimal(n)
        + " ignored native link artifact/path(s) can be cloned automatically instead of rebuilding their whole native toolchain"@
}

pub open spec fn msg_blocked(b: nat) -> Seq<char> {
    decimal(b)
        + " cached build-script path directive(s) cannot currently be relocated safely; provide equivalent destination state or an explicit seed path before expecting full freshness"@
}

pub open spec fn msg_blocked_materializable(b: nat, n: nat) -> Seq<char> {
    decimal(b)
        + " cached build-script path directive(s) currently reference missing destination state; seed can auto-materialize "@
        + decimal(n) + " final native artifact/path(s) before freshness is re-evaluated"@
}

pub open spec fn msg_other_scripts(n: nat) -> Seq<char> {
    decimal(n)
        + " other local/path-dependency build script(s) were detected; package priming deliberately leaves them untouched"@
}

pub open spec fn msg_shared_dirs(n: nat) -> Seq<char> {
    decimal(n)
        + " manifest(s) still use the same directory for intermediate build state and final target artifacts; Cargo 1.91+ can separate them with `build.build-dir`, which gives cargo-warm a smaller per-worktree cache boundary"@
}

pub open spec fn msg_large_deps(n: nat) -> Seq<char> {
    "the warm source cache contains "@ + decimal(n)
        + " entries across deps directories; very large stale deps sets can slow Cargo itself, so benchmark after pruning obsolete build families as well as after changing profiles"@
}

pub open spec fn msg_bootstrap() -> Seq<char> {
    "stable/beta Rust still requires explicit `--unstable-bootstrap` (or `unstable-bootstrap = true` in project config) for relocatable priming"@
}

// ---------------------------------------------------------------------------
// The recommendation
// ---------------------------------------------------------------------------

/// The facts a recommendation depends on.
pub struct Signals {
    pub supported: bool,
    pub release: Seq<char>,
    pub stable_or_beta: bool,
    pub lines: nat,
    pub files: nat,
    pub direct: nat,
    pub other: nat,
    pub materializable: nat,
    pub blocking: nat,
    pub shared: nat,
    pub deps: nat,
    pub unstable_bootstrap: bool,
}

/// A recommendation as plain values.
pub struct Advice {
    pub profile: Seq<char>,
    pub reasons: Seq<Seq<char>>,
    pub cautions: Seq<Seq<char>>,
    pub benchmark_profiles: Seq<Seq<char>>,
}

/// Small projects start `quick`, large ones with their own build script go
/// `deep`, the rest `balanced`; a compiler without relocation support is
/// always `quick`.
pub open spec fn advice(s: Signals) -> Advice {
    let small = s.lines < 20000 && s.files < 80;
    let large = (s.lines >= 100000 || s.files >= 300) && s.direct > 0;
    let quick = !s.supported || small;
    let profile = if quick {
        "quick"@
    } else if large {
        "deep"@
    } else {
        "balanced"@
    };
    let reasons0 = if !s.supported {
        seq![msg_unsupported(s.release)]
    } else if small {
        seq![msg_small(s.lines, s.files)]
    } else if large {
        seq![msg_large(s.lines, s.files, s.direct)]
    } else {
        seq![msg_medium(s.lines, s.files)]
    };
    let bench = if !s.supported {
        seq![]
    } else if small || large {
        seq!["balanced"@]
    } else if s.direct > 0 {
        seq!["quick"@, "deep"@]
    } else {
        seq!["quick"@]
    };
    let cautions0 = if s.supported && !small && !large && s.direct > 0 {
        seq![msg_deep_caution()]
    } else {
        seq![]
    };
    let reasons = if s.materializable > 0 {
        reasons0.push(msg_materializable(s.materializable))
    } else {
        reasons0
    };
    let c1 = if s.blocking > 0 {
        cautions0.push(
            if s.materializable == 0 {
                msg_blocked(s.blocking)
            } else {
                msg_blocked_materializable(s.blocking, s.materializable)
            },
        )
    } else {
        cautions0
    };
    let c2 = if s.other > 0 {
        c1.push(msg_other_scripts(s.other))
    } else {
        c1
    };
    let c3 = if s.shared > 0 {
        c2.push(msg_shared_dirs(s.shared))
    } else {
        c2
    };
    let c4 = if s.deps >= 20000 {
        c3.push(msg_large_deps(s.deps))
    } else {
        c3
    };
    let cautions = if s.stable_or_beta && !quick && !s.unstable_bootstrap {
        c4.push(msg_bootstrap())
    } else {
        c4
    };
    Advice { profile, reasons, cautions, benchmark_profiles: bench }
}

/// Manifests whose build directory is also their target directory.
pub open spec fn shared_dirs(m: Seq<ManifestReport>) -> nat
    decreases m.len(),
{
    if m.len() == 0 {
        0
    } else {
        shared_dirs(m.drop_last()) + if m.last().separate_build_directory {
            0nat
        } else {
            1nat
        }
    }
}

/// All `deps` entries of the warm source caches.
pub open spec fn source_deps(m: Seq<ManifestReport>) -> nat
    decreases m.len(),
{
    if m.len() == 0 {
        0
    } else {
        source_deps(m.drop_last()) + match m.last().source_cache_health {
            Some(h) => h.deps_entries as nat,
            None => 0nat,
        }
    }
}

pub open spec fn is_stable_or_beta(c: RustcChannel) -> bool {
    c == RustcChannel::Stable || c == RustcChannel::Beta
}

/// The signals read off the doctor's findings.
pub open spec fn signals_of(
    project: ProjectShape,
    freshness: FreshnessReport,
    materializable: nat,
    manifests: Seq<ManifestReport>,
    unstable_bootstrap: bool,
) -> Signals {
    Signals {
        supported: project.rustc.relocatable_incremental_supported,
        release: project.rustc.release@,
        stable_or_beta: is_stable_or_beta(project.rustc.channel),
        lines: project.rust_lines as nat,
        files: project.rust_source_files as nat,
        direct: project.direct_build_scripts as nat,
        other: project.other_local_build_scripts as nat,
        materializable,
        blocking: count_outputs(freshness.path_sensitive_outputs@, false),
        shared: shared_dirs(manifests),
        deps: source_deps(manifests),
        unstable_bootstrap,
    }
}

/// The starter `.agents/.cargo-warm.toml` for a profile and manifests.
pub open spec fn config_example(profile: Seq<char>, stable_or_beta: bool, manifests: Seq<Seq<char>>) -> Seq<char> {
    "version = 1\ndefault-profile = \""@ + profile + "\"\nmanifests = ["@ + join(
        manifests.map_values(|m: Seq<char>| "\""@ + m + "\""@),
        ", "@,
    ) + "]\n"@ + if profile != "quick"@ && stable_or_beta {
        "unstable-bootstrap = true\n"@
    } else {
        Seq::<char>::empty()
    }
}

fn message(parts: &Vec<char>) -> (s: String)
    ensures
        s@ == parts@,
{
    string_of(parts)
}

fn with_lit(v: &mut Vec<char>, lit: &str)
    ensures
        final(v)@ == old(v)@ + lit@,
{
    extend(v, &chars_of(lit));
}

fn count_shared(manifests: &Vec<ManifestReport>) -> (n: usize)
    ensures
        n == shared_dirs(manifests@),
{
    let mut n: usize = 0;
    let mut i: usize = 0;
    while i < manifests.len()
        invariant
            i <= manifests@.len(),
            n == shared_dirs(manifests@.take(i as int)),
            n <= i,
        decreases manifests@.len() - i,
    {
        assert(manifests@.take(i + 1).drop_last() == manifests@.take(i as int));
        if !manifests[i].separate_build_directory {
            n = n + 1;
        }
        i = i + 1;
    }
    assert(manifests@.take(manifests@.len() as int) == manifests@);
    n
}

fn sum_source_deps(manifests: &Vec<ManifestReport>) -> (n: usize)
    requires
        source_deps(manifests@) <= usize::MAX,
    ensures
        n == source_deps(manifests@),
{
    let mut n: usize = 0;
    let mut i: usize = 0;
    while i < manifests.len()
        invariant
            i <= manifests@.len(),
            n == source_deps(manifests@.take(i as int)),
            source_deps(manifests@) <= usize::MAX,
        decreases manifests@.len() - i,
    {
        assert(manifests@.take(i + 1).drop_last() == manifests@.take(i as int));
        proof {
            lemma_source_deps_prefix(manifests@, i + 1);
        }
        match &manifests[i].source_cache_health {
            Some(h) => {
                n = n + h.deps_entries;
            },
            None => {},
        }
        i = i + 1;
    }
    assert(manifests@.take(manifests@.len() as int) == manifests@);
    n
}

proof fn lemma_source_deps_prefix(m: Seq<ManifestReport>, k: int)
    requires
        0 <= k <= m.len(),
    ensures
        source_deps(m.take(k)) <= source_deps(m),
    decreases m.len() - k,
{
    if k < m.len() {
        lemma_source_deps_prefix(m, k + 1);
        assert(m.take(k + 1).drop_last() == m.take(k));
    } else {
        assert(m.take(k) == m);
    }
}

/// The starter configuration the doctor prints for `profile`.
pub fn recommended_config_example(profile: &str, project: &ProjectShape, manifests: &Vec<String>) -> (text: String)
    ensures
        text@ == config_example(
            profile@,
            is_stable_or_beta(project.rustc.channel),
            views(manifests@),
        ),
{
    let mut quoted: Vec<String> = Vec::new();
    let mut i: usize = 0;
    while i < manifests.len()
        invariant
            i <= manifests@.len(),
            views(quoted@) == views(manifests@).take(i as int).map_values(
                |m: Seq<char>| "\""@ + m + "\""@,
            ),
        decreases manifests@.len() - i,
    {
        let mut q = String::from_str("\"");
        q.append(manifests[i].as_str());
        q.append("\"");
        let ghost prev = views(quoted@);
        quoted.push(q);
        assert(views(quoted@) == prev.push("\""@ + manifests@[i as int]@ + "\""@));
        assert(views(manifests@).take(i + 1) == views(manifests@).take(i as int).push(
            manifests@[i as int]@,
        ));
        i = i + 1;
    }
    assert(views(manifests@).take(manifests@.len() as int) == views(manifests@));
    let listed = join_texts(&quoted, ", ");
    let mut text = String::from_str("version = 1\ndefault-profile = \"");
    text.append(profile);
    text.append("\"\nmanifests = [");
    text.append(listed.as_str());
    text.append("]\n");
    let stable_or_beta = match project.rustc.channel {
        RustcChannel::Stable | RustcChannel::Beta => true,
        _ => false,
    };
    if !str_eq(profile, "quick") && stable_or_beta {
        text.append("unstable-bootstrap = true\n");
    } else {
        assert(text@ + Seq::<char>::empty() == text@);
    }
    text
}

/// The doctor's recommendation from its findings.
#[verifier::spinoff_prover]
#[verifier::rlimit(40)]
pub fn recommend_profile(
    project: &ProjectShape,
    freshness: &FreshnessReport,
    auto_materializable_paths: &Vec<String>,
    manifests: &Vec<ManifestReport>,
    effective: &EffectiveSeedConfig,
) -> (recommendation: ProfileRecommendation)
    requires
        source_deps(manifests@) <= usize::MAX,
    ensures
        ({
            let a = advice(
                signals_of(
                    *project,
                    *freshness,
                    auto_materializable_paths@.len(),
                    manifests@,
                    effective.profile.unstable_bootstrap,
                ),
            );
            &&& recommendation.profile@ == a.profile
            &&& views(recommendation.reasons@) == a.reasons
            &&& views(recommendation.cautions@) == a.cautions
            &&& views(recommendation.benchmark_profiles@) == a.benchmark_profiles
            &&& recommendation.config_example@ == config_example(
                a.profile,
                is_stable_or_beta(project.rustc.channel),
                views(effective.manifests@),
            )
        }),
{
    let lines = project.rust_lines;
    let files = project.rust_source_files;
    let direct = project.direct_build_scripts;
    let supported = project.rustc.relocatable_incremental_supported;
    let small = lines < 20000 && files < 80;
    let large = (lines >= 100000 || files >= 300) && direct > 0;
    let quick = !supported || small;

    let mut reasons: Vec<String> = Vec::new();
    let mut cautions: Vec<String> = Vec::new();
    let mut benchmark_profiles: Vec<String> = Vec::new();
    let profile = if quick {
        "quick"
    } else if large {
        "deep"
    } else {
        "balanced"
    };

    let mut first: Vec<char> = Vec::new();
    if !supported {
        with_lit(&mut first, "rustc ");
        extend(&mut first, &chars_of(project.rustc.release.as_str()));
        with_lit(
            &mut first,
            " predates relocatable incremental support, so compiler priming is unavailable",
        );
    } else if small {
        with_lit(&mut first, "the selected local package set is relatively small (");
        push_decimal(&mut first, lines as u64);
        with_lit(&mut first, " Rust lines across ");
        push_decimal(&mut first, files as u64);
        with_lit(
            &mut first,
            " files), so provisioning latency is likely more valuable than an eager prime",
        );
        benchmark_profiles.push(String::from_str("balanced"));
    } else if large {
        with_lit(&mut first, "the selected package set is large (");
        push_decimal(&mut first, lines as u64);
        with_lit(&mut first, " Rust lines across ");
        push_decimal(&mut first, files as u64);
        with_lit(&mut first, " files) and has ");
        push_decimal(&mut first, direct as u64);
        with_lit(
            &mut first,
            " direct build script(s); large crates can retain a first-edit tax until the package build boundary is re-established",
        );
        benchmark_profiles.push(String::from_str("balanced"));
    } else {
        with_lit(
            &mut first,
            "the selected package set is large enough to benefit from a relocatable rustc prime (",
        );
        push_decimal(&mut first, lines as u64);
        with_lit(&mut first, " Rust lines across ");
        push_decimal(&mut first, files as u64);
        with_lit(&mut first, " files)");
        benchmark_profiles.push(String::from_str("quick"));
        if direct > 0 {
            benchmark_profiles.push(String::from_str("deep"));
            cautions.push(
                String::from_str(
                    "`deep` intentionally makes the selected package's own build script stale during provisioning; benchmark it before making it the default if that build script is expensive",
                ),
            );
        }
    }
    reasons.push(message(&first));

    let materializable = auto_materializable_paths.len();
    if materializable > 0 {
        let mut m: Vec<char> = Vec::new();
        push_decimal(&mut m, materializable as u64);
        with_lit(
            &mut m,
            " ignored native link artifact/path(s) can be cloned automatically instead of rebuilding their whole native toolchain",
        );
        reasons.push(message(&m));
    }
    let blocking = freshness.blocking_outputs();
    if blocking > 0 {
        let mut m: Vec<char> = Vec::new();
        push_decimal(&mut m, blocking as u64);
        if materializable == 0 {
            with_lit(
                &mut m,
                " cached build-script path directive(s) cannot currently be relocated safely; provide equivalent destination state or an explicit seed path before expecting full freshness",
            );
        } else {
            with_lit(
                &mut m,
                " cached build-script path directive(s) currently reference missing destination state; seed can auto-materialize ",
            );
            push_decimal(&mut m, materializable as u64);
            with_lit(&mut m, " final native artifact/path(s) before freshness is re-evaluated");
        }
        cautions.push(message(&m));
    }
    let other = project.other_local_build_scripts;
    if other > 0 {
        let mut m: Vec<char> = Vec::new();
        push_decimal(&mut m, other as u64);
        with_lit(
            &mut m,
            " other local/path-dependency build script(s) were detected; package priming deliberately leaves them untouched",
        );
        cautions.push(message(&m));
    }
    let shared = count_shared(manifests);
    if shared > 0 {
        let mut m: Vec<char> = Vec::new();
        push_decimal(&mut m, shared as u64);
        with_lit(
            &mut m,
            " manifest(s) still use the same directory for intermediate build state and final target artifacts; Cargo 1.91+ can separate them with `build.build-dir`, which gives cargo-warm a smaller per-worktree cache boundary",
        );
        cautions.push(message(&m));
    }
    let deps = sum_source_deps(manifests);
    if deps >= 20000 {
        let mut m: Vec<char> = Vec::new();
        with_lit(&mut m, "the warm source cache contains ");
        push_decimal(&mut m, deps as u64);
        with_lit(
            &mut m,
            " entries across deps directories; very large stale deps sets can slow Cargo itself, so benchmark after pruning obsolete build families as well as after changing profiles",
        );
        cautions.push(message(&m));
    }
    let stable_or_beta = match project.rustc.channel {
        RustcChannel::Stable | RustcChannel::Beta => true,
        _ => false,
    };
    if stable_or_beta && !quick && !effective.profile.unstable_bootstrap {
        cautions.push(
            String::from_str(
                "stable/beta Rust still requires explicit `--unstable-bootstrap` (or `unstable-bootstrap = true` in project config) for relocatable priming",
            ),
        );
    }
    let config_example = recommended_config_example(profile, project, &effective.manifests);

    ProfileRecommendation {
        profile: String::from_str(profile),
        reasons,
        cautions,
        benchmark_profiles,
        config_example,
    }
}


// ---------------------------------------------------------------------------
// Findings
// ---------------------------------------------------------------------------

/// A package's build scripts: each `custom-build` target's `src_path`.
pub open spec fn scripts_of_targets(package: Seq<char>, targets: Seq<Json>) -> Seq<(Seq<char>, Seq<char>)>
    decreases targets.len(),
{
    if targets.len() == 0 {
        seq![]
    } else {
        let rest = scripts_of_targets(package, targets.drop_last());
        let t = targets.last();
        if target_has_kind_spec(t, "custom-build"@) {
            match str_at(t, "src_path"@) {
                Some(p) => rest.push((package, p)),
                None => rest,
            }
        } else {
            rest
        }
    }
}

pub open spec fn package_name_or_unknown(package: Json) -> Seq<char> {
    match str_at(package, "name"@) {
        Some(n) => n,
        None => "<unknown>"@,
    }
}

pub open spec fn scripts_of_packages(packages: Seq<Json>) -> Seq<(Seq<char>, Seq<char>)>
    decreases packages.len(),
{
    if packages.len() == 0 {
        seq![]
    } else {
        let rest = scripts_of_packages(packages.drop_last());
        let p = packages.last();
        match array_at(p, "targets"@) {
            Some(targets) => rest + scripts_of_targets(package_name_or_unknown(p), targets),
            None => rest,
        }
    }
}

/// The build scripts of a workspace's packages, or `None` when the metadata
/// lists no packages.
pub open spec fn build_scripts_spec(metadata: Json) -> Option<Seq<(Seq<char>, Seq<char>)>> {
    match array_at(metadata, "packages"@) {
        Some(packages) => Some(scripts_of_packages(packages)),
        None => None,
    }
}

pub open spec fn script_views(v: Seq<BuildScriptReport>) -> Seq<(Seq<char>, Seq<char>)> {
    v.map_values(|r: BuildScriptReport| (r.package@, r.path@))
}

fn push_scripts(out: &mut Vec<BuildScriptReport>, package: &str, targets: &Vec<Json>)
    ensures
        script_views(final(out)@) == script_views(old(out)@) + scripts_of_targets(package@, targets@),
{
    let ghost start = script_views(out@);
    let mut i: usize = 0;
    while i < targets.len()
        invariant
            i <= targets@.len(),
            script_views(out@) == start + scripts_of_targets(package@, targets@.take(i as int)),
        decreases targets@.len() - i,
    {
        assert(targets@.take(i + 1).drop_last() == targets@.take(i as int));
        assert(targets@.take(i + 1).last() == targets@[i as int]);
        if target_has_kind(&targets[i], "custom-build") {
            match targets[i].str_at("src_path") {
                Some(p) => {
                    let ghost before = script_views(out@);
                    out.push(BuildScriptReport { package: String::from_str(package), path: String::from_str(p) });
                    assert(script_views(out@) == before.push((package@, p@)));
                },
                None => {},
            }
        }
        i = i + 1;
    }
    assert(targets@.take(targets@.len() as int) == targets@);
}

/// The build scripts of the packages `cargo metadata` lists, package by
/// package, each with its package's name (`<unknown>` when it has none).
pub fn build_scripts_in(metadata: &Json) -> (r: Result<Vec<BuildScriptReport>, String>)
    ensures
        match build_scripts_spec(*metadata) {
            Some(scripts) => r matches Ok(v) && script_views(v@) == scripts,
            None => r matches Err(e) && e@ == "cargo metadata did not report packages"@,
        },
{
    let packages = match metadata.array_at("packages") {
        Some(p) => p,
        None => {
            return Err(String::from_str("cargo metadata did not report packages"));
        },
    };
    let mut out: Vec<BuildScriptReport> = Vec::new();
    let mut i: usize = 0;
    while i < packages.len()
        invariant
            i <= packages@.len(),
            script_views(out@) == scripts_of_packages(packages@.take(i as int)),
        decreases packages@.len() - i,
    {
        assert(packages@.take(i + 1).drop_last() == packages@.take(i as int));
        assert(packages@.take(i + 1).last() == packages@[i as int]);
        let name = match packages[i].str_at("name") {
            Some(n) => n,
            None => "<unknown>",
        };
        match packages[i].array_at("targets") {
            Some(targets) => push_scripts(&mut out, name, targets),
            None => {},
        }
        i = i + 1;
    }
    assert(packages@.take(packages@.len() as int) == packages@);
    Ok(out)
}

/// Both worktrees are at one known revision (only meaningful when there is
/// a peer to compare with).
pub fn same_revision(comparison_available: bool, source_head: &Option<String>, destination_head: &Option<String>) -> (same: bool)
    ensures
        same == (comparison_available && match (source_head, destination_head) {
            (Some(a), Some(b)) => a@ == b@,
            _ => false,
        }),
{
    comparison_available && match (source_head, destination_head) {
        (Some(a), Some(b)) => str_eq(a.as_str(), b.as_str()),
        _ => false,
    }
}

/// Tracked mtimes are compared only between clean worktrees at the same
/// revision.
pub fn compare_mtimes_wanted(comparison_available: bool, same_revision: bool, source_clean: bool, destination_clean: bool) -> (wanted: bool)
    ensures
        wanted == (comparison_available && same_revision && source_clean && destination_clean),
{
    comparison_available && same_revision && source_clean && destination_clean
}

/// Cargo keeps intermediate state apart from final artifacts.
pub fn separate_build_directory(build_directory: &Option<String>, target_directory: &str) -> (separate: bool)
    ensures
        separate == match build_directory {
            Some(b) => !same_path(b@, target_directory@),
            None => false,
        },
{
    match build_directory {
        Some(b) => !paths_equal(b.as_str(), target_directory),
        None => false,
    }
}

} // verus!
