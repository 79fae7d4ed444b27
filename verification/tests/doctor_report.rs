use cargo_warm::compiler::{RustcChannel, RustcInfo};
use cargo_warm::config::{built_in_profile, CloneSettings, EffectiveSeedConfig};
use cargo_warm::doctor::{
    compare_mtimes_wanted, recommend_profile, same_revision, separate_build_directory,
    BuildScriptReport, CacheHealth, DoctorReport, ManifestReport, MtimeComparison, ProbeReport,
    TrackedMtimeSummary,
};
use cargo_warm::fingerprint::{parse_fingerprint_reasons, FingerprintCategory, FingerprintReason};
use cargo_warm::freshness::{FreshnessReport, PathSensitiveOutput};
use cargo_warm::project::{ManifestShape, PackageShape, ProjectShape};
use cargo_warm::report::{doctor_text, probe_text};

fn project(lines: usize, files: usize, direct: usize) -> ProjectShape {
    ProjectShape {
        rustc: RustcInfo {
            release: "1.98.0".to_string(),
            channel: RustcChannel::Stable,
            relocatable_incremental_supported: true,
        },
        manifests: vec![ManifestShape {
            manifest: "/w/Cargo.toml".to_string(),
            workspace_packages: 1,
            selected_packages: vec![PackageShape {
                name: "app".to_string(),
                manifest: "/w/Cargo.toml".to_string(),
                rust_source_files: files,
                rust_lines: lines,
                has_build_script: direct > 0,
            }],
        }],
        rust_source_files: files,
        rust_lines: lines,
        direct_build_scripts: direct,
        other_local_build_scripts: 0,
    }
}

fn effective() -> EffectiveSeedConfig {
    EffectiveSeedConfig {
        config_path: None,
        profile: built_in_profile("quick").unwrap(),
        clone: CloneSettings::default(),
        manifests: vec!["Cargo.toml".to_string()],
    }
}

fn manifest(separate: bool) -> ManifestReport {
    ManifestReport {
        manifest: "/w/Cargo.toml".to_string(),
        source_build_directory: Some("/cache/s".to_string()),
        destination_build_directory: Some("/cache/d".to_string()),
        destination_target_directory: "/w/target".to_string(),
        separate_build_directory: separate,
        source_cache_exists: true,
        destination_cache_exists: false,
        source_cache_health: Some(CacheHealth { deps_entries: 12, incremental_entries: 3 }),
        destination_cache_health: None,
        build_scripts: vec![BuildScriptReport { package: "app".to_string(), path: "/w/build.rs".to_string() }],
    }
}

#[test]
fn small_projects_get_the_quick_profile() {
    let rec = recommend_profile(
        &project(1000, 10, 0),
        &FreshnessReport::empty(),
        &Vec::new(),
        &vec![manifest(true)],
        &effective(),
    );
    assert_eq!(rec.profile, "quick");
    assert_eq!(rec.benchmark_profiles, ["balanced"]);
    assert!(rec.cautions.is_empty());
    assert_eq!(
        rec.config_example,
        "version = 1\ndefault-profile = \"quick\"\nmanifests = [\"Cargo.toml\"]\n"
    );
}

#[test]
fn large_projects_with_build_scripts_get_the_deep_profile() {
    let rec = recommend_profile(
        &project(150_000, 400, 1),
        &FreshnessReport::empty(),
        &Vec::new(),
        &vec![manifest(false)],
        &effective(),
    );
    assert_eq!(rec.profile, "deep");
    assert_eq!(rec.benchmark_profiles, ["balanced"]);
    assert!(rec.cautions.iter().any(|c| c.contains("same directory for intermediate build state")));
    assert!(rec.cautions.iter().any(|c| c.contains("--unstable-bootstrap")));
    assert!(rec.config_example.ends_with("unstable-bootstrap = true\n"));
}

#[test]
fn medium_projects_get_the_balanced_profile() {
    let rec = recommend_profile(
        &project(50_000, 100, 1),
        &FreshnessReport::empty(),
        &Vec::new(),
        &vec![manifest(true)],
        &effective(),
    );
    assert_eq!(rec.profile, "balanced");
    assert_eq!(rec.benchmark_profiles, ["quick", "deep"]);
}

#[test]
fn doctor_decisions() {
    assert!(same_revision(true, &Some("a".to_string()), &Some("a".to_string())));
    assert!(!same_revision(false, &Some("a".to_string()), &Some("a".to_string())));
    assert!(!same_revision(true, &None, &None));
    assert!(compare_mtimes_wanted(true, true, true, true));
    assert!(!compare_mtimes_wanted(true, true, false, true));
    assert!(separate_build_directory(&Some("/cache/d".to_string()), "/w/target"));
    assert!(!separate_build_directory(&Some("/w/target".to_string()), "/w/target"));
    assert!(!separate_build_directory(&None, "/w/target"));
}

#[test]
fn mtime_summaries_count_each_comparison() {
    let mut summary = TrackedMtimeSummary::new();
    summary.record(MtimeComparison::DestinationNewer);
    summary.record(MtimeComparison::Same);
    summary.record(MtimeComparison::Missing);
    assert_eq!(
        (summary.tracked_files, summary.destination_newer, summary.same_mtime, summary.missing, summary.source_newer),
        (3, 1, 1, 1, 0)
    );
}

fn report(comparison: bool) -> DoctorReport {
    let mut freshness = FreshnessReport::empty();
    freshness.eligible_files = 4;
    freshness.path_sensitive_outputs = vec![
        PathSensitiveOutput {
            output_file: "/cache/s/b/p/output".to_string(),
            command: "cargo:rustc-link-search=/s/native".to_string(),
            rebasable: false,
            reason: Some("equivalent destination path does not exist: /d/native".to_string()),
        },
        PathSensitiveOutput {
            output_file: "/cache/s/b/q/output".to_string(),
            command: "cargo:rustc-link-search=/s/native".to_string(),
            rebasable: false,
            reason: Some("equivalent destination path does not exist: /d/native".to_string()),
        },
    ];
    let rec = recommend_profile(
        &project(1000, 10, 0),
        &freshness,
        &Vec::new(),
        &vec![manifest(true)],
        &effective(),
    );
    DoctorReport {
        config_path: None,
        active_profile: built_in_profile("quick").unwrap(),
        available_profiles: vec!["quick".to_string(), "balanced".to_string(), "deep".to_string()],
        recommendation: rec,
        project: project(1000, 10, 0),
        comparison_available: comparison,
        source: "/s".to_string(),
        destination: "/d".to_string(),
        source_reason: "explicit --from".to_string(),
        source_head: Some("a".to_string()),
        destination_head: Some("a".to_string()),
        same_revision: true,
        source_clean: true,
        destination_clean: false,
        tracked_mtimes: Some(TrackedMtimeSummary {
            tracked_files: 5,
            destination_newer: 2,
            same_mtime: 3,
            source_newer: 0,
            missing: 0,
        }),
        manifests: vec![manifest(true)],
        freshness,
        auto_materializable_paths: Vec::new(),
        probes: Vec::new(),
    }
}

#[test]
fn the_human_report_lists_what_was_found() {
    let text = doctor_text(&report(true), false);
    assert!(text.starts_with("cargo-warm doctor\n  config:      none (built-in defaults)\n"));
    assert!(text.contains("  profile:     quick (prime=none, freshness=on, include-target=no)\n"));
    assert!(text.contains("  profiles:    quick, balanced, deep\n"));
    assert!(text.contains("  worktrees:   source=clean destination=dirty\n"));
    assert!(text.contains("  mtimes:      5 tracked, 2 newer in destination, 3 identical\n"));
    assert!(text.contains("  path safety: 0 rebasable, 2 blocking build-script directive(s)\n"));
    assert_eq!(text.matches("    [blocking] cargo:rustc-link-search=/s/native\n").count(), 1);
    assert!(text.contains("\nmanifest: /w/Cargo.toml\n  build cache: /cache/d (missing)\n"));
    assert!(text.contains("  warm source cache: 12 deps entries, 3 incremental entries\n"));
    assert!(text.contains("    app: /w/build.rs\n"));
    assert!(text.contains("    app: 1000 lines / 10 files\n"));
    assert!(text.contains("\nrecommendation\n  profile: quick\n"));
    assert!(text.contains("            cargo warm seed --profile balanced\n"));
    assert!(text.ends_with("\nRun `cargo warm doctor --probe` to execute cargo check and classify Cargo's actual fingerprint misses.\n"));
}

#[test]
fn a_project_only_report_names_the_project() {
    let text = doctor_text(&report(false), true);
    assert!(text.contains("  project:     /d\n  comparison:  explicit --from\n"));
    assert!(!text.contains("path safety"));
    assert!(text.contains("  current cache: 12 deps entries"));
    assert!(!text.contains("--probe"));
}

#[test]
fn probe_reasons_are_listed_with_their_package() {
    let probe = ProbeReport {
        manifest: "/w/Cargo.toml".to_string(),
        elapsed_ms: 1500,
        cargo_success: true,
        reasons: vec![FingerprintReason {
            package: Some("app v0.1.0".to_string()),
            category: FingerprintCategory::ChangedFile,
            detail: "stale: changed \"/w/build.rs\"".to_string(),
        }],
    };
    assert_eq!(
        probe_text(&probe),
        "  fingerprint misses: 1\n    ChangedFile: app v0.1.0: stale: changed \"/w/build.rs\"\n"
    );
    let quiet = ProbeReport { manifest: String::new(), elapsed_ms: 0, cargo_success: false, reasons: Vec::new() };
    assert_eq!(probe_text(&quiet), "  fingerprint misses: none reported\n");
}

fn category_rank(c: FingerprintCategory) -> u8 {
    match c {
        FingerprintCategory::ChangedFile => 0,
        FingerprintCategory::BuildScriptPathsChanged => 1,
        FingerprintCategory::DependencyChanged => 2,
        FingerprintCategory::EnvironmentChanged => 3,
        FingerprintCategory::CompilerChanged => 4,
        FingerprintCategory::FilesystemOutdated => 5,
        FingerprintCategory::Other => 6,
    }
}

fn reason_keys(reasons: &[FingerprintReason]) -> Vec<(Option<String>, u8, String)> {
    reasons
        .iter()
        .map(|r| (r.package.clone(), category_rank(r.category), r.detail.clone()))
        .collect()
}

#[test]
fn joined_logs_give_the_sorted_union_of_their_reasons() {
    let a = r#"INFO prepare_target{force=false package_id=zeta v0.1.0 (/w/z) target="zeta"}: cargo::core::compiler::fingerprint:     dirty: UnitDependencyInfoChanged { unit: UnitIndex(1) }"#;
    let b = r#"INFO prepare_target{force=false package_id=alpha v0.1.0 (/w/a) target="alpha"}: cargo::core::compiler::fingerprint: stale: changed "/w/a/src/lib.rs"
INFO prepare_target{force=false package_id=zeta v0.1.0 (/w/z) target="zeta"}: cargo::core::compiler::fingerprint:     dirty: UnitDependencyInfoChanged { unit: UnitIndex(1) }"#;
    let joined = parse_fingerprint_reasons(&format!("{a}\n{b}"));
    let mut union = reason_keys(&parse_fingerprint_reasons(a));
    union.extend(reason_keys(&parse_fingerprint_reasons(b)));
    union.sort();
    union.dedup();
    assert_eq!(reason_keys(&joined), union);
    assert_eq!(joined.len(), 2);
}
