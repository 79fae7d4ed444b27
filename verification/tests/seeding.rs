use cargo_warm::cache::{
    clone_strategy, copy_flags, gc_action, lsof_cwd, main_worktree_candidates, orphan_message,
    parse_df_available, pgrep_pids, registry_location, seed_step, seed_step_message, status_line,
    temp_clone_name, toolchain_mismatch, CacheKind, CargoPaths, CloneError, CloneStrategy,
    DfError, GcAction, Platform, Registry, RegistryError, SeedRecord, SeedStep,
};
use cargo_warm::compiler::{RustcChannel, RustcInfo};
use cargo_warm::config::PrimeMode;
use cargo_warm::rustc_wrapper::{exit_code, wrapper_plan};
use cargo_warm::seed::{
    build_pairs, check_mode, chosen_source_reason, plan_cache_tasks, seedable_state_count,
    validate_prime_profile,
    SeedPlanError,
};

fn paths(manifest: &str, build: Option<&str>, target: &str) -> CargoPaths {
    CargoPaths {
        workspace: "/w".to_string(),
        manifest: manifest.to_string(),
        build_directory: build.map(str::to_string),
        target_directory: target.to_string(),
    }
}

#[test]
fn build_directories_are_seeded_once_each() {
    let sources = vec![
        paths("/s/Cargo.toml", Some("/cache/s"), "/s/target"),
        paths("/s/app/Cargo.toml", Some("/cache/s"), "/s/target"),
    ];
    let destinations = vec![
        paths("/d/Cargo.toml", Some("/cache/d"), "/d/target"),
        paths("/d/app/Cargo.toml", Some("/cache/d"), "/d/target"),
    ];
    let tasks = plan_cache_tasks(&sources, &destinations, false).unwrap();
    assert_eq!(tasks.len(), 1);
    assert_eq!(tasks[0].kind, CacheKind::Build);
    assert_eq!(tasks[0].source, "/cache/s");
    assert_eq!(tasks[0].destination, "/cache/d");
    assert_eq!(tasks[0].manifest, "/d/Cargo.toml");
    let with_target = plan_cache_tasks(&sources, &destinations, true).unwrap();
    assert_eq!(with_target.len(), 2);
    assert_eq!(with_target[1].kind, CacheKind::Target);
    assert_eq!(with_target[1].destination, "/d/target");
}

#[test]
fn without_a_build_directory_the_target_is_seeded() {
    let sources = vec![paths("/s/Cargo.toml", None, "/s/target")];
    let destinations = vec![paths("/d/Cargo.toml", None, "/d/target")];
    let tasks = plan_cache_tasks(&sources, &destinations, false).unwrap();
    assert_eq!(tasks.len(), 1);
    assert_eq!(tasks[0].kind, CacheKind::Target);
    assert!(build_pairs(&sources, &destinations).is_empty());
}

#[test]
fn manifests_must_pair_up() {
    let sources = vec![paths("/s/Cargo.toml", None, "/s/target")];
    let renamed = vec![paths("/d/Other.toml", None, "/d/target")];
    assert_eq!(plan_cache_tasks(&sources, &renamed, false).err(), Some(SeedPlanError::ManifestLayouts));
    assert_eq!(plan_cache_tasks(&sources, &Vec::new(), false).err(), Some(SeedPlanError::ManifestCounts));
    assert_eq!(SeedPlanError::ManifestLayouts.message(), "source and destination manifest layouts differ");
}

#[test]
fn build_pairs_follow_the_manifests() {
    let sources = vec![paths("/s/Cargo.toml", Some("/cache/s"), "/s/target")];
    let destinations = vec![paths("/d/Cargo.toml", Some("/cache/d"), "/d/target")];
    assert_eq!(
        build_pairs(&sources, &destinations),
        vec![("/cache/s".to_string(), "/cache/d".to_string())]
    );
}

fn rustc(release: &str, channel: RustcChannel, supported: bool) -> RustcInfo {
    RustcInfo {
        release: release.to_string(),
        channel,
        relocatable_incremental_supported: supported,
    }
}

#[test]
fn priming_needs_a_capable_compiler_and_an_explicit_opt_in() {
    let old = rustc("1.94.0", RustcChannel::Stable, false);
    assert_eq!(validate_prime_profile(PrimeMode::Off, false, &old), Ok(()));
    assert_eq!(
        validate_prime_profile(PrimeMode::Rustc, true, &old),
        Err("profile requests rustc priming, but rustc 1.94.0 predates relocatable incremental support; use profile `quick` or Rust 1.98+".to_string())
    );
    let stable = rustc("1.98.0", RustcChannel::Stable, true);
    assert_eq!(
        validate_prime_profile(PrimeMode::Package, false, &stable),
        Err("profile requests package priming on rustc 1.98.0; pass --unstable-bootstrap or set `unstable-bootstrap = true` in .agents/.cargo-warm.toml".to_string())
    );
    assert_eq!(validate_prime_profile(PrimeMode::Package, true, &stable), Ok(()));
    let nightly = rustc("1.99.0-nightly", RustcChannel::Nightly, true);
    assert_eq!(validate_prime_profile(PrimeMode::Rustc, false, &nightly), Ok(()));
}

#[test]
fn relocatable_check_modes() {
    let stable = rustc("1.98.0", RustcChannel::Stable, true);
    assert_eq!(check_mode(&stable, true, false), Ok(true));
    assert!(check_mode(&stable, false, false).unwrap_err().contains("explicitly pass --unstable-bootstrap"));
    let nightly = rustc("1.99.0-nightly", RustcChannel::Nightly, true);
    assert_eq!(check_mode(&nightly, false, false), Ok(false));
    assert_eq!(
        check_mode(&nightly, false, true),
        Err("RUSTC_WORKSPACE_WRAPPER is already set; cargo-warm will not silently replace another workspace rustc wrapper".to_string())
    );
    let old = rustc("1.90.0", RustcChannel::Nightly, false);
    assert_eq!(
        check_mode(&old, true, false),
        Err("rustc 1.90.0 predates relocatable incremental support; cargo warm check requires Rust 1.98 or newer".to_string())
    );
}

#[test]
fn the_wrapper_scopes_bootstrap_to_the_crate() {
    let args = vec!["--crate-name".to_string(), "app".to_string(), "src/lib.rs".to_string()];
    let plan = wrapper_plan(&args, true, true).unwrap();
    assert_eq!(plan.bootstrap_crate.as_deref(), Some("app"));
    assert_eq!(
        plan.extra_args,
        vec![
            "-Zallow-features=".to_string(),
            "-F".to_string(),
            "unstable-features".to_string(),
            "-Zremap-cwd-prefix=/cargo-warm/v1/workspace".to_string()
        ]
    );
    let plain = wrapper_plan(&args, true, false).unwrap();
    assert_eq!(plain.bootstrap_crate, None);
    assert_eq!(plain.extra_args, vec!["-Zremap-cwd-prefix=/cargo-warm/v1/workspace".to_string()]);
    let outside = wrapper_plan(&args, false, true).unwrap();
    assert!(outside.extra_args.is_empty());
    assert_eq!(
        wrapper_plan(&vec!["src/lib.rs".to_string()], true, true).err(),
        Some("workspace rustc invocation did not include --crate-name".to_string())
    );
}

#[test]
fn wrapper_exit_codes() {
    assert_eq!(exit_code(Some(0)), 0);
    assert_eq!(exit_code(Some(101)), 101);
    assert_eq!(exit_code(Some(300)), 1);
    assert_eq!(exit_code(Some(-1)), 1);
    assert_eq!(exit_code(None), 1);
}

#[test]
fn physical_copies_need_explicit_consent() {
    assert_eq!(clone_strategy(Platform::MacOs, false), Ok(CloneStrategy::MacClone));
    assert_eq!(clone_strategy(Platform::Linux, false), Ok(CloneStrategy::LinuxReflink));
    assert_eq!(clone_strategy(Platform::Other, true), Ok(CloneStrategy::PhysicalCopy));
    assert_eq!(clone_strategy(Platform::Other, false), Err(CloneError::NoCopyOnWrite));
    assert_eq!(copy_flags(CloneStrategy::LinuxReflink), vec!["-a", "--reflink=always"]);
    assert_eq!(copy_flags(CloneStrategy::MacClone), vec!["-cR"]);
}

#[test]
fn seed_steps_refuse_sharing_and_skip_what_is_there() {
    assert_eq!(seed_step("/c/x", "/c/x", true, false), SeedStep::RefuseShared);
    assert_eq!(seed_step("/c/x", "/c/y", false, false), SeedStep::SkipMissingSource);
    assert_eq!(seed_step("/c/x", "/c/y", true, true), SeedStep::SkipExistingDestination);
    assert_eq!(seed_step("/c/x", "/c/y", true, false), SeedStep::Clone);
    assert_eq!(
        seed_step_message(CacheKind::Build, SeedStep::RefuseShared, "/c/x", "/c/x"),
        "refusing shared mutable Build directory: /c/x"
    );
    assert_eq!(
        seed_step_message(CacheKind::Target, SeedStep::SkipExistingDestination, "/c/x", "/c/y"),
        "cargo-warm: Target destination already exists, leaving untouched: /c/y"
    );
    assert_eq!(temp_clone_name(Some("build"), 42), ".cargo-warm-build-42");
    assert_eq!(temp_clone_name(None, 7), ".cargo-warm-cache-7");
}

fn record(path: &str) -> SeedRecord {
    SeedRecord {
        workspace: "/d".to_string(),
        source_workspace: "/s".to_string(),
        manifest: "/d/Cargo.toml".to_string(),
        kind: CacheKind::Build,
        path: path.to_string(),
        created_unix_seconds: 1,
    }
}

#[test]
fn registering_replaces_the_record_of_the_same_root() {
    let mut registry = Registry::empty();
    registry.register(record("/cache/a"));
    registry.register(record("/cache/b"));
    let mut newer = record("/cache/a");
    newer.created_unix_seconds = 2;
    registry.register(newer);
    let roots: Vec<(String, u64)> = registry
        .records
        .iter()
        .map(|r| (r.path.clone(), r.created_unix_seconds))
        .collect();
    assert_eq!(roots, vec![("/cache/b".to_string(), 1), ("/cache/a".to_string(), 2)]);
}

#[test]
fn registry_schema_and_location() {
    let registry = Registry { schema: 2, records: Vec::new() };
    assert_eq!(registry.checked().err(), Some(RegistryError::UnsupportedSchema(2)));
    assert_eq!(
        RegistryError::UnsupportedSchema(2).message(),
        "unsupported cargo-warm registry schema 2"
    );
    assert_eq!(
        registry_location(Some("/x".to_string()), Some("/h".to_string())).unwrap(),
        ("/x".to_string(), "cargo-warm/state.json")
    );
    assert_eq!(
        registry_location(None, Some("/h".to_string())).unwrap(),
        ("/h".to_string(), ".cache/cargo-warm/state.json")
    );
    assert_eq!(registry_location(None, None).err(), Some(RegistryError::NoHome));
}

#[test]
fn gc_removes_only_orphans() {
    assert_eq!(gc_action(false, true, false), GcAction::Forget);
    assert_eq!(gc_action(true, true, false), GcAction::Keep);
    assert_eq!(gc_action(true, false, true), GcAction::ReportOrphan);
    assert_eq!(gc_action(true, false, false), GcAction::RemoveOrphan);
    assert_eq!(orphan_message(&record("/cache/a"), true), "cargo-warm: would remove orphaned Build /cache/a");
}

#[test]
fn status_lines_pad_the_state() {
    assert_eq!(status_line(&record("/cache/a"), true, true), "available Build /cache/a  workspace=/d");
    assert_eq!(status_line(&record("/cache/a"), false, true), "missing   Build /cache/a  workspace=/d");
    assert_eq!(status_line(&record("/cache/a"), true, false), "orphaned  Build /cache/a  workspace=/d");
}

#[test]
fn compiler_processes_and_their_directories() {
    assert_eq!(pgrep_pids("12\n \n 34 \n"), vec!["12".to_string(), "34".to_string()]);
    assert_eq!(lsof_cwd("p12\nfcwd\nn/work/tree\n"), Some("/work/tree".to_string()));
    assert_eq!(lsof_cwd("p12\n"), None);
    assert_eq!(toolchain_mismatch("cargo", b"cargo 1.0", b"cargo 1.0"), None);
    assert_eq!(
        toolchain_mismatch("rustc", b"a", b"b"),
        Some("rustc differs between source and destination; refusing incompatible seed".to_string())
    );
}

#[test]
fn df_reports_available_kibibytes() {
    let text = "Filesystem 1024-blocks Used Available Capacity Mounted on\n/dev/sda1 100 40 60 40% /\n";
    assert_eq!(parse_df_available(text).ok(), Some(60));
    assert!(matches!(parse_df_available(""), Err(DfError::NoRows)));
    assert!(matches!(parse_df_available("a b c\n"), Err(DfError::NoAvailableColumn)));
    assert!(matches!(parse_df_available("a b c x\n"), Err(DfError::InvalidCount(_))));
}

#[test]
fn main_worktrees_are_listed_in_order() {
    let porcelain = "worktree /r/main\nHEAD a\nbranch refs/heads/main\n\nworktree /r/f\nHEAD b\nbranch refs/heads/f\n";
    assert_eq!(main_worktree_candidates(porcelain), vec!["/r/main".to_string()]);
}

#[test]
fn only_existing_seeded_roots_count_as_warm() {
    let items = vec![
        paths("/s/Cargo.toml", Some("/cache/s"), "/s/target"),
        paths("/s/tool/Cargo.toml", None, "/s/tool/target"),
    ];
    // Build directory present, target left out: one root, and the second
    // manifest's target counts because it reports no build directory.
    assert_eq!(seedable_state_count(&items, &vec![(true, true), (false, true)], false), 2);
    assert_eq!(seedable_state_count(&items, &vec![(true, true), (false, true)], true), 3);
    assert_eq!(seedable_state_count(&items, &vec![(false, true), (true, false)], false), 0);
    assert_eq!(seedable_state_count(&items, &vec![(false, false), (false, false)], true), 0);
}

#[test]
fn a_source_without_warm_roots_is_not_chosen() {
    assert_eq!(chosen_source_reason("exact revision", 0), None);
    assert_eq!(
        chosen_source_reason("exact revision", 2),
        Some("exact revision; 2 warm cache root(s)".to_string())
    );
}

#[test]
fn identical_cache_paths_are_refused_before_anything_else() {
    assert_eq!(seed_step("/c/x", "/c/x", false, true), SeedStep::RefuseShared);
}
