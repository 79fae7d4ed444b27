use cargo_warm::compiler::{parse_rustc_verbose_version, RustcChannel};
use cargo_warm::fingerprint::{parse_fingerprint_reasons, FingerprintCategory};
use cargo_warm::normalize_args;

#[test]
fn cargo_subcommand_prefix_is_removed() {
    let args = vec![
        "cargo-warm".to_string(),
        "warm".to_string(),
        "status".to_string(),
    ];
    let normalized = normalize_args(args);
    assert_eq!(normalized, ["cargo-warm", "status"]);
}

#[test]
fn identifies_relocation_capability_and_channel() {
    let stable = parse_rustc_verbose_version("release: 1.98.0\n").unwrap();
    assert_eq!(stable.channel, RustcChannel::Stable);
    assert!(stable.relocatable_incremental_supported);

    let old = parse_rustc_verbose_version("release: 1.94.0\n").unwrap();
    assert!(!old.relocatable_incremental_supported);

    let nightly = parse_rustc_verbose_version("release: 1.99.0-nightly\n").unwrap();
    assert_eq!(nightly.channel, RustcChannel::Nightly);
    assert!(nightly.accepts_unstable_flags());
}

#[test]
fn classifies_current_cargo_fingerprint_reasons() {
    let log = r#"
INFO prepare_target{force=false package_id=example-app v0.6.4 (/tmp/wt/app) target="example_app"}: cargo::core::compiler::fingerprint: stale: changed "/tmp/wt/app/build.rs"
INFO prepare_target{force=false package_id=example-app v0.6.4 (/tmp/wt/app) target="build-script-build"}: cargo::core::compiler::fingerprint:     dirty: RerunIfChangedOutputPathsChanged { old: ["build.rs"], new: ["/tmp/wt/build.rs"] }
INFO prepare_target{force=false package_id=example-app v0.6.4 (/tmp/wt/app) target="example_app"}: cargo::core::compiler::fingerprint:     dirty: UnitDependencyInfoChanged { unit: UnitIndex(171) }
"#;
    let reasons = parse_fingerprint_reasons(log);
    assert_eq!(reasons.len(), 3);
    assert!(
        reasons
            .iter()
            .any(|reason| reason.category == FingerprintCategory::ChangedFile)
    );
    assert!(
        reasons
            .iter()
            .any(|reason| reason.category == FingerprintCategory::BuildScriptPathsChanged)
    );
    assert!(
        reasons
            .iter()
            .any(|reason| reason.category == FingerprintCategory::DependencyChanged)
    );
}

#[test]
fn finds_workspace_crate_name() {
    let args = vec![
        "--edition=2024".to_string(),
        "--crate-name".to_string(),
        "my_workspace_crate".to_string(),
        "src/lib.rs".to_string(),
    ];
    assert_eq!(
        cargo_warm::rustc_wrapper::crate_name(&args),
        Some("my_workspace_crate".to_string())
    );
}
