use cargo_warm::config::{
    resolve_seed, ClonePressure, PrimeMode, ProfileDefinition, ProjectConfig, SeedOverrides,
};

fn agent_project() -> ProjectConfig {
    // version = 1, default-profile = "agent",
    // manifests = ["app/Cargo.toml", "tools/Cargo.toml"], unstable-bootstrap = true,
    // [profiles.agent] inherits = "deep", seed-paths = ["native/cache"]
    let mut project = ProjectConfig::default();
    project.version = Some(1);
    project.default_profile = Some("agent".to_string());
    project.manifests = Some(vec!["app/Cargo.toml".to_string(), "tools/Cargo.toml".to_string()]);
    project.unstable_bootstrap = Some(true);
    project.profiles.insert(
        "agent".to_string(),
        ProfileDefinition {
            inherits: Some("deep".to_string()),
            include_target: None,
            copy_fallback: None,
            freshness_rebase: None,
            prime: None,
            unstable_bootstrap: None,
            seed_paths: Some(vec!["native/cache".to_string()]),
        },
    );
    project
}

#[test]
fn custom_profile_inherits_builtin_and_configures_manifests() {
    let resolved = resolve_seed(
        Some(".agents/.cargo-warm.toml".to_string()),
        agent_project(),
        SeedOverrides::default(),
    )
    .unwrap();
    assert_eq!(resolved.profile.name, "agent");
    assert_eq!(resolved.profile.prime, PrimeMode::Package);
    assert!(resolved.profile.unstable_bootstrap);
    assert_eq!(resolved.profile.seed_paths, ["native/cache"]);
    assert_eq!(resolved.manifests.len(), 2);
}

#[test]
fn cli_prime_mode_overrides_profile() {
    let mut overrides = SeedOverrides::default();
    overrides.profile = Some("deep".to_string());
    overrides.prime_mode = Some(PrimeMode::Off);
    let resolved = resolve_seed(None, ProjectConfig::default(), overrides).unwrap();
    assert_eq!(resolved.profile.prime, PrimeMode::Off);
}

#[test]
fn clone_settings_are_project_level_and_orthogonal_to_profiles() {
    // version = 1, default-profile = "deep", clone-pressure = "fast", clone-workers = 2
    let mut project = ProjectConfig::default();
    project.version = Some(1);
    project.default_profile = Some("deep".to_string());
    project.clone_pressure = Some(ClonePressure::Fast);
    project.clone_workers = Some(2);
    let resolved = resolve_seed(None, project, SeedOverrides::default()).unwrap();
    assert_eq!(resolved.profile.name, "deep");
    assert_eq!(resolved.profile.prime, PrimeMode::Package);
    assert_eq!(resolved.clone.pressure, ClonePressure::Fast);
    assert_eq!(resolved.clone.workers, Some(2));
    assert_eq!(resolved.clone.effective_workers(8, 16), 2);
}

#[test]
fn clone_worker_override_must_be_positive() {
    let mut overrides = SeedOverrides::default();
    overrides.clone_workers = Some(0);
    let error = resolve_seed(None, ProjectConfig::default(), overrides).unwrap_err();
    assert!(error.message().contains("clone-workers must be at least 1"));
}

#[test]
fn unknown_profile_lists_the_known_ones() {
    let mut overrides = SeedOverrides::default();
    overrides.profile = Some("missing".to_string());
    let error = resolve_seed(None, agent_project(), overrides).unwrap_err();
    assert_eq!(
        error.message(),
        "unknown cargo-warm profile `missing`; available profiles: agent, balanced, deep, quick"
    );
}

#[test]
fn inheritance_cycles_are_reported_with_their_chain() {
    let mut project = ProjectConfig::default();
    for (name, parent) in [("a", "b"), ("b", "a")] {
        project.profiles.insert(
            name.to_string(),
            ProfileDefinition {
                inherits: Some(parent.to_string()),
                include_target: None,
                copy_fallback: None,
                freshness_rebase: None,
                prime: None,
                unstable_bootstrap: None,
                seed_paths: None,
            },
        );
    }
    let mut overrides = SeedOverrides::default();
    overrides.profile = Some("a".to_string());
    let error = resolve_seed(None, project, overrides).unwrap_err();
    assert_eq!(error.message(), "cargo-warm profile inheritance cycle: a -> b -> a");
}

#[test]
fn unsupported_config_version_is_refused() {
    let mut project = ProjectConfig::default();
    project.version = Some(2);
    let error = cargo_warm::config::validate_project_config(&project).unwrap_err();
    assert_eq!(
        error.message(),
        "unsupported cargo-warm config version 2; expected version = 1"
    );
}

#[test]
fn doctor_lists_builtin_profiles_then_custom_ones_sorted() {
    let mut project = agent_project();
    project.profiles.insert(
        "zeta".to_string(),
        ProfileDefinition {
            inherits: None,
            include_target: None,
            copy_fallback: None,
            freshness_rebase: None,
            prime: None,
            unstable_bootstrap: None,
            seed_paths: None,
        },
    );
    let names = cargo_warm::config::available_profile_names(&project);
    assert_eq!(names, ["quick", "balanced", "deep", "agent", "zeta"]);
}
