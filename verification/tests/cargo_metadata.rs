use cargo_warm::cache::{cargo_paths, MetadataError};
use cargo_warm::doctor::build_scripts_in;
use cargo_warm::json::read_json;
use cargo_warm::config::PrimeMode;
use cargo_warm::prime::package_triggers;
use cargo_warm::project::{
    package_has_build_script, package_identity, package_manifest, selected_packages,
    summarize_project, target_roots, ManifestShape, PackageShape,
};
use cargo_warm::compiler::{RustcChannel, RustcInfo};

const METADATA: &str = r#"{
  "packages": [
    {"name": "root", "id": "root-id", "manifest_path": "/w/Cargo.toml",
     "targets": [
       {"kind": ["custom-build"], "src_path": "/w/build.rs"},
       {"kind": ["bin"], "src_path": "/w/src/main.rs"},
       {"kind": ["lib"], "src_path": "/w/src/lib.rs"}
     ]},
    {"name": "dep", "id": "dep-id", "manifest_path": "/w/dep/Cargo.toml",
     "targets": [
       {"kind": ["lib"], "src_path": "/w/dep/src/lib.rs"},
       {"kind": ["custom-build"], "src_path": "/w/dep/build.rs"}
     ]},
    {"id": "tool-id", "manifest_path": "/w/tool/Cargo.toml",
     "targets": [
       {"kind": ["example"], "src_path": "/w/tool/ex.rs"},
       {"kind": ["test"], "src_path": "/w/tool/ex.rs"}
     ]}
  ],
  "workspace_members": ["root-id", "dep-id"],
  "workspace_default_members": [],
  "workspace_root": "/w",
  "target_directory": "/w/target",
  "build_directory": "/cache/build/w"
}"#;

#[test]
fn priming_touches_the_library_and_own_build_script_only() {
    let doc = read_json(METADATA.as_bytes()).unwrap();
    let packages = doc.array_at("packages").unwrap();
    assert_eq!(
        package_triggers(&packages[0], PrimeMode::Package),
        vec!["/w/src/lib.rs".to_string(), "/w/build.rs".to_string()]
    );
    assert_eq!(
        package_triggers(&packages[2], PrimeMode::Package),
        vec!["/w/tool/ex.rs".to_string()]
    );
}

#[test]
fn balanced_priming_leaves_build_scripts_alone() {
    let doc = read_json(METADATA.as_bytes()).unwrap();
    let packages = doc.array_at("packages").unwrap();
    assert_eq!(
        package_triggers(&packages[0], PrimeMode::Rustc),
        vec!["/w/src/lib.rs".to_string()]
    );
    assert_eq!(
        package_triggers(&packages[2], PrimeMode::Rustc),
        vec!["/w/tool/ex.rs".to_string()]
    );
    assert!(package_triggers(&packages[0], PrimeMode::Off).is_empty());
}

#[test]
fn the_manifest_own_package_is_selected_before_members() {
    let doc = read_json(METADATA.as_bytes()).unwrap();
    let packages = doc.array_at("packages").unwrap();
    assert_eq!(selected_packages(packages, &doc, &vec![false, true, false]), vec![1]);
    assert_eq!(selected_packages(packages, &doc, &vec![false, false, false]), vec![0, 1]);
}

#[test]
fn build_scripts_and_identities_are_read_from_packages() {
    let doc = read_json(METADATA.as_bytes()).unwrap();
    let packages = doc.array_at("packages").unwrap();
    assert!(package_has_build_script(&packages[0]));
    assert!(!package_has_build_script(&packages[2]));
    assert_eq!(package_manifest(&packages[1]), Some("/w/dep/Cargo.toml".to_string()));
    assert_eq!(
        package_identity(&packages[2]),
        Ok(("<unknown>".to_string(), "/w/tool/Cargo.toml".to_string()))
    );
    assert_eq!(target_roots(&packages[2]), vec!["/w/tool/ex.rs".to_string()]);
    let scripts = build_scripts_in(&doc).unwrap();
    let found: Vec<(String, String)> = scripts.into_iter().map(|s| (s.package, s.path)).collect();
    assert_eq!(
        found,
        vec![
            ("root".to_string(), "/w/build.rs".to_string()),
            ("dep".to_string(), "/w/dep/build.rs".to_string())
        ]
    );
}

#[test]
fn a_package_without_manifest_is_an_error() {
    let doc = read_json(br#"{"name": "lost"}"#).unwrap();
    assert_eq!(
        package_identity(&doc),
        Err("package lost did not report manifest_path".to_string())
    );
    let none = read_json(br#"{"version": 1}"#).unwrap();
    assert_eq!(
        build_scripts_in(&none).err(),
        Some("cargo metadata did not report packages".to_string())
    );
}

#[test]
fn cargo_paths_are_read_from_metadata() {
    let paths = cargo_paths("/w/Cargo.toml".to_string(), METADATA.as_bytes()).unwrap();
    assert_eq!(paths.workspace, "/w");
    assert_eq!(paths.manifest, "/w/Cargo.toml");
    assert_eq!(paths.build_directory.as_deref(), Some("/cache/build/w"));
    assert_eq!(paths.target_directory, "/w/target");
}

#[test]
fn missing_metadata_fields_and_bad_json_are_errors() {
    match cargo_paths("m".to_string(), br#"{"workspace_root": "/w"}"#) {
        Err(MetadataError::Missing(field)) => assert_eq!(field, "target_directory"),
        other => panic!("unexpected {other:?}"),
    }
    match cargo_paths("m".to_string(), b"not json") {
        Err(MetadataError::Json(_)) => {}
        other => panic!("unexpected {other:?}"),
    }
    assert_eq!(
        MetadataError::missing_message("workspace_root"),
        "cargo metadata did not report workspace_root"
    );
}

fn shape(name: &str, manifest: &str, files: usize, lines: usize, build: bool) -> PackageShape {
    PackageShape {
        name: name.to_string(),
        manifest: manifest.to_string(),
        rust_source_files: files,
        rust_lines: lines,
        has_build_script: build,
    }
}

#[test]
fn project_totals_count_each_package_once() {
    let manifests = vec![
        ManifestShape {
            manifest: "/w/Cargo.toml".to_string(),
            workspace_packages: 2,
            selected_packages: vec![shape("root", "/w/Cargo.toml", 2, 10, true)],
        },
        ManifestShape {
            manifest: "/w/app/Cargo.toml".to_string(),
            workspace_packages: 2,
            selected_packages: vec![
                shape("root", "/w/Cargo.toml", 2, 10, true),
                shape("app", "/w/app/Cargo.toml", 3, 30, false),
            ],
        },
    ];
    let rustc = RustcInfo {
        release: "1.98.0".to_string(),
        channel: RustcChannel::Stable,
        relocatable_incremental_supported: true,
    };
    let scripts = vec![
        "/w/Cargo.toml".to_string(),
        "/w/dep/Cargo.toml".to_string(),
        "/w/dep/Cargo.toml".to_string(),
    ];
    let project = summarize_project(rustc, manifests, &scripts);
    assert_eq!(project.rust_source_files, 5);
    assert_eq!(project.rust_lines, 40);
    assert_eq!(project.direct_build_scripts, 1);
    assert_eq!(project.other_local_build_scripts, 1);
    assert_eq!(project.manifests.len(), 2);
}

#[test]
fn only_json_bytes_read_as_a_document() {
    assert!(read_json(b"not json").is_none());
    let doc = read_json(br#"{"target_directory": "/w/target"}"#).unwrap();
    assert_eq!(doc.str_at("target_directory"), Some("/w/target"));
}

#[test]
fn paths_are_taken_from_a_parsed_document() {
    let doc = read_json(br#"{"workspace_root": "/w", "target_directory": "/w/target"}"#).unwrap();
    let paths = cargo_warm::cache::paths_from(&doc, "/w/Cargo.toml".to_string()).unwrap();
    assert_eq!(paths.workspace, "/w");
    assert_eq!(paths.target_directory, "/w/target");
    assert_eq!(paths.build_directory, None);
    assert_eq!(paths.manifest, "/w/Cargo.toml");
    let missing = read_json(br#"{"workspace_root": "/w"}"#).unwrap();
    match cargo_warm::cache::paths_from(&missing, "m".to_string()) {
        Err(MetadataError::Missing(field)) => assert_eq!(field, "target_directory"),
        _ => panic!("expected a missing target directory"),
    }
}
