use cargo_warm::freshness::{
    begin_count, classify_path_directive, count_rebasable, fingerprint_package_name,
    is_path_sensitive_directive, link_artifact_name_matches, link_lib_name,
    link_search_directives, link_search_forks, link_search_wanted, mtime_sync_allowed, path_sensitive_directives, rebasable_commands,
    rebase_output_text, rebased_directive_path, record_file_check, sort_outputs, watched_paths,
    FileCheck, FreshnessReport, PathSensitiveOutput,
};
use cargo_warm::index::IndexTriage;
use cargo_warm::json::read_json;

#[test]
fn link_library_names_drop_kind_and_modifiers() {
    assert_eq!(link_lib_name("cargo:rustc-link-lib=static=example"), Some("example".to_string()));
    assert_eq!(link_lib_name("cargo::rustc-link-lib=dylib=z:+verbatim"), Some("z".to_string()));
    assert_eq!(link_lib_name("cargo:rustc-link-lib=ssl"), Some("ssl".to_string()));
    assert_eq!(link_lib_name("cargo:rustc-link-lib= "), None);
    assert_eq!(link_lib_name("cargo:rustc-link-search=/x"), None);
}

#[test]
fn linkable_artifacts_are_recognised_by_name() {
    assert!(link_artifact_name_matches("libexample.a", "example"));
    assert!(link_artifact_name_matches("libexample.so.1.2", "example"));
    assert!(link_artifact_name_matches("example.dll", "example"));
    assert!(link_artifact_name_matches("example.framework", "example"));
    assert!(!link_artifact_name_matches("libexample.cache", "example"));
    assert!(!link_artifact_name_matches("libother.a", "example"));
}

#[test]
fn only_cargo_directives_naming_the_source_are_path_sensitive() {
    assert!(is_path_sensitive_directive("cargo:rustc-link-search=/src/native", "/src"));
    assert!(is_path_sensitive_directive("cargo::rerun-if-changed=/src/a", "/src"));
    assert!(!is_path_sensitive_directive("cargo:warning=/src/a", "/src"));
    assert!(!is_path_sensitive_directive("cargo::warning=/src/a", "/src"));
    assert!(!is_path_sensitive_directive("cargo:rustc-link-search=/other", "/src"));
    assert!(!is_path_sensitive_directive("note /src", "/src"));
}

#[test]
fn relocatable_directives_point_into_the_destination() {
    assert_eq!(
        rebased_directive_path("cargo:rustc-link-search=/src/native", "/src", "/dst"),
        Ok("/dst/native".to_string())
    );
    assert_eq!(
        rebased_directive_path("cargo:rustc-env=ROOT=/src", "/src", "/dst"),
        Err("directive embeds the source checkout in an unsupported field".to_string())
    );
    assert_eq!(
        rebased_directive_path("cargo:rerun-if-changed=/elsewhere", "/src", "/dst"),
        Err("source path could not be isolated".to_string())
    );
}

#[test]
fn a_missing_destination_path_blocks_relocation() {
    let line = "cargo:rustc-link-search=/src/native";
    assert_eq!(classify_path_directive(line, "/src", "/dst", true), (true, None));
    assert_eq!(
        classify_path_directive(line, "/src", "/dst", false),
        (
            false,
            Some("equivalent destination path does not exist: /dst/native".to_string())
        )
    );
    assert_eq!(
        classify_path_directive("cargo:rustc-cfg=x=/src", "/src", "/dst", true),
        (
            false,
            Some("directive embeds the source checkout in an unsupported field".to_string())
        )
    );
}

#[test]
fn sensitive_directives_are_found_trimmed_in_order() {
    let text = "  cargo:rerun-if-changed=/src/a.rs\ncargo:warning=/src\ncargo:rustc-link-search=/src/n  \nplain\n";
    assert_eq!(
        path_sensitive_directives(text, "/src"),
        vec![
            "cargo:rerun-if-changed=/src/a.rs".to_string(),
            "cargo:rustc-link-search=/src/n".to_string()
        ]
    );
}

fn output(file: &str, command: &str, rebasable: bool) -> PathSensitiveOutput {
    PathSensitiveOutput {
        output_file: file.to_string(),
        command: command.to_string(),
        rebasable,
        reason: None,
    }
}

#[test]
fn rebasing_rewrites_only_listed_directives() {
    let text = "cargo:rerun-if-changed=/src/file.rs\ncargo:rustc-link-search=/src/native\ncargo:rustc-env=X=/src\n";
    let commands = vec![
        "cargo:rerun-if-changed=/src/file.rs".to_string(),
        "cargo:rustc-link-search=/src/native".to_string(),
    ];
    let (rewritten, count) = rebase_output_text(text, &commands, "/src", "/dst");
    assert_eq!(count, 2);
    assert_eq!(
        rewritten,
        "cargo:rerun-if-changed=/dst/file.rs\ncargo:rustc-link-search=/dst/native\ncargo:rustc-env=X=/src\n"
    );
}

#[test]
fn rebasing_without_commands_leaves_the_file_unchanged() {
    let text = "cargo:rerun-if-changed=/src/file.rs\r\nno newline at the end";
    let (rewritten, count) = rebase_output_text(text, &Vec::new(), "/src", "/dst");
    assert_eq!(count, 0);
    assert_eq!(rewritten, text);
}

#[test]
fn rebasable_commands_come_from_the_same_output_file() {
    let outputs = vec![
        output("/b/pkg/output", "cargo:rerun-if-changed=/src/a", true),
        output("/b/pkg/output", "cargo:rustc-env=/src", false),
        output("/b/other/output", "cargo:rerun-if-changed=/src/b", true),
    ];
    assert_eq!(rebasable_commands(&outputs, "/b/pkg/output"), vec!["cargo:rerun-if-changed=/src/a".to_string()]);
    assert_eq!(count_rebasable(&outputs), 2);
}

#[test]
fn link_search_paths_need_a_link_library() {
    let text = "cargo:rustc-link-lib=static=example\ncargo:rustc-link-search=native=/src/native\n";
    let (libs, searches) = link_search_directives(text, "/src");
    assert_eq!(libs, vec!["example".to_string()]);
    assert_eq!(searches, vec!["/src/native".to_string()]);
    let (libs, searches) = link_search_directives("cargo:rustc-link-search=/src/native\n", "/src");
    assert!(libs.is_empty());
    assert!(searches.is_empty());
}

#[test]
fn fingerprint_directories_name_their_package() {
    assert_eq!(fingerprint_package_name("my-pkg-0123456789abcdef"), Some("my-pkg".to_string()));
    assert_eq!(fingerprint_package_name("my-pkg-0123456789abcdeg"), None);
    assert_eq!(fingerprint_package_name("my-pkg-0123"), None);
    assert_eq!(fingerprint_package_name("nohash"), None);
}

#[test]
fn watched_paths_come_from_rerun_if_changed_entries() {
    let doc = read_json(
        br#"{"local":[{"RerunIfChanged":{"output":"x","paths":["build.rs","native/a.h",3]}},{"Precalculated":"1"}]}"#,
    )
    .unwrap();
    assert_eq!(watched_paths(&doc), vec!["build.rs".to_string(), "native/a.h".to_string()]);
    let empty = read_json(br#"{"rustc":1}"#).unwrap();
    assert!(watched_paths(&empty).is_empty());
}

#[test]
fn findings_are_sorted_by_file_then_directive_without_duplicates() {
    let found = vec![
        output("/b/z/output", "cargo:b", true),
        output("/b/a/output", "cargo:z", false),
        output("/b/z/output", "cargo:a", true),
        output("/b/a/output", "cargo:z", true),
    ];
    let sorted = sort_outputs(found);
    let keys: Vec<(String, String, bool)> = sorted
        .iter()
        .map(|o| (o.output_file.clone(), o.command.clone(), o.rebasable))
        .collect();
    assert_eq!(
        keys,
        vec![
            ("/b/a/output".to_string(), "cargo:z".to_string(), false),
            ("/b/z/output".to_string(), "cargo:a".to_string(), true),
            ("/b/z/output".to_string(), "cargo:b".to_string(), true),
        ]
    );
}

#[test]
fn paths_sort_by_component_not_by_character() {
    let found = vec![output("/b/a-b/output", "cargo:x", true), output("/b/a/output", "cargo:x", true)];
    let sorted = sort_outputs(found);
    assert_eq!(sorted[0].output_file, "/b/a/output");
    assert_eq!(sorted[1].output_file, "/b/a-b/output");
}

fn report() -> FreshnessReport {
    let mut r = FreshnessReport::empty();
    r.same_repository = true;
    r
}

#[test]
fn counting_starts_from_the_index_verdicts() {
    let mut r = report();
    r.eligible_files = 7;
    let triage = IndexTriage { missing: 1, dirty: 2, different: 3, candidates: Vec::new() };
    begin_count(&mut r, &triage, false);
    assert_eq!((r.eligible_files, r.missing_files, r.dirty_files, r.different_files), (0, 1, 2, 3));
    let mut applied = report();
    applied.dirty_files = 9;
    begin_count(&mut applied, &triage, true);
    assert_eq!(applied.dirty_files, 9);
}

#[test]
fn only_identical_bytes_are_mirrored() {
    let mut r = report();
    assert!(!record_file_check(&mut r, FileCheck::Identical, false));
    assert_eq!(r.eligible_files, 1);
    assert!(!record_file_check(&mut r, FileCheck::Differs, false));
    assert_eq!(r.different_files, 1);
    assert!(!record_file_check(&mut r, FileCheck::Unreadable, false));
    assert_eq!(r.missing_files, 1);
    assert!(!record_file_check(&mut r, FileCheck::Differs, true));
    assert!(!record_file_check(&mut r, FileCheck::NotBothFiles, true));
    assert!(record_file_check(&mut r, FileCheck::Identical, true));
    assert_eq!(r.synced_files, 1);
    assert_eq!(r.different_files, 1);
}

#[test]
fn a_blocking_directive_withholds_mtime_synchronization() {
    let mut r = report();
    r.path_sensitive_outputs = vec![output("/b/p/output", "cargo:rustc-link-search=/s/n", false)];
    assert_eq!(r.blocking_outputs(), 1);
    assert_eq!(r.rebasable_outputs(), 0);
    assert!(!mtime_sync_allowed(&r));
    r.path_sensitive_outputs[0].rebasable = true;
    assert!(mtime_sync_allowed(&r));
    r.same_repository = false;
    assert!(!mtime_sync_allowed(&r));
}

#[test]
fn only_ignored_search_state_missing_in_the_destination_is_wanted() {
    assert!(link_search_wanted("native", false, true));
    assert!(!link_search_wanted("", false, true));
    assert!(!link_search_wanted("native", true, true));
    assert!(!link_search_wanted("native", false, false));
}

#[test]
fn symlinked_search_forks_only_final_libraries_then_the_link() {
    let found = vec![
        Some(("arch/debug/libexample.a".to_string(), true)),
        Some(("arch/debug/tracked.a".to_string(), false)),
        None,
    ];
    assert_eq!(
        link_search_forks(".build/debug", &found, true),
        vec!["arch/debug/libexample.a".to_string(), ".build/debug".to_string()]
    );
    assert_eq!(
        link_search_forks("native", &found, false),
        vec!["arch/debug/libexample.a".to_string()]
    );
    assert!(link_search_forks(".build/debug", &Vec::new(), true).is_empty());
}
