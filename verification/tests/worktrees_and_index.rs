use cargo_warm::git::{
    best_source_worktree, is_candidate, parse_commit_count, parse_worktree_list, rank_candidates,
    rank_entry, RankedCandidate, WorktreeEntry,
};
use cargo_warm::index::{
    dirty_tracked_paths, nul_records_of, tracked_index_entries, triage_index, PathTable,
};

const PORCELAIN: &str = "worktree /repo/main\nHEAD aaaa\nbranch refs/heads/main\n\nworktree /repo/feature\nHEAD bbbb\nbranch refs/heads/feature\n\nworktree /repo/detached\nHEAD cccc\ndetached\n";

#[test]
fn worktree_list_is_read_block_by_block() {
    let entries = parse_worktree_list(PORCELAIN);
    assert_eq!(entries.len(), 3);
    assert_eq!(entries[0].path, "/repo/main");
    assert_eq!(entries[0].head, "aaaa");
    assert_eq!(entries[0].branch.as_deref(), Some("refs/heads/main"));
    assert_eq!(entries[1].path, "/repo/feature");
    assert_eq!(entries[2].branch, None);
}

#[test]
fn worktree_block_without_head_is_skipped() {
    let entries = parse_worktree_list("worktree /repo/bare\nbare\n\nworktree /repo/a\nHEAD 1234\n");
    assert_eq!(entries.len(), 1);
    assert_eq!(entries[0].path, "/repo/a");
}

fn entry(path: &str, branch: Option<&str>) -> WorktreeEntry {
    WorktreeEntry {
        path: path.to_string(),
        head: "h".to_string(),
        branch: branch.map(str::to_string),
    }
}

#[test]
fn exact_clean_worktree_ranks_first() {
    let candidates = vec![
        rank_entry(entry("/r/dirty", None), true, None),
        rank_entry(entry("/r/far", Some("refs/heads/main")), false, Some((3, 1))),
        rank_entry(entry("/r/exact", None), false, None),
    ];
    let ranked = rank_candidates(candidates);
    assert_eq!(ranked[0].path, "/r/exact");
    assert_eq!(ranked[0].reason, "exact revision");
    assert_eq!(ranked[1].path, "/r/dirty");
    assert_eq!(ranked[1].reason, "exact revision, dirty");
    assert_eq!(ranked[2].path, "/r/far");
    assert_eq!(ranked[2].reason, "nearby branch, 3+1 commit(s) from merge base");
}

#[test]
fn nearby_sibling_beats_a_distant_main() {
    let candidates = vec![
        rank_entry(entry("/r/main", Some("refs/heads/main")), false, Some((0, 5))),
        rank_entry(entry("/r/sibling", Some("refs/heads/sibling")), false, Some((1, 1))),
    ];
    let best = best_source_worktree(candidates).unwrap();
    assert_eq!(best.path, "/r/sibling");
    assert!(best.reason.starts_with("nearby branch"));
}

#[test]
fn main_only_breaks_ties_and_ties_keep_their_order() {
    let candidates = vec![
        rank_entry(entry("/r/one", None), false, Some((2, 0))),
        rank_entry(entry("/r/two", None), false, Some((0, 2))),
        rank_entry(entry("/r/main", Some("refs/heads/main")), false, Some((1, 1))),
    ];
    let ranked = rank_candidates(candidates);
    assert_eq!(ranked[0].path, "/r/main");
    assert_eq!(ranked[1].path, "/r/one");
    assert_eq!(ranked[1].reason, "descendant 2 commit(s) ahead");
    assert_eq!(ranked[2].path, "/r/two");
    assert_eq!(ranked[2].reason, "ancestor 2 commit(s) behind");
}

#[test]
fn no_candidate_means_no_source() {
    let none: Vec<RankedCandidate> = Vec::new();
    assert!(best_source_worktree(none).is_none());
}

#[test]
fn the_destination_itself_is_no_candidate() {
    assert!(!is_candidate("/r/a", "/r/a", true));
    assert!(!is_candidate("/r/b", "/r/a", false));
    assert!(is_candidate("/r/b", "/r/a", true));
}

#[test]
fn commit_counts_are_trimmed_numbers() {
    assert_eq!(parse_commit_count("12\n"), Some(12));
    assert_eq!(parse_commit_count(" 0 "), Some(0));
    assert_eq!(parse_commit_count("x"), None);
}

#[test]
fn nul_records_skip_empty_ones() {
    let records = nul_records_of(b"a\0\0bc\0");
    assert_eq!(records, vec![b"a".to_vec(), b"bc".to_vec()]);
}

fn index(records: &[&str]) -> PathTable {
    let mut bytes = Vec::new();
    for r in records {
        bytes.extend_from_slice(r.as_bytes());
        bytes.push(0);
    }
    tracked_index_entries(&bytes)
}

#[test]
fn index_entries_keep_stage_zero_by_path() {
    let table = index(&[
        "100644 1111 0\tsrc/lib.rs",
        "100644 2222 1\tconflict.rs",
        "100644 3333 0\tREADME.md",
        "garbage",
    ]);
    assert_eq!(table.len(), 2);
    assert_eq!(table.get(&b"src/lib.rs".to_vec()).map(String::as_str), Some("1111"));
    assert_eq!(table.get(&b"README.md".to_vec()).map(String::as_str), Some("3333"));
    assert!(table.get(&b"conflict.rs".to_vec()).is_none());
}

#[test]
fn triage_only_offers_clean_identical_entries() {
    let source = index(&[
        "100644 aaaa 0\tsame.rs",
        "100644 bbbb 0\tchanged.rs",
        "100644 cccc 0\tdirty.rs",
        "100644 dddd 0\tonly-source.rs",
    ]);
    let destination = index(&[
        "100644 aaaa 0\tsame.rs",
        "100644 ffff 0\tchanged.rs",
        "100644 cccc 0\tdirty.rs",
    ]);
    let source_dirty = dirty_tracked_paths(b"dirty.rs\0", b"");
    let destination_dirty = dirty_tracked_paths(b"", b"");
    let triage = triage_index(&source, &destination, &source_dirty, &destination_dirty);
    assert_eq!(triage.missing, 1);
    assert_eq!(triage.dirty, 1);
    assert_eq!(triage.different, 1);
    assert_eq!(triage.candidates, vec![b"same.rs".to_vec()]);
}

#[test]
fn staged_changes_count_as_dirty() {
    let dirty = dirty_tracked_paths(b"a.rs\0", b"b.rs\0a.rs\0");
    assert!(dirty.contains(&b"a.rs".to_vec()));
    assert!(dirty.contains(&b"b.rs".to_vec()));
    assert!(!dirty.contains(&b"c.rs".to_vec()));
    assert_eq!(dirty.len(), 2);
}
