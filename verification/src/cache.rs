//! Cargo's cache locations and the registry of cache roots cargo-warm
//! created: reading `cargo metadata`, deciding whether and how to clone a
//! cache root, and keeping the registry's records.
use vstd::prelude::*;

use crate::json::{json_document, parse_json, str_at, Json};
use crate::numbers::{parse_unsigned, parse_unsigned_of};
use crate::paths::{paths_equal, same_path};
use crate::text::{chars_of, lines, lines_of, str_eq, string_of, texts};

verus! {

broadcast use vstd::seq_lib::group_to_multiset_ensures;

/// Where Cargo keeps one manifest's state.
#[derive(Debug, Clone)]
pub struct CargoPaths {
    pub workspace: String,
    pub manifest: String,
    pub build_directory: Option<String>,
    pub target_directory: String,
}

/// The two kinds of cache root cargo-warm forks.
#[derive(Debug, Clone, Copy, PartialEq, Eq, Structural)]
pub enum CacheKind {
    Build,
    Target,
}

/// A cache root cargo-warm created.
#[derive(Debug, Clone)]
pub struct SeedRecord {
    pub workspace: String,
    pub source_workspace: String,
    pub manifest: String,
    pub kind: CacheKind,
    pub path: String,
    pub created_unix_seconds: u64,
}

/// Every cache root cargo-warm created (`state.json`).
#[derive(Debug)]
pub struct Registry {
    pub schema: u32,
    pub records: Vec<SeedRecord>,
}

/// How a cache root is copied.
#[derive(Debug, Clone, Copy, PartialEq, Eq, Structural)]
pub enum CloneStrategy {
    MacClone,
    LinuxReflink,
    PhysicalCopy,
}

/// The operating system the program runs on, as far as cloning is concerned.
#[derive(Debug, Clone, Copy, PartialEq, Eq, Structural)]
pub enum Platform {
    MacOs,
    Linux,
    Other,
}

/// Why `cargo metadata` output could not be used.
#[derive(Debug)]
pub enum MetadataError {
    /// The output is not JSON.
    Json(serde_json::Error),
    /// A field the library needs (named) is missing or not a string or list.
    Missing(String),
}

impl MetadataError {
    pub open spec fn missing_field(&self) -> Option<Seq<char>> {
        match self {
            MetadataError::Missing(f) => Some(f@),
            MetadataError::Json(_) => None,
        }
    }
}

/// The paths Cargo reports in a metadata document.
pub open spec fn paths_in(doc: Json, manifest: Seq<char>) -> Result<
    (Seq<char>, Seq<char>, Option<Seq<char>>, Seq<char>),
    Seq<char>,
> {
    match str_at(doc, "workspace_root"@) {
        None => Err("workspace_root"@),
        Some(root) => match str_at(doc, "target_directory"@) {
            None => Err("target_directory"@),
            Some(target) => Ok((root, manifest, str_at(doc, "build_directory"@), target)),
        },
    }
}

impl CargoPaths {
    pub open spec fn fields(&self) -> (Seq<char>, Seq<char>, Option<Seq<char>>, Seq<char>) {
        (
            self.workspace@,
            self.manifest@,
            match self.build_directory {
                Some(b) => Some(b@),
                None => None,
            },
            self.target_directory@,
        )
    }
}

/// The workspace root, build directory and target directory a parsed
/// `cargo metadata` document reports for `manifest`.
pub fn paths_from(doc: &Json, manifest: String) -> (r: Result<CargoPaths, MetadataError>)
    ensures
        match paths_in(*doc, manifest@) {
            Ok(fields) => r matches Ok(p) && p.fields() == fields,
            Err(key) => r matches Err(e) && e.missing_field() == Some(key),
        },
{
    let workspace = match doc.str_at("workspace_root") {
        Some(s) => String::from_str(s),
        None => return Err(MetadataError::Missing(String::from_str("workspace_root"))),
    };
    let target_directory = match doc.str_at("target_directory") {
        Some(s) => String::from_str(s),
        None => return Err(MetadataError::Missing(String::from_str("target_directory"))),
    };
    let build_directory = match doc.str_at("build_directory") {
        Some(s) => Some(String::from_str(s)),
        None => None,
    };
    Ok(CargoPaths { workspace, manifest, build_directory, target_directory })
}

/// Reads the workspace root, build directory and target directory that
/// `cargo metadata --format-version 1 --no-deps` printed for `manifest`.
pub fn cargo_paths(manifest: String, output: &[u8]) -> (r: Result<CargoPaths, MetadataError>)
    ensures
        match json_document(output@) {
            None => r matches Err(MetadataError::Json(_)),
            Some(doc) => match paths_in(doc, manifest@) {
                Ok(fields) => r matches Ok(p) && p.fields() == fields,
                Err(key) => r matches Err(e) && e.missing_field() == Some(key),
            },
        },
{
    match parse_json(output) {
        Ok(doc) => paths_from(&doc, manifest),
        Err(e) => Err(MetadataError::Json(e)),
    }
}

impl MetadataError {
    /// The message the command line shows for a missing field (a JSON error
    /// shows `serde_json`'s own text).
    pub fn missing_message(field: &str) -> (text: String)
        ensures
            text@ == "cargo metadata did not report "@ + field@,
    {
        let mut text = String::from_str("cargo metadata did not report ");
        text.append(field);
        text
    }
}

// ---------------------------------------------------------------------------
// Cloning
// ---------------------------------------------------------------------------

/// Why a cache root cannot be cloned on this platform.
#[derive(Debug, Clone, Copy, PartialEq, Eq, Structural)]
pub enum CloneError {
    /// No copy-on-write clone here, and a physical copy was not allowed.
    NoCopyOnWrite,
}

impl CloneError {
    pub fn message(&self) -> (text: &'static str)
        ensures
            text@
                == "copy-on-write cloning is not implemented for this platform; pass --copy-fallback to opt into a physical copy"@,
    {
        "copy-on-write cloning is not implemented for this platform; pass --copy-fallback to opt into a physical copy"
    }
}

/// macOS clones with APFS, Linux with reflinks; elsewhere only an explicit
/// copy fallback allows a physical copy.
pub fn clone_strategy(platform: Platform, copy_fallback: bool) -> (r: Result<CloneStrategy, CloneError>)
    ensures
        platform == Platform::MacOs ==> r == Ok::<CloneStrategy, CloneError>(CloneStrategy::MacClone),
        platform == Platform::Linux ==> r == Ok::<CloneStrategy, CloneError>(CloneStrategy::LinuxReflink),
        platform == Platform::Other && copy_fallback ==> r == Ok::<CloneStrategy, CloneError>(
            CloneStrategy::PhysicalCopy,
        ),
        platform == Platform::Other && !copy_fallback ==> r == Err::<CloneStrategy, CloneError>(
            CloneError::NoCopyOnWrite,
        ),
{
    match platform {
        Platform::MacOs => Ok(CloneStrategy::MacClone),
        Platform::Linux => Ok(CloneStrategy::LinuxReflink),
        Platform::Other => if copy_fallback {
            Ok(CloneStrategy::PhysicalCopy)
        } else {
            Err(CloneError::NoCopyOnWrite)
        },
    }
}

pub open spec fn copy_flags_spec(strategy: CloneStrategy) -> Seq<Seq<char>> {
    match strategy {
        CloneStrategy::MacClone => seq!["-cR"@],
        CloneStrategy::LinuxReflink => seq!["-a"@, "--reflink=always"@],
        CloneStrategy::PhysicalCopy => seq!["-a"@],
    }
}

/// The `cp` flags that copy a directory with a strategy.
pub fn copy_flags(strategy: CloneStrategy) -> (flags: Vec<&'static str>)
    ensures
        flags@.map_values(|f: &'static str| f@) == copy_flags_spec(strategy),
{
    let mut flags: Vec<&'static str> = Vec::new();
    match strategy {
        CloneStrategy::MacClone => {
            flags.push("-cR");
        },
        CloneStrategy::LinuxReflink => {
            flags.push("-a");
            flags.push("--reflink=always");
        },
        CloneStrategy::PhysicalCopy => {
            flags.push("-a");
        },
    }
    assert(flags@.map_values(|f: &'static str| f@) == copy_flags_spec(strategy));
    flags
}

/// What to do with one cache root.
#[derive(Debug, Clone, Copy, PartialEq, Eq, Structural)]
pub enum SeedStep {
    /// Source and destination are the same directory: refuse to share it.
    RefuseShared,
    /// There is no source cache: nothing to clone.
    SkipMissingSource,
    /// The destination exists already: leave it alone.
    SkipExistingDestination,
    /// Clone it.
    Clone,
}

/// Decides what to do with a cache root from its two paths and what the
/// file system says about them.
pub fn seed_step(source_path: &str, destination_path: &str, source_is_dir: bool, destination_exists: bool) -> (step: SeedStep)
    ensures
        step == if same_path(source_path@, destination_path@) {
            SeedStep::RefuseShared
        } else if !source_is_dir {
            SeedStep::SkipMissingSource
        } else if destination_exists {
            SeedStep::SkipExistingDestination
        } else {
            SeedStep::Clone
        },
{
    if paths_equal(source_path, destination_path) {
        SeedStep::RefuseShared
    } else if !source_is_dir {
        SeedStep::SkipMissingSource
    } else if destination_exists {
        SeedStep::SkipExistingDestination
    } else {
        SeedStep::Clone
    }
}

// ---------------------------------------------------------------------------
// The registry
// ---------------------------------------------------------------------------

/// The records that do not stand for the cache root at `path`.
pub open spec fn without_path(records: Seq<SeedRecord>, path: Seq<char>) -> Seq<SeedRecord> {
    records.filter(|r: SeedRecord| !same_path(r.path@, path))
}

/// Why the registry file cannot be used.
#[derive(Debug, Clone, Copy, PartialEq, Eq, Structural)]
pub enum RegistryError {
    UnsupportedSchema(u32),
    /// Neither `XDG_CACHE_HOME` nor `HOME` is set.
    NoHome,
}

impl RegistryError {
    pub open spec fn spec_message(&self) -> Seq<char> {
        match self {
            RegistryError::UnsupportedSchema(n) => "unsupported cargo-warm registry schema "@
                + crate::numbers::decimal(*n as nat),
            RegistryError::NoHome => "HOME is not set"@,
        }
    }

    pub fn message(&self) -> (text: String)
        ensures
            text@ == self.spec_message(),
    {
        match self {
            RegistryError::UnsupportedSchema(n) => {
                let mut text = String::from_str("unsupported cargo-warm registry schema ");
                let number = crate::numbers::decimal_string(*n as u64);
                text.append(number.as_str());
                text
            },
            RegistryError::NoHome => String::from_str("HOME is not set"),
        }
    }
}

/// Where the registry lives: under `XDG_CACHE_HOME` if it is set, else
/// under `HOME`. The answer is a base directory and the path below it.
pub fn registry_location(xdg_cache_home: Option<String>, home: Option<String>) -> (r: Result<(String, &'static str), RegistryError>)
    ensures
        match xdg_cache_home {
            Some(x) => r matches Ok((base, rel)) && base@ == x@ && rel@ == "cargo-warm/state.json"@,
            None => match home {
                Some(h) => r matches Ok((base, rel)) && base@ == h@ && rel@
                    == ".cache/cargo-warm/state.json"@,
                None => r == Err::<(String, &'static str), RegistryError>(RegistryError::NoHome),
            },
        },
{
    match xdg_cache_home {
        Some(x) => Ok((x, "cargo-warm/state.json")),
        None => match home {
            Some(h) => Ok((h, ".cache/cargo-warm/state.json")),
            None => Err(RegistryError::NoHome),
        },
    }
}

impl Registry {
    /// The registry before anything was seeded.
    pub fn empty() -> (registry: Self)
        ensures
            registry.schema == 1,
            registry.records@.len() == 0,
    {
        Registry { schema: 1, records: Vec::new() }
    }

    /// Accepts a registry read from disk if its schema is 1.
    pub fn checked(self) -> (r: Result<Registry, RegistryError>)
        ensures
            self.schema == 1 ==> (r matches Ok(reg) && reg.schema == self.schema && reg.records@
                == self.records@),
            self.schema != 1 ==> r == Err::<Registry, RegistryError>(
                RegistryError::UnsupportedSchema(self.schema),
            ),
    {
        if self.schema != 1 {
            Err(RegistryError::UnsupportedSchema(self.schema))
        } else {
            Ok(self)
        }
    }

    /// Records a new cache root, replacing any record of the same path.
    pub fn register(&mut self, record: SeedRecord)
        ensures
            final(self).schema == old(self).schema,
            final(self).records@ == without_path(old(self).records@, record.path@).push(record),
    {
        let ghost old_records = self.records@;
        let ghost keep = |r: SeedRecord| !same_path(r.path@, record.path@);
        let mut i: usize = 0;
        let ghost mut k: int = 0;
        assert(old_records.take(0).filter(keep) == Seq::<SeedRecord>::empty()) by {
            reveal_with_fuel(Seq::filter, 1);
        }
        assert(old_records.skip(0) == old_records);
        while i < self.records.len()
            invariant
                0 <= k <= old_records.len(),
                i <= self.records@.len(),
                keep == (|r: SeedRecord| !same_path(r.path@, record.path@)),
                self.records@.take(i as int) == old_records.take(k).filter(keep),
                self.records@.skip(i as int) == old_records.skip(k),
                self.schema == old(self).schema,
            decreases self.records@.len() - i,
        {
            let ghost before = self.records@;
            assert(before.skip(i as int).len() == old_records.skip(k).len());
            assert(k < old_records.len());
            let ghost item = old_records[k];
            assert(old_records.skip(k)[0] == item);
            assert(before.skip(i as int)[0] == item);
            assert(before[i as int] == item);
            assert(old_records.take(k + 1) == old_records.take(k).push(item));
            proof {
                old_records.take(k).lemma_filter_push(item, keep);
            }
            if paths_equal(self.records[i].path.as_str(), record.path.as_str()) {
                self.records.remove(i);
                assert(self.records@.take(i as int) == before.take(i as int));
                assert(self.records@.skip(i as int) == before.skip(i + 1));
                assert(before.skip(i + 1) == before.skip(i as int).drop_first());
                assert(old_records.skip(k + 1) == old_records.skip(k).drop_first());
            } else {
                assert(self.records@.take(i + 1) == before.take(i as int).push(item));
                assert(before.skip(i + 1) == before.skip(i as int).drop_first());
                assert(old_records.skip(k + 1) == old_records.skip(k).drop_first());
                i = i + 1;
            }
            proof {
                k = k + 1;
            }
        }
        assert(self.records@.take(i as int) == self.records@);
        assert(old_records.skip(k).len() == 0);
        assert(old_records.take(k) == old_records);
        self.records.push(record);
    }
}

// ---------------------------------------------------------------------------
// Command output
// ---------------------------------------------------------------------------

/// The worktree blocks of `git worktree list --porcelain` that check out
/// `main`, by path, in order.
pub open spec fn main_worktrees_from(ls: Seq<Seq<char>>, current: Option<Seq<char>>) -> Seq<Seq<char>>
    decreases ls.len(),
{
    if ls.len() == 0 {
        seq![]
    } else {
        let line = ls[0];
        let rest = ls.drop_first();
        match crate::text::strip_prefix(line, "worktree "@) {
            Some(path) => main_worktrees_from(rest, Some(path)),
            None => if line == "branch refs/heads/main"@ && current is Some {
                seq![current->Some_0] + main_worktrees_from(rest, None)
            } else if line.len() == 0 {
                main_worktrees_from(rest, None)
            } else {
                main_worktrees_from(rest, current)
            },
        }
    }
}

pub open spec fn main_worktrees(porcelain: Seq<char>) -> Seq<Seq<char>> {
    main_worktrees_from(lines(porcelain), None)
}

/// The paths of the worktrees that `git worktree list --porcelain` lists on
/// branch `main`, in the order it lists them.
pub fn main_worktree_candidates(porcelain: &str) -> (paths: Vec<String>)
    ensures
        crate::order::views(paths@) == main_worktrees(porcelain@),
{
    let chars = chars_of(porcelain);
    let ls = lines_of(&chars);
    let prefix = chars_of("worktree ");
    let main_branch = chars_of("branch refs/heads/main");
    let mut current: Option<Vec<char>> = None;
    let mut out: Vec<String> = Vec::new();
    let mut i: usize = 0;
    assert(texts(ls@).skip(0) == texts(ls@));
    while i < ls.len()
        invariant
            i <= ls@.len(),
            texts(ls@) == lines(porcelain@),
            prefix@ == "worktree "@,
            main_branch@ == "branch refs/heads/main"@,
            main_worktrees(porcelain@) == crate::order::views(out@) + main_worktrees_from(
                texts(ls@).skip(i as int),
                match current {
                    Some(c) => Some(c@),
                    None => None,
                },
            ),
        decreases ls@.len() - i,
    {
        let ghost rest = texts(ls@).skip(i as int);
        assert(rest[0] == ls@[i as int]@);
        assert(rest.drop_first() == texts(ls@).skip(i + 1));
        let line = &ls[i];
        match crate::text::strip_prefix_of(line, &prefix) {
            Some(path) => {
                current = Some(path);
            },
            None => {
                if crate::text::same_chars(line, &main_branch) && current.is_some() {
                    let path = match current {
                        Some(p) => p,
                        None => Vec::new(),
                    };
                    let ghost prev = crate::order::views(out@);
                    let s = string_of(&path);
                    out.push(s);
                    assert(crate::order::views(out@) == prev + seq![path@]);
                    current = None;
                } else if line.len() == 0 {
                    current = None;
                }
            },
        }
        i = i + 1;
    }
    assert(crate::order::views(out@) + Seq::<Seq<char>>::empty() == crate::order::views(out@));
    out
}

/// Why `df -Pk` output did not give an available-space figure.
#[derive(Debug, Clone)]
pub enum DfError {
    NoRows,
    NoAvailableColumn,
    InvalidCount(String),
}

/// The fourth whitespace-separated field of the last line, parsed as a
/// count of kibibytes.
pub open spec fn df_available(text: Seq<char>) -> Result<nat, Option<Seq<char>>> {
    let ls = lines(text);
    if ls.len() == 0 {
        Err(None)
    } else {
        let fields = crate::text::words(ls.last());
        if fields.len() < 4 {
            Err(Some(seq![]))
        } else {
            match parse_unsigned(fields[3], u64::MAX as nat) {
                Some(n) => Ok(n),
                None => Err(Some(fields[3])),
            }
        }
    }
}

/// Reads the available kibibytes from `df -Pk` output.
pub fn parse_df_available(text: &str) -> (r: Result<u64, DfError>)
    ensures
        match df_available(text@) {
            Ok(n) => r matches Ok(v) && v == n,
            Err(None) => r matches Err(DfError::NoRows),
            Err(Some(f)) => if f.len() == 0 && crate::text::words(lines(text@).last()).len() < 4 {
                r matches Err(DfError::NoAvailableColumn)
            } else {
                r matches Err(DfError::InvalidCount(s)) && s@ == f
            },
        },
{
    let chars = chars_of(text);
    let ls = lines_of(&chars);
    if ls.len() == 0 {
        return Err(DfError::NoRows);
    }
    let last = &ls[ls.len() - 1];
    let fields = crate::text::words_of(last);
    if fields.len() < 4 {
        return Err(DfError::NoAvailableColumn);
    }
    match parse_unsigned_of(&fields[3], u64::MAX) {
        Some(n) => Ok(n),
        None => Err(DfError::InvalidCount(string_of(&fields[3]))),
    }
}


// ---------------------------------------------------------------------------
// Messages of a seed
// ---------------------------------------------------------------------------

impl CacheKind {
    /// The kind as `{:?}` shows it.
    pub open spec fn spec_label(self) -> Seq<char> {
        match self {
            CacheKind::Build => "Build"@,
            CacheKind::Target => "Target"@,
        }
    }

    pub fn label(&self) -> (text: &'static str)
        ensures
            text@ == self.spec_label(),
    {
        match self {
            CacheKind::Build => "Build",
            CacheKind::Target => "Target",
        }
    }
}

/// What a seed step that does not clone says (or refuses with).
pub open spec fn step_message(kind: CacheKind, step: SeedStep, source: Seq<char>, destination: Seq<char>) -> Seq<char> {
    match step {
        SeedStep::RefuseShared => "refusing shared mutable "@ + kind.spec_label() + " directory: "@
            + source,
        SeedStep::SkipMissingSource => "cargo-warm: "@ + kind.spec_label()
            + " source does not exist, skipping "@ + source,
        SeedStep::SkipExistingDestination => "cargo-warm: "@ + kind.spec_label()
            + " destination already exists, leaving untouched: "@ + destination,
        SeedStep::Clone => "cargo-warm: seeding "@ + kind.spec_label() + ": "@ + source + " -> "@
            + destination,
    }
}

/// The line a seed step reports: the refusal for a shared directory, the
/// notice for a skipped one, or the clone it starts.
pub fn seed_step_message(kind: CacheKind, step: SeedStep, source: &str, destination: &str) -> (text: String)
    ensures
        text@ == step_message(kind, step, source@, destination@),
{
    match step {
        SeedStep::RefuseShared => {
            let mut t = String::from_str("refusing shared mutable ");
            t.append(kind.label());
            t.append(" directory: ");
            t.append(source);
            t
        },
        SeedStep::SkipMissingSource => {
            let mut t = String::from_str("cargo-warm: ");
            t.append(kind.label());
            t.append(" source does not exist, skipping ");
            t.append(source);
            t
        },
        SeedStep::SkipExistingDestination => {
            let mut t = String::from_str("cargo-warm: ");
            t.append(kind.label());
            t.append(" destination already exists, leaving untouched: ");
            t.append(destination);
            t
        },
        SeedStep::Clone => {
            let mut t = String::from_str("cargo-warm: seeding ");
            t.append(kind.label());
            t.append(": ");
            t.append(source);
            t.append(" -> ");
            t.append(destination);
            t
        },
    }
}

/// The name of the temporary directory a clone is written to before it is
/// renamed into place: `.cargo-warm-<name>-<pid>`, with `cache` for a path
/// without a final name.
pub open spec fn temp_name(file_name: Option<Seq<char>>, pid: nat) -> Seq<char> {
    ".cargo-warm-"@ + match file_name {
        Some(n) => n,
        None => "cache"@,
    } + "-"@ + crate::numbers::decimal(pid)
}

pub fn temp_clone_name(file_name: Option<&str>, pid: u32) -> (name: String)
    ensures
        name@ == temp_name(
            match file_name {
                Some(n) => Some(n@),
                None => None,
            },
            pid as nat,
        ),
{
    let mut t = String::from_str(".cargo-warm-");
    match file_name {
        Some(n) => t.append(n),
        None => t.append("cache"),
    }
    t.append("-");
    t.append(crate::numbers::decimal_string(pid as u64).as_str());
    t
}

// ---------------------------------------------------------------------------
// Quiescence and toolchains
// ---------------------------------------------------------------------------

/// The process ids `pgrep` printed: its non-blank lines, trimmed.
pub open spec fn pids_in(ls: Seq<Seq<char>>) -> Seq<Seq<char>>
    decreases ls.len(),
{
    if ls.len() == 0 {
        seq![]
    } else {
        let rest = pids_in(ls.drop_last());
        let t = crate::text::trim(ls.last());
        if t.len() == 0 {
            rest
        } else {
            rest.push(t)
        }
    }
}

pub fn pgrep_pids(output: &str) -> (pids: Vec<String>)
    ensures
        crate::order::views(pids@) == pids_in(lines(output@)),
{
    let chars = chars_of(output);
    let ls = lines_of(&chars);
    let mut pids: Vec<String> = Vec::new();
    let mut i: usize = 0;
    while i < ls.len()
        invariant
            i <= ls@.len(),
            texts(ls@) == lines(output@),
            crate::order::views(pids@) == pids_in(texts(ls@).take(i as int)),
        decreases ls@.len() - i,
    {
        assert(texts(ls@).take(i + 1).drop_last() == texts(ls@).take(i as int));
        assert(texts(ls@).take(i + 1).last() == ls@[i as int]@);
        let t = crate::text::trim_of(&ls[i]);
        if t.len() > 0 {
            let ghost before = crate::order::views(pids@);
            pids.push(string_of(&t));
            assert(crate::order::views(pids@) == before.push(t@));
        }
        i = i + 1;
    }
    assert(texts(ls@).take(ls@.len() as int) == texts(ls@));
    pids
}

/// The working directory `lsof -Fn` reported: the first line starting with `n`, without it.
pub open spec fn lsof_name(ls: Seq<Seq<char>>) -> Option<Seq<char>>
    decreases ls.len(),
{
    if ls.len() == 0 {
        None
    } else {
        match crate::text::strip_prefix(ls[0], "n"@) {
            Some(p) => Some(p),
            None => lsof_name(ls.drop_first()),
        }
    }
}

pub fn lsof_cwd(output: &str) -> (cwd: Option<String>)
    ensures
        match lsof_name(lines(output@)) {
            Some(p) => cwd matches Some(x) && x@ == p,
            None => cwd is None,
        },
{
    let chars = chars_of(output);
    let ls = lines_of(&chars);
    let n = chars_of("n");
    let mut i: usize = 0;
    assert(texts(ls@).skip(0) == texts(ls@));
    while i < ls.len()
        invariant
            i <= ls@.len(),
            n@ == "n"@,
            texts(ls@) == lines(output@),
            lsof_name(lines(output@)) == lsof_name(texts(ls@).skip(i as int)),
        decreases ls@.len() - i,
    {
        assert(texts(ls@).skip(i as int)[0] == ls@[i as int]@);
        assert(texts(ls@).skip(i as int).drop_first() == texts(ls@).skip(i + 1));
        match crate::text::strip_prefix_of(&ls[i], &n) {
            Some(p) => {
                return Some(string_of(&p));
            },
            None => {},
        }
        i = i + 1;
    }
    None
}

/// The refusal for a workspace a compiler process is working in.
pub fn busy_message(process_name: &str, workspace: &str) -> (text: String)
    ensures
        text@ == process_name@ + " is active in "@ + workspace@
            + "; seed only from a quiescent workspace"@,
{
    let mut t = String::from_str(process_name);
    t.append(" is active in ");
    t.append(workspace);
    t.append("; seed only from a quiescent workspace");
    t
}

fn bytes_same(a: &[u8], b: &[u8]) -> (same: bool)
    ensures
        same == (a@ == b@),
{
    if a.len() != b.len() {
        return false;
    }
    let mut i: usize = 0;
    while i < a.len()
        invariant
            i <= a@.len(),
            a@.len() == b@.len(),
            forall|k: int| 0 <= k < i ==> a@[k] == b@[k],
        decreases a@.len() - i,
    {
        if a[i] != b[i] {
            return false;
        }
        i = i + 1;
    }
    assert(a@ =~= b@);
    true
}

/// Compares what a tool reported about itself in the two workspaces
/// (`cargo -V`, `rustc -vV`): the refusal when they differ.
pub fn toolchain_mismatch(tool: &str, source_output: &[u8], destination_output: &[u8]) -> (refusal: Option<String>)
    ensures
        source_output@ == destination_output@ ==> refusal is None,
        source_output@ != destination_output@ ==> (refusal matches Some(m) && m@ == tool@
            + " differs between source and destination; refusing incompatible seed"@),
{
    if bytes_same(source_output, destination_output) {
        None
    } else {
        let mut m = String::from_str(tool);
        m.append(" differs between source and destination; refusing incompatible seed");
        Some(m)
    }
}

// ---------------------------------------------------------------------------
// Status and garbage collection
// ---------------------------------------------------------------------------

/// What `status` says of a recorded cache root.
pub open spec fn record_state(path_exists: bool, workspace_exists: bool) -> Seq<char> {
    if !path_exists {
        "missing"@
    } else if !workspace_exists {
        "orphaned"@
    } else {
        "available"@
    }
}

/// `text` padded with spaces to at least `width` characters (`{:width}`).
pub open spec fn padded(text: Seq<char>, width: nat) -> Seq<char> {
    if text.len() >= width {
        text
    } else {
        text + Seq::new((width - text.len()) as nat, |i: int| ' ')
    }
}

/// One line of `cargo warm status`.
pub open spec fn status_text(state: Seq<char>, kind: CacheKind, path: Seq<char>, workspace: Seq<char>) -> Seq<char> {
    padded(state, 9) + " "@ + kind.spec_label() + " "@ + path + "  workspace="@ + workspace
}

pub fn status_line(record: &SeedRecord, path_exists: bool, workspace_exists: bool) -> (line: String)
    ensures
        line@ == status_text(
            record_state(path_exists, workspace_exists),
            record.kind,
            record.path@,
            record.workspace@,
        ),
{
    let state = if !path_exists {
        "missing"
    } else if !workspace_exists {
        "orphaned"
    } else {
        "available"
    };
    let mut line = String::from_str(state);
    let mut n: usize = state.unicode_len();
    let ghost padding_start = line@;
    while n < 9
        invariant
            n <= 9 || n == state@.len(),
            state@.len() <= n,
            line@ == padding_start + Seq::new((n - state@.len()) as nat, |i: int| ' '),
            padding_start == state@,
        decreases 9 - n,
    {
        crate::text::push_char(&mut line, ' ');
        assert(line@ =~= padding_start + Seq::new((n + 1 - state@.len()) as nat, |i: int| ' '));
        n = n + 1;
    }
    proof {
        if state@.len() >= 9 {
            assert(line@ =~= state@);
        }
    }
    line.append(" ");
    line.append(record.kind.label());
    line.append(" ");
    line.append(record.path.as_str());
    line.append("  workspace=");
    line.append(record.workspace.as_str());
    line
}

/// What `gc` does with a recorded cache root.
#[derive(Debug, Clone, Copy, PartialEq, Eq, Structural)]
pub enum GcAction {
    /// The cache root is gone: drop the record quietly.
    Forget,
    /// Its workspace still exists: keep it.
    Keep,
    /// Orphaned, and this is a dry run: report it and keep the record.
    ReportOrphan,
    /// Orphaned: remove the cache root and its record.
    RemoveOrphan,
}

/// What `gc` does with a recorded cache root: a root that is gone is
/// forgotten, one whose workspace exists is kept, an orphan is reported on
/// a dry run and removed otherwise.
pub open spec fn gc_decision(path_exists: bool, workspace_exists: bool, dry_run: bool) -> GcAction {
    if !path_exists {
        GcAction::Forget
    } else if workspace_exists {
        GcAction::Keep
    } else if dry_run {
        GcAction::ReportOrphan
    } else {
        GcAction::RemoveOrphan
    }
}

/// Decides what `gc` does with a recorded cache root.
pub fn gc_action(path_exists: bool, workspace_exists: bool, dry_run: bool) -> (action: GcAction)
    ensures
        action == gc_decision(path_exists, workspace_exists, dry_run),
{
    if !path_exists {
        GcAction::Forget
    } else if workspace_exists {
        GcAction::Keep
    } else if dry_run {
        GcAction::ReportOrphan
    } else {
        GcAction::RemoveOrphan
    }
}

/// Garbage collection is conservative: it removes a cache root only when it
/// exists, its workspace is gone, and this is not a dry run.
pub proof fn law_gc_only_removes_orphans(path_exists: bool, workspace_exists: bool, dry_run: bool)
    ensures
        gc_decision(path_exists, workspace_exists, dry_run) == GcAction::RemoveOrphan
            <==> path_exists && !workspace_exists && !dry_run,
        workspace_exists ==> gc_decision(path_exists, workspace_exists, dry_run)
            != GcAction::RemoveOrphan,
{
}

/// The line `gc` prints for an orphaned cache root.
pub fn orphan_message(record: &SeedRecord, dry_run: bool) -> (text: String)
    ensures
        text@ == "cargo-warm: "@ + (if dry_run {
            "would remove"@
        } else {
            "removing"@
        }) + " orphaned "@ + record.kind.spec_label() + " "@ + record.path@,
{
    let mut t = String::from_str("cargo-warm: ");
    if dry_run {
        t.append("would remove");
    } else {
        t.append("removing");
    }
    t.append(" orphaned ");
    t.append(record.kind.label());
    t.append(" ");
    t.append(record.path.as_str());
    t
}

} // verus!
