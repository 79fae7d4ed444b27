//! Seed profiles and project configuration: the built-in `quick`, `balanced`
//! and `deep` profiles, project-defined profiles that inherit from them, and
//! the precedence of project settings and command-line overrides.
use vstd::prelude::*;

use crate::order::{is_sorted, sort_texts, views};
use crate::paths::{paths_equal, same_path};
use crate::text::str_eq;

verus! {

broadcast use vstd::seq_lib::group_to_multiset_ensures;

/// The project configuration file, relative to the Git root or workspace.
pub const DEFAULT_CONFIG_FILE: &'static str = ".agents/.cargo-warm.toml";

/// How much compiler work a seed does after forking the cache.
#[derive(Debug, Clone, Copy, PartialEq, Eq, Structural)]
pub enum PrimeMode {
    /// No priming (`none` in configuration).
    Off,
    Rustc,
    Package,
}

/// How many independent cache roots are cloned at once.
#[derive(Debug, Clone, Copy, PartialEq, Eq, Structural)]
pub enum ClonePressure {
    Auto,
    Gentle,
    Fast,
    Max,
}

impl Default for PrimeMode {
    fn default() -> (mode: Self)
        ensures
            mode == PrimeMode::Off,
    {
        PrimeMode::Off
    }
}

impl Default for ClonePressure {
    fn default() -> (pressure: Self)
        ensures
            pressure == ClonePressure::Auto,
    {
        ClonePressure::Auto
    }
}

impl PrimeMode {
    pub open spec fn spec_name(self) -> Seq<char> {
        match self {
            PrimeMode::Off => "none"@,
            PrimeMode::Rustc => "rustc"@,
            PrimeMode::Package => "package"@,
        }
    }

    /// The kebab-case name used in configuration and messages.
    pub fn as_str(&self) -> (name: &'static str)
        ensures
            name@ == self.spec_name(),
    {
        match self {
            PrimeMode::Off => "none",
            PrimeMode::Rustc => "rustc",
            PrimeMode::Package => "package",
        }
    }
}

impl ClonePressure {
    pub open spec fn spec_name(self) -> Seq<char> {
        match self {
            ClonePressure::Auto => "auto"@,
            ClonePressure::Gentle => "gentle"@,
            ClonePressure::Fast => "fast"@,
            ClonePressure::Max => "max"@,
        }
    }

    /// The kebab-case name used in configuration and messages.
    pub fn as_str(&self) -> (name: &'static str)
        ensures
            name@ == self.spec_name(),
    {
        match self {
            ClonePressure::Auto => "auto",
            ClonePressure::Gentle => "gentle",
            ClonePressure::Fast => "fast",
            ClonePressure::Max => "max",
        }
    }
}

/// Project-level clone concurrency: a pressure preset, or an explicit
/// worker count that overrides it.
#[derive(Debug, Clone, Copy, PartialEq, Eq, Structural)]
pub struct CloneSettings {
    pub pressure: ClonePressure,
    pub workers: Option<usize>,
}

impl Default for CloneSettings {
    fn default() -> (settings: Self)
        ensures
            settings.pressure == ClonePressure::Auto,
            settings.workers is None,
    {
        CloneSettings { pressure: ClonePressure::Auto, workers: None }
    }
}

/// `Ord::clamp`.
pub open spec fn clamp(v: int, lo: int, hi: int) -> int {
    if v < lo {
        lo
    } else if v > hi {
        hi
    } else {
        v
    }
}

/// The worker count a pressure preset asks for on a machine with
/// `available` hardware threads.
pub open spec fn preset_workers(pressure: ClonePressure, available: int) -> int {
    match pressure {
        ClonePressure::Auto => clamp(available / 4, 1, 4),
        ClonePressure::Gentle => 1,
        ClonePressure::Fast => 4,
        ClonePressure::Max => clamp(
            if available * 2 > usize::MAX {
                usize::MAX as int
            } else {
                available * 2
            },
            1,
            16,
        ),
    }
}

impl CloneSettings {
    pub open spec fn spec_effective_workers(self, tasks: int, available: int) -> int {
        if tasks == 0 {
            1
        } else {
            clamp(
                match self.workers {
                    Some(w) => w as int,
                    None => preset_workers(self.pressure, available),
                },
                1,
                tasks,
            )
        }
    }

    /// How many cache roots to clone at once for `tasks` roots, on a machine
    /// that reports `available` hardware threads.
    pub fn effective_workers(self, tasks: usize, available: usize) -> (workers: usize)
        ensures
            workers == self.spec_effective_workers(tasks as int, available as int),
            1 <= workers,
            tasks > 0 ==> workers <= tasks,
    {
        if tasks == 0 {
            return 1;
        }
        let workers = match self.workers {
            Some(w) => w,
            None => match self.pressure {
                ClonePressure::Auto => clamp_usize(available / 4, 1, 4),
                ClonePressure::Gentle => 1,
                ClonePressure::Fast => 4,
                ClonePressure::Max => {
                    let doubled = if available > usize::MAX / 2 {
                        usize::MAX
                    } else {
                        available * 2
                    };
                    clamp_usize(doubled, 1, 16)
                },
            },
        };
        clamp_usize(workers, 1, tasks)
    }
}

fn clamp_usize(v: usize, lo: usize, hi: usize) -> (r: usize)
    requires
        lo <= hi,
    ensures
        r as int == clamp(v as int, lo as int, hi as int),
{
    if v < lo {
        lo
    } else if v > hi {
        hi
    } else {
        v
    }
}

// ---------------------------------------------------------------------------
// Profiles
// ---------------------------------------------------------------------------

/// A resolved seed profile.
#[derive(Debug, Clone)]
pub struct SeedProfile {
    pub name: String,
    pub include_target: bool,
    pub copy_fallback: bool,
    pub freshness_rebase: bool,
    pub prime: PrimeMode,
    pub unstable_bootstrap: bool,
    pub seed_paths: Vec<String>,
}

/// What a `SeedProfile` holds, as plain values.
pub struct ProfileView {
    pub name: Seq<char>,
    pub include_target: bool,
    pub copy_fallback: bool,
    pub freshness_rebase: bool,
    pub prime: PrimeMode,
    pub unstable_bootstrap: bool,
    pub seed_paths: Seq<Seq<char>>,
}

impl View for SeedProfile {
    type V = ProfileView;

    open spec fn view(&self) -> ProfileView {
        ProfileView {
            name: self.name@,
            include_target: self.include_target,
            copy_fallback: self.copy_fallback,
            freshness_rebase: self.freshness_rebase,
            prime: self.prime,
            unstable_bootstrap: self.unstable_bootstrap,
            seed_paths: views(self.seed_paths@),
        }
    }
}

/// A profile as the project configuration defines it: each field it sets
/// overrides the profile it inherits from.
#[derive(Debug, Clone)]
pub struct ProfileDefinition {
    pub inherits: Option<String>,
    pub include_target: Option<bool>,
    pub copy_fallback: Option<bool>,
    pub freshness_rebase: Option<bool>,
    pub prime: Option<PrimeMode>,
    pub unstable_bootstrap: Option<bool>,
    pub seed_paths: Option<Vec<String>>,
}

pub struct DefinitionView {
    pub inherits: Option<Seq<char>>,
    pub include_target: Option<bool>,
    pub copy_fallback: Option<bool>,
    pub freshness_rebase: Option<bool>,
    pub prime: Option<PrimeMode>,
    pub unstable_bootstrap: Option<bool>,
    pub seed_paths: Option<Seq<Seq<char>>>,
}

pub open spec fn opt_text(o: Option<String>) -> Option<Seq<char>> {
    match o {
        Some(s) => Some(s@),
        None => None,
    }
}

pub open spec fn opt_texts(o: Option<Vec<String>>) -> Option<Seq<Seq<char>>> {
    match o {
        Some(v) => Some(views(v@)),
        None => None,
    }
}

impl View for ProfileDefinition {
    type V = DefinitionView;

    open spec fn view(&self) -> DefinitionView {
        DefinitionView {
            inherits: opt_text(self.inherits),
            include_target: self.include_target,
            copy_fallback: self.copy_fallback,
            freshness_rebase: self.freshness_rebase,
            prime: self.prime,
            unstable_bootstrap: self.unstable_bootstrap,
            seed_paths: opt_texts(self.seed_paths),
        }
    }
}

/// `values` appended to `target`, skipping each value whose path equals one
/// already there.
pub open spec fn append_unique(target: Seq<Seq<char>>, values: Seq<Seq<char>>) -> Seq<
    Seq<char>,
>
    decreases values.len(),
{
    if values.len() == 0 {
        target
    } else {
        let v = values[0];
        let next = if exists|i: int| 0 <= i < target.len() && same_path(target[i], v) {
            target
        } else {
            target.push(v)
        };
        append_unique(next, values.drop_first())
    }
}

fn contains_path(target: &Vec<String>, value: &String) -> (found: bool)
    ensures
        found == exists|i: int| 0 <= i < target@.len() && same_path(views(target@)[i], value@),
{
    let mut i: usize = 0;
    while i < target.len()
        invariant
            i <= target@.len(),
            forall|k: int| 0 <= k < i ==> !same_path(views(target@)[k], value@),
        decreases target@.len() - i,
    {
        if paths_equal(target[i].as_str(), value.as_str()) {
            assert(same_path(views(target@)[i as int], value@));
            return true;
        }
        i = i + 1;
    }
    false
}

/// Appends each of `values` whose path is not yet in `target`.
pub fn append_unique_paths(target: &mut Vec<String>, values: &Vec<String>)
    ensures
        views(final(target)@) == append_unique(views(old(target)@), views(values@)),
{
    let mut j: usize = 0;
    assert(views(values@).skip(0) == views(values@));
    while j < values.len()
        invariant
            j <= values@.len(),
            append_unique(views(old(target)@), views(values@)) == append_unique(
                views(target@),
                views(values@).skip(j as int),
            ),
        decreases values@.len() - j,
    {
        let ghost before = views(target@);
        let ghost rest = views(values@).skip(j as int);
        assert(rest[0] == values@[j as int]@);
        assert(rest.drop_first() == views(values@).skip(j + 1));
        if !contains_path(target, &values[j]) {
            target.push(values[j].clone());
            assert(views(target@) == before.push(values@[j as int]@));
        }
        j = j + 1;
    }
}

/// The profile a built-in name stands for, with the given prime mode.
pub open spec fn builtin_with(name: Seq<char>, prime: PrimeMode) -> ProfileView {
    ProfileView {
        name,
        include_target: false,
        copy_fallback: false,
        freshness_rebase: true,
        prime,
        unstable_bootstrap: false,
        seed_paths: seq![],
    }
}

/// `quick` primes nothing, `balanced` runs rustc, `deep` re-runs the package.
pub open spec fn builtin_profile(name: Seq<char>) -> Option<ProfileView> {
    if name == "quick"@ {
        Some(builtin_with(name, PrimeMode::Off))
    } else if name == "balanced"@ {
        Some(builtin_with(name, PrimeMode::Rustc))
    } else if name == "deep"@ {
        Some(builtin_with(name, PrimeMode::Package))
    } else {
        None
    }
}

pub open spec fn builtin_names() -> Seq<Seq<char>> {
    seq!["quick"@, "balanced"@, "deep"@]
}

/// The built-in profile called `name`, if there is one.
pub fn built_in_profile(name: &str) -> (profile: Option<SeedProfile>)
    ensures
        match builtin_profile(name@) {
            Some(p) => profile matches Some(q) && q@ == p,
            None => profile is None,
        },
{
    let prime = if str_eq(name, "quick") {
        PrimeMode::Off
    } else if str_eq(name, "balanced") {
        PrimeMode::Rustc
    } else if str_eq(name, "deep") {
        PrimeMode::Package
    } else {
        return None;
    };
    let profile = SeedProfile {
        name: String::from_str(name),
        include_target: false,
        copy_fallback: false,
        freshness_rebase: true,
        prime,
        unstable_bootstrap: false,
        seed_paths: Vec::new(),
    };
    assert(views(profile.seed_paths@) == Seq::<Seq<char>>::empty());
    Some(profile)
}

/// A profile with the fields a definition sets replaced by its values, and
/// its seed paths extended.
pub open spec fn apply_definition_spec(p: ProfileView, d: DefinitionView) -> ProfileView {
    ProfileView {
        name: p.name,
        include_target: match d.include_target {
            Some(v) => v,
            None => p.include_target,
        },
        copy_fallback: match d.copy_fallback {
            Some(v) => v,
            None => p.copy_fallback,
        },
        freshness_rebase: match d.freshness_rebase {
            Some(v) => v,
            None => p.freshness_rebase,
        },
        prime: match d.prime {
            Some(v) => v,
            None => p.prime,
        },
        unstable_bootstrap: match d.unstable_bootstrap {
            Some(v) => v,
            None => p.unstable_bootstrap,
        },
        seed_paths: match d.seed_paths {
            Some(paths) => append_unique(p.seed_paths, paths),
            None => p.seed_paths,
        },
    }
}

/// Applies the fields a profile definition sets to `profile`.
pub fn apply_definition(profile: &mut SeedProfile, definition: &ProfileDefinition)
    ensures
        final(profile)@ == apply_definition_spec(old(profile)@, definition@),
{
    if let Some(value) = definition.include_target {
        profile.include_target = value;
    }
    if let Some(value) = definition.copy_fallback {
        profile.copy_fallback = value;
    }
    if let Some(value) = definition.freshness_rebase {
        profile.freshness_rebase = value;
    }
    if let Some(value) = definition.prime {
        profile.prime = value;
    }
    if let Some(value) = definition.unstable_bootstrap {
        profile.unstable_bootstrap = value;
    }
    if let Some(paths) = &definition.seed_paths {
        append_unique_paths(&mut profile.seed_paths, paths);
    }
}


// ---------------------------------------------------------------------------
// The project's profile table
// ---------------------------------------------------------------------------

/// The names of a table's entries, in order.
pub open spec fn entry_names(e: Seq<(Seq<char>, DefinitionView)>) -> Seq<Seq<char>> {
    e.map_values(|p: (Seq<char>, DefinitionView)| p.0)
}

/// The definition a table holds for `k`.
pub open spec fn lookup(e: Seq<(Seq<char>, DefinitionView)>, k: Seq<char>) -> Option<DefinitionView>
    decreases e.len(),
{
    if e.len() == 0 {
        None
    } else if e[0].0 == k {
        Some(e[0].1)
    } else {
        lookup(e.drop_first(), k)
    }
}

pub proof fn lemma_lookup_names(e: Seq<(Seq<char>, DefinitionView)>, k: Seq<char>)
    ensures
        lookup(e, k) is Some <==> entry_names(e).contains(k),
    decreases e.len(),
{
    if e.len() > 0 {
        lemma_lookup_names(e.drop_first(), k);
        assert(entry_names(e.drop_first()) == entry_names(e).drop_first());
        if entry_names(e).contains(k) && e[0].0 != k {
            let i = choose|i: int| 0 <= i < entry_names(e).len() && entry_names(e)[i] == k;
            assert(entry_names(e.drop_first())[i - 1] == k);
        }
        if entry_names(e.drop_first()).contains(k) {
            let i = choose|i: int|
                0 <= i < entry_names(e.drop_first()).len() && entry_names(e.drop_first())[i] == k;
            assert(entry_names(e)[i + 1] == k);
        }
        if e[0].0 == k {
            assert(entry_names(e)[0] == k);
        }
    }
}

/// The profiles a project defines, by name, one definition per name (its
/// type invariant), as a `BTreeMap` keyed by name would hold them. A
/// `std::collections::BTreeMap<String, _>` is not used: vstd specifies it only
/// for keys that obey its ordering model (`obeys_cmp`), which `String` does
/// not provide, so nothing about its contents could be proved.
#[derive(Debug)]
pub struct ProfileTable {
    entries: Vec<(String, ProfileDefinition)>,
}

impl View for ProfileTable {
    type V = Seq<(Seq<char>, DefinitionView)>;

    closed spec fn view(&self) -> Seq<(Seq<char>, DefinitionView)> {
        self.entries@.map_values(|e: (String, ProfileDefinition)| (e.0@, e.1@))
    }
}

impl ProfileTable {
    #[verifier::type_invariant]
    closed spec fn distinct_names(self) -> bool {
        entry_names(self@).no_duplicates()
    }

    /// An empty table.
    pub fn new() -> (table: Self)
        ensures
            table@ == Seq::<(Seq<char>, DefinitionView)>::empty(),
    {
        let table = ProfileTable { entries: Vec::new() };
        assert(table@ == Seq::<(Seq<char>, DefinitionView)>::empty());
        table
    }

    /// The number of profiles defined.
    pub fn len(&self) -> (n: usize)
        ensures
            n == self@.len(),
    {
        self.entries.len()
    }

    fn position_of(&self, name: &str) -> (r: Option<usize>)
        ensures
            r matches Some(i) ==> i < self@.len() && self@[i as int].0 == name@,
            r is None ==> !entry_names(self@).contains(name@),
    {
        let mut i: usize = 0;
        while i < self.entries.len()
            invariant
                i <= self.entries@.len(),
                forall|k: int| 0 <= k < i ==> #[trigger] self@[k].0 != name@,
            decreases self.entries@.len() - i,
        {
            if str_eq(self.entries[i].0.as_str(), name) {
                return Some(i);
            }
            i = i + 1;
        }
        assert forall|k: int| 0 <= k < entry_names(self@).len() implies entry_names(self@)[k]
            != name@ by {
            assert(entry_names(self@)[k] == self@[k].0);
        }
        None
    }

    /// The definition of the profile `name`, if the project defines one.
    pub fn get(&self, name: &str) -> (r: Option<&ProfileDefinition>)
        ensures
            match lookup(self@, name@) {
                Some(d) => r matches Some(x) && x@ == d,
                None => r is None,
            },
    {
        proof {
            use_type_invariant(self);
        }
        match self.position_of(name) {
            Some(i) => {
                proof {
                    lemma_lookup_at(self@, i as int);
                }
                Some(&self.entries[i].1)
            },
            None => {
                proof {
                    lemma_lookup_names(self@, name@);
                }
                None
            },
        }
    }

    /// The names of the defined profiles (each once).
    pub fn names(&self) -> (names: Vec<String>)
        ensures
            views(names@) == entry_names(self@),
            views(names@).no_duplicates(),
    {
        proof {
            use_type_invariant(self);
        }
        let mut names: Vec<String> = Vec::new();
        let mut i: usize = 0;
        while i < self.entries.len()
            invariant
                i <= self.entries@.len(),
                views(names@) == entry_names(self@).take(i as int),
            decreases self.entries@.len() - i,
        {
            let name = self.entries[i].0.clone();
            assert(name@ == self@[i as int].0);
            assert(entry_names(self@)[i as int] == self@[i as int].0);
            let ghost prev = views(names@);
            names.push(name);
            assert(views(names@) == prev.push(name@));
            assert(entry_names(self@).take(i + 1) == entry_names(self@).take(i as int).push(
                entry_names(self@)[i as int],
            ));
            i = i + 1;
        }
        assert(entry_names(self@).take(self@.len() as int) == entry_names(self@));
        names
    }

    /// Defines (or redefines) the profile `name`.
    pub fn insert(&mut self, name: String, definition: ProfileDefinition)
        ensures
            forall|k: Seq<char>| #[trigger]
                lookup(final(self)@, k) == if k == name@ {
                    Some(definition@)
                } else {
                    lookup(old(self)@, k)
                },
            entry_names(final(self)@).to_set() == entry_names(old(self)@).to_set().insert(name@),
    {
        proof {
            use_type_invariant(&*self);
        }
        let ghost before = self@;
        let mut entries: Vec<(String, ProfileDefinition)> = Vec::new();
        std::mem::swap(&mut entries, &mut self.entries);
        let ghost name_view = name@;
        let ghost def_view = definition@;
        match position_in(&entries, name.as_str()) {
            Some(i) => {
                entries.set(i, (name, definition));
                proof {
                    let e = entries@.map_values(|e: (String, ProfileDefinition)| (e.0@, e.1@));
                    assert(e == before.update(i as int, (name_view, def_view)));
                    lemma_lookup_update(before, i as int, name_view, def_view);
                    assert(entry_names(e) == entry_names(before));
                    assert(entry_names(before)[i as int] == name_view);
                    assert(entry_names(before).to_set().insert(name_view) =~= entry_names(
                        before,
                    ).to_set());
                }
            },
            None => {
                entries.push((name, definition));
                proof {
                    let e = entries@.map_values(|e: (String, ProfileDefinition)| (e.0@, e.1@));
                    assert(e == before.push((name_view, def_view)));
                    lemma_lookup_push(before, name_view, def_view);
                    assert(entry_names(e) == entry_names(before).push(name_view));
                    entry_names(before).lemma_push_to_set_commute(name_view);
                    assert(entry_names(e).no_duplicates()) by {
                        assert forall|a: int, b: int|
                            0 <= a < entry_names(e).len() && 0 <= b < entry_names(e).len() && a
                                != b implies entry_names(e)[a] != entry_names(e)[b] by {
                            if a == before.len() as int {
                                assert(entry_names(before)[b] == entry_names(e)[b]);
                            } else if b == before.len() as int {
                                assert(entry_names(before)[a] == entry_names(e)[a]);
                            }
                        }
                    }
                }
            },
        }
        self.entries = entries;
    }
}

fn position_in(entries: &Vec<(String, ProfileDefinition)>, name: &str) -> (r: Option<usize>)
    requires
        entry_names(entries@.map_values(|e: (String, ProfileDefinition)| (e.0@, e.1@))).no_duplicates(),
    ensures
        r matches Some(i) ==> i < entries@.len() && entries@[i as int].0@ == name@,
        r is None ==> !entry_names(
            entries@.map_values(|e: (String, ProfileDefinition)| (e.0@, e.1@)),
        ).contains(name@),
{
    let ghost e = entries@.map_values(|e: (String, ProfileDefinition)| (e.0@, e.1@));
    let mut i: usize = 0;
    while i < entries.len()
        invariant
            i <= entries@.len(),
            e == entries@.map_values(|e: (String, ProfileDefinition)| (e.0@, e.1@)),
            forall|k: int| 0 <= k < i ==> #[trigger] e[k].0 != name@,
        decreases entries@.len() - i,
    {
        if str_eq(entries[i].0.as_str(), name) {
            return Some(i);
        }
        i = i + 1;
    }
    assert forall|k: int| 0 <= k < entry_names(e).len() implies entry_names(e)[k] != name@ by {
        assert(entry_names(e)[k] == e[k].0);
    }
    None
}

proof fn lemma_lookup_at(e: Seq<(Seq<char>, DefinitionView)>, i: int)
    requires
        0 <= i < e.len(),
        entry_names(e).no_duplicates(),
    ensures
        lookup(e, e[i].0) == Some(e[i].1),
    decreases e.len(),
{
    if i > 0 {
        let t = e.drop_first();
        assert(entry_names(t) == entry_names(e).drop_first());
        assert(entry_names(e)[0] != entry_names(e)[i]);
        lemma_lookup_at(t, i - 1);
    }
}

proof fn lemma_lookup_update_at(
    e: Seq<(Seq<char>, DefinitionView)>,
    i: int,
    n: Seq<char>,
    d: DefinitionView,
    k: Seq<char>,
)
    requires
        0 <= i < e.len(),
        e[i].0 == n,
        entry_names(e).no_duplicates(),
    ensures
        lookup(e.update(i, (n, d)), k) == if k == n {
            Some(d)
        } else {
            lookup(e, k)
        },
    decreases e.len(),
{
    let u = e.update(i, (n, d));
    if i == 0 {
        assert(u.drop_first() == e.drop_first());
        assert(u[0] == (n, d));
    } else {
        let t = e.drop_first();
        assert(entry_names(t) == entry_names(e).drop_first());
        assert(entry_names(e)[0] == e[0].0);
        assert(entry_names(e)[i] == e[i].0);
        assert(entry_names(e)[0] != entry_names(e)[i]);
        lemma_lookup_update_at(t, i - 1, n, d, k);
        assert(u.drop_first() == t.update(i - 1, (n, d)));
        assert(u[0] == e[0]);
    }
}

proof fn lemma_lookup_update(
    e: Seq<(Seq<char>, DefinitionView)>,
    i: int,
    n: Seq<char>,
    d: DefinitionView,
)
    requires
        0 <= i < e.len(),
        e[i].0 == n,
        entry_names(e).no_duplicates(),
    ensures
        forall|k: Seq<char>| #[trigger]
            lookup(e.update(i, (n, d)), k) == if k == n {
                Some(d)
            } else {
                lookup(e, k)
            },
{
    assert forall|k: Seq<char>| #[trigger]
        lookup(e.update(i, (n, d)), k) == if k == n {
            Some(d)
        } else {
            lookup(e, k)
        } by {
        lemma_lookup_update_at(e, i, n, d, k);
    }
}

proof fn lemma_lookup_push_at(
    e: Seq<(Seq<char>, DefinitionView)>,
    n: Seq<char>,
    d: DefinitionView,
    k: Seq<char>,
)
    requires
        !entry_names(e).contains(n),
    ensures
        lookup(e.push((n, d)), k) == if k == n {
            Some(d)
        } else {
            lookup(e, k)
        },
    decreases e.len(),
{
    let u = e.push((n, d));
    if e.len() == 0 {
        assert(u.drop_first() == Seq::<(Seq<char>, DefinitionView)>::empty());
        assert(lookup(u.drop_first(), k) is None);
        assert(u[0] == (n, d));
    } else {
        let t = e.drop_first();
        assert(entry_names(t) == entry_names(e).drop_first());
        assert(entry_names(e)[0] == e[0].0);
        if entry_names(t).contains(n) {
            let j = choose|j: int| 0 <= j < entry_names(t).len() && entry_names(t)[j] == n;
            assert(entry_names(e)[j + 1] == n);
        }
        if e[0].0 == n {
            assert(entry_names(e)[0] == n);
        }
        lemma_lookup_push_at(t, n, d, k);
        assert(u.drop_first() == t.push((n, d)));
        assert(u[0] == e[0]);
    }
}

proof fn lemma_lookup_push(e: Seq<(Seq<char>, DefinitionView)>, n: Seq<char>, d: DefinitionView)
    requires
        !entry_names(e).contains(n),
    ensures
        forall|k: Seq<char>| #[trigger]
            lookup(e.push((n, d)), k) == if k == n {
                Some(d)
            } else {
                lookup(e, k)
            },
{
    assert forall|k: Seq<char>| #[trigger]
        lookup(e.push((n, d)), k) == if k == n {
            Some(d)
        } else {
            lookup(e, k)
        } by {
        lemma_lookup_push_at(e, n, d, k);
    }
}

// ---------------------------------------------------------------------------
// Project configuration and profile resolution
// ---------------------------------------------------------------------------

/// `.agents/.cargo-warm.toml`, as read.
#[derive(Debug)]
pub struct ProjectConfig {
    pub version: Option<u32>,
    pub default_profile: Option<String>,
    pub manifests: Option<Vec<String>>,
    pub unstable_bootstrap: Option<bool>,
    pub seed_paths: Option<Vec<String>>,
    pub clone_pressure: Option<ClonePressure>,
    pub clone_workers: Option<usize>,
    pub profiles: ProfileTable,
}

impl Default for ProjectConfig {
    /// The configuration of a project without a configuration file.
    fn default() -> (config: Self)
        ensures
            config.version is None,
            config.default_profile is None,
            config.manifests is None,
            config.unstable_bootstrap is None,
            config.seed_paths is None,
            config.clone_pressure is None,
            config.clone_workers is None,
            config.profiles@.len() == 0,
    {
        ProjectConfig {
            version: None,
            default_profile: None,
            manifests: None,
            unstable_bootstrap: None,
            seed_paths: None,
            clone_pressure: None,
            clone_workers: None,
            profiles: ProfileTable::new(),
        }
    }
}

/// Why a configuration or profile could not be used.
#[derive(Debug)]
pub enum ConfigError {
    /// No built-in or project profile has this name; `available` lists the
    /// known names in order.
    UnknownProfile { name: String, available: Vec<String> },
    /// Profiles inherit from each other in a loop; `chain` ends with the
    /// name that closed it.
    InheritanceCycle { chain: Vec<String> },
    /// `clone-workers` was set to 0.
    ZeroCloneWorkers,
    /// The configuration file declares a version other than 1.
    UnsupportedVersion(u32),
}

/// Why a profile name did not resolve.
pub enum ProfileFailure {
    Unknown(Seq<char>),
    Cycle(Seq<Seq<char>>),
}

/// The resolution stack holds distinct names of defined profiles.
pub open spec fn stack_ok(defs: Seq<(Seq<char>, DefinitionView)>, stack: Seq<Seq<char>>) -> bool {
    &&& stack.no_duplicates()
    &&& forall|i: int| 0 <= i < stack.len() ==> entry_names(defs).contains(#[trigger] stack[i])
}

pub proof fn lemma_stack_len(defs: Seq<(Seq<char>, DefinitionView)>, stack: Seq<Seq<char>>)
    requires
        stack_ok(defs, stack),
    ensures
        stack.len() <= defs.len(),
{
    stack.unique_seq_to_set();
    entry_names(defs).lemma_cardinality_of_set();
    assert(stack.to_set().subset_of(entry_names(defs).to_set())) by {
        assert forall|x: Seq<char>| stack.to_set().contains(x) implies entry_names(
            defs,
        ).to_set().contains(x) by {
            let i = choose|i: int| 0 <= i < stack.len() && stack[i] == x;
            assert(entry_names(defs).contains(stack[i]));
        }
    }
    vstd::set_lib::lemma_len_subset(stack.to_set(), entry_names(defs).to_set());
}

/// Resolves profile `name` while the profiles on `stack` are being
/// resolved: a definition that inherits resolves its parent first, a
/// definition without a parent starts from the built-in profile of the same
/// name (or `quick`), and the definition's own fields then apply.
pub open spec fn resolve_from(
    name: Seq<char>,
    defs: Seq<(Seq<char>, DefinitionView)>,
    stack: Seq<Seq<char>>,
) -> Result<ProfileView, ProfileFailure>
    decreases defs.len() - stack.len(),
    when stack_ok(defs, stack)
{
    if stack.contains(name) {
        Err(ProfileFailure::Cycle(stack.push(name)))
    } else {
        let inner = stack.push(name);
        let base = match lookup(defs, name) {
            Some(def) => match def.inherits {
                Some(parent) => {
                    proof {
                        lemma_lookup_names(defs, name);
                        assert(stack_ok(defs, inner));
                        lemma_stack_len(defs, inner);
                    }
                    resolve_from(parent, defs, inner)
                },
                None => match builtin_profile(name) {
                    Some(b) => Ok(b),
                    None => Ok(builtin_with("quick"@, PrimeMode::Off)),
                },
            },
            None => match builtin_profile(name) {
                Some(b) => Ok(b),
                None => Err(ProfileFailure::Unknown(name)),
            },
        };
        match base {
            Ok(p) => {
                let applied = match lookup(defs, name) {
                    Some(def) => apply_definition_spec(p, def),
                    None => p,
                };
                Ok(ProfileView { name, ..applied })
            },
            Err(e) => Err(e),
        }
    }
}

/// Resolves a profile name from scratch.
pub open spec fn resolve(name: Seq<char>, defs: Seq<(Seq<char>, DefinitionView)>) -> Result<
    ProfileView,
    ProfileFailure,
> {
    resolve_from(name, defs, seq![])
}

/// `available` is the sorted list of every name a project knows: the
/// built-in names and the names it defines.
pub open spec fn is_listing(available: Seq<Seq<char>>, defs: Seq<(Seq<char>, DefinitionView)>) -> bool {
    &&& is_sorted(available)
    &&& available.to_multiset() == (builtin_names() + entry_names(defs)).to_multiset()
}

/// A library error stands for a resolution failure.
pub open spec fn error_matches(
    e: ConfigError,
    f: ProfileFailure,
    defs: Seq<(Seq<char>, DefinitionView)>,
) -> bool {
    match f {
        ProfileFailure::Unknown(n) => e matches ConfigError::UnknownProfile { name, available }
            && name@ == n && is_listing(views(available@), defs),
        ProfileFailure::Cycle(c) => e matches ConfigError::InheritanceCycle { chain } && views(
            chain@,
        ) == c,
    }
}

/// The known profile names, unsorted: the built-in ones, then the project's.
pub fn available_names(project: &ProjectConfig) -> (names: Vec<String>)
    ensures
        views(names@) == builtin_names() + entry_names(project.profiles@),
{
    let mut names: Vec<String> = Vec::new();
    names.push(String::from_str("quick"));
    names.push(String::from_str("balanced"));
    names.push(String::from_str("deep"));
    let ghost start = views(names@);
    assert(start == builtin_names());
    let defined = project.profiles.names();
    let mut i: usize = 0;
    while i < defined.len()
        invariant
            i <= defined@.len(),
            views(names@) == builtin_names() + views(defined@).take(i as int),
        decreases defined@.len() - i,
    {
        let ghost prev = views(names@);
        names.push(defined[i].clone());
        assert(views(names@) == prev.push(defined@[i as int]@));
        assert(views(defined@).take(i + 1) == views(defined@).take(i as int).push(
            defined@[i as int]@,
        ));
        i = i + 1;
    }
    assert(views(defined@).take(defined@.len() as int) == views(defined@));
    names
}

fn quick_profile() -> (profile: SeedProfile)
    ensures
        profile@ == builtin_with("quick"@, PrimeMode::Off),
{
    let profile = SeedProfile {
        name: String::from_str("quick"),
        include_target: false,
        copy_fallback: false,
        freshness_rebase: true,
        prime: PrimeMode::Off,
        unstable_bootstrap: false,
        seed_paths: Vec::new(),
    };
    assert(views(profile.seed_paths@) == Seq::<Seq<char>>::empty());
    profile
}

fn stack_contains(stack: &Vec<String>, name: &str) -> (found: bool)
    ensures
        found == views(stack@).contains(name@),
{
    let mut i: usize = 0;
    while i < stack.len()
        invariant
            i <= stack@.len(),
            forall|k: int| 0 <= k < i ==> views(stack@)[k] != name@,
        decreases stack@.len() - i,
    {
        if str_eq(stack[i].as_str(), name) {
            assert(views(stack@)[i as int] == name@);
            return true;
        }
        i = i + 1;
    }
    false
}

/// Resolves `name` with the profiles on `stack` in progress.
pub fn resolve_profile_inner(name: &str, project: &ProjectConfig, stack: &mut Vec<String>) -> (r:
    Result<SeedProfile, ConfigError>)
    requires
        stack_ok(project.profiles@, views(old(stack)@)),
    ensures
        match resolve_from(name@, project.profiles@, views(old(stack)@)) {
            Ok(p) => r matches Ok(q) && q@ == p && views(final(stack)@) == views(old(stack)@),
            Err(f) => r matches Err(e) && error_matches(e, f, project.profiles@),
        },
    decreases project.profiles@.len() - old(stack)@.len(),
{
    let ghost defs = project.profiles@;
    let ghost before = views(stack@);
    if stack_contains(stack, name) {
        stack.push(String::from_str(name));
        assert(views(stack@) == before.push(name@));
        return Err(ConfigError::InheritanceCycle { chain: stack.clone() });
    }
    stack.push(String::from_str(name));
    assert(views(stack@) == before.push(name@));
    let definition = project.profiles.get(name);
    let mut profile = match definition {
        Some(def) => match &def.inherits {
            Some(parent) => {
                proof {
                    lemma_lookup_names(defs, name@);
                    assert(stack_ok(defs, views(stack@)));
                    lemma_stack_len(defs, views(stack@));
                }
                match resolve_profile_inner(parent.as_str(), project, stack) {
                    Ok(p) => p,
                    Err(e) => return Err(e),
                }
            },
            None => match built_in_profile(name) {
                Some(b) => b,
                None => quick_profile(),
            },
        },
        None => match built_in_profile(name) {
            Some(b) => b,
            None => {
                let available = sort_texts(available_names(project));
                return Err(ConfigError::UnknownProfile { name: String::from_str(name), available });
            },
        },
    };
    if let Some(def) = definition {
        apply_definition(&mut profile, def);
    }
    profile.name = String::from_str(name);
    let ghost pushed = stack@;
    assert(views(pushed) == before.push(name@));
    stack.pop();
    assert(stack@ == pushed.drop_last());
    assert(views(stack@) == views(pushed).drop_last());
    assert(views(stack@) == before);
    Ok(profile)
}

/// Resolves the profile `name` against the project's definitions.
pub fn resolve_profile(name: &str, project: &ProjectConfig) -> (r: Result<SeedProfile, ConfigError>)
    ensures
        match resolve(name@, project.profiles@) {
            Ok(p) => r matches Ok(q) && q@ == p,
            Err(f) => r matches Err(e) && error_matches(e, f, project.profiles@),
        },
{
    let mut stack: Vec<String> = Vec::new();
    assert(views(stack@) == Seq::<Seq<char>>::empty());
    resolve_profile_inner(name, project, &mut stack)
}

// ---------------------------------------------------------------------------
// Seed configuration
// ---------------------------------------------------------------------------

/// What the command line asks of one seed (or doctor) invocation.
#[derive(Debug)]
pub struct SeedOverrides {
    pub profile: Option<String>,
    pub config: Option<String>,
    pub manifests: Vec<String>,
    pub include_target: bool,
    pub copy_fallback: bool,
    pub seed_paths: Vec<String>,
    pub disable_freshness_rebase: bool,
    pub legacy_prime: bool,
    pub prime_mode: Option<PrimeMode>,
    pub unstable_bootstrap: bool,
    pub clone_pressure: Option<ClonePressure>,
    pub clone_workers: Option<usize>,
}

impl Default for SeedOverrides {
    /// No overrides at all.
    fn default() -> (o: Self)
        ensures
            o.profile is None,
            o.config is None,
            o.manifests@.len() == 0,
            !o.include_target,
            !o.copy_fallback,
            o.seed_paths@.len() == 0,
            !o.disable_freshness_rebase,
            !o.legacy_prime,
            o.prime_mode is None,
            !o.unstable_bootstrap,
            o.clone_pressure is None,
            o.clone_workers is None,
    {
        SeedOverrides {
            profile: None,
            config: None,
            manifests: Vec::new(),
            include_target: false,
            copy_fallback: false,
            seed_paths: Vec::new(),
            disable_freshness_rebase: false,
            legacy_prime: false,
            prime_mode: None,
            unstable_bootstrap: false,
            clone_pressure: None,
            clone_workers: None,
        }
    }
}

/// The configuration one seed runs with.
#[derive(Debug, Clone)]
pub struct EffectiveSeedConfig {
    pub config_path: Option<String>,
    pub profile: SeedProfile,
    pub clone: CloneSettings,
    pub manifests: Vec<String>,
}

/// The profile a seed asks for: the command line's, else the project's
/// default, else `quick`.
pub open spec fn selected_profile_name(project: ProjectConfig, o: SeedOverrides) -> Seq<char> {
    match o.profile {
        Some(p) => p@,
        None => match project.default_profile {
            Some(d) => d@,
            None => "quick"@,
        },
    }
}

/// Project-level settings applied on top of the resolved profile.
pub open spec fn with_project_settings(p: ProfileView, project: ProjectConfig) -> ProfileView {
    ProfileView {
        unstable_bootstrap: match project.unstable_bootstrap {
            Some(v) => v,
            None => p.unstable_bootstrap,
        },
        seed_paths: match project.seed_paths {
            Some(paths) => append_unique(p.seed_paths, views(paths@)),
            None => p.seed_paths,
        },
        ..p
    }
}

/// Command-line settings applied last: they win over the profile and the
/// project.
pub open spec fn with_overrides(p: ProfileView, o: SeedOverrides) -> ProfileView {
    ProfileView {
        include_target: p.include_target || o.include_target,
        copy_fallback: p.copy_fallback || o.copy_fallback,
        freshness_rebase: p.freshness_rebase && !o.disable_freshness_rebase,
        prime: match o.prime_mode {
            Some(m) => m,
            None => if o.legacy_prime {
                PrimeMode::Package
            } else {
                p.prime
            },
        },
        unstable_bootstrap: p.unstable_bootstrap || o.unstable_bootstrap,
        seed_paths: append_unique(p.seed_paths, views(o.seed_paths@)),
        ..p
    }
}

/// Clone settings: the command line's, else the project's, per field.
pub open spec fn resolved_clone(project: ProjectConfig, o: SeedOverrides) -> CloneSettings {
    CloneSettings {
        pressure: match o.clone_pressure {
            Some(p) => p,
            None => match project.clone_pressure {
                Some(p) => p,
                None => ClonePressure::Auto,
            },
        },
        workers: match o.clone_workers {
            Some(w) => Some(w),
            None => project.clone_workers,
        },
    }
}

/// The manifests to seed: the command line's, else the project's, else
/// `Cargo.toml` (also when the project lists none).
pub open spec fn resolved_manifests(project: ProjectConfig, o: SeedOverrides) -> Seq<Seq<char>> {
    if o.manifests@.len() > 0 {
        views(o.manifests@)
    } else {
        match project.manifests {
            Some(m) => if m@.len() == 0 {
                seq!["Cargo.toml"@]
            } else {
                views(m@)
            },
            None => seq!["Cargo.toml"@],
        }
    }
}

/// Resolves the configuration of one seed from the project configuration
/// (read from `config_path`, if any) and the command-line overrides.
pub fn resolve_seed(config_path: Option<String>, project: ProjectConfig, overrides: SeedOverrides) -> (r:
    Result<EffectiveSeedConfig, ConfigError>)
    ensures
        match resolve(selected_profile_name(project, overrides), project.profiles@) {
            Ok(base) => if resolved_clone(project, overrides).workers == Some(0usize) {
                r matches Err(ConfigError::ZeroCloneWorkers)
            } else {
                r matches Ok(e) && opt_text(e.config_path) == opt_text(config_path) && e.profile@
                    == with_overrides(with_project_settings(base, project), overrides) && e.clone
                    == resolved_clone(project, overrides) && views(e.manifests@)
                    == resolved_manifests(project, overrides)
            },
            Err(f) => r matches Err(e) && error_matches(e, f, project.profiles@),
        },
{
    let selected = match &overrides.profile {
        Some(p) => p.clone(),
        None => match &project.default_profile {
            Some(d) => d.clone(),
            None => String::from_str("quick"),
        },
    };
    let mut profile = match resolve_profile(selected.as_str(), &project) {
        Ok(p) => p,
        Err(e) => return Err(e),
    };
    let ghost base = profile@;
    if let Some(value) = project.unstable_bootstrap {
        profile.unstable_bootstrap = value;
    }
    if let Some(paths) = &project.seed_paths {
        append_unique_paths(&mut profile.seed_paths, paths);
    }
    assert(profile@ == with_project_settings(base, project));
    let ghost adjusted = profile@;
    if overrides.include_target {
        profile.include_target = true;
    }
    if overrides.copy_fallback {
        profile.copy_fallback = true;
    }
    if overrides.disable_freshness_rebase {
        profile.freshness_rebase = false;
    }
    if overrides.legacy_prime {
        profile.prime = PrimeMode::Package;
    }
    if let Some(mode) = overrides.prime_mode {
        profile.prime = mode;
    }
    if overrides.unstable_bootstrap {
        profile.unstable_bootstrap = true;
    }
    append_unique_paths(&mut profile.seed_paths, &overrides.seed_paths);
    assert(profile@ == with_overrides(adjusted, overrides));

    let clone = CloneSettings {
        pressure: match overrides.clone_pressure {
            Some(p) => p,
            None => match project.clone_pressure {
                Some(p) => p,
                None => ClonePressure::Auto,
            },
        },
        workers: match overrides.clone_workers {
            Some(w) => Some(w),
            None => project.clone_workers,
        },
    };
    if clone.workers == Some(0usize) {
        return Err(ConfigError::ZeroCloneWorkers);
    }

    let manifests = if overrides.manifests.len() > 0 {
        overrides.manifests
    } else {
        match project.manifests {
            Some(m) => if m.len() == 0 {
                let mut d: Vec<String> = Vec::new();
                d.push(String::from_str("Cargo.toml"));
                assert(views(d@) == seq!["Cargo.toml"@]);
                d
            } else {
                m
            },
            None => {
                let mut d: Vec<String> = Vec::new();
                d.push(String::from_str("Cargo.toml"));
                assert(views(d@) == seq!["Cargo.toml"@]);
                d
            },
        }
    };
    Ok(EffectiveSeedConfig { config_path, profile, clone, manifests })
}

/// Accepts a project configuration whose declared version (if any) is 1.
pub fn validate_project_config(project: &ProjectConfig) -> (r: Result<(), ConfigError>)
    ensures
        match project.version {
            Some(v) => if v == 1 {
                r is Ok
            } else {
                r matches Err(ConfigError::UnsupportedVersion(w)) && w == v
            },
            None => r is Ok,
        },
{
    match project.version {
        Some(v) => if v != 1 {
            Err(ConfigError::UnsupportedVersion(v))
        } else {
            Ok(())
        },
        None => Ok(()),
    }
}

pub open spec fn is_builtin_name(n: Seq<char>) -> bool {
    builtin_names().contains(n)
}

/// The names `doctor` lists: the built-in ones, then the project's other
/// profiles in sorted order.
pub fn available_profile_names(project: &ProjectConfig) -> (names: Vec<String>)
    ensures
        names@.len() >= 3,
        views(names@).take(3) == builtin_names(),
        is_sorted(views(names@).skip(3)),
        views(names@).skip(3).to_multiset() == entry_names(project.profiles@).filter(
            |n: Seq<char>| !is_builtin_name(n),
        ).to_multiset(),
{
    let defined = project.profiles.names();
    let ghost keep = |n: Seq<char>| !is_builtin_name(n);
    let mut custom: Vec<String> = Vec::new();
    let mut i: usize = 0;
    assert(views(defined@).take(0).filter(keep) == Seq::<Seq<char>>::empty()) by {
        reveal_with_fuel(Seq::filter, 1);
    }
    while i < defined.len()
        invariant
            i <= defined@.len(),
            keep == (|n: Seq<char>| !is_builtin_name(n)),
            views(custom@) == views(defined@).take(i as int).filter(keep),
        decreases defined@.len() - i,
    {
        let name = defined[i].as_str();
        let ghost nv = defined@[i as int]@;
        assert(views(defined@).take(i + 1) == views(defined@).take(i as int).push(nv));
        proof {
            views(defined@).take(i as int).lemma_filter_push(nv, keep);
        }
        if !(str_eq(name, "quick") || str_eq(name, "balanced") || str_eq(name, "deep")) {
            assert(!is_builtin_name(nv)) by {
                if builtin_names().contains(nv) {
                    let k = choose|k: int| 0 <= k < 3 && builtin_names()[k] == nv;
                }
            }
            let ghost prev = views(custom@);
            custom.push(defined[i].clone());
            assert(views(custom@) == prev.push(nv));
        } else {
            assert(is_builtin_name(nv)) by {
                if nv == "quick"@ {
                    assert(builtin_names()[0] == nv);
                } else if nv == "balanced"@ {
                    assert(builtin_names()[1] == nv);
                } else {
                    assert(builtin_names()[2] == nv);
                }
            }
        }
        i = i + 1;
    }
    assert(views(defined@).take(defined@.len() as int) == views(defined@));
    let sorted = sort_texts(custom);
    let mut names: Vec<String> = Vec::new();
    names.push(String::from_str("quick"));
    names.push(String::from_str("balanced"));
    names.push(String::from_str("deep"));
    assert(views(names@) == builtin_names());
    let mut j: usize = 0;
    while j < sorted.len()
        invariant
            j <= sorted@.len(),
            views(names@) == builtin_names() + views(sorted@).take(j as int),
        decreases sorted@.len() - j,
    {
        let ghost prev = views(names@);
        names.push(sorted[j].clone());
        assert(views(names@) == prev.push(sorted@[j as int]@));
        assert(views(sorted@).take(j + 1) == views(sorted@).take(j as int).push(sorted@[j as int]@));
        j = j + 1;
    }
    assert(views(sorted@).take(sorted@.len() as int) == views(sorted@));
    assert(views(names@).skip(3) == views(sorted@));
    assert(views(names@).take(3) == builtin_names());
    names
}

impl ConfigError {
    pub open spec fn spec_message(&self) -> Seq<char> {
        match self {
            ConfigError::UnknownProfile { name, available } => "unknown cargo-warm profile `"@
                + name@ + "`; available profiles: "@ + crate::text::join(views(available@), ", "@),
            ConfigError::InheritanceCycle { chain } => "cargo-warm profile inheritance cycle: "@
                + crate::text::join(views(chain@), " -> "@),
            ConfigError::ZeroCloneWorkers => "clone-workers must be at least 1"@,
            ConfigError::UnsupportedVersion(v) => "unsupported cargo-warm config version "@
                + crate::numbers::decimal(*v as nat) + "; expected version = 1"@,
        }
    }

    /// The message the command line shows for this error.
    pub fn message(&self) -> (text: String)
        ensures
            text@ == self.spec_message(),
    {
        match self {
            ConfigError::UnknownProfile { name, available } => {
                let mut text = String::from_str("unknown cargo-warm profile `");
                text.append(name.as_str());
                text.append("`; available profiles: ");
                let listed = crate::text::join_texts(available, ", ");
                text.append(listed.as_str());
                text
            },
            ConfigError::InheritanceCycle { chain } => {
                let mut text = String::from_str("cargo-warm profile inheritance cycle: ");
                let listed = crate::text::join_texts(chain, " -> ");
                text.append(listed.as_str());
                text
            },
            ConfigError::ZeroCloneWorkers => String::from_str("clone-workers must be at least 1"),
            ConfigError::UnsupportedVersion(v) => {
                let mut text = String::from_str("unsupported cargo-warm config version ");
                let number = crate::numbers::decimal_string(*v as u64);
                text.append(number.as_str());
                text.append("; expected version = 1");
                text
            },
        }
    }
}

} // verus!
