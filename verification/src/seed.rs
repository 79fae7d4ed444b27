//! Seeding decisions: which cache roots to clone, whether the toolchain can
//! prime, and how `cargo warm check` runs its compiler.
use vstd::prelude::*;

use crate::cache::{CacheKind, CargoPaths};
use crate::compiler::{RustcChannel, RustcInfo};
use crate::config::PrimeMode;
use crate::paths::{file_name_of, path_file_name, paths_equal, same_path};

verus! {

/// One cache root to clone.
#[derive(Debug, Clone)]
pub struct CacheSeedTask {
    pub kind: CacheKind,
    pub source: String,
    pub destination: String,
    /// The destination manifest the root belongs to.
    pub manifest: String,
}

pub type TaskView = (CacheKind, Seq<char>, Seq<char>, Seq<char>);

impl CacheSeedTask {
    pub open spec fn view_tuple(&self) -> TaskView {
        (self.kind, self.source@, self.destination@, self.manifest@)
    }
}

pub open spec fn task_views(v: Seq<CacheSeedTask>) -> Seq<TaskView> {
    v.map_values(|t: CacheSeedTask| t.view_tuple())
}

/// Why the cache roots of two workspaces cannot be paired.
#[derive(Debug, Clone, Copy, PartialEq, Eq, Structural)]
pub enum SeedPlanError {
    /// The two sides resolved different numbers of manifests.
    ManifestCounts,
    /// A manifest has a different file name on the two sides.
    ManifestLayouts,
}

impl SeedPlanError {
    pub open spec fn spec_message(self) -> Seq<char> {
        match self {
            SeedPlanError::ManifestCounts => "source and destination resolved different manifest counts"@,
            SeedPlanError::ManifestLayouts => "source and destination manifest layouts differ"@,
        }
    }

    pub fn message(&self) -> (text: &'static str)
        ensures
            text@ == self.spec_message(),
    {
        match self {
            SeedPlanError::ManifestCounts => "source and destination resolved different manifest counts",
            SeedPlanError::ManifestLayouts => "source and destination manifest layouts differ",
        }
    }
}

/// Some task already clones into `destination`.
pub open spec fn has_destination(tasks: Seq<TaskView>, destination: Seq<char>) -> bool {
    exists|i: int| 0 <= i < tasks.len() && same_path((#[trigger] tasks[i]).2, destination)
}

/// The tasks for the manifest pairs so far, each destination cloned once:
/// a manifest's build directory when both sides report one, and its target
/// directory when asked to or when the source reports no build directory.
pub open spec fn planned(sources: Seq<CargoPaths>, destinations: Seq<CargoPaths>, include_target: bool) -> Seq<TaskView>
    decreases sources.len(),
{
    if sources.len() == 0 || destinations.len() == 0 {
        seq![]
    } else {
        let prev = planned(sources.drop_last(), destinations.drop_last(), include_target);
        let s = sources.last();
        let d = destinations.last();
        let with_build = match (s.build_directory, d.build_directory) {
            (Some(from), Some(to)) => if !has_destination(prev, to@) {
                prev.push((CacheKind::Build, from@, to@, d.manifest@))
            } else {
                prev
            },
            _ => prev,
        };
        if (include_target || s.build_directory is None) && !has_destination(
            with_build,
            d.target_directory@,
        ) {
            with_build.push((CacheKind::Target, s.target_directory@, d.target_directory@, d.manifest@))
        } else {
            with_build
        }
    }
}

/// Every manifest has the same file name on both sides.
pub open spec fn layouts_match(sources: Seq<CargoPaths>, destinations: Seq<CargoPaths>) -> bool {
    forall|i: int|
        0 <= i < sources.len() ==> file_name_of((#[trigger] sources[i]).manifest@) == file_name_of(
            destinations[i].manifest@,
        )
}

pub open spec fn plan(sources: Seq<CargoPaths>, destinations: Seq<CargoPaths>, include_target: bool) -> Result<
    Seq<TaskView>,
    SeedPlanError,
> {
    if sources.len() != destinations.len() {
        Err(SeedPlanError::ManifestCounts)
    } else if !layouts_match(sources, destinations) {
        Err(SeedPlanError::ManifestLayouts)
    } else {
        Ok(planned(sources, destinations, include_target))
    }
}

fn find_destination(tasks: &Vec<CacheSeedTask>, destination: &str) -> (found: bool)
    ensures
        found == has_destination(task_views(tasks@), destination@),
{
    let ghost v = task_views(tasks@);
    let mut i: usize = 0;
    while i < tasks.len()
        invariant
            i <= tasks@.len(),
            v == task_views(tasks@),
            forall|k: int| 0 <= k < i ==> !same_path((#[trigger] v[k]).2, destination@),
        decreases tasks@.len() - i,
    {
        assert(v[i as int] == tasks@[i as int].view_tuple());
        if paths_equal(tasks[i].destination.as_str(), destination) {
            return true;
        }
        i = i + 1;
    }
    false
}

fn copy_string(s: &String) -> (c: String)
    ensures
        c@ == s@,
{
    String::from_str(s.as_str())
}

/// The cache roots to clone for paired manifests (the source's and the
/// destination's, in the same order), each destination once.
pub fn plan_cache_tasks(sources: &Vec<CargoPaths>, destinations: &Vec<CargoPaths>, include_target: bool) -> (r: Result<Vec<CacheSeedTask>, SeedPlanError>)
    ensures
        match plan(sources@, destinations@, include_target) {
            Ok(tasks) => r matches Ok(v) && task_views(v@) == tasks,
            Err(e) => r == Err::<Vec<CacheSeedTask>, SeedPlanError>(e),
        },
{
    if sources.len() != destinations.len() {
        return Err(SeedPlanError::ManifestCounts);
    }
    let mut tasks: Vec<CacheSeedTask> = Vec::new();
    let mut i: usize = 0;
    while i < sources.len()
        invariant
            i <= sources@.len(),
            sources@.len() == destinations@.len(),
            layouts_match(sources@.take(i as int), destinations@.take(i as int)),
            task_views(tasks@) == planned(sources@.take(i as int), destinations@.take(i as int), include_target),
        decreases sources@.len() - i,
    {
        let s = &sources[i];
        let d = &destinations[i];
        let sn = path_file_name(s.manifest.as_str());
        let dn = path_file_name(d.manifest.as_str());
        let same_name = match (&sn, &dn) {
            (Some(a), Some(b)) => crate::text::str_eq(a.as_str(), b.as_str()),
            (None, None) => true,
            _ => false,
        };
        if !same_name {
            proof {
                assert(sources@[i as int] == s);
                assert(!layouts_match(sources@, destinations@)) by {
                    assert(file_name_of((sources@[i as int]).manifest@) != file_name_of(destinations@[i as int].manifest@));
                }
            }
            return Err(SeedPlanError::ManifestLayouts);
        }
        let ghost st = sources@.take(i + 1);
        let ghost dt = destinations@.take(i + 1);
        assert(st.drop_last() == sources@.take(i as int));
        assert(dt.drop_last() == destinations@.take(i as int));
        assert(st.last() == *s);
        assert(dt.last() == *d);
        let ghost prev = task_views(tasks@);
        match (&s.build_directory, &d.build_directory) {
            (Some(from), Some(to)) => {
                if !find_destination(&tasks, to.as_str()) {
                    tasks.push(CacheSeedTask {
                        kind: CacheKind::Build,
                        source: copy_string(from),
                        destination: copy_string(to),
                        manifest: copy_string(&d.manifest),
                    });
                    assert(task_views(tasks@) == prev.push((CacheKind::Build, from@, to@, d.manifest@)));
                }
            },
            _ => {},
        }
        let ghost with_build = task_views(tasks@);
        if include_target || s.build_directory.is_none() {
            if !find_destination(&tasks, d.target_directory.as_str()) {
                tasks.push(CacheSeedTask {
                    kind: CacheKind::Target,
                    source: copy_string(&s.target_directory),
                    destination: copy_string(&d.target_directory),
                    manifest: copy_string(&d.manifest),
                });
                assert(task_views(tasks@) == with_build.push(
                    (CacheKind::Target, s.target_directory@, d.target_directory@, d.manifest@),
                ));
            }
        }
        proof {
            assert forall|k: int| 0 <= k < st.len() implies file_name_of((#[trigger] st[k]).manifest@) == file_name_of(dt[k].manifest@) by {
                if k < i {
                    assert(st[k] == sources@.take(i as int)[k]);
                    assert(dt[k] == destinations@.take(i as int)[k]);
                }
            }
        }
        i = i + 1;
    }
    assert(sources@.take(sources@.len() as int) == sources@);
    assert(destinations@.take(destinations@.len() as int) == destinations@);
    Ok(tasks)
}

/// The pairs of build directories both sides report, in manifest order.
pub open spec fn build_pairs_of(sources: Seq<CargoPaths>, destinations: Seq<CargoPaths>) -> Seq<(Seq<char>, Seq<char>)>
    decreases sources.len(),
{
    if sources.len() == 0 || destinations.len() == 0 {
        seq![]
    } else {
        let rest = build_pairs_of(sources.drop_last(), destinations.drop_last());
        match (sources.last().build_directory, destinations.last().build_directory) {
            (Some(a), Some(b)) => rest.push((a@, b@)),
            _ => rest,
        }
    }
}

pub open spec fn pair_views(v: Seq<(String, String)>) -> Seq<(Seq<char>, Seq<char>)> {
    v.map_values(|p: (String, String)| (p.0@, p.1@))
}

/// The warm cache roots one manifest offers: its build directory when it
/// reports one that exists, and its target directory when that exists and is
/// seeded (asked for, or no build directory reported).
pub open spec fn seedable_roots(paths: CargoPaths, build_exists: bool, target_exists: bool, include_target: bool) -> nat {
    (if paths.build_directory is Some && build_exists { 1nat } else { 0nat })
        + (if (include_target || paths.build_directory is None) && target_exists { 1nat } else { 0nat })
}

/// The warm cache roots of the first `n` manifests.
pub open spec fn seedable_total(
    paths: Seq<CargoPaths>,
    present: Seq<(bool, bool)>,
    include_target: bool,
    n: int,
) -> nat
    decreases n,
{
    if n <= 0 {
        0
    } else {
        seedable_total(paths, present, include_target, n - 1) + seedable_roots(
            paths[n - 1],
            present[n - 1].0,
            present[n - 1].1,
            include_target,
        )
    }
}

proof fn lemma_seedable_total_bound(
    paths: Seq<CargoPaths>,
    present: Seq<(bool, bool)>,
    include_target: bool,
    n: int,
)
    requires
        0 <= n,
    ensures
        seedable_total(paths, present, include_target, n) <= 2 * n,
    decreases n,
{
    if n > 0 {
        lemma_seedable_total_bound(paths, present, include_target, n - 1);
    }
}

/// How many cache roots a worktree would seed, given for each manifest
/// whether its build directory and its target directory exist on disk.
pub fn seedable_state_count(paths: &Vec<CargoPaths>, present: &Vec<(bool, bool)>, include_target: bool) -> (count: usize)
    requires
        present@.len() == paths@.len(),
        paths@.len() <= usize::MAX / 2,
    ensures
        count == seedable_total(paths@, present@, include_target, paths@.len() as int),
{
    let mut count: usize = 0;
    let mut i: usize = 0;
    while i < paths.len()
        invariant
            i <= paths@.len(),
            present@.len() == paths@.len(),
            paths@.len() <= usize::MAX / 2,
            count == seedable_total(paths@, present@, include_target, i as int),
        decreases paths@.len() - i,
    {
        proof {
            lemma_seedable_total_bound(paths@, present@, include_target, i as int);
        }
        let (build_exists, target_exists) = present[i];
        if paths[i].build_directory.is_some() && build_exists {
            count = count + 1;
        }
        if (include_target || paths[i].build_directory.is_none()) && target_exists {
            count = count + 1;
        }
        i = i + 1;
    }
    count
}

/// Why a worktree was chosen as the seed source, or `None` where it offers
/// no warm cache root and so cannot be chosen.
pub open spec fn chosen_reason(reason: Seq<char>, count: nat) -> Option<Seq<char>> {
    if count == 0 {
        None
    } else {
        Some(reason + "; "@ + crate::numbers::decimal(count) + " warm cache root(s)"@)
    }
}

/// A ranked worktree is chosen only when it has warm cache roots; the reason
/// then also says how many.
pub fn chosen_source_reason(reason: &str, count: usize) -> (r: Option<String>)
    ensures
        match r {
            Some(t) => chosen_reason(reason@, count as nat) == Some(t@),
            None => chosen_reason(reason@, count as nat) is None,
        },
{
    if count == 0 {
        return None;
    }
    let mut text = String::from_str(reason);
    text.append("; ");
    let n = crate::numbers::decimal_string(count as u64);
    text.append(n.as_str());
    text.append(" warm cache root(s)");
    Some(text)
}

/// The source and destination build directories of paired manifests.
pub fn build_pairs(sources: &Vec<CargoPaths>, destinations: &Vec<CargoPaths>) -> (pairs: Vec<(String, String)>)
    requires
        sources@.len() == destinations@.len(),
    ensures
        pair_views(pairs@) == build_pairs_of(sources@, destinations@),
{
    let mut pairs: Vec<(String, String)> = Vec::new();
    let mut i: usize = 0;
    while i < sources.len()
        invariant
            i <= sources@.len(),
            sources@.len() == destinations@.len(),
            pair_views(pairs@) == build_pairs_of(sources@.take(i as int), destinations@.take(i as int)),
        decreases sources@.len() - i,
    {
        assert(sources@.take(i + 1).drop_last() == sources@.take(i as int));
        assert(destinations@.take(i + 1).drop_last() == destinations@.take(i as int));
        assert(sources@.take(i + 1).last() == sources@[i as int]);
        assert(destinations@.take(i + 1).last() == destinations@[i as int]);
        match (&sources[i].build_directory, &destinations[i].build_directory) {
            (Some(a), Some(b)) => {
                let ghost before = pair_views(pairs@);
                pairs.push((copy_string(a), copy_string(b)));
                assert(pair_views(pairs@) == before.push((a@, b@)));
            },
            _ => {},
        }
        i = i + 1;
    }
    assert(sources@.take(sources@.len() as int) == sources@);
    assert(destinations@.take(destinations@.len() as int) == destinations@);
    pairs
}

/// No destination is cloned twice.
pub proof fn law_each_destination_once(
    sources: Seq<CargoPaths>,
    destinations: Seq<CargoPaths>,
    include_target: bool,
    i: int,
    j: int,
)
    requires
        0 <= i < j < planned(sources, destinations, include_target).len(),
    ensures
        !same_path(
            planned(sources, destinations, include_target)[i].2,
            planned(sources, destinations, include_target)[j].2,
        ),
    decreases sources.len(),
{
    let prev = planned(sources.drop_last(), destinations.drop_last(), include_target);
    let s = sources.last();
    let d = destinations.last();
    let with_build = match (s.build_directory, d.build_directory) {
        (Some(from), Some(to)) => if !has_destination(prev, to@) {
            prev.push((CacheKind::Build, from@, to@, d.manifest@))
        } else {
            prev
        },
        _ => prev,
    };
    let all = planned(sources, destinations, include_target);
    lemma_build_step(prev, with_build, s, d);
    if j < prev.len() {
        law_each_destination_once(sources.drop_last(), destinations.drop_last(), include_target, i, j);
        assert(all[i] == prev[i] && all[j] == prev[j]);
    } else if j < with_build.len() {
        assert(all[i] == with_build[i] && all[j] == with_build[j]);
        assert(with_build[i] == prev[i]);
        let to = d.build_directory->Some_0;
        assert(!has_destination(prev, to@));
        assert(with_build[j].2 == to@);
    } else {
        assert(all == with_build.push(
            (CacheKind::Target, s.target_directory@, d.target_directory@, d.manifest@),
        ));
        assert(!has_destination(with_build, d.target_directory@));
        assert(all[i] == with_build[i]);
    }
}

/// A clone task that comes from one manifest pair: a build task clones the
/// source's build directory into the destination's, a target task clones the
/// source's target directory into the destination's (only when targets are
/// asked for or the source reports no build directory), and either runs
/// for the destination manifest.
pub open spec fn task_from_pair(t: TaskView, s: CargoPaths, d: CargoPaths, include_target: bool) -> bool {
    &&& t.3 == d.manifest@
    &&& match t.0 {
        CacheKind::Build => s.build_directory matches Some(from) && d.build_directory matches Some(to)
            && t.1 == from@ && t.2 == to@,
        CacheKind::Target => t.1 == s.target_directory@ && t.2 == d.target_directory@ && (include_target
            || s.build_directory is None),
    }
}

proof fn lemma_planned_from_pairs(sources: Seq<CargoPaths>, destinations: Seq<CargoPaths>, include_target: bool, k: int)
    requires
        sources.len() == destinations.len(),
        0 <= k < planned(sources, destinations, include_target).len(),
    ensures
        exists|i: int|
            0 <= i < sources.len() && task_from_pair(
                planned(sources, destinations, include_target)[k],
                #[trigger] sources[i],
                destinations[i],
                include_target,
            ),
    decreases sources.len(),
{
    let prev = planned(sources.drop_last(), destinations.drop_last(), include_target);
    let s = sources.last();
    let d = destinations.last();
    let n = sources.len() - 1;
    let with_build = match (s.build_directory, d.build_directory) {
        (Some(from), Some(to)) => if !has_destination(prev, to@) {
            prev.push((CacheKind::Build, from@, to@, d.manifest@))
        } else {
            prev
        },
        _ => prev,
    };
    let all = planned(sources, destinations, include_target);
    lemma_build_step(prev, with_build, s, d);
    if k < prev.len() {
        lemma_planned_from_pairs(sources.drop_last(), destinations.drop_last(), include_target, k);
        let i = choose|i: int|
            0 <= i < sources.drop_last().len() && task_from_pair(
                prev[k],
                #[trigger] sources.drop_last()[i],
                destinations.drop_last()[i],
                include_target,
            );
        assert(all[k] == prev[k]);
        assert(sources[i] == sources.drop_last()[i]);
        assert(destinations[i] == destinations.drop_last()[i]);
    } else if k < with_build.len() {
        assert(all[k] == with_build[k]);
        assert(sources[n] == s && destinations[n] == d);
        assert(task_from_pair(all[k], sources[n], destinations[n], include_target));
    } else {
        assert(all == with_build.push(
            (CacheKind::Target, s.target_directory@, d.target_directory@, d.manifest@),
        ));
        assert(sources[n] == s && destinations[n] == d);
        assert(task_from_pair(all[k], sources[n], destinations[n], include_target));
    }
}

/// Every clone task comes from one manifest pair: its source is that pair's
/// source-side root and its destination the destination-side root of the
/// same kind, so no task ever clones from a destination path.
pub proof fn law_tasks_clone_source_into_destination(
    sources: Seq<CargoPaths>,
    destinations: Seq<CargoPaths>,
    include_target: bool,
    k: int,
)
    requires
        plan(sources, destinations, include_target) matches Ok(tasks) && 0 <= k < tasks.len(),
    ensures
        exists|i: int|
            0 <= i < sources.len() && task_from_pair(
                plan(sources, destinations, include_target)->Ok_0[k],
                #[trigger] sources[i],
                destinations[i],
                include_target,
            ),
{
    lemma_planned_from_pairs(sources, destinations, include_target, k);
}

proof fn lemma_has_destination_push(tasks: Seq<TaskView>, t: TaskView, destination: Seq<char>)
    requires
        has_destination(tasks, destination),
    ensures
        has_destination(tasks.push(t), destination),
{
    let i = choose|i: int| 0 <= i < tasks.len() && same_path((#[trigger] tasks[i]).2, destination);
    assert(tasks.push(t)[i] == tasks[i]);
}

proof fn lemma_pushed_destination(tasks: Seq<TaskView>, t: TaskView)
    ensures
        has_destination(tasks.push(t), t.2),
{
    assert(tasks.push(t)[tasks.len() as int] == t);
}

/// No warm root is left out: for every manifest pair, the destination's
/// build directory is cloned into when both sides report one, and the
/// destination's target directory is when targets are asked for or the
/// source reports no build directory.
pub proof fn law_every_root_is_planned(
    sources: Seq<CargoPaths>,
    destinations: Seq<CargoPaths>,
    include_target: bool,
    i: int,
)
    requires
        sources.len() == destinations.len(),
        0 <= i < sources.len(),
    ensures
        sources[i].build_directory is Some && destinations[i].build_directory is Some
            ==> has_destination(
            planned(sources, destinations, include_target),
            destinations[i].build_directory->Some_0@,
        ),
        (include_target || sources[i].build_directory is None) ==> has_destination(
            planned(sources, destinations, include_target),
            destinations[i].target_directory@,
        ),
    decreases sources.len(),
{
    let prev = planned(sources.drop_last(), destinations.drop_last(), include_target);
    let s = sources.last();
    let d = destinations.last();
    let n = sources.len() - 1;
    let with_build = match (s.build_directory, d.build_directory) {
        (Some(from), Some(to)) => if !has_destination(prev, to@) {
            prev.push((CacheKind::Build, from@, to@, d.manifest@))
        } else {
            prev
        },
        _ => prev,
    };
    let target_task = (CacheKind::Target, s.target_directory@, d.target_directory@, d.manifest@);
    let all = planned(sources, destinations, include_target);
    assert(all == if (include_target || s.build_directory is None) && !has_destination(
        with_build,
        d.target_directory@,
    ) {
        with_build.push(target_task)
    } else {
        with_build
    });
    // Whatever `with_build` already clones into, `all` does too.
    assert forall|x: Seq<char>| has_destination(with_build, x) implies has_destination(all, x) by {
        if all != with_build {
            lemma_has_destination_push(with_build, target_task, x);
        }
    }
    assert forall|x: Seq<char>| has_destination(prev, x) implies has_destination(with_build, x) by {
        if with_build != prev {
            let to = d.build_directory->Some_0;
            lemma_has_destination_push(prev, (CacheKind::Build, s.build_directory->Some_0@, to@, d.manifest@), x);
        }
    }
    if i < n {
        law_every_root_is_planned(sources.drop_last(), destinations.drop_last(), include_target, i);
        assert(sources.drop_last()[i] == sources[i]);
        assert(destinations.drop_last()[i] == destinations[i]);
    } else {
        assert(sources[i] == s && destinations[i] == d);
        if let (Some(from), Some(to)) = (s.build_directory, d.build_directory) {
            if !has_destination(prev, to@) {
                lemma_pushed_destination(prev, (CacheKind::Build, from@, to@, d.manifest@));
            }
            assert(has_destination(with_build, to@));
        }
        if include_target || s.build_directory is None {
            if !has_destination(with_build, d.target_directory@) {
                lemma_pushed_destination(with_build, target_task);
            }
        }
    }
}

proof fn lemma_build_step(prev: Seq<TaskView>, with_build: Seq<TaskView>, s: CargoPaths, d: CargoPaths)
    requires
        with_build == match (s.build_directory, d.build_directory) {
            (Some(from), Some(to)) => if !has_destination(prev, to@) {
                prev.push((CacheKind::Build, from@, to@, d.manifest@))
            } else {
                prev
            },
            _ => prev,
        },
    ensures
        prev.len() <= with_build.len() <= prev.len() + 1,
        forall|k: int| 0 <= k < prev.len() ==> #[trigger] with_build[k] == prev[k],
        with_build.len() == prev.len() + 1 ==> s.build_directory is Some && d.build_directory is Some
            && !has_destination(prev, d.build_directory->Some_0@)
            && with_build[prev.len() as int].2 == d.build_directory->Some_0@,
{
}

// ---------------------------------------------------------------------------
// Toolchain gates
// ---------------------------------------------------------------------------

pub open spec fn stable_or_beta(c: RustcChannel) -> bool {
    c == RustcChannel::Stable || c == RustcChannel::Beta
}

/// Why a profile cannot prime with this compiler, if it cannot.
pub open spec fn prime_refusal(prime: PrimeMode, unstable_bootstrap: bool, rustc: RustcInfo) -> Option<Seq<char>> {
    if prime == PrimeMode::Off {
        None
    } else if !rustc.relocatable_incremental_supported {
        Some(
            "profile requests "@ + prime.spec_name() + " priming, but rustc "@ + rustc.release@
                + " predates relocatable incremental support; use profile `quick` or Rust 1.98+"@,
        )
    } else if stable_or_beta(rustc.channel) && !unstable_bootstrap {
        Some(
            "profile requests "@ + prime.spec_name() + " priming on rustc "@ + rustc.release@
                + "; pass --unstable-bootstrap or set `unstable-bootstrap = true` in .agents/.cargo-warm.toml"@,
        )
    } else {
        None
    }
}

/// Checks that the compiler can serve a priming profile: a profile without
/// priming always passes; one with priming needs relocatable incremental
/// support, and on stable or beta an explicit bootstrap opt-in.
pub fn validate_prime_profile(prime: PrimeMode, unstable_bootstrap: bool, rustc: &RustcInfo) -> (r: Result<(), String>)
    ensures
        match prime_refusal(prime, unstable_bootstrap, *rustc) {
            None => r is Ok,
            Some(m) => r matches Err(e) && e@ == m,
        },
{
    if prime == PrimeMode::Off {
        return Ok(());
    }
    if !rustc.relocatable_incremental_supported {
        let mut m = String::from_str("profile requests ");
        m.append(prime.as_str());
        m.append(" priming, but rustc ");
        m.append(rustc.release.as_str());
        m.append(" predates relocatable incremental support; use profile `quick` or Rust 1.98+");
        return Err(m);
    }
    let stable = match rustc.channel {
        RustcChannel::Stable | RustcChannel::Beta => true,
        _ => false,
    };
    if stable && !unstable_bootstrap {
        let mut m = String::from_str("profile requests ");
        m.append(prime.as_str());
        m.append(" priming on rustc ");
        m.append(rustc.release.as_str());
        m.append("; pass --unstable-bootstrap or set `unstable-bootstrap = true` in .agents/.cargo-warm.toml");
        return Err(m);
    }
    Ok(())
}

/// How `cargo warm check` runs: whether the compiler needs the bootstrap
/// opt-in, or why it cannot run at all.
pub open spec fn check_decision(rustc: RustcInfo, unstable_bootstrap: bool, wrapper_set: bool) -> Result<bool, Seq<char>> {
    if !rustc.relocatable_incremental_supported {
        Err(
            "rustc "@ + rustc.release@
                + " predates relocatable incremental support; cargo warm check requires Rust 1.98 or newer"@,
        )
    } else if stable_or_beta(rustc.channel) && !unstable_bootstrap {
        Err(
            "rustc "@ + rustc.release@
                + " exposes relocatable incremental state through an unstable compiler flag; use a nightly toolchain or explicitly pass --unstable-bootstrap"@,
        )
    } else if wrapper_set {
        Err(
            "RUSTC_WORKSPACE_WRAPPER is already set; cargo-warm will not silently replace another workspace rustc wrapper"@,
        )
    } else {
        Ok(stable_or_beta(rustc.channel))
    }
}

/// Decides how `cargo warm check` runs: `Ok(true)` when workspace crates
/// get the scoped bootstrap opt-in, `Ok(false)` when the compiler takes the
/// flag as is; an error for a compiler without relocatable incremental
/// support, for stable or beta without `--unstable-bootstrap`, and when
/// another workspace wrapper is already set.
pub fn check_mode(rustc: &RustcInfo, unstable_bootstrap: bool, wrapper_set: bool) -> (r: Result<bool, String>)
    ensures
        match check_decision(*rustc, unstable_bootstrap, wrapper_set) {
            Ok(b) => r == Ok::<bool, String>(b),
            Err(m) => r matches Err(e) && e@ == m,
        },
{
    if !rustc.relocatable_incremental_supported {
        let mut m = String::from_str("rustc ");
        m.append(rustc.release.as_str());
        m.append(" predates relocatable incremental support; cargo warm check requires Rust 1.98 or newer");
        return Err(m);
    }
    let stable = match rustc.channel {
        RustcChannel::Stable | RustcChannel::Beta => true,
        _ => false,
    };
    if stable && !unstable_bootstrap {
        let mut m = String::from_str("rustc ");
        m.append(rustc.release.as_str());
        m.append(" exposes relocatable incremental state through an unstable compiler flag; use a nightly toolchain or explicitly pass --unstable-bootstrap");
        return Err(m);
    }
    if wrapper_set {
        return Err(String::from_str("RUSTC_WORKSPACE_WRAPPER is already set; cargo-warm will not silently replace another workspace rustc wrapper"));
    }
    Ok(stable)
}

/// Stable and beta never get the bootstrap opt-in implicitly.
pub proof fn law_bootstrap_is_explicit(rustc: RustcInfo, unstable_bootstrap: bool, wrapper_set: bool)
    requires
        stable_or_beta(rustc.channel),
        !unstable_bootstrap,
    ensures
        check_decision(rustc, unstable_bootstrap, wrapper_set) is Err,
        prime_refusal(PrimeMode::Rustc, unstable_bootstrap, rustc) is Some,
        prime_refusal(PrimeMode::Package, unstable_bootstrap, rustc) is Some,
{
}

} // verus!
