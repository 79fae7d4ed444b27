//! Relocation priming: which source files of a package are touched so that
//! Cargo and rustc reopen the inherited state in the destination.
use vstd::prelude::*;

use crate::json::{array_at, str_at, target_has_kind, target_has_kind_spec, Json};
use crate::config::PrimeMode;
use crate::order::views;

verus! {

/// The first target of the kind.
pub open spec fn first_of_kind(targets: Seq<Json>, kind: Seq<char>) -> Option<int>
    decreases targets.len(),
{
    if targets.len() == 0 {
        None
    } else {
        match first_of_kind(targets.drop_last(), kind) {
            Some(i) => Some(i),
            None => if target_has_kind_spec(targets.last(), kind) {
                Some(targets.len() - 1)
            } else {
                None
            },
        }
    }
}

/// The first target that is not of the kind.
pub open spec fn first_not_of_kind(targets: Seq<Json>, kind: Seq<char>) -> Option<int>
    decreases targets.len(),
{
    if targets.len() == 0 {
        None
    } else {
        match first_not_of_kind(targets.drop_last(), kind) {
            Some(i) => Some(i),
            None => if !target_has_kind_spec(targets.last(), kind) {
                Some(targets.len() - 1)
            } else {
                None
            },
        }
    }
}

/// The target whose source stands for the package: its library, else its
/// first binary, else its first target that is not a build script.
pub open spec fn preferred_target(targets: Seq<Json>) -> Option<int> {
    match first_of_kind(targets, "lib"@) {
        Some(i) => Some(i),
        None => match first_of_kind(targets, "bin"@) {
            Some(i) => Some(i),
            None => first_not_of_kind(targets, "custom-build"@),
        },
    }
}

/// The `src_path` of every build-script target, in order.
pub open spec fn build_script_sources(targets: Seq<Json>) -> Seq<Seq<char>>
    decreases targets.len(),
{
    if targets.len() == 0 {
        seq![]
    } else {
        let rest = build_script_sources(targets.drop_last());
        let t = targets.last();
        if target_has_kind_spec(t, "custom-build"@) {
            match str_at(t, "src_path"@) {
                Some(p) => rest.push(p),
                None => rest,
            }
        } else {
            rest
        }
    }
}

/// The preferred target's source, when the package has one.
pub open spec fn preferred_source(targets: Seq<Json>) -> Seq<Seq<char>> {
    match preferred_target(targets) {
        Some(i) => match str_at(targets[i], "src_path"@) {
            Some(p) => seq![p],
            None => seq![],
        },
        None => seq![],
    }
}

/// The sources priming touches for a package in the given mode: `rustc`
/// (the `balanced` profile) touches only the preferred target's source, so
/// that one rustc session reopens the inherited state; `package` (`deep`)
/// also touches the package's own build scripts, re-establishing its
/// build-script boundary; `none` touches nothing. A path dependency's
/// targets are never among them.
pub open spec fn trigger_sources(package: Json, mode: PrimeMode) -> Seq<Seq<char>> {
    match array_at(package, "targets"@) {
        None => seq![],
        Some(targets) => match mode {
            PrimeMode::Off => seq![],
            PrimeMode::Rustc => preferred_source(targets),
            PrimeMode::Package => preferred_source(targets) + build_script_sources(targets),
        },
    }
}

fn first_of_kind_of(targets: &Vec<Json>, kind: &str, negate: bool) -> (r: Option<usize>)
    ensures
        !negate ==> (r matches Some(i) ==> first_of_kind(targets@, kind@) == Some(i as int)),
        !negate ==> (r is None ==> first_of_kind(targets@, kind@) is None),
        negate ==> (r matches Some(i) ==> first_not_of_kind(targets@, kind@) == Some(i as int)),
        negate ==> (r is None ==> first_not_of_kind(targets@, kind@) is None),
        r matches Some(i) ==> i < targets@.len(),
{
    let mut i: usize = 0;
    while i < targets.len()
        invariant
            i <= targets@.len(),
            !negate ==> first_of_kind(targets@.take(i as int), kind@) is None,
            negate ==> first_not_of_kind(targets@.take(i as int), kind@) is None,
        decreases targets@.len() - i,
    {
        assert(targets@.take(i + 1).drop_last() == targets@.take(i as int));
        assert(targets@.take(i + 1).last() == targets@[i as int]);
        if target_has_kind(&targets[i], kind) != negate {
            proof {
                lemma_first_extends(targets@, i + 1, kind@, negate);
            }
            return Some(i);
        }
        i = i + 1;
    }
    assert(targets@.take(targets@.len() as int) == targets@);
    None
}

proof fn lemma_first_extends(targets: Seq<Json>, n: int, kind: Seq<char>, negate: bool)
    requires
        0 <= n <= targets.len(),
        !negate ==> first_of_kind(targets.take(n), kind) is Some,
        negate ==> first_not_of_kind(targets.take(n), kind) is Some,
    ensures
        !negate ==> first_of_kind(targets, kind) == first_of_kind(targets.take(n), kind),
        negate ==> first_not_of_kind(targets, kind) == first_not_of_kind(targets.take(n), kind),
    decreases targets.len() - n,
{
    if n < targets.len() {
        assert(targets.take(n + 1).drop_last() == targets.take(n));
        lemma_first_extends(targets, n + 1, kind, negate);
    } else {
        assert(targets.take(n) == targets);
    }
}

/// The source files priming touches for one package in the given mode, as
/// `cargo metadata` names them, in order: the preferred target's, then (in
/// `package` mode) each build script's.
pub fn package_triggers(package: &Json, mode: PrimeMode) -> (sources: Vec<String>)
    ensures
        views(sources@) == trigger_sources(*package, mode),
{
    let mut out: Vec<String> = Vec::new();
    if mode == PrimeMode::Off {
        return out;
    }
    match package.array_at("targets") {
        None => {},
        Some(targets) => {
            let preferred = match first_of_kind_of(targets, "lib", false) {
                Some(i) => Some(i),
                None => match first_of_kind_of(targets, "bin", false) {
                    Some(i) => Some(i),
                    None => first_of_kind_of(targets, "custom-build", true),
                },
            };
            match preferred {
                Some(i) => match targets[i].str_at("src_path") {
                    Some(p) => {
                        out.push(String::from_str(p));
                        assert(views(out@) == seq![p@]);
                    },
                    None => {},
                },
                None => {},
            }
            assert(views(out@) == preferred_source(targets@));
            if mode == PrimeMode::Rustc {
                return out;
            }
            let ghost head = views(out@);
            let mut i: usize = 0;
            while i < targets.len()
                invariant
                    i <= targets@.len(),
                    views(out@) == head + build_script_sources(targets@.take(i as int)),
                decreases targets@.len() - i,
            {
                assert(targets@.take(i + 1).drop_last() == targets@.take(i as int));
                assert(targets@.take(i + 1).last() == targets@[i as int]);
                if target_has_kind(&targets[i], "custom-build") {
                    match targets[i].str_at("src_path") {
                        Some(p) => {
                            let ghost before = views(out@);
                            out.push(String::from_str(p));
                            assert(views(out@) == before.push(p@));
                        },
                        None => {},
                    }
                }
                i = i + 1;
            }
            assert(targets@.take(targets@.len() as int) == targets@);
        },
    }
    out
}

/// Priming never touches anything but the package's own preferred source
/// and its own build scripts: every source it names comes from one of the
/// package's targets.
pub proof fn law_triggers_come_from_the_package(package: Json, mode: PrimeMode, k: int)
    requires
        0 <= k < trigger_sources(package, mode).len(),
    ensures
        array_at(package, "targets"@) matches Some(targets) && exists|i: int|
            0 <= i < targets.len() && str_at(#[trigger] targets[i], "src_path"@) == Some(
                trigger_sources(package, mode)[k],
            ),
{
    let targets = array_at(package, "targets"@)->Some_0;
    let preferred = preferred_source(targets);
    lemma_preferred_range(targets);
    if k < preferred.len() {
        let i = preferred_target(targets)->Some_0;
        assert(str_at(targets[i], "src_path"@) == Some(trigger_sources(package, mode)[k]));
    } else {
        let j = lemma_build_script_source(targets, k - preferred.len());
        assert(trigger_sources(package, mode)[k] == build_script_sources(targets)[k - preferred.len()]);
    }
}

/// The `balanced` prime touches one source at most, that of the library, a
/// binary or another target that is not a build script; only the `deep`
/// prime adds the package's build scripts, and it touches everything the
/// `balanced` one does. `none` touches nothing.
pub proof fn law_only_deep_priming_touches_build_scripts(package: Json)
    ensures
        trigger_sources(package, PrimeMode::Off).len() == 0,
        trigger_sources(package, PrimeMode::Rustc).len() <= 1,
        trigger_sources(package, PrimeMode::Rustc).len() == 1 ==> (array_at(package, "targets"@) matches Some(targets) && exists|i: int|
            0 <= i < targets.len() && str_at(#[trigger] targets[i], "src_path"@) == Some(
                trigger_sources(package, PrimeMode::Rustc)[0],
            ) && (target_has_kind_spec(targets[i], "lib"@) || target_has_kind_spec(targets[i], "bin"@)
                || !target_has_kind_spec(targets[i], "custom-build"@))),
        trigger_sources(package, PrimeMode::Package) == trigger_sources(package, PrimeMode::Rustc)
            + match array_at(package, "targets"@) {
                Some(targets) => build_script_sources(targets),
                None => Seq::<Seq<char>>::empty(),
            },
{
    if let Some(targets) = array_at(package, "targets"@) {
        lemma_preferred_kind(targets);
    }
}

proof fn lemma_preferred_kind(targets: Seq<Json>)
    ensures
        preferred_target(targets) matches Some(i) ==> (0 <= i < targets.len() && (target_has_kind_spec(targets[i], "lib"@)
            || target_has_kind_spec(targets[i], "bin"@) || !target_has_kind_spec(targets[i], "custom-build"@))),
{
    lemma_first_kind(targets, "lib"@);
    lemma_first_kind(targets, "bin"@);
    lemma_first_kind(targets, "custom-build"@);
}

proof fn lemma_first_kind(targets: Seq<Json>, kind: Seq<char>)
    ensures
        first_of_kind(targets, kind) matches Some(i) ==> (0 <= i < targets.len() && target_has_kind_spec(targets[i], kind)),
        first_not_of_kind(targets, kind) matches Some(i) ==> (0 <= i < targets.len() && !target_has_kind_spec(targets[i], kind)),
    decreases targets.len(),
{
    if targets.len() > 0 {
        lemma_first_kind(targets.drop_last(), kind);
        let d = targets.drop_last();
        if let Some(i) = first_of_kind(d, kind) {
            assert(targets[i] == d[i]);
        }
        if let Some(i) = first_not_of_kind(d, kind) {
            assert(targets[i] == d[i]);
        }
    }
}

proof fn lemma_preferred_range(targets: Seq<Json>)
    ensures
        preferred_target(targets) matches Some(i) ==> 0 <= i < targets.len(),
{
    lemma_first_range(targets, "lib"@);
    lemma_first_range(targets, "bin"@);
    lemma_first_range(targets, "custom-build"@);
}

proof fn lemma_first_range(targets: Seq<Json>, kind: Seq<char>)
    ensures
        first_of_kind(targets, kind) matches Some(i) ==> 0 <= i < targets.len(),
        first_not_of_kind(targets, kind) matches Some(i) ==> 0 <= i < targets.len(),
    decreases targets.len(),
{
    if targets.len() > 0 {
        lemma_first_range(targets.drop_last(), kind);
    }
}

proof fn lemma_build_script_source(targets: Seq<Json>, k: int) -> (i: int)
    requires
        0 <= k < build_script_sources(targets).len(),
    ensures
        0 <= i < targets.len(),
        str_at(targets[i], "src_path"@) == Some(build_script_sources(targets)[k]),
        target_has_kind_spec(targets[i], "custom-build"@),
    decreases targets.len(),
{
    let rest = build_script_sources(targets.drop_last());
    let t = targets.last();
    if target_has_kind_spec(t, "custom-build"@) && str_at(t, "src_path"@) is Some && k == rest.len() {
        (targets.len() - 1) as int
    } else {
        let i = lemma_build_script_source(targets.drop_last(), k);
        assert(targets[i] == targets.drop_last()[i]);
        i
    }
}

} // verus!
