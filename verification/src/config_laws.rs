//! What holds of profile resolution and seed configuration as a whole.
use vstd::prelude::*;

use crate::config::{
    append_unique, apply_definition_spec, builtin_profile, entry_names, lookup, resolve,
    resolve_from, resolved_clone, stack_ok, with_overrides, ClonePressure, CloneSettings,
    DefinitionView, PrimeMode, ProfileFailure, ProfileView, ProjectConfig, SeedOverrides,
    lemma_lookup_names, lemma_stack_len,
};
use crate::paths::same_path;

verus! {

/// Command-line settings win over whatever the profile and project say: an
/// explicit prime mode is the prime mode, and the boolean switches force
/// their setting.
pub proof fn law_command_line_overrides_win(p: ProfileView, o: SeedOverrides)
    ensures
        o.prime_mode matches Some(m) ==> with_overrides(p, o).prime == m,
        o.prime_mode is None && o.legacy_prime ==> with_overrides(p, o).prime
            == PrimeMode::Package,
        o.include_target ==> with_overrides(p, o).include_target,
        o.copy_fallback ==> with_overrides(p, o).copy_fallback,
        o.disable_freshness_rebase ==> !with_overrides(p, o).freshness_rebase,
        o.unstable_bootstrap ==> with_overrides(p, o).unstable_bootstrap,
        with_overrides(p, o).name == p.name,
{
}

/// Clone settings are orthogonal to profiles: two invocations that agree on
/// the clone flags get the same clone settings, whatever profiles they pick.
pub proof fn law_clone_settings_ignore_profiles(
    project: ProjectConfig,
    a: SeedOverrides,
    b: SeedOverrides,
)
    requires
        a.clone_pressure == b.clone_pressure,
        a.clone_workers == b.clone_workers,
    ensures
        resolved_clone(project, a) == resolved_clone(project, b),
{
}

/// An explicit worker count overrides the pressure preset, and every answer
/// lies between one and the number of cache roots.
pub proof fn law_worker_count(a: CloneSettings, b: CloneSettings, tasks: int, available: int)
    requires
        tasks >= 0,
        available >= 0,
        a.workers is Some,
        a.workers == b.workers,
    ensures
        a.spec_effective_workers(tasks, available) == b.spec_effective_workers(tasks, available),
        1 <= a.spec_effective_workers(tasks, available),
        tasks > 0 ==> a.spec_effective_workers(tasks, available) <= tasks,
{
}

/// The presets: `gentle` clones one root at a time, `fast` up to four, `max`
/// never more than sixteen, and none more roots than there are.
pub proof fn law_pressure_presets(s: CloneSettings, tasks: int, available: int)
    requires
        tasks > 0,
        available >= 0,
        s.workers is None,
    ensures
        1 <= s.spec_effective_workers(tasks, available) <= tasks,
        s.pressure == ClonePressure::Gentle ==> s.spec_effective_workers(tasks, available) == 1,
        s.pressure == ClonePressure::Fast ==> s.spec_effective_workers(tasks, available) == if tasks
            < 4 {
            tasks
        } else {
            4
        },
        s.pressure == ClonePressure::Max ==> s.spec_effective_workers(tasks, available) <= 16,
        s.pressure == ClonePressure::Auto ==> s.spec_effective_workers(tasks, available) <= 4,
{
}

/// Appending seed paths keeps what was there, in order, and never adds a
/// path equal to one already listed: a list without equal paths stays so.
pub proof fn law_seed_paths_stay_distinct(target: Seq<Seq<char>>, values: Seq<Seq<char>>)
    requires
        forall|i: int, j: int|
            0 <= i < j < target.len() ==> !same_path(#[trigger] target[i], #[trigger] target[j]),
    ensures
        target.is_prefix_of(append_unique(target, values)),
        forall|i: int, j: int|
            0 <= i < j < append_unique(target, values).len() ==> !same_path(
                #[trigger] append_unique(target, values)[i],
                #[trigger] append_unique(target, values)[j],
            ),
    decreases values.len(),
{
    if values.len() > 0 {
        let v = values[0];
        let next = if exists|i: int| 0 <= i < target.len() && same_path(target[i], v) {
            target
        } else {
            target.push(v)
        };
        assert forall|i: int, j: int|
            0 <= i < j < next.len() implies !same_path(#[trigger] next[i], #[trigger] next[j]) by {
            if j == target.len() {
                assert(next[i] == target[i]);
            }
        }
        law_seed_paths_stay_distinct(next, values.drop_first());
        assert(target.is_prefix_of(next));
    }
}

/// Resolution only looks at the stack to find cycles: a resolution that
/// succeeds with stack `t` gives the same profile with any smaller stack.
pub proof fn lemma_resolve_smaller_stack(
    n: Seq<char>,
    defs: Seq<(Seq<char>, DefinitionView)>,
    s: Seq<Seq<char>>,
    t: Seq<Seq<char>>,
)
    requires
        stack_ok(defs, s),
        stack_ok(defs, t),
        forall|i: int| 0 <= i < s.len() ==> t.contains(#[trigger] s[i]),
        resolve_from(n, defs, t) is Ok,
    ensures
        resolve_from(n, defs, s) == resolve_from(n, defs, t),
    decreases defs.len() - t.len(),
{
    assert(!t.contains(n));
    assert(!s.contains(n)) by {
        if s.contains(n) {
            let i = choose|i: int| 0 <= i < s.len() && s[i] == n;
            assert(t.contains(s[i]));
        }
    }
    match lookup(defs, n) {
        Some(def) => match def.inherits {
            Some(parent) => {
                lemma_lookup_names(defs, n);
                let s2 = s.push(n);
                let t2 = t.push(n);
                assert(stack_ok(defs, t2));
                assert(stack_ok(defs, s2));
                lemma_stack_len(defs, t2);
                assert forall|i: int| 0 <= i < s2.len() implies t2.contains(#[trigger] s2[i]) by {
                    if i == s.len() {
                        assert(t2[t.len() as int] == n);
                    } else {
                        let k = choose|k: int| 0 <= k < t.len() && t[k] == s[i];
                        assert(t2[k] == s2[i]);
                    }
                }
                lemma_resolve_smaller_stack(parent, defs, s2, t2);
            },
            None => {},
        },
        None => {},
    }
}

/// A profile that inherits is its parent's profile with its own fields
/// applied, under its own name.
pub proof fn law_profile_inherits_parent(
    name: Seq<char>,
    defs: Seq<(Seq<char>, DefinitionView)>,
    parent: Seq<char>,
    def: DefinitionView,
)
    requires
        lookup(defs, name) == Some(def),
        def.inherits == Some(parent),
        resolve(name, defs) is Ok,
    ensures
        resolve(parent, defs) is Ok,
        resolve(name, defs) == Ok::<ProfileView, ProfileFailure>(
            ProfileView { name, ..apply_definition_spec(resolve(parent, defs)->Ok_0, def) },
        ),
{
    let empty = Seq::<Seq<char>>::empty();
    let inner = empty.push(name);
    lemma_lookup_names(defs, name);
    assert(stack_ok(defs, empty));
    assert(stack_ok(defs, inner)) by {
        assert(inner[0] == name);
    }
    lemma_stack_len(defs, inner);
    assert(resolve_from(parent, defs, inner) is Ok);
    lemma_resolve_smaller_stack(parent, defs, empty, inner);
}

/// A name that is neither built in nor defined is unknown; a resolution that
/// fails as unknown names a profile that is neither.
pub proof fn law_unknown_profiles(
    n: Seq<char>,
    defs: Seq<(Seq<char>, DefinitionView)>,
    stack: Seq<Seq<char>>,
)
    requires
        stack_ok(defs, stack),
    ensures
        !stack.contains(n) && lookup(defs, n) is None && builtin_profile(n) is None ==> resolve_from(
            n,
            defs,
            stack,
        ) == Err::<ProfileView, ProfileFailure>(ProfileFailure::Unknown(n)),
        resolve_from(n, defs, stack) matches Err(ProfileFailure::Unknown(m)) ==> lookup(defs, m)
            is None && builtin_profile(m) is None,
    decreases defs.len() - stack.len(),
{
    if !stack.contains(n) {
        match lookup(defs, n) {
            Some(def) => match def.inherits {
                Some(parent) => {
                    lemma_lookup_names(defs, n);
                    let inner = stack.push(n);
                    assert(stack_ok(defs, inner));
                    lemma_stack_len(defs, inner);
                    law_unknown_profiles(parent, defs, inner);
                },
                None => {},
            },
            None => {},
        }
    }
}

/// An inheritance cycle is reported as the chain of names that closes on
/// itself: its last name appears earlier in it.
pub proof fn law_cycles_close(
    n: Seq<char>,
    defs: Seq<(Seq<char>, DefinitionView)>,
    stack: Seq<Seq<char>>,
)
    requires
        stack_ok(defs, stack),
    ensures
        resolve_from(n, defs, stack) matches Err(ProfileFailure::Cycle(c)) ==> c.len() >= 1
            && c.drop_last().contains(c.last()) && stack.is_prefix_of(c),
    decreases defs.len() - stack.len(),
{
    if stack.contains(n) {
        let c = stack.push(n);
        assert(c.drop_last() == stack);
        assert(stack.is_prefix_of(c));
    } else {
        match lookup(defs, n) {
            Some(def) => match def.inherits {
                Some(parent) => {
                    lemma_lookup_names(defs, n);
                    let inner = stack.push(n);
                    assert(stack_ok(defs, inner));
                    lemma_stack_len(defs, inner);
                    law_cycles_close(parent, defs, inner);
                    if resolve_from(parent, defs, inner) is Err {
                        assert(stack.is_prefix_of(inner));
                    }
                },
                None => {},
            },
            None => {},
        }
    }
}


proof fn lemma_append_unique_covers(target: Seq<Seq<char>>, values: Seq<Seq<char>>)
    ensures
        target.is_prefix_of(append_unique(target, values)),
        forall|k: int|
            #![trigger values[k]]
            0 <= k < values.len() ==> exists|i: int|
                0 <= i < append_unique(target, values).len() && same_path(
                    #[trigger] append_unique(target, values)[i],
                    values[k],
                ),
    decreases values.len(),
{
    if values.len() > 0 {
        let v = values[0];
        let next = if exists|i: int| 0 <= i < target.len() && same_path(target[i], v) {
            target
        } else {
            target.push(v)
        };
        lemma_append_unique_covers(next, values.drop_first());
        let r = append_unique(target, values);
        assert(r == append_unique(next, values.drop_first()));
        assert(target.is_prefix_of(next));
        assert forall|k: int| #![trigger values[k]] 0 <= k < values.len() implies exists|i: int|
            0 <= i < r.len() && same_path(#[trigger] r[i], values[k]) by {
            if k == 0 {
                if exists|i: int| 0 <= i < target.len() && same_path(target[i], v) {
                    let i = choose|i: int| 0 <= i < target.len() && same_path(target[i], v);
                    assert(r[i] == target[i]);
                } else {
                    assert(next[target.len() as int] == v);
                    assert(r[target.len() as int] == v);
                }
            } else {
                assert(values.drop_first()[k - 1] == values[k]);
            }
        }
    }
}

/// A profile's own definition has the last word: every field it sets is
/// the resolved profile's value, whatever it inherits, and every seed path
/// it lists is among the resolved seed paths. A definition that inherits
/// nothing always resolves.
pub proof fn law_definition_fields_win(
    name: Seq<char>,
    defs: Seq<(Seq<char>, DefinitionView)>,
    def: DefinitionView,
)
    requires
        lookup(defs, name) == Some(def),
    ensures
        def.inherits is None ==> resolve(name, defs) is Ok,
        resolve(name, defs) matches Ok(p) ==> {
            &&& p.name == name
            &&& (def.prime matches Some(m) ==> p.prime == m)
            &&& (def.include_target matches Some(v) ==> p.include_target == v)
            &&& (def.copy_fallback matches Some(v) ==> p.copy_fallback == v)
            &&& (def.freshness_rebase matches Some(v) ==> p.freshness_rebase == v)
            &&& (def.unstable_bootstrap matches Some(v) ==> p.unstable_bootstrap == v)
            &&& (def.seed_paths matches Some(paths) ==> forall|k: int|
                #![trigger paths[k]]
                0 <= k < paths.len() ==> exists|i: int|
                    0 <= i < p.seed_paths.len() && same_path(#[trigger] p.seed_paths[i], paths[k]))
        },
{
    let empty = Seq::<Seq<char>>::empty();
    assert(stack_ok(defs, empty));
    lemma_lookup_names(defs, name);
    let inner = empty.push(name);
    assert(stack_ok(defs, inner)) by {
        assert(inner[0] == name);
    }
    lemma_stack_len(defs, inner);
    if let Ok(p) = resolve(name, defs) {
        let base = match def.inherits {
            Some(parent) => resolve_from(parent, defs, inner),
            None => match builtin_profile(name) {
                Some(b) => Ok(b),
                None => Ok(crate::config::builtin_with("quick"@, PrimeMode::Off)),
            },
        };
        let b = base->Ok_0;
        assert(p == ProfileView { name, ..apply_definition_spec(b, def) });
        assert(def.prime matches Some(m) ==> p.prime == m);
        if let Some(paths) = def.seed_paths {
            lemma_append_unique_covers(b.seed_paths, paths);
            let r = append_unique(b.seed_paths, paths);
            assert(p.seed_paths == r);
            assert forall|k: int| #![trigger paths[k]] 0 <= k < paths.len() implies exists|i: int|
                0 <= i < p.seed_paths.len() && same_path(#[trigger] p.seed_paths[i], paths[k]) by {
                let i = choose|i: int| 0 <= i < r.len() && same_path(#[trigger] r[i], paths[k]);
                assert(p.seed_paths[i] == r[i]);
            }
        }
    }
}

} // verus!
