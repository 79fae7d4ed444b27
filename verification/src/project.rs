//! The shape of the selected local packages: how much Rust they hold and
//! which build scripts they have.
use vstd::prelude::*;

use crate::compiler::RustcInfo;
use crate::json::{array_at, json_str, str_at, strings_in, target_has_kind, target_has_kind_spec, Json};
use crate::order::views;
use crate::paths::{paths_equal, same_path};

verus! {

#[derive(Debug, Clone)]
pub struct PackageShape {
    pub name: String,
    pub manifest: String,
    pub rust_source_files: usize,
    pub rust_lines: usize,
    pub has_build_script: bool,
}

#[derive(Debug, Clone)]
pub struct ManifestShape {
    pub manifest: String,
    pub workspace_packages: usize,
    pub selected_packages: Vec<PackageShape>,
}

#[derive(Debug, Clone)]
pub struct ProjectShape {
    pub rustc: RustcInfo,
    pub manifests: Vec<ManifestShape>,
    pub rust_source_files: usize,
    pub rust_lines: usize,
    pub direct_build_scripts: usize,
    pub other_local_build_scripts: usize,
}


// ---------------------------------------------------------------------------
// Packages in `cargo metadata`
// ---------------------------------------------------------------------------

/// The first position holding `true`.
pub open spec fn first_true(v: Seq<bool>) -> Option<int>
    decreases v.len(),
{
    if v.len() == 0 {
        None
    } else {
        match first_true(v.drop_last()) {
            Some(i) => Some(i),
            None => if v.last() {
                Some(v.len() - 1)
            } else {
                None
            },
        }
    }
}

/// The member ids a manifest selects when it is not itself a package:
/// `workspace_default_members` when it lists any, else `workspace_members`.
pub open spec fn member_ids(metadata: Json) -> Seq<Json> {
    let fallback = match array_at(metadata, "workspace_members"@) {
        Some(a) => a,
        None => seq![],
    };
    match array_at(metadata, "workspace_default_members"@) {
        Some(a) => if a.len() > 0 {
            a
        } else {
            fallback
        },
        None => fallback,
    }
}

/// The last package with `id` (a map from id to package keeps the last).
pub open spec fn last_with_id(packages: Seq<Json>, id: Seq<char>) -> Option<int>
    decreases packages.len(),
{
    if packages.len() == 0 {
        None
    } else if str_at(packages.last(), "id"@) == Some(id) {
        Some(packages.len() - 1)
    } else {
        last_with_id(packages.drop_last(), id)
    }
}

/// The packages the ids name, in id order, unknown ids skipped.
pub open spec fn packages_for(ids: Seq<Seq<char>>, packages: Seq<Json>) -> Seq<int>
    decreases ids.len(),
{
    if ids.len() == 0 {
        seq![]
    } else {
        let rest = packages_for(ids.drop_last(), packages);
        match last_with_id(packages, ids.last()) {
            Some(i) => rest.push(i),
            None => rest,
        }
    }
}

/// The packages a manifest selects: the package whose manifest is the
/// manifest itself (the first, where `is_manifest` says which are), else the
/// workspace's default members, else all its members.
pub open spec fn selection(packages: Seq<Json>, metadata: Json, is_manifest: Seq<bool>) -> Seq<int> {
    match first_true(is_manifest) {
        Some(i) => seq![i],
        None => packages_for(strings_in(member_ids(metadata)), packages),
    }
}

pub open spec fn usize_views(v: Seq<usize>) -> Seq<int> {
    v.map_values(|x: usize| x as int)
}

fn first_true_of(v: &Vec<bool>) -> (r: Option<usize>)
    ensures
        r matches Some(i) ==> first_true(v@) == Some(i as int) && i < v@.len(),
        r is None ==> first_true(v@) is None,
{
    let mut i: usize = 0;
    while i < v.len()
        invariant
            i <= v@.len(),
            first_true(v@.take(i as int)) is None,
        decreases v@.len() - i,
    {
        assert(v@.take(i + 1).drop_last() == v@.take(i as int));
        if v[i] {
            proof {
                lemma_first_true_prefix(v@, i as int);
            }
            return Some(i);
        }
        i = i + 1;
    }
    assert(v@.take(v@.len() as int) == v@);
    None
}

proof fn lemma_first_true_prefix(v: Seq<bool>, i: int)
    requires
        0 <= i < v.len(),
        v[i],
        first_true(v.take(i)) is None,
    ensures
        first_true(v) == Some(i),
    decreases v.len(),
{
    assert(v.take(i + 1).drop_last() == v.take(i));
    assert(first_true(v.take(i + 1)) == Some(i));
    lemma_first_true_extends(v, i + 1);
}

proof fn lemma_first_true_extends(v: Seq<bool>, n: int)
    requires
        0 <= n <= v.len(),
        first_true(v.take(n)) is Some,
    ensures
        first_true(v) == first_true(v.take(n)),
    decreases v.len() - n,
{
    if n < v.len() {
        assert(v.take(n + 1).drop_last() == v.take(n));
        lemma_first_true_extends(v, n + 1);
    } else {
        assert(v.take(n) == v);
    }
}

fn last_with_id_of(packages: &Vec<Json>, id: &str) -> (r: Option<usize>)
    ensures
        r matches Some(i) ==> last_with_id(packages@, id@) == Some(i as int) && i < packages@.len(),
        r is None ==> last_with_id(packages@, id@) is None,
{
    let mut n: usize = packages.len();
    assert(packages@.take(n as int) == packages@);
    while n > 0
        invariant
            n <= packages@.len(),
            last_with_id(packages@, id@) == last_with_id(packages@.take(n as int), id@),
        decreases n,
    {
        let ghost t = packages@.take(n as int);
        assert(t.last() == packages@[n - 1]);
        assert(t.drop_last() == packages@.take(n - 1));
        match packages[n - 1].str_at("id") {
            Some(x) => {
                if crate::text::str_eq(x, id) {
                    return Some(n - 1);
                }
            },
            None => {},
        }
        n = n - 1;
    }
    None
}

/// The packages `cargo metadata` selects for a manifest (`selected_packages`),
/// as positions in `packages`. `is_manifest` says, for each package, whether
/// its `manifest_path` is the manifest being inspected (the file system
/// decides that).
pub fn selected_packages(packages: &Vec<Json>, metadata: &Json, is_manifest: &Vec<bool>) -> (selected: Vec<usize>)
    requires
        is_manifest@.len() == packages@.len(),
    ensures
        usize_views(selected@) == selection(packages@, *metadata, is_manifest@),
        forall|i: int| 0 <= i < selected@.len() ==> #[trigger] selected@[i] < packages@.len(),
{
    match first_true_of(is_manifest) {
        Some(i) => {
            let mut v: Vec<usize> = Vec::new();
            v.push(i);
            assert(usize_views(v@) == seq![i as int]);
            v
        },
        None => {
            let mut names: Vec<String> = Vec::new();
            match member_ids_of(metadata) {
                Some(ids) => {
                    crate::json::push_strings(&mut names, ids);
                    assert(views(names@) == Seq::<Seq<char>>::empty() + strings_in(
                        member_ids(*metadata),
                    ));
                },
                None => {
                    assert(strings_in(member_ids(*metadata)) == Seq::<Seq<char>>::empty());
                },
            }
            let mut out: Vec<usize> = Vec::new();
            let mut k: usize = 0;
            let ghost ns = views(names@);
            assert(ns == strings_in(member_ids(*metadata)));
            while k < names.len()
                invariant
                    k <= names@.len(),
                    ns == views(names@),
                    usize_views(out@) == packages_for(ns.take(k as int), packages@),
                    forall|i: int| 0 <= i < out@.len() ==> #[trigger] out@[i] < packages@.len(),
                decreases names@.len() - k,
            {
                let ghost id = names@[k as int]@;
                assert(ns.take(k + 1).drop_last() == ns.take(k as int));
                assert(ns.take(k + 1).last() == id);
                match last_with_id_of(packages, names[k].as_str()) {
                    Some(i) => {
                        proof {
                            lemma_last_with_id_range(packages@, id);
                        }
                        assert(last_with_id(packages@, id) == Some(i as int));
                        let ghost before = usize_views(out@);
                        out.push(i);
                        assert(usize_views(out@) == before.push(i as int));
                        assert(packages_for(ns.take(k + 1), packages@) == packages_for(
                            ns.take(k as int),
                            packages@,
                        ).push(i as int));
                    },
                    None => {
                        assert(packages_for(ns.take(k + 1), packages@) == packages_for(
                            ns.take(k as int),
                            packages@,
                        ));
                    },
                }
                k = k + 1;
            }
            assert(ns.take(names@.len() as int) == ns);
            out
        },
    }
}

proof fn lemma_last_with_id_range(packages: Seq<Json>, id: Seq<char>)
    ensures
        last_with_id(packages, id) matches Some(i) ==> 0 <= i < packages.len(),
    decreases packages.len(),
{
    if packages.len() > 0 {
        lemma_last_with_id_range(packages.drop_last(), id);
    }
}

fn member_ids_of(metadata: &Json) -> (ids: Option<&Vec<Json>>)
    ensures
        match ids {
            Some(a) => a@ == member_ids(*metadata),
            None => member_ids(*metadata).len() == 0,
        },
{
    match metadata.array_at("workspace_default_members") {
        Some(a) => {
            if a.len() > 0 {
                return Some(a);
            }
        },
        None => {},
    }
    metadata.array_at("workspace_members")
}

/// Whether any of a package's targets is a build script (`custom-build`).
pub open spec fn has_build_script(package: Json) -> bool {
    match array_at(package, "targets"@) {
        Some(targets) => exists|i: int| 0 <= i < targets.len() && target_has_kind_spec(#[trigger] targets[i], "custom-build"@),
        None => false,
    }
}

/// Whether a cargo-metadata package has a build script.
pub fn package_has_build_script(package: &Json) -> (has: bool)
    ensures
        has == has_build_script(*package),
{
    match package.array_at("targets") {
        None => false,
        Some(targets) => {
            let mut i: usize = 0;
            while i < targets.len()
                invariant
                    i <= targets@.len(),
                    array_at(*package, "targets"@) == Some(targets@),
                    forall|k: int| 0 <= k < i ==> !target_has_kind_spec(#[trigger] targets@[k], "custom-build"@),
                decreases targets@.len() - i,
            {
                if target_has_kind(&targets[i], "custom-build") {
                    assert(target_has_kind_spec(targets@[i as int], "custom-build"@));
                    let ghost ts = array_at(*package, "targets"@)->Some_0;
                    assert(ts == targets@);
                    assert(target_has_kind_spec(ts[i as int], "custom-build"@));
                    assert(has_build_script(*package));
                    return true;
                }
                i = i + 1;
            }
            false
        },
    }
}

/// A package's `manifest_path`.
pub fn package_manifest(package: &Json) -> (manifest: Option<String>)
    ensures
        match str_at(*package, "manifest_path"@) {
            Some(m) => manifest matches Some(x) && x@ == m,
            None => manifest is None,
        },
{
    match package.str_at("manifest_path") {
        Some(m) => Some(String::from_str(m)),
        None => None,
    }
}

/// A package's name (`<unknown>` when it has none) and manifest, or the
/// error for a package that did not report its manifest.
pub open spec fn identity(package: Json) -> Result<(Seq<char>, Seq<char>), Seq<char>> {
    let name = match str_at(package, "name"@) {
        Some(n) => n,
        None => "<unknown>"@,
    };
    match str_at(package, "manifest_path"@) {
        Some(m) => Ok((name, m)),
        None => Err("package "@ + name + " did not report manifest_path"@),
    }
}

/// The name and manifest of a package being inspected.
pub fn package_identity(package: &Json) -> (r: Result<(String, String), String>)
    ensures
        match identity(*package) {
            Ok((n, m)) => r matches Ok((a, b)) && a@ == n && b@ == m,
            Err(e) => r matches Err(x) && x@ == e,
        },
{
    let name = match package.str_at("name") {
        Some(n) => String::from_str(n),
        None => String::from_str("<unknown>"),
    };
    match package.str_at("manifest_path") {
        Some(m) => Ok((name, String::from_str(m))),
        None => {
            let mut e = String::from_str("package ");
            e.append(name.as_str());
            e.append(" did not report manifest_path");
            Err(e)
        },
    }
}

/// `s` without the texts that name the same path as an earlier one (what a
/// `BTreeSet<PathBuf>` keeps of them).
pub open spec fn distinct_paths(s: Seq<Seq<char>>) -> Seq<Seq<char>>
    decreases s.len(),
{
    if s.len() == 0 {
        seq![]
    } else {
        let rest = distinct_paths(s.drop_last());
        if exists|i: int| 0 <= i < rest.len() && same_path(#[trigger] rest[i], s.last()) {
            rest
        } else {
            rest.push(s.last())
        }
    }
}

fn holds_path(v: &Vec<String>, p: &str) -> (found: bool)
    ensures
        found == exists|i: int| 0 <= i < v@.len() && same_path(#[trigger] views(v@)[i], p@),
{
    let mut i: usize = 0;
    while i < v.len()
        invariant
            i <= v@.len(),
            forall|k: int| 0 <= k < i ==> !same_path(#[trigger] views(v@)[k], p@),
        decreases v@.len() - i,
    {
        if paths_equal(v[i].as_str(), p) {
            assert(views(v@)[i as int] == v@[i as int]@);
            return true;
        }
        assert(views(v@)[i as int] == v@[i as int]@);
        i = i + 1;
    }
    false
}

/// The `src_path` of each of a package's targets but build scripts, in order.
pub open spec fn root_sources(targets: Seq<Json>) -> Seq<Seq<char>>
    decreases targets.len(),
{
    if targets.len() == 0 {
        seq![]
    } else {
        let rest = root_sources(targets.drop_last());
        let t = targets.last();
        if target_has_kind_spec(t, "custom-build"@) {
            rest
        } else {
            match str_at(t, "src_path"@) {
                Some(p) => rest.push(p),
                None => rest,
            }
        }
    }
}

pub open spec fn package_roots(package: Json) -> Seq<Seq<char>> {
    match array_at(package, "targets"@) {
        Some(targets) => distinct_paths(root_sources(targets)),
        None => seq![],
    }
}

/// The distinct target root files of a package without a `src` directory
/// (its build script left out); their lines are what gets counted.
pub fn target_roots(package: &Json) -> (roots: Vec<String>)
    ensures
        views(roots@) == package_roots(*package),
{
    let mut roots: Vec<String> = Vec::new();
    match package.array_at("targets") {
        None => {},
        Some(targets) => {
            let mut i: usize = 0;
            let mut all: Vec<String> = Vec::new();
            while i < targets.len()
                invariant
                    i <= targets@.len(),
                    views(all@) == root_sources(targets@.take(i as int)),
                decreases targets@.len() - i,
            {
                assert(targets@.take(i + 1).drop_last() == targets@.take(i as int));
                assert(targets@.take(i + 1).last() == targets@[i as int]);
                if !target_has_kind(&targets[i], "custom-build") {
                    match targets[i].str_at("src_path") {
                        Some(p) => {
                            let ghost before = views(all@);
                            all.push(String::from_str(p));
                            assert(views(all@) == before.push(p@));
                        },
                        None => {},
                    }
                }
                i = i + 1;
            }
            assert(targets@.take(targets@.len() as int) == targets@);
            let ghost a = views(all@);
            let mut k: usize = 0;
            while k < all.len()
                invariant
                    k <= all@.len(),
                    a == views(all@),
                    views(roots@) == distinct_paths(a.take(k as int)),
                decreases all@.len() - k,
            {
                assert(a.take(k + 1).drop_last() == a.take(k as int));
                assert(a.take(k + 1).last() == all@[k as int]@);
                if !holds_path(&roots, all[k].as_str()) {
                    let ghost before = views(roots@);
                    roots.push(String::from_str(all[k].as_str()));
                    assert(views(roots@) == before.push(all@[k as int]@));
                }
                k = k + 1;
            }
            assert(a.take(all@.len() as int) == a);
        },
    }
    roots
}


// ---------------------------------------------------------------------------
// Totals
// ---------------------------------------------------------------------------

/// What the totals read of a package: its name, manifest, Rust files and
/// lines, and whether it has a build script.
pub type PackageView = (Seq<char>, Seq<char>, usize, usize, bool);

impl PackageShape {
    pub open spec fn view_tuple(&self) -> PackageView {
        (self.name@, self.manifest@, self.rust_source_files, self.rust_lines, self.has_build_script)
    }
}

pub open spec fn package_views(v: Seq<PackageShape>) -> Seq<PackageView> {
    v.map_values(|p: PackageShape| p.view_tuple())
}

/// Every selected package of every manifest, in order.
pub open spec fn all_selected(ms: Seq<ManifestShape>) -> Seq<PackageView>
    decreases ms.len(),
{
    if ms.len() == 0 {
        seq![]
    } else {
        all_selected(ms.drop_last()) + package_views(ms.last().selected_packages@)
    }
}

/// The packages, each manifest once (the first shape seen for it counts).
pub open spec fn distinct_packages(s: Seq<PackageView>) -> Seq<PackageView>
    decreases s.len(),
{
    if s.len() == 0 {
        seq![]
    } else {
        let rest = distinct_packages(s.drop_last());
        if exists|i: int| 0 <= i < rest.len() && same_path((#[trigger] rest[i]).1, s.last().1) {
            rest
        } else {
            rest.push(s.last())
        }
    }
}

pub open spec fn sum_files(s: Seq<PackageView>) -> nat
    decreases s.len(),
{
    if s.len() == 0 {
        0
    } else {
        sum_files(s.drop_last()) + s.last().2 as nat
    }
}

pub open spec fn sum_lines(s: Seq<PackageView>) -> nat
    decreases s.len(),
{
    if s.len() == 0 {
        0
    } else {
        sum_lines(s.drop_last()) + s.last().3 as nat
    }
}

pub open spec fn count_build_scripts(s: Seq<PackageView>) -> nat
    decreases s.len(),
{
    if s.len() == 0 {
        0
    } else {
        count_build_scripts(s.drop_last()) + if s.last().4 {
            1nat
        } else {
            0nat
        }
    }
}

/// The build-script manifests that name none of the selected packages.
pub open spec fn other_scripts(scripts: Seq<Seq<char>>, selected: Seq<PackageView>) -> nat
    decreases scripts.len(),
{
    if scripts.len() == 0 {
        0
    } else {
        other_scripts(scripts.drop_last(), selected) + if exists|i: int|
            0 <= i < selected.len() && same_path((#[trigger] selected[i]).1, scripts.last()) {
            0nat
        } else {
            1nat
        }
    }
}

fn copy_shape(p: &PackageShape) -> (c: PackageShape)
    ensures
        c.view_tuple() == p.view_tuple(),
{
    PackageShape {
        name: String::from_str(p.name.as_str()),
        manifest: String::from_str(p.manifest.as_str()),
        rust_source_files: p.rust_source_files,
        rust_lines: p.rust_lines,
        has_build_script: p.has_build_script,
    }
}

fn distinct_shapes(manifests: &Vec<ManifestShape>) -> (out: Vec<PackageShape>)
    ensures
        package_views(out@) == distinct_packages(all_selected(manifests@)),
{
    let mut all: Vec<PackageShape> = Vec::new();
    let mut m: usize = 0;
    while m < manifests.len()
        invariant
            m <= manifests@.len(),
            package_views(all@) == all_selected(manifests@.take(m as int)),
        decreases manifests@.len() - m,
    {
        assert(manifests@.take(m + 1).drop_last() == manifests@.take(m as int));
        assert(manifests@.take(m + 1).last() == manifests@[m as int]);
        let shapes = &manifests[m].selected_packages;
        let ghost start = package_views(all@);
        let mut k: usize = 0;
        while k < shapes.len()
            invariant
                k <= shapes@.len(),
                package_views(all@) == start + package_views(shapes@.take(k as int)),
            decreases shapes@.len() - k,
        {
            let ghost before = package_views(all@);
            all.push(copy_shape(&shapes[k]));
            assert(package_views(all@) == before.push(shapes@[k as int].view_tuple()));
            assert(shapes@.take(k + 1) == shapes@.take(k as int).push(shapes@[k as int]));
            assert(package_views(shapes@.take(k + 1)) == package_views(shapes@.take(k as int)).push(shapes@[k as int].view_tuple()));
            k = k + 1;
        }
        assert(shapes@.take(shapes@.len() as int) == shapes@);
        m = m + 1;
    }
    assert(manifests@.take(manifests@.len() as int) == manifests@);
    let ghost a = package_views(all@);
    let mut out: Vec<PackageShape> = Vec::new();
    let mut rest = all;
    let ghost mut j: int = 0;
    assert(a.take(0) == Seq::<PackageView>::empty());
    while rest.len() > 0
        invariant
            0 <= j <= a.len(),
            package_views(rest@) == a.skip(j),
            package_views(out@) == distinct_packages(a.take(j)),
        decreases rest@.len(),
    {
        assert(package_views(rest@)[0] == rest@[0].view_tuple());
        let ghost old_rest = rest@;
        assert(package_views(old_rest).len() == old_rest.len());
        assert(j < a.len());
        let p = rest.remove(0);
        assert(p == old_rest[0]);
        assert(a.skip(j)[0] == a[j]);
        assert(p.view_tuple() == a[j]);
        assert(rest@ == old_rest.drop_first());
        assert(package_views(rest@) =~= package_views(old_rest).drop_first());
        assert(a.skip(j).drop_first() == a.skip(j + 1));
        assert(package_views(rest@) == a.skip(j + 1));
        assert(a.take(j + 1).drop_last() == a.take(j));
        assert(a.take(j + 1).last() == p.view_tuple());
        let ghost ov = package_views(out@);
        let mut found = false;
        let mut k: usize = 0;
        while k < out.len()
            invariant
                k <= out@.len(),
                ov == package_views(out@),
                found == exists|i: int| 0 <= i < k && same_path((#[trigger] ov[i]).1, p.manifest@),
            decreases out@.len() - k,
        {
            assert(ov[k as int] == out@[k as int].view_tuple());
            if paths_equal(out[k].manifest.as_str(), p.manifest.as_str()) {
                found = true;
            }
            k = k + 1;
        }
        if !found {
            let ghost pv = p.view_tuple();
            out.push(p);
            assert(package_views(out@) == ov.push(pv));
        }
        proof {
            j = j + 1;
        }
    }
    assert(a.take(j) == a);
    out
}

fn counted_elsewhere(scripts: &Vec<String>, selected: &Vec<PackageShape>) -> (n: usize)
    ensures
        n == other_scripts(distinct_paths(views(scripts@)), package_views(selected@)),
{
    let mut distinct: Vec<String> = Vec::new();
    let ghost v = views(scripts@);
    let mut k: usize = 0;
    while k < scripts.len()
        invariant
            k <= scripts@.len(),
            v == views(scripts@),
            views(distinct@) == distinct_paths(v.take(k as int)),
        decreases scripts@.len() - k,
    {
        assert(v.take(k + 1).drop_last() == v.take(k as int));
        assert(v.take(k + 1).last() == scripts@[k as int]@);
        if !holds_path(&distinct, scripts[k].as_str()) {
            let ghost before = views(distinct@);
            distinct.push(String::from_str(scripts[k].as_str()));
            assert(views(distinct@) == before.push(scripts@[k as int]@));
        }
        k = k + 1;
    }
    assert(v.take(scripts@.len() as int) == v);
    let ghost d = views(distinct@);
    let mut n: usize = 0;
    let mut i: usize = 0;
    while i < distinct.len()
        invariant
            i <= distinct@.len(),
            d == views(distinct@),
            n == other_scripts(d.take(i as int), package_views(selected@)),
            n <= i,
        decreases distinct@.len() - i,
    {
        assert(d.take(i + 1).drop_last() == d.take(i as int));
        assert(d.take(i + 1).last() == distinct@[i as int]@);
        let mut found = false;
        let mut k: usize = 0;
        while k < selected.len()
            invariant
                k <= selected@.len(),
                i < distinct@.len(),
                found == exists|x: int| 0 <= x < k && same_path((#[trigger] package_views(selected@)[x]).1, distinct@[i as int]@),
            decreases selected@.len() - k,
        {
            assert(package_views(selected@)[k as int] == selected@[k as int].view_tuple());
            if paths_equal(selected[k].manifest.as_str(), distinct[i].as_str()) {
                found = true;
            }
            k = k + 1;
        }
        if !found {
            n = n + 1;
        }
        i = i + 1;
    }
    assert(d.take(distinct@.len() as int) == d);
    n
}

/// Totals the selected packages of every manifest into the project's shape:
/// each package counted once (by manifest), and the other local packages
/// with build scripts counted apart.
pub fn summarize_project(rustc: RustcInfo, manifests: Vec<ManifestShape>, build_script_manifests: &Vec<String>) -> (shape: ProjectShape)
    requires
        sum_files(distinct_packages(all_selected(manifests@))) <= usize::MAX,
        sum_lines(distinct_packages(all_selected(manifests@))) <= usize::MAX,
    ensures
        shape.rustc == rustc,
        shape.manifests@ == manifests@,
        shape.rust_source_files == sum_files(distinct_packages(all_selected(manifests@))),
        shape.rust_lines == sum_lines(distinct_packages(all_selected(manifests@))),
        shape.direct_build_scripts == count_build_scripts(distinct_packages(all_selected(manifests@))),
        shape.other_local_build_scripts == other_scripts(
            distinct_paths(views(build_script_manifests@)),
            distinct_packages(all_selected(manifests@)),
        ),
{
    let selected = distinct_shapes(&manifests);
    let ghost s = package_views(selected@);
    let mut files: usize = 0;
    let mut lines: usize = 0;
    let mut scripts: usize = 0;
    let mut i: usize = 0;
    while i < selected.len()
        invariant
            i <= selected@.len(),
            s == package_views(selected@),
            sum_files(s) <= usize::MAX,
            sum_lines(s) <= usize::MAX,
            files == sum_files(s.take(i as int)),
            lines == sum_lines(s.take(i as int)),
            scripts == count_build_scripts(s.take(i as int)),
            scripts <= i,
        decreases selected@.len() - i,
    {
        assert(s.take(i + 1).drop_last() == s.take(i as int));
        assert(s.take(i + 1).last() == s[i as int]);
        assert(s[i as int] == selected@[i as int].view_tuple());
        proof {
            lemma_sums_grow(s, i + 1);
        }
        files = files + selected[i].rust_source_files;
        lines = lines + selected[i].rust_lines;
        if selected[i].has_build_script {
            scripts = scripts + 1;
        }
        i = i + 1;
    }
    assert(s.take(selected@.len() as int) == s);
    let other = counted_elsewhere(build_script_manifests, &selected);
    ProjectShape {
        rustc,
        manifests,
        rust_source_files: files,
        rust_lines: lines,
        direct_build_scripts: scripts,
        other_local_build_scripts: other,
    }
}

proof fn lemma_sums_grow(s: Seq<PackageView>, n: int)
    requires
        0 <= n <= s.len(),
    ensures
        sum_files(s.take(n)) <= sum_files(s),
        sum_lines(s.take(n)) <= sum_lines(s),
    decreases s.len() - n,
{
    if n < s.len() {
        lemma_sums_grow(s, n + 1);
        assert(s.take(n + 1).drop_last() == s.take(n));
    } else {
        assert(s.take(n) == s);
    }
}


proof fn lemma_last_with_id_names(packages: Seq<Json>, id: Seq<char>)
    ensures
        last_with_id(packages, id) matches Some(i) ==> 0 <= i < packages.len() && str_at(
            packages[i],
            "id"@,
        ) == Some(id),
    decreases packages.len(),
{
    if packages.len() > 0 && str_at(packages.last(), "id"@) != Some(id) {
        lemma_last_with_id_names(packages.drop_last(), id);
        if let Some(i) = last_with_id(packages.drop_last(), id) {
            assert(packages[i] == packages.drop_last()[i]);
        }
    }
}

proof fn lemma_packages_for_named(ids: Seq<Seq<char>>, packages: Seq<Json>, k: int)
    requires
        0 <= k < packages_for(ids, packages).len(),
    ensures
        0 <= packages_for(ids, packages)[k] < packages.len(),
        exists|j: int|
            0 <= j < ids.len() && str_at(packages[packages_for(ids, packages)[k]], "id"@) == Some(
                #[trigger] ids[j],
            ),
    decreases ids.len(),
{
    let rest = packages_for(ids.drop_last(), packages);
    lemma_last_with_id_names(packages, ids.last());
    if k < rest.len() {
        lemma_packages_for_named(ids.drop_last(), packages, k);
        let j = choose|j: int|
            0 <= j < ids.drop_last().len() && str_at(packages[rest[k]], "id"@) == Some(
                #[trigger] ids.drop_last()[j],
            );
        assert(ids[j] == ids.drop_last()[j]);
        assert(packages_for(ids, packages)[k] == rest[k]);
    } else {
        assert(ids[ids.len() - 1] == ids.last());
    }
}

/// Which packages a manifest selects. The manifest's own package, where one
/// of the packages is it, is selected alone. Otherwise, when the workspace
/// lists default members, exactly the packages they name are selected, in
/// their order; when it lists none, those all its members name. Every
/// package selected otherwise is one a listed member id names.
pub proof fn law_selected_packages(packages: Seq<Json>, metadata: Json, is_manifest: Seq<bool>)
    ensures
        first_true(is_manifest) matches Some(i) ==> selection(packages, metadata, is_manifest) == seq![i],
        first_true(is_manifest) is None ==> match array_at(metadata, "workspace_default_members"@) {
            Some(defaults) if defaults.len() > 0 => selection(packages, metadata, is_manifest)
                == packages_for(strings_in(defaults), packages),
            _ => selection(packages, metadata, is_manifest) == packages_for(
                strings_in(
                    match array_at(metadata, "workspace_members"@) {
                        Some(all) => all,
                        None => seq![],
                    },
                ),
                packages,
            ),
        },
        first_true(is_manifest) is None ==> forall|k: int|
            0 <= k < selection(packages, metadata, is_manifest).len() ==> exists|j: int|
                0 <= j < strings_in(member_ids(metadata)).len() && str_at(
                    packages[#[trigger] selection(packages, metadata, is_manifest)[k]],
                    "id"@,
                ) == Some(strings_in(member_ids(metadata))[j]),
{
    if first_true(is_manifest) is None {
        let ids = strings_in(member_ids(metadata));
        assert forall|k: int| 0 <= k < selection(packages, metadata, is_manifest).len() implies exists|j: int|
            0 <= j < ids.len() && str_at(
                packages[#[trigger] selection(packages, metadata, is_manifest)[k]],
                "id"@,
            ) == Some(ids[j]) by {
            lemma_packages_for_named(ids, packages, k);
        }
    }
}

} // verus!
