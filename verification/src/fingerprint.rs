//! Cargo's fingerprint log (`CARGO_LOG=cargo::core::compiler::fingerprint=info`)
//! read into the reasons Cargo gave for rebuilding.
use vstd::prelude::*;

use crate::order::{lemma_text_le_antisymmetric, lemma_text_le_total, lemma_text_le_transitive, text_le, text_le_of};
use crate::text::{
    chars_of, contains, contains_str, find, find_str, lemma_find_from_range, lines, lines_of,
    second_field, second_field_of, slice, string_of, texts, trim, trim_char, trim_char_of, trim_of,
    find_char_from, lemma_find_char_from_range, lemma_find_char_prefix, lemma_lines_shift, lines_from,
    strip_cr,
};

verus! {

/// The kinds of rebuild reason the doctor groups Cargo's log lines into, in
/// the order reports list them.
#[derive(Debug, Clone, Copy, PartialEq, Eq, Structural)]
pub enum FingerprintCategory {
    ChangedFile,
    BuildScriptPathsChanged,
    DependencyChanged,
    EnvironmentChanged,
    CompilerChanged,
    FilesystemOutdated,
    Other,
}

/// One rebuild reason: the package it concerns (if the line names one), its
/// kind, and the text Cargo logged after the fingerprint target.
#[derive(Debug, Clone)]
pub struct FingerprintReason {
    pub package: Option<String>,
    pub category: FingerprintCategory,
    pub detail: String,
}

pub type ReasonView = (Option<Seq<char>>, FingerprintCategory, Seq<char>);

impl View for FingerprintReason {
    type V = ReasonView;

    open spec fn view(&self) -> ReasonView {
        (
            match self.package {
                Some(p) => Some(p@),
                None => None,
            },
            self.category,
            self.detail@,
        )
    }
}

pub open spec fn category_rank(c: FingerprintCategory) -> int {
    match c {
        FingerprintCategory::ChangedFile => 0,
        FingerprintCategory::BuildScriptPathsChanged => 1,
        FingerprintCategory::DependencyChanged => 2,
        FingerprintCategory::EnvironmentChanged => 3,
        FingerprintCategory::CompilerChanged => 4,
        FingerprintCategory::FilesystemOutdated => 5,
        FingerprintCategory::Other => 6,
    }
}

pub open spec fn text_lt(a: Seq<char>, b: Seq<char>) -> bool {
    text_le(a, b) && a != b
}

pub open spec fn package_lt(a: Option<Seq<char>>, b: Option<Seq<char>>) -> bool {
    match (a, b) {
        (None, Some(_)) => true,
        (Some(x), Some(y)) => text_lt(x, y),
        _ => false,
    }
}

/// The order of the derived `Ord` of a reason: package, then category, then
/// detail.
pub open spec fn reason_lt(a: ReasonView, b: ReasonView) -> bool {
    ||| package_lt(a.0, b.0)
    ||| a.0 == b.0 && category_rank(a.1) < category_rank(b.1)
    ||| a.0 == b.0 && a.1 == b.1 && text_lt(a.2, b.2)
}

/// `s` is strictly increasing: sorted, each reason once.
pub open spec fn strictly_sorted(s: Seq<ReasonView>) -> bool {
    forall|i: int, j: int| 0 <= i < j < s.len() ==> reason_lt(s[i], s[j])
}

proof fn lemma_text_lt_trans(a: Seq<char>, b: Seq<char>, c: Seq<char>)
    requires
        text_lt(a, b),
        text_lt(b, c),
    ensures
        text_lt(a, c),
{
    lemma_text_le_transitive(a, b, c);
    if a == c {
        lemma_text_le_antisymmetric(a, b);
    }
}

proof fn lemma_reason_lt_trans(a: ReasonView, b: ReasonView, c: ReasonView)
    requires
        reason_lt(a, b),
        reason_lt(b, c),
    ensures
        reason_lt(a, c),
{
    if a.0 != b.0 && b.0 != c.0 {
        if let (Some(x), Some(y), Some(z)) = (a.0, b.0, c.0) {
            lemma_text_lt_trans(x, y, z);
        }
    }
    if a.0 == b.0 && b.0 == c.0 && a.1 == b.1 && b.1 == c.1 {
        lemma_text_lt_trans(a.2, b.2, c.2);
    }
    if a.0 == c.0 && a.0 != b.0 {
        if let (Some(x), Some(y)) = (a.0, b.0) {
            lemma_text_le_antisymmetric(x, y);
        }
    }
}

proof fn lemma_reason_trichotomy(a: ReasonView, b: ReasonView)
    ensures
        reason_lt(a, b) || a == b || reason_lt(b, a),
{
    if let (Some(x), Some(y)) = (a.0, b.0) {
        lemma_text_le_total(x, y);
    }
    lemma_text_le_total(a.2, b.2);
    if a.0 == b.0 && a.1 == b.1 && a.2 == b.2 {
        assert(a == b);
    }
}

proof fn lemma_reason_asym(a: ReasonView, b: ReasonView)
    requires
        reason_lt(a, b),
    ensures
        !reason_lt(b, a),
        a != b,
{
    if let (Some(x), Some(y)) = (a.0, b.0) {
        if text_le(x, y) && text_le(y, x) {
            lemma_text_le_antisymmetric(x, y);
        }
    }
    if text_le(a.2, b.2) && text_le(b.2, a.2) {
        lemma_text_le_antisymmetric(a.2, b.2);
    }
}

// ---------------------------------------------------------------------------
// One log line
// ---------------------------------------------------------------------------

/// The package a fingerprint line names: the text after `package_id=` up to
/// ` target=`, without surrounding quotes.
pub open spec fn package_of(line: Seq<char>) -> Option<Seq<char>> {
    match find(line, "package_id="@) {
        Some(k) => {
            let rest = line.skip(k + "package_id="@.len());
            let end = match find(rest, " target="@) {
                Some(e) => e,
                None => rest.len() as int,
            };
            Some(trim_char(rest.take(end), '"'))
        },
        None => None,
    }
}

/// The kind of reason a (trimmed) fingerprint line gives, if it gives one.
pub open spec fn category_of(t: Seq<char>) -> Option<FingerprintCategory> {
    if contains(t, "stale: changed "@) {
        Some(FingerprintCategory::ChangedFile)
    } else if contains(t, "RerunIfChangedOutputPathsChanged"@) {
        Some(FingerprintCategory::BuildScriptPathsChanged)
    } else if contains(t, "UnitDependencyInfoChanged"@) || contains(t, "StaleDepFingerprint"@)
        || contains(t, "unit dependency information changed"@) {
        Some(FingerprintCategory::DependencyChanged)
    } else if contains(t, "EnvVar"@) || contains(t, "environment variable"@) {
        Some(FingerprintCategory::EnvironmentChanged)
    } else if contains(t, "path to the compiler has changed"@) {
        Some(FingerprintCategory::CompilerChanged)
    } else if contains(t, "FsStatusOutdated"@) || contains(
        t,
        "current filesystem status shows we're outdated"@,
    ) {
        Some(FingerprintCategory::FilesystemOutdated)
    } else if contains(t, "dirty:"@) || contains(t, "err:"@) {
        Some(FingerprintCategory::Other)
    } else {
        None
    }
}

/// The reason one log line gives, if it is a fingerprint line that gives one.
pub open spec fn reason_of(line: Seq<char>) -> Option<ReasonView> {
    if !contains(line, "cargo::core::compiler::fingerprint"@) {
        None
    } else {
        let t = trim(line);
        match category_of(t) {
            Some(c) => {
                let detail = trim(
                    match second_field(t, "cargo::core::compiler::fingerprint:"@) {
                        Some(d) => d,
                        None => t,
                    },
                );
                Some((package_of(line), c, detail))
            },
            None => None,
        }
    }
}

/// Every reason the lines give, in line order (with repeats).
pub open spec fn reasons_in(ls: Seq<Seq<char>>) -> Seq<ReasonView>
    decreases ls.len(),
{
    if ls.len() == 0 {
        seq![]
    } else {
        match reason_of(ls.last()) {
            Some(r) => reasons_in(ls.drop_last()).push(r),
            None => reasons_in(ls.drop_last()),
        }
    }
}

/// The package named in a fingerprint log line.
pub fn extract_package(line: &Vec<char>) -> (package: Option<String>)
    ensures
        match package_of(line@) {
            Some(p) => package matches Some(s) && s@ == p,
            None => package is None,
        },
{
    let marker = chars_of("package_id=");
    let start = match find_str(line, &marker) {
        Some(k) => k,
        None => return None,
    };
    proof {
        lemma_find_from_range(line@, marker@, 0);
    }
    assert(start + marker.len() <= line.len());
    let rest = slice(line, start + marker.len(), line.len());
    assert(rest@ == line@.skip(start + "package_id="@.len()));
    let end = match find_str(&rest, &chars_of(" target=")) {
        Some(e) => {
            proof {
                lemma_find_from_range(rest@, " target="@, 0);
            }
            e
        },
        None => rest.len(),
    };
    let name = trim_char_of(&slice(&rest, 0, end), '"');
    Some(string_of(&name))
}

fn contains_lit(t: &Vec<char>, lit: &str) -> (b: bool)
    ensures
        b == contains(t@, lit@),
{
    contains_str(t, &chars_of(lit))
}

fn category_of_line(t: &Vec<char>) -> (c: Option<FingerprintCategory>)
    ensures
        c == category_of(t@),
{
    if contains_lit(t, "stale: changed ") {
        Some(FingerprintCategory::ChangedFile)
    } else if contains_lit(t, "RerunIfChangedOutputPathsChanged") {
        Some(FingerprintCategory::BuildScriptPathsChanged)
    } else if contains_lit(t, "UnitDependencyInfoChanged") || contains_lit(t, "StaleDepFingerprint")
        || contains_lit(t, "unit dependency information changed") {
        Some(FingerprintCategory::DependencyChanged)
    } else if contains_lit(t, "EnvVar") || contains_lit(t, "environment variable") {
        Some(FingerprintCategory::EnvironmentChanged)
    } else if contains_lit(t, "path to the compiler has changed") {
        Some(FingerprintCategory::CompilerChanged)
    } else if contains_lit(t, "FsStatusOutdated") || contains_lit(
        t,
        "current filesystem status shows we're outdated",
    ) {
        Some(FingerprintCategory::FilesystemOutdated)
    } else if contains_lit(t, "dirty:") || contains_lit(t, "err:") {
        Some(FingerprintCategory::Other)
    } else {
        None
    }
}

/// The reason a single log line gives.
pub fn reason_in_line(line: &Vec<char>) -> (r: Option<FingerprintReason>)
    ensures
        match reason_of(line@) {
            Some(v) => r matches Some(x) && x@ == v,
            None => r is None,
        },
{
    if !contains_lit(line, "cargo::core::compiler::fingerprint") {
        return None;
    }
    let t = trim_of(line);
    let category = match category_of_line(&t) {
        Some(c) => c,
        None => return None,
    };
    let field = match second_field_of(&t, &chars_of("cargo::core::compiler::fingerprint:")) {
        Some(d) => d,
        None => t,
    };
    let detail = trim_of(&field);
    Some(FingerprintReason { package: extract_package(line), category, detail: string_of(&detail) })
}

// ---------------------------------------------------------------------------
// The whole log
// ---------------------------------------------------------------------------

/// Where reason `a` stands relative to reason `b`.
pub enum Placement {
    Before,
    Same,
    After,
}

fn place(a: &FingerprintReason, b: &FingerprintReason) -> (p: Placement)
    ensures
        p is Before <==> reason_lt(a@, b@),
        p is Same <==> a@ == b@,
        p is After <==> reason_lt(b@, a@),
{
    proof {
        lemma_reason_trichotomy(a@, b@);
        if reason_lt(a@, b@) {
            lemma_reason_asym(a@, b@);
        }
        if reason_lt(b@, a@) {
            lemma_reason_asym(b@, a@);
        }
    }
    match (&a.package, &b.package) {
        (None, Some(_)) => return Placement::Before,
        (Some(_), None) => return Placement::After,
        (Some(x), Some(y)) => {
            let xs = chars_of(x.as_str());
            let ys = chars_of(y.as_str());
            let le = text_le_of(&xs, &ys);
            let ge = text_le_of(&ys, &xs);
            if le && !ge {
                return Placement::Before;
            }
            if ge && !le {
                return Placement::After;
            }
            proof {
                lemma_text_le_total(x@, y@);
                lemma_text_le_antisymmetric(x@, y@);
            }
        },
        (None, None) => {},
    }
    let ra = rank(a.category);
    let rb = rank(b.category);
    if ra < rb {
        return Placement::Before;
    }
    if rb < ra {
        return Placement::After;
    }
    assert(a.category == b.category);
    let da = chars_of(a.detail.as_str());
    let db = chars_of(b.detail.as_str());
    let le = text_le_of(&da, &db);
    let ge = text_le_of(&db, &da);
    if le && ge {
        proof {
            lemma_text_le_antisymmetric(a.detail@, b.detail@);
        }
        Placement::Same
    } else if le {
        Placement::Before
    } else {
        proof {
            lemma_text_le_total(a.detail@, b.detail@);
        }
        Placement::After
    }
}

fn rank(c: FingerprintCategory) -> (r: u8)
    ensures
        r as int == category_rank(c),
{
    match c {
        FingerprintCategory::ChangedFile => 0,
        FingerprintCategory::BuildScriptPathsChanged => 1,
        FingerprintCategory::DependencyChanged => 2,
        FingerprintCategory::EnvironmentChanged => 3,
        FingerprintCategory::CompilerChanged => 4,
        FingerprintCategory::FilesystemOutdated => 5,
        FingerprintCategory::Other => 6,
    }
}

pub open spec fn reason_views(v: Seq<FingerprintReason>) -> Seq<ReasonView> {
    v.map_values(|r: FingerprintReason| r@)
}

/// Adds `r` to a strictly sorted list unless it is already there.
fn insert_reason(out: &mut Vec<FingerprintReason>, r: FingerprintReason)
    requires
        strictly_sorted(reason_views(old(out)@)),
    ensures
        strictly_sorted(reason_views(final(out)@)),
        forall|x: ReasonView|
            reason_views(final(out)@).contains(x) <==> (reason_views(old(out)@).contains(x) || x
                == r@),
{
    let ghost before = reason_views(out@);
    let mut j: usize = 0;
    let mut same = false;
    while j < out.len()
        invariant
            j <= out@.len(),
            out@ == old(out)@,
            before == reason_views(out@),
            forall|k: int| 0 <= k < j ==> reason_lt(#[trigger] before[k], r@),
            same ==> j < out@.len() && before[j as int] == r@,
        ensures
            out@ == old(out)@,
            forall|k: int| 0 <= k < j ==> reason_lt(#[trigger] before[k], r@),
            same ==> j < out@.len() && before[j as int] == r@,
            !same ==> j == out@.len() || reason_lt(r@, before[j as int]),
        decreases out@.len() - j,
    {
        match place(&out[j], &r) {
            Placement::Before => {
                j = j + 1;
            },
            Placement::Same => {
                same = true;
                break;
            },
            Placement::After => {
                break;
            },
        }
    }
    if same {
        assert forall|x: ReasonView| before.contains(x) <==> (before.contains(x) || x == r@) by {
            if x == r@ {
                assert(before[j as int] == x);
            }
        }
        return;
    }
    let ghost rv = r@;
    out.insert(j, r);
    proof {
        let nv = reason_views(out@);
        assert(nv == before.insert(j as int, rv));
        assert forall|a: int, b: int| 0 <= a < b < nv.len() implies reason_lt(nv[a], nv[b]) by {
            if b == j {
                assert(reason_lt(before[a], rv));
            } else if a == j {
                if b - 1 > j {
                    assert(reason_lt(before[j as int], before[b - 1]));
                    lemma_reason_lt_trans(rv, before[j as int], before[b - 1]);
                }
            } else if a < j && b > j {
                assert(reason_lt(before[a], before[b - 1]));
            } else if a > j {
                assert(reason_lt(before[a - 1], before[b - 1]));
            } else {
                assert(reason_lt(before[a], before[b]));
            }
        }
        assert forall|x: ReasonView| nv.contains(x) <==> (before.contains(x) || x == rv) by {
            if nv.contains(x) {
                let k = choose|k: int| 0 <= k < nv.len() && nv[k] == x;
                if k < j {
                    assert(before[k] == x);
                } else if k > j {
                    assert(before[k - 1] == x);
                }
            }
            if before.contains(x) {
                let k = choose|k: int| 0 <= k < before.len() && before[k] == x;
                if k < j {
                    assert(nv[k] == x);
                } else {
                    assert(nv[k + 1] == x);
                }
            }
            if x == rv {
                assert(nv[j as int] == x);
            }
        }
    }
}

/// Groups the fingerprint lines of a Cargo log into rebuild reasons: each
/// distinct reason once, in the reasons' order.
pub fn parse_fingerprint_reasons(log: &str) -> (reasons: Vec<FingerprintReason>)
    ensures
        strictly_sorted(reason_views(reasons@)),
        forall|x: ReasonView|
            reason_views(reasons@).contains(x) <==> reasons_in(lines(log@)).contains(x),
{
    let chars = chars_of(log);
    let ls = lines_of(&chars);
    let mut out: Vec<FingerprintReason> = Vec::new();
    let mut i: usize = 0;
    while i < ls.len()
        invariant
            i <= ls@.len(),
            texts(ls@) == lines(log@),
            strictly_sorted(reason_views(out@)),
            forall|x: ReasonView|
                reason_views(out@).contains(x) <==> reasons_in(texts(ls@).take(i as int)).contains(
                    x,
                ),
        decreases ls@.len() - i,
    {
        let ghost before = reason_views(out@);
        let ghost prefix = texts(ls@).take(i as int);
        assert(texts(ls@).take(i + 1) == prefix.push(ls@[i as int]@));
        assert(texts(ls@).take(i + 1).drop_last() == prefix);
        assert(texts(ls@).take(i + 1).last() == ls@[i as int]@);
        match reason_in_line(&ls[i]) {
            Some(r) => {
                let ghost rv = r@;
                insert_reason(&mut out, r);
                assert forall|x: ReasonView| reason_views(out@).contains(x) <==> reasons_in(
                    texts(ls@).take(i + 1),
                ).contains(x) by {
                    let now = reasons_in(texts(ls@).take(i + 1));
                    assert(now == reasons_in(prefix).push(rv));
                    if now.contains(x) && x != rv {
                        let k = choose|k: int| 0 <= k < now.len() && now[k] == x;
                        assert(reasons_in(prefix)[k] == x);
                    }
                    if reasons_in(prefix).contains(x) {
                        let k = choose|k: int|
                            0 <= k < reasons_in(prefix).len() && reasons_in(prefix)[k] == x;
                        assert(now[k] == x);
                    }
                    if x == rv {
                        assert(now[now.len() - 1] == x);
                    }
                }
            },
            None => {
                assert(reasons_in(texts(ls@).take(i + 1)) == reasons_in(prefix));
            },
        }
        i = i + 1;
    }
    assert(texts(ls@).take(ls@.len() as int) == texts(ls@));
    out
}


// ---------------------------------------------------------------------------
// Laws over several logs
// ---------------------------------------------------------------------------

proof fn lemma_reasons_concat(x: Seq<Seq<char>>, y: Seq<Seq<char>>)
    ensures
        reasons_in(x + y) == reasons_in(x) + reasons_in(y),
    decreases y.len(),
{
    if y.len() == 0 {
        assert(x + y == x);
        assert(reasons_in(x) + reasons_in(y) == reasons_in(x));
    } else {
        assert((x + y).drop_last() == x + y.drop_last());
        assert((x + y).last() == y.last());
        lemma_reasons_concat(x, y.drop_last());
    }
}

proof fn lemma_joined_reasons(a: Seq<char>, b: Seq<char>, start: int)
    requires
        0 <= start <= a.len(),
        !(a.len() > 0 && a.last() == '\r'),
    ensures
        reasons_in(lines_from(a + seq!['\n'] + b, start)) == reasons_in(lines_from(a, start))
            + reasons_in(lines(b)),
    decreases a.len() - start,
{
    let p = a + seq!['\n'];
    let s = p + b;
    assert(s.take(a.len() as int) == a);
    assert(s[a.len() as int] == '\n');
    lemma_lines_shift(p, b, 0);
    assert(p.len() + 0 == a.len() + 1);
    lemma_find_char_from_range(a, '\n', start);
    lemma_find_char_prefix(a, s, '\n', start);
    let empty = Seq::<char>::empty();
    assert(reasons_in(seq![empty]) == Seq::<ReasonView>::empty()) by {
        assert(seq![empty].last() == empty);
        assert(seq![empty].drop_last() == Seq::<Seq<char>>::empty());
        reveal_strlit("cargo::core::compiler::fingerprint");
        assert(find(empty, "cargo::core::compiler::fingerprint"@) is None);
        assert(reason_of(empty) is None);
        assert(reasons_in(Seq::<Seq<char>>::empty()) == Seq::<ReasonView>::empty());
        assert(reasons_in(seq![empty]) == reasons_in(seq![empty].drop_last()));
    }
    if start == a.len() {
        assert(find_char_from(s, '\n', start) == Some(start));
        assert(s.subrange(start, start) == empty);
        assert(strip_cr(empty) == empty);
        assert(lines_from(s, start) == seq![empty] + lines_from(s, start + 1));
        lemma_reasons_concat(seq![empty], lines_from(s, start + 1));
        assert(lines_from(a, start) == Seq::<Seq<char>>::empty());
        assert(reasons_in(Seq::<Seq<char>>::empty()) + reasons_in(lines(b)) == reasons_in(lines(b)));
        assert(Seq::<ReasonView>::empty() + reasons_in(lines(b)) == reasons_in(lines(b)));
    } else {
        match find_char_from(a, '\n', start) {
            Some(k) => {
                let line = strip_cr(a.subrange(start, k));
                assert(s.subrange(start, k) == a.subrange(start, k));
                assert(lines_from(s, start) == seq![line] + lines_from(s, k + 1));
                assert(lines_from(a, start) == seq![line] + lines_from(a, k + 1));
                lemma_joined_reasons(a, b, k + 1);
                lemma_reasons_concat(seq![line], lines_from(s, k + 1));
                lemma_reasons_concat(seq![line], lines_from(a, k + 1));
                assert(reasons_in(seq![line]) + (reasons_in(lines_from(a, k + 1)) + reasons_in(lines(b)))
                    == (reasons_in(seq![line]) + reasons_in(lines_from(a, k + 1))) + reasons_in(lines(b)));
            },
            None => {
                lemma_find_char_from_range(s, '\n', a.len() as int);
                assert(find_char_from(s, '\n', a.len() as int) == Some(a.len() as int));
                let line = a.subrange(start, a.len() as int);
                assert(s.subrange(start, a.len() as int) == line);
                assert(line.last() == a.last());
                assert(strip_cr(line) == line);
                assert(lines_from(s, start) == seq![line] + lines_from(s, a.len() + 1int));
                assert(lines_from(a, start) == seq![line]);
                lemma_reasons_concat(seq![line], lines_from(s, a.len() + 1int));
            },
        }
    }
}

/// Two logs joined by a line break give the reasons of both: a reason is
/// read from `a` + "\n" + `b` exactly when it is read from `a` or from `b`
/// (unless `a` ends in `\r`, which would turn the break into a `\r\n`).
pub proof fn law_joined_logs_give_the_union(a: Seq<char>, b: Seq<char>, x: ReasonView)
    requires
        !(a.len() > 0 && a.last() == '\r'),
    ensures
        reasons_in(lines(a + seq!['\n'] + b)).contains(x) <==> (reasons_in(lines(a)).contains(x)
            || reasons_in(lines(b)).contains(x)),
{
    lemma_joined_reasons(a, b, 0);
    let ra = reasons_in(lines(a));
    let rb = reasons_in(lines(b));
    let r = ra + rb;
    if r.contains(x) {
        let k = choose|k: int| 0 <= k < r.len() && r[k] == x;
        if k < ra.len() {
            assert(ra[k] == x);
        } else {
            assert(rb[k - ra.len()] == x);
        }
    }
    if ra.contains(x) {
        let k = choose|k: int| 0 <= k < ra.len() && ra[k] == x;
        assert(r[k] == x);
    }
    if rb.contains(x) {
        let k = choose|k: int| 0 <= k < rb.len() && rb[k] == x;
        assert(r[ra.len() + k] == x);
    }
}

/// A strictly sorted list of reasons is fixed by which reasons it holds, so
/// `parse_fingerprint_reasons` has one answer for each set of reasons: with
/// the law above, the reasons of `a` + "\n" + `b` are the sorted union of
/// those of `a` and `b`, each once.
pub proof fn law_reasons_fixed_by_their_set(r1: Seq<ReasonView>, r2: Seq<ReasonView>)
    requires
        strictly_sorted(r1),
        strictly_sorted(r2),
        forall|x: ReasonView| r1.contains(x) <==> r2.contains(x),
    ensures
        r1 == r2,
    decreases r1.len() + r2.len(),
{
    if r1.len() == 0 {
        if r2.len() > 0 {
            assert(r2.contains(r2[0]));
        }
        assert(r1 =~= r2);
    } else if r2.len() == 0 {
        assert(r1.contains(r1[0]));
    } else {
        assert(r1.contains(r1[0]));
        assert(r2.contains(r2[0]));
        let j = choose|j: int| 0 <= j < r1.len() && r1[j] == r2[0];
        let k = choose|k: int| 0 <= k < r2.len() && r2[k] == r1[0];
        if r1[0] != r2[0] {
            assert(j > 0 && k > 0);
            assert(reason_lt(r1[0], r1[j]));
            assert(reason_lt(r2[0], r2[k]));
            lemma_reason_asym(r1[0], r2[0]);
            assert(false);
        }
        let t1 = r1.drop_first();
        let t2 = r2.drop_first();
        assert forall|x: ReasonView| t1.contains(x) <==> t2.contains(x) by {
            if t1.contains(x) {
                let i = choose|i: int| 0 <= i < t1.len() && t1[i] == x;
                assert(r1[i + 1] == x);
                assert(reason_lt(r1[0], r1[i + 1]));
                lemma_reason_asym(r1[0], x);
                assert(r2.contains(x));
                let m = choose|m: int| 0 <= m < r2.len() && r2[m] == x;
                assert(m != 0);
                assert(t2[m - 1] == x);
            }
            if t2.contains(x) {
                let i = choose|i: int| 0 <= i < t2.len() && t2[i] == x;
                assert(r2[i + 1] == x);
                assert(reason_lt(r2[0], r2[i + 1]));
                lemma_reason_asym(r2[0], x);
                assert(r1.contains(x));
                let m = choose|m: int| 0 <= m < r1.len() && r1[m] == x;
                assert(m != 0);
                assert(t1[m - 1] == x);
            }
        }
        assert(strictly_sorted(t1)) by {
            assert forall|a: int, b: int| 0 <= a < b < t1.len() implies reason_lt(t1[a], t1[b]) by {
                assert(t1[a] == r1[a + 1] && t1[b] == r1[b + 1]);
            }
        }
        assert(strictly_sorted(t2)) by {
            assert forall|a: int, b: int| 0 <= a < b < t2.len() implies reason_lt(t2[a], t2[b]) by {
                assert(t2[a] == r2[a + 1] && t2[b] == r2[b + 1]);
            }
        }
        law_reasons_fixed_by_their_set(t1, t2);
        assert(r1 =~= seq![r1[0]] + t1);
        assert(r2 =~= seq![r2[0]] + t2);
    }
}


/// Each line of a log that gives a reason has that reason reported:
/// `parse_fingerprint_reasons` holds exactly the reasons of its lines, so it
/// holds this one.
pub proof fn law_every_reason_is_reported(ls: Seq<Seq<char>>, j: int)
    requires
        0 <= j < ls.len(),
    ensures
        reason_of(ls[j]) matches Some(r) ==> reasons_in(ls).contains(r),
    decreases ls.len(),
{
    if j < ls.len() - 1 {
        law_every_reason_is_reported(ls.drop_last(), j);
        assert(ls.drop_last()[j] == ls[j]);
        if let Some(r) = reason_of(ls[j]) {
            let prev = reasons_in(ls.drop_last());
            let k = choose|k: int| 0 <= k < prev.len() && prev[k] == r;
            match reason_of(ls.last()) {
                Some(x) => assert(prev.push(x)[k] == r),
                None => {},
            }
        }
    } else {
        if let Some(r) = reason_of(ls[j]) {
            let now = reasons_in(ls);
            assert(now[now.len() - 1] == r);
        }
    }
}

/// A fingerprint line's kind follows the first marker it holds, in this
/// order: a changed file; changed build-script paths; a changed dependency;
/// a changed environment variable; a changed compiler path; an outdated file
/// system status; any other `dirty:` or `err:`. A fingerprint line with none
/// of them gives no reason. The reason names the line's package.
pub proof fn law_reason_categories_follow_markers(line: Seq<char>)
    requires
        contains(line, "cargo::core::compiler::fingerprint"@),
    ensures
        ({
            let t = trim(line);
            let changed = contains(t, "stale: changed "@);
            let paths = contains(t, "RerunIfChangedOutputPathsChanged"@);
            let dependency = contains(t, "UnitDependencyInfoChanged"@) || contains(t, "StaleDepFingerprint"@)
                || contains(t, "unit dependency information changed"@);
            let environment = contains(t, "EnvVar"@) || contains(t, "environment variable"@);
            let compiler = contains(t, "path to the compiler has changed"@);
            let filesystem = contains(t, "FsStatusOutdated"@) || contains(
                t,
                "current filesystem status shows we're outdated"@,
            );
            let other = contains(t, "dirty:"@) || contains(t, "err:"@);
            let kind = match reason_of(line) {
                Some(r) => Some(r.1),
                None => None,
            };
            &&& changed ==> kind == Some(FingerprintCategory::ChangedFile)
            &&& !changed && paths ==> kind == Some(FingerprintCategory::BuildScriptPathsChanged)
            &&& !changed && !paths && dependency ==> kind == Some(FingerprintCategory::DependencyChanged)
            &&& !changed && !paths && !dependency && environment ==> kind == Some(
                FingerprintCategory::EnvironmentChanged,
            )
            &&& !changed && !paths && !dependency && !environment && compiler ==> kind == Some(
                FingerprintCategory::CompilerChanged,
            )
            &&& !changed && !paths && !dependency && !environment && !compiler && filesystem ==> kind
                == Some(FingerprintCategory::FilesystemOutdated)
            &&& !changed && !paths && !dependency && !environment && !compiler && !filesystem && other
                ==> kind == Some(FingerprintCategory::Other)
            &&& !(changed || paths || dependency || environment || compiler || filesystem || other)
                ==> kind is None
            &&& reason_of(line) matches Some(r) ==> r.0 == package_of(line)
        }),
{
}

} // verus!
