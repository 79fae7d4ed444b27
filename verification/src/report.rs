//! The doctor's report as text: what `cargo warm doctor` prints, section by
//! section (the run time of a probe, a decimal figure, is added by the
//! program).
use vstd::prelude::*;

use crate::compiler::RustcChannel;
use crate::doctor::{
    BuildScriptReport, CacheHealth, DoctorReport, ManifestReport, ProbeReport, TrackedMtimeSummary,
};
use crate::fingerprint::{FingerprintCategory, FingerprintReason};
use crate::freshness::{count_outputs, FreshnessReport, PathSensitiveOutput};
use crate::numbers::{decimal, decimal_string};
use crate::order::views;
use crate::project::{ManifestShape, PackageShape, ProjectShape};
use crate::text::{join, join_texts, str_eq};

verus! {

// ---------------------------------------------------------------------------
// Pieces
// ---------------------------------------------------------------------------

pub open spec fn num(n: usize) -> Seq<char> {
    decimal(n as nat)
}

fn append_num(out: &mut String, n: usize)
    ensures
        final(out)@ == old(out)@ + num(n),
{
    let d = decimal_string(n as u64);
    out.append(d.as_str());
}

pub open spec fn on_off(b: bool) -> Seq<char> {
    if b {
        "on"@
    } else {
        "off"@
    }
}

pub open spec fn yes_no(b: bool) -> Seq<char> {
    if b {
        "yes"@
    } else {
        "no"@
    }
}

pub open spec fn clean_text(b: bool) -> Seq<char> {
    if b {
        "clean"@
    } else {
        "dirty"@
    }
}

/// A channel as `{:?}` shows it.
pub open spec fn channel_text(c: RustcChannel) -> Seq<char> {
    match c {
        RustcChannel::Stable => "Stable"@,
        RustcChannel::Beta => "Beta"@,
        RustcChannel::Nightly => "Nightly"@,
        RustcChannel::Dev => "Dev"@,
    }
}

fn channel_label(c: RustcChannel) -> (t: &'static str)
    ensures
        t@ == channel_text(c),
{
    match c {
        RustcChannel::Stable => "Stable",
        RustcChannel::Beta => "Beta",
        RustcChannel::Nightly => "Nightly",
        RustcChannel::Dev => "Dev",
    }
}

/// A category as `{:?}` shows it.
pub open spec fn category_text(c: FingerprintCategory) -> Seq<char> {
    match c {
        FingerprintCategory::ChangedFile => "ChangedFile"@,
        FingerprintCategory::BuildScriptPathsChanged => "BuildScriptPathsChanged"@,
        FingerprintCategory::DependencyChanged => "DependencyChanged"@,
        FingerprintCategory::EnvironmentChanged => "EnvironmentChanged"@,
        FingerprintCategory::CompilerChanged => "CompilerChanged"@,
        FingerprintCategory::FilesystemOutdated => "FilesystemOutdated"@,
        FingerprintCategory::Other => "Other"@,
    }
}

fn category_label(c: FingerprintCategory) -> (t: &'static str)
    ensures
        t@ == category_text(c),
{
    match c {
        FingerprintCategory::ChangedFile => "ChangedFile",
        FingerprintCategory::BuildScriptPathsChanged => "BuildScriptPathsChanged",
        FingerprintCategory::DependencyChanged => "DependencyChanged",
        FingerprintCategory::EnvironmentChanged => "EnvironmentChanged",
        FingerprintCategory::CompilerChanged => "CompilerChanged",
        FingerprintCategory::FilesystemOutdated => "FilesystemOutdated",
        FingerprintCategory::Other => "Other",
    }
}

/// One line per item: `prefix`, the item, a newline.
pub open spec fn item_lines(items: Seq<Seq<char>>, prefix: Seq<char>) -> Seq<char>
    decreases items.len(),
{
    if items.len() == 0 {
        seq![]
    } else {
        item_lines(items.drop_last(), prefix) + prefix + items.last() + "\n"@
    }
}

fn append_item_lines(out: &mut String, items: &Vec<String>, prefix: &str)
    ensures
        final(out)@ == old(out)@ + item_lines(views(items@), prefix@),
{
    let ghost start = out@;
    let ghost v = views(items@);
    let mut i: usize = 0;
    while i < items.len()
        invariant
            i <= items@.len(),
            v == views(items@),
            out@ == start + item_lines(v.take(i as int), prefix@),
        decreases items@.len() - i,
    {
        assert(v.take(i + 1).drop_last() == v.take(i as int));
        assert(v.take(i + 1).last() == items@[i as int]@);
        out.append(prefix);
        out.append(items[i].as_str());
        out.append("\n");
        i = i + 1;
    }
    assert(v.take(items@.len() as int) == v);
}

// ---------------------------------------------------------------------------
// Header
// ---------------------------------------------------------------------------

pub open spec fn opt_text(o: Option<String>) -> Option<Seq<char>> {
    match o {
        Some(s) => Some(s@),
        None => None,
    }
}

pub open spec fn intro_text(r: DoctorReport) -> Seq<char> {
    "cargo-warm doctor\n"@ + "  config:      "@ + match r.config_path {
        Some(p) => p@,
        None => "none (built-in defaults)"@,
    } + "\n"@ + "  profile:     "@ + r.active_profile.name@ + " (prime="@
        + r.active_profile.prime.spec_name() + ", freshness="@ + on_off(
        r.active_profile.freshness_rebase,
    ) + ", include-target="@ + yes_no(r.active_profile.include_target) + ")\n"@
        + "  profiles:    "@ + join(views(r.available_profiles@), ", "@) + "\n"@
}

pub open spec fn peer_text(r: DoctorReport) -> Seq<char> {
    if r.comparison_available {
        "  source:      "@ + r.source@ + " ("@ + r.source_reason@ + ")\n"@ + "  destination: "@
            + r.destination@ + "\n"@ + "  revision:    "@ + (if r.same_revision {
            "exact Git revision"@
        } else {
            "different Git revisions"@
        }) + "\n"@ + "  worktrees:   source="@ + clean_text(r.source_clean) + " destination="@
            + clean_text(r.destination_clean) + "\n"@
    } else {
        "  project:     "@ + r.destination@ + "\n"@ + "  comparison:  "@ + r.source_reason@
            + "\n"@
    }
}

pub open spec fn header_text(r: DoctorReport) -> Seq<char> {
    intro_text(r) + peer_text(r)
}

fn intro(r: &DoctorReport) -> (t: String)
    ensures
        t@ == intro_text(*r),
{
    let mut t = String::from_str("cargo-warm doctor\n");
    t.append("  config:      ");
    match &r.config_path {
        Some(p) => t.append(p.as_str()),
        None => t.append("none (built-in defaults)"),
    }
    t.append("\n");
    t.append("  profile:     ");
    t.append(r.active_profile.name.as_str());
    t.append(" (prime=");
    t.append(r.active_profile.prime.as_str());
    t.append(", freshness=");
    t.append(if r.active_profile.freshness_rebase {
        "on"
    } else {
        "off"
    });
    t.append(", include-target=");
    t.append(if r.active_profile.include_target {
        "yes"
    } else {
        "no"
    });
    t.append(")\n");
    t.append("  profiles:    ");
    t.append(join_texts(&r.available_profiles, ", ").as_str());
    t.append("\n");
    t
}

fn peer(r: &DoctorReport) -> (t: String)
    ensures
        t@ == peer_text(*r),
{
    let mut t = String::new();
    if r.comparison_available {
        t.append("  source:      ");
        t.append(r.source.as_str());
        t.append(" (");
        t.append(r.source_reason.as_str());
        t.append(")\n");
        t.append("  destination: ");
        t.append(r.destination.as_str());
        t.append("\n");
        t.append("  revision:    ");
        t.append(if r.same_revision {
            "exact Git revision"
        } else {
            "different Git revisions"
        });
        t.append("\n");
        t.append("  worktrees:   source=");
        t.append(crate::doctor::clean_label(r.source_clean));
        t.append(" destination=");
        t.append(crate::doctor::clean_label(r.destination_clean));
        t.append("\n");
    } else {
        t.append("  project:     ");
        t.append(r.destination.as_str());
        t.append("\n");
        t.append("  comparison:  ");
        t.append(r.source_reason.as_str());
        t.append("\n");
    }
    t
}

fn header(r: &DoctorReport) -> (t: String)
    ensures
        t@ == header_text(*r),
{
    let mut t = intro(r);
    t.append(peer(r).as_str());
    t
}

// ---------------------------------------------------------------------------
// Modification times and path safety
// ---------------------------------------------------------------------------

pub open spec fn mtimes_text(summary: Option<TrackedMtimeSummary>, comparison: bool) -> Seq<char> {
    match summary {
        Some(m) => "  mtimes:      "@ + num(m.tracked_files) + " tracked, "@ + num(m.destination_newer)
            + " newer in destination, "@ + num(m.same_mtime) + " identical\n"@ + if m.destination_newer
            > 0 {
            "  note:        identical Git worktrees can still look stale to Cargo when checkout mtimes are newer than cloned fingerprints\n"@
        } else {
            ""@
        },
        None => if comparison {
            "  mtimes:      skipped (requires clean worktrees at the same revision)\n"@
        } else {
            ""@
        },
    }
}

fn mtimes(summary: &Option<TrackedMtimeSummary>, comparison: bool) -> (t: String)
    ensures
        t@ == mtimes_text(*summary, comparison),
{
    let mut t = String::new();
    match summary {
        Some(m) => {
            t.append("  mtimes:      ");
            append_num(&mut t, m.tracked_files);
            t.append(" tracked, ");
            append_num(&mut t, m.destination_newer);
            t.append(" newer in destination, ");
            append_num(&mut t, m.same_mtime);
            t.append(" identical\n");
            if m.destination_newer > 0 {
                t.append("  note:        identical Git worktrees can still look stale to Cargo when checkout mtimes are newer than cloned fingerprints\n");
            } else {
                t.append("");
            }
        },
        None => {
            if comparison {
                t.append("  mtimes:      skipped (requires clean worktrees at the same revision)\n");
            } else {
                t.append("");
            }
        },
    }
    t
}

/// The directive and reason of a finding, as the report shows them.
pub open spec fn shown_pair(o: PathSensitiveOutput) -> (Seq<char>, Option<Seq<char>>) {
    (o.command@, opt_text(o.reason))
}

/// The findings whose directive and reason no earlier finding had.
pub open spec fn first_shown(s: Seq<PathSensitiveOutput>) -> Seq<PathSensitiveOutput>
    decreases s.len(),
{
    if s.len() == 0 {
        seq![]
    } else {
        let rest = first_shown(s.drop_last());
        if exists|j: int| 0 <= j < s.len() - 1 && #[trigger] shown_pair(s[j]) == shown_pair(s.last()) {
            rest
        } else {
            rest.push(s.last())
        }
    }
}

/// At most the first `n` of `s`.
pub open spec fn at_most(s: Seq<PathSensitiveOutput>, n: nat) -> Seq<PathSensitiveOutput> {
    if s.len() <= n {
        s
    } else {
        s.take(n as int)
    }
}

pub open spec fn finding_text(o: PathSensitiveOutput) -> Seq<char> {
    "    ["@ + (if o.rebasable {
        "rebasable"@
    } else {
        "blocking"@
    }) + "] "@ + o.command@ + "\n"@ + match o.reason {
        Some(r) => "      "@ + r@ + "\n"@,
        None => ""@,
    }
}

pub open spec fn findings_text(s: Seq<PathSensitiveOutput>) -> Seq<char>
    decreases s.len(),
{
    if s.len() == 0 {
        seq![]
    } else {
        findings_text(s.drop_last()) + finding_text(s.last())
    }
}

pub open spec fn take_texts(s: Seq<Seq<char>>, n: nat) -> Seq<Seq<char>> {
    if s.len() <= n {
        s
    } else {
        s.take(n as int)
    }
}

pub open spec fn safety_text(f: FreshnessReport, comparison: bool, auto: Seq<Seq<char>>) -> Seq<char> {
    let blocking = count_outputs(f.path_sensitive_outputs@, false);
    let rebasable = count_outputs(f.path_sensitive_outputs@, true);
    (if comparison {
        "  freshness:   "@ + num(f.eligible_files)
            + " identical tracked file(s) eligible for safe mtime synchronization\n"@
    } else {
        ""@
    }) + if comparison && f.path_sensitive_outputs@.len() == 0 {
        "  path safety: no source-worktree paths found in cached build-script directives\n"@
    } else if comparison {
        "  path safety: "@ + decimal(rebasable) + " rebasable, "@ + decimal(blocking)
            + " blocking build-script directive(s)\n"@ + findings_text(
            at_most(first_shown(f.path_sensitive_outputs@), 8),
        ) + if blocking > 0 {
            if auto.len() == 0 {
                "  note:        cargo warm seed withholds mtime rebasing until blockers have equivalent destination state; --seed-path can provide unusual native state explicitly\n"@
            } else {
                "  auto-fork:   "@ + decimal(auto.len())
                    + " ignored final native artifact/path(s) can be materialized safely by cargo warm seed\n"@
                    + item_lines(take_texts(auto, 8), "    "@)
            }
        } else {
            ""@
        }
    } else {
        ""@
    }
}

fn opt_same(a: &Option<String>, b: &Option<String>) -> (same: bool)
    ensures
        same == (opt_text(*a) == opt_text(*b)),
{
    match (a, b) {
        (Some(x), Some(y)) => str_eq(x.as_str(), y.as_str()),
        (None, None) => true,
        _ => false,
    }
}

/// The findings to show: each directive-and-reason pair once, at most eight.
fn shown_findings(outputs: &Vec<PathSensitiveOutput>) -> (shown: Vec<usize>)
    ensures
        shown@.len() == at_most(first_shown(outputs@), 8).len(),
        forall|k: int| 0 <= k < shown@.len() ==> #[trigger] shown@[k] < outputs@.len()
            && outputs@[shown@[k] as int] == at_most(first_shown(outputs@), 8)[k],
{
    let mut shown: Vec<usize> = Vec::new();
    let mut i: usize = 0;
    while i < outputs.len() && shown.len() < 8
        invariant
            i <= outputs@.len(),
            shown@.len() <= 8,
            shown@.len() == first_shown(outputs@.take(i as int)).len() || shown@.len() == 8,
            shown@.len() <= first_shown(outputs@.take(i as int)).len(),
            forall|k: int| 0 <= k < shown@.len() ==> #[trigger] shown@[k] < outputs@.len()
                && outputs@[shown@[k] as int] == first_shown(outputs@.take(i as int))[k],
        decreases outputs@.len() - i,
    {
        let ghost t = outputs@.take(i + 1);
        assert(t.drop_last() == outputs@.take(i as int));
        assert(t.last() == outputs@[i as int]);
        let mut seen = false;
        let mut j: usize = 0;
        while j < i
            invariant
                j <= i < outputs@.len(),
                seen == exists|m: int| 0 <= m < j && #[trigger] shown_pair(outputs@[m]) == shown_pair(outputs@[i as int]),
            decreases i - j,
        {
            let same = str_eq(outputs[j].command.as_str(), outputs[i].command.as_str()) && opt_same(&outputs[j].reason, &outputs[i].reason);
            assert(same == (shown_pair(outputs@[j as int]) == shown_pair(outputs@[i as int])));
            if same {
                seen = true;
            }
            j = j + 1;
        }
        proof {
            assert(seen == exists|m: int| 0 <= m < t.len() - 1 && #[trigger] shown_pair(t[m]) == shown_pair(t.last())) by {
                if seen {
                    let m = choose|m: int| 0 <= m < i && #[trigger] shown_pair(outputs@[m]) == shown_pair(outputs@[i as int]);
                    assert(t[m] == outputs@[m]);
                }
                if exists|m: int| 0 <= m < t.len() - 1 && #[trigger] shown_pair(t[m]) == shown_pair(t.last()) {
                    let m = choose|m: int| 0 <= m < t.len() - 1 && #[trigger] shown_pair(t[m]) == shown_pair(t.last());
                    assert(t[m] == outputs@[m]);
                }
            }
        }
        if !seen {
            shown.push(i);
        }
        i = i + 1;
    }
    proof {
        let all = first_shown(outputs@);
        lemma_first_shown_prefix(outputs@, i as int);
        if shown@.len() < 8 {
            assert(i == outputs@.len());
            assert(outputs@.take(i as int) == outputs@);
        }
    }
    shown
}

proof fn lemma_first_shown_prefix(s: Seq<PathSensitiveOutput>, n: int)
    requires
        0 <= n <= s.len(),
    ensures
        first_shown(s.take(n)).len() <= first_shown(s).len(),
        forall|k: int| 0 <= k < first_shown(s.take(n)).len() ==> #[trigger] first_shown(s.take(n))[k] == first_shown(s)[k],
    decreases s.len() - n,
{
    if n < s.len() {
        lemma_first_shown_prefix(s, n + 1);
        let t = s.take(n + 1);
        assert(t.drop_last() == s.take(n));
        let a = first_shown(s.take(n));
        let b = first_shown(t);
        assert(b == a || b == a.push(t.last()));
        assert forall|k: int| 0 <= k < a.len() implies #[trigger] a[k] == first_shown(s)[k] by {
            assert(a[k] == b[k]);
        }
    } else {
        assert(s.take(n) == s);
    }
}

fn append_finding(t: &mut String, o: &PathSensitiveOutput)
    ensures
        final(t)@ == old(t)@ + finding_text(*o),
{
    t.append("    [");
    t.append(if o.rebasable {
        "rebasable"
    } else {
        "blocking"
    });
    t.append("] ");
    t.append(o.command.as_str());
    t.append("\n");
    match &o.reason {
        Some(r) => {
            t.append("      ");
            t.append(r.as_str());
            t.append("\n");
        },
        None => {
            t.append("");
        },
    }
}

fn safety(f: &FreshnessReport, comparison: bool, auto: &Vec<String>) -> (t: String)
    ensures
        t@ == safety_text(*f, comparison, views(auto@)),
{
    let mut t = String::new();
    if comparison {
        t.append("  freshness:   ");
        append_num(&mut t, f.eligible_files);
        t.append(" identical tracked file(s) eligible for safe mtime synchronization\n");
    } else {
        t.append("");
    }
    if comparison && f.path_sensitive_outputs.len() == 0 {
        t.append("  path safety: no source-worktree paths found in cached build-script directives\n");
    } else if comparison {
        let blocking = f.blocking_outputs();
        t.append("  path safety: ");
        append_num(&mut t, f.rebasable_outputs());
        t.append(" rebasable, ");
        append_num(&mut t, blocking);
        t.append(" blocking build-script directive(s)\n");
        let shown = shown_findings(&f.path_sensitive_outputs);
        let ghost chosen = at_most(first_shown(f.path_sensitive_outputs@), 8);
        let ghost base = t@;
        let mut k: usize = 0;
        while k < shown.len()
            invariant
                k <= shown@.len(),
                shown@.len() == chosen.len(),
                forall|m: int| 0 <= m < shown@.len() ==> #[trigger] shown@[m] < f.path_sensitive_outputs@.len()
                    && f.path_sensitive_outputs@[shown@[m] as int] == chosen[m],
                t@ == base + findings_text(chosen.take(k as int)),
            decreases shown@.len() - k,
        {
            let o = &f.path_sensitive_outputs[shown[k]];
            assert(*o == chosen[k as int]);
            assert(chosen.take(k + 1).drop_last() == chosen.take(k as int));
            assert(chosen.take(k + 1).last() == chosen[k as int]);
            append_finding(&mut t, o);
            k = k + 1;
        }
        assert(chosen.take(shown@.len() as int) == chosen);
        if blocking > 0 {
            if auto.len() == 0 {
                t.append("  note:        cargo warm seed withholds mtime rebasing until blockers have equivalent destination state; --seed-path can provide unusual native state explicitly\n");
            } else {
                t.append("  auto-fork:   ");
                append_num(&mut t, auto.len());
                t.append(" ignored final native artifact/path(s) can be materialized safely by cargo warm seed\n");
                let mut first: Vec<String> = Vec::new();
                let mut m: usize = 0;
                while m < auto.len() && m < 8
                    invariant
                        m <= auto@.len(),
                        m <= 8,
                        views(first@) == views(auto@).take(m as int),
                    decreases auto@.len() - m,
                {
                    first.push(String::from_str(auto[m].as_str()));
                    assert(views(auto@).take(m + 1) == views(auto@).take(m as int).push(auto@[m as int]@));
                    m = m + 1;
                }
                assert(views(first@) == take_texts(views(auto@), 8)) by {
                    if views(auto@).len() <= 8 {
                        assert(views(auto@).take(m as int) == views(auto@));
                    }
                }
                append_item_lines(&mut t, &first, "    ");
            }
        } else {
            t.append("");
        }
    } else {
        t.append("");
    }
    t
}

// ---------------------------------------------------------------------------
// Manifests
// ---------------------------------------------------------------------------

pub open spec fn health_text(h: CacheHealth) -> Seq<char> {
    num(h.deps_entries) + " deps entries, "@ + num(h.incremental_entries) + " incremental entries\n"@
}

pub open spec fn script_lines(s: Seq<BuildScriptReport>) -> Seq<char>
    decreases s.len(),
{
    if s.len() == 0 {
        seq![]
    } else {
        script_lines(s.drop_last()) + "    "@ + s.last().package@ + ": "@ + s.last().path@ + "\n"@
    }
}

pub open spec fn manifest_head_text(m: ManifestReport) -> Seq<char> {
    "\nmanifest: "@ + m.manifest@ + "\n"@ + match m.destination_build_directory {
        Some(p) => "  build cache: "@ + p@ + " ("@ + (if m.destination_cache_exists {
            "present"@
        } else {
            "missing"@
        }) + ")\n"@,
        None => "  build cache: Cargo did not report a separate build_directory\n"@,
    } + "  target dir:   "@ + m.destination_target_directory@ + "\n"@
        + if !m.separate_build_directory {
        "  tip: Cargo 1.91+ can keep intermediate state separate with `build.build-dir`; for worktrees, a useful starting point is `build-dir = \"{cargo-cache-home}/build/{workspace-path-hash}\"`\n"@
    } else {
        ""@
    }
}

pub open spec fn manifest_health_text(m: ManifestReport, comparison: bool) -> Seq<char> {
    (match m.source_cache_health {
        Some(h) => "  "@ + (if comparison {
            "warm source "@
        } else {
            "current "@
        }) + "cache: "@ + health_text(h),
        None => ""@,
    }) + (if comparison && m.destination_cache_health is Some {
        "  destination cache: "@ + health_text(m.destination_cache_health->Some_0)
    } else {
        ""@
    })
}

pub open spec fn manifest_scripts_text(m: ManifestReport) -> Seq<char> {
    if m.build_scripts@.len() == 0 {
        "  build scripts: none in workspace packages\n"@
    } else {
        "  build scripts: "@ + decimal(m.build_scripts@.len()) + "\n"@ + script_lines(m.build_scripts@)
            + "  note: build scripts can invalidate on watched inputs and may cache checkout-local paths\n"@
    }
}

pub open spec fn manifest_text(m: ManifestReport, comparison: bool) -> Seq<char> {
    manifest_head_text(m) + manifest_health_text(m, comparison) + manifest_scripts_text(m)
}

fn append_health(t: &mut String, h: &CacheHealth)
    ensures
        final(t)@ == old(t)@ + health_text(*h),
{
    append_num(t, h.deps_entries);
    t.append(" deps entries, ");
    append_num(t, h.incremental_entries);
    t.append(" incremental entries\n");
}

fn manifest_head(m: &ManifestReport) -> (t: String)
    ensures
        t@ == manifest_head_text(*m),
{
    let mut t = String::from_str("\nmanifest: ");
    t.append(m.manifest.as_str());
    t.append("\n");
    match &m.destination_build_directory {
        Some(p) => {
            t.append("  build cache: ");
            t.append(p.as_str());
            t.append(" (");
            t.append(if m.destination_cache_exists {
                "present"
            } else {
                "missing"
            });
            t.append(")\n");
        },
        None => t.append("  build cache: Cargo did not report a separate build_directory\n"),
    }
    t.append("  target dir:   ");
    t.append(m.destination_target_directory.as_str());
    t.append("\n");
    if !m.separate_build_directory {
        t.append("  tip: Cargo 1.91+ can keep intermediate state separate with `build.build-dir`; for worktrees, a useful starting point is `build-dir = \"{cargo-cache-home}/build/{workspace-path-hash}\"`\n");
    } else {
        t.append("");
    }
    t
}

fn manifest_health(m: &ManifestReport, comparison: bool) -> (t: String)
    ensures
        t@ == manifest_health_text(*m, comparison),
{
    let mut t = String::new();
    match &m.source_cache_health {
        Some(h) => {
            t.append("  ");
            t.append(if comparison {
                "warm source "
            } else {
                "current "
            });
            t.append("cache: ");
            append_health(&mut t, h);
        },
        None => t.append(""),
    }
    if comparison && m.destination_cache_health.is_some() {
        match &m.destination_cache_health {
            Some(h) => {
                t.append("  destination cache: ");
                append_health(&mut t, h);
            },
            None => {},
        }
    } else {
        t.append("");
    }
    t
}

fn manifest_scripts(m: &ManifestReport) -> (t: String)
    ensures
        t@ == manifest_scripts_text(*m),
{
    let mut t = String::new();
    if m.build_scripts.len() == 0 {
        t.append("  build scripts: none in workspace packages\n");
    } else {
        t.append("  build scripts: ");
        append_num(&mut t, m.build_scripts.len());
        t.append("\n");
        let ghost base = t@;
        let mut i: usize = 0;
        while i < m.build_scripts.len()
            invariant
                i <= m.build_scripts@.len(),
                t@ == base + script_lines(m.build_scripts@.take(i as int)),
            decreases m.build_scripts@.len() - i,
        {
            assert(m.build_scripts@.take(i + 1).drop_last() == m.build_scripts@.take(i as int));
            assert(m.build_scripts@.take(i + 1).last() == m.build_scripts@[i as int]);
            t.append("    ");
            t.append(m.build_scripts[i].package.as_str());
            t.append(": ");
            t.append(m.build_scripts[i].path.as_str());
            t.append("\n");
            i = i + 1;
        }
        assert(m.build_scripts@.take(m.build_scripts@.len() as int) == m.build_scripts@);
        t.append("  note: build scripts can invalidate on watched inputs and may cache checkout-local paths\n");
    }
    t
}

fn manifest_section(m: &ManifestReport, comparison: bool) -> (t: String)
    ensures
        t@ == manifest_text(*m, comparison),
{
    let mut t = manifest_head(m);
    t.append(manifest_health(m, comparison).as_str());
    t.append(manifest_scripts(m).as_str());
    t
}

pub open spec fn manifests_text(ms: Seq<ManifestReport>, comparison: bool) -> Seq<char>
    decreases ms.len(),
{
    if ms.len() == 0 {
        seq![]
    } else {
        manifests_text(ms.drop_last(), comparison) + manifest_text(ms.last(), comparison)
    }
}

// ---------------------------------------------------------------------------
// Project shape
// ---------------------------------------------------------------------------

pub open spec fn package_line(p: PackageShape) -> Seq<char> {
    "    "@ + p.name@ + ": "@ + num(p.rust_lines) + " lines / "@ + num(p.rust_source_files)
        + " files"@ + (if p.has_build_script {
        " / build.rs"@
    } else {
        ""@
    }) + "\n"@
}

pub open spec fn package_lines(s: Seq<PackageShape>) -> Seq<char>
    decreases s.len(),
{
    if s.len() == 0 {
        seq![]
    } else {
        package_lines(s.drop_last()) + package_line(s.last())
    }
}

pub open spec fn shape_lines(ms: Seq<ManifestShape>) -> Seq<char>
    decreases ms.len(),
{
    if ms.len() == 0 {
        seq![]
    } else {
        shape_lines(ms.drop_last()) + package_lines(ms.last().selected_packages@)
    }
}

pub open spec fn project_text(p: ProjectShape) -> Seq<char> {
    "\nproject shape\n"@ + "  rustc:       "@ + p.rustc.release@ + " ("@ + channel_text(p.rustc.channel)
        + ")\n"@ + "  local Rust:  "@ + num(p.rust_lines) + " lines across "@ + num(
        p.rust_source_files,
    ) + " source files\n"@ + "  build scripts: "@ + num(p.direct_build_scripts)
        + " selected package(s), "@ + num(p.other_local_build_scripts)
        + " other local/path package(s)\n"@ + shape_lines(p.manifests@)
}

fn append_package_line(t: &mut String, q: &PackageShape)
    ensures
        final(t)@ == old(t)@ + package_line(*q),
{
    t.append("    ");
    t.append(q.name.as_str());
    t.append(": ");
    append_num(t, q.rust_lines);
    t.append(" lines / ");
    append_num(t, q.rust_source_files);
    t.append(" files");
    t.append(if q.has_build_script {
        " / build.rs"
    } else {
        ""
    });
    t.append("\n");
}

fn append_package_lines(t: &mut String, packages: &Vec<PackageShape>)
    ensures
        final(t)@ == old(t)@ + package_lines(packages@),
{
    let ghost mid = t@;
    let mut i: usize = 0;
    while i < packages.len()
        invariant
            i <= packages@.len(),
            t@ == mid + package_lines(packages@.take(i as int)),
        decreases packages@.len() - i,
    {
        assert(packages@.take(i + 1).drop_last() == packages@.take(i as int));
        assert(packages@.take(i + 1).last() == packages@[i as int]);
        append_package_line(t, &packages[i]);
        i = i + 1;
    }
    assert(packages@.take(packages@.len() as int) == packages@);
}

fn project_section(p: &ProjectShape) -> (t: String)
    ensures
        t@ == project_text(*p),
{
    let mut t = String::from_str("\nproject shape\n");
    t.append("  rustc:       ");
    t.append(p.rustc.release.as_str());
    t.append(" (");
    t.append(channel_label(p.rustc.channel));
    t.append(")\n");
    t.append("  local Rust:  ");
    append_num(&mut t, p.rust_lines);
    t.append(" lines across ");
    append_num(&mut t, p.rust_source_files);
    t.append(" source files\n");
    t.append("  build scripts: ");
    append_num(&mut t, p.direct_build_scripts);
    t.append(" selected package(s), ");
    append_num(&mut t, p.other_local_build_scripts);
    t.append(" other local/path package(s)\n");
    let ghost base = t@;
    let mut m: usize = 0;
    while m < p.manifests.len()
        invariant
            m <= p.manifests@.len(),
            t@ == base + shape_lines(p.manifests@.take(m as int)),
        decreases p.manifests@.len() - m,
    {
        assert(p.manifests@.take(m + 1).drop_last() == p.manifests@.take(m as int));
        assert(p.manifests@.take(m + 1).last() == p.manifests@[m as int]);
        append_package_lines(&mut t, &p.manifests[m].selected_packages);
        m = m + 1;
    }
    assert(p.manifests@.take(p.manifests@.len() as int) == p.manifests@);
    t
}

// ---------------------------------------------------------------------------
// Recommendation
// ---------------------------------------------------------------------------

/// The priming a recommended profile stands for (the active one's for a
/// name that is not built in).
pub open spec fn recommended_prime(profile: Seq<char>, active: crate::config::PrimeMode) -> crate::config::PrimeMode {
    if profile == "quick"@ {
        crate::config::PrimeMode::Off
    } else if profile == "balanced"@ {
        crate::config::PrimeMode::Rustc
    } else if profile == "deep"@ {
        crate::config::PrimeMode::Package
    } else {
        active
    }
}

pub open spec fn recommendation_text(r: DoctorReport) -> Seq<char> {
    let rec = r.recommendation;
    "\nrecommendation\n"@ + "  profile: "@ + rec.profile@ + "\n"@ + item_lines(views(rec.reasons@), "  why:     "@)
        + item_lines(views(rec.cautions@), "  caution: "@) + (if rec.benchmark_profiles@.len() > 0 {
        "  compare:  "@ + join(views(rec.benchmark_profiles@), ", "@) + "\n"@
            + "  method:   measure worktree creation separately from the first representative Rust edit; keep the same warm source checkout and toolchain for every profile\n"@
            + "  commands: cargo warm seed --profile "@ + rec.profile@ + "\n"@ + item_lines(
            views(rec.benchmark_profiles@),
            "            cargo warm seed --profile "@,
        )
    } else {
        ""@
    }) + "\nSuggested .agents/.cargo-warm.toml:\n\n"@ + rec.config_example@ + if r.active_profile.prime
        != recommended_prime(rec.profile@, r.active_profile.prime) {
        "\nCurrent profile `"@ + r.active_profile.name@ + "` differs from the static recommendation `"@
            + rec.profile@
            + "`. Treat the recommendation as a starting point; measured first-edit latency wins.\n"@
    } else {
        ""@
    }
}

fn recommendation_section(r: &DoctorReport) -> (t: String)
    ensures
        t@ == recommendation_text(*r),
{
    let rec = &r.recommendation;
    let mut t = String::from_str("\nrecommendation\n");
    t.append("  profile: ");
    t.append(rec.profile.as_str());
    t.append("\n");
    append_item_lines(&mut t, &rec.reasons, "  why:     ");
    append_item_lines(&mut t, &rec.cautions, "  caution: ");
    if rec.benchmark_profiles.len() > 0 {
        t.append("  compare:  ");
        t.append(join_texts(&rec.benchmark_profiles, ", ").as_str());
        t.append("\n");
        t.append("  method:   measure worktree creation separately from the first representative Rust edit; keep the same warm source checkout and toolchain for every profile\n");
        t.append("  commands: cargo warm seed --profile ");
        t.append(rec.profile.as_str());
        t.append("\n");
        append_item_lines(&mut t, &rec.benchmark_profiles, "            cargo warm seed --profile ");
    } else {
        t.append("");
    }
    t.append("\nSuggested .agents/.cargo-warm.toml:\n\n");
    t.append(rec.config_example.as_str());
    let recommended = if str_eq(rec.profile.as_str(), "quick") {
        crate::config::PrimeMode::Off
    } else if str_eq(rec.profile.as_str(), "balanced") {
        crate::config::PrimeMode::Rustc
    } else if str_eq(rec.profile.as_str(), "deep") {
        crate::config::PrimeMode::Package
    } else {
        r.active_profile.prime
    };
    if r.active_profile.prime != recommended {
        t.append("\nCurrent profile `");
        t.append(r.active_profile.name.as_str());
        t.append("` differs from the static recommendation `");
        t.append(rec.profile.as_str());
        t.append("`. Treat the recommendation as a starting point; measured first-edit latency wins.\n");
    } else {
        t.append("");
    }
    t
}

// ---------------------------------------------------------------------------
// The whole report
// ---------------------------------------------------------------------------

pub open spec fn probe_hint(probed: bool) -> Seq<char> {
    if probed {
        ""@
    } else {
        "\nRun `cargo warm doctor --probe` to execute cargo check and classify Cargo's actual fingerprint misses.\n"@
    }
}

/// What `cargo warm doctor` prints before any probe.
pub open spec fn doctor_spec(r: DoctorReport, probed: bool) -> Seq<char> {
    header_text(r) + mtimes_text(r.tracked_mtimes, r.comparison_available) + safety_text(
        r.freshness,
        r.comparison_available,
        views(r.auto_materializable_paths@),
    ) + manifests_text(r.manifests@, r.comparison_available) + project_text(r.project)
        + recommendation_text(r) + probe_hint(probed)
}

/// The human report of `cargo warm doctor`, up to its probes.
pub fn doctor_text(r: &DoctorReport, probed: bool) -> (t: String)
    ensures
        t@ == doctor_spec(*r, probed),
{
    let mut t = header(r);
    t.append(mtimes(&r.tracked_mtimes, r.comparison_available).as_str());
    t.append(safety(&r.freshness, r.comparison_available, &r.auto_materializable_paths).as_str());
    let ghost base = t@;
    let mut i: usize = 0;
    while i < r.manifests.len()
        invariant
            i <= r.manifests@.len(),
            t@ == base + manifests_text(r.manifests@.take(i as int), r.comparison_available),
        decreases r.manifests@.len() - i,
    {
        assert(r.manifests@.take(i + 1).drop_last() == r.manifests@.take(i as int));
        assert(r.manifests@.take(i + 1).last() == r.manifests@[i as int]);
        t.append(manifest_section(&r.manifests[i], r.comparison_available).as_str());
        i = i + 1;
    }
    assert(r.manifests@.take(r.manifests@.len() as int) == r.manifests@);
    t.append(project_section(&r.project).as_str());
    t.append(recommendation_section(r).as_str());
    if probed {
        t.append("");
    } else {
        t.append("\nRun `cargo warm doctor --probe` to execute cargo check and classify Cargo's actual fingerprint misses.\n");
    }
    t
}

pub open spec fn reason_line(r: FingerprintReason) -> Seq<char> {
    "    "@ + category_text(r.category) + ": "@ + match r.package {
        Some(p) => p@ + ": "@,
        None => ""@,
    } + r.detail@ + "\n"@
}

pub open spec fn reason_lines(s: Seq<FingerprintReason>) -> Seq<char>
    decreases s.len(),
{
    if s.len() == 0 {
        seq![]
    } else {
        reason_lines(s.drop_last()) + reason_line(s.last())
    }
}

/// What a probe reports after its run time.
pub open spec fn probe_spec(p: ProbeReport) -> Seq<char> {
    if p.reasons@.len() == 0 {
        "  fingerprint misses: none reported\n"@
    } else {
        "  fingerprint misses: "@ + decimal(p.reasons@.len()) + "\n"@ + reason_lines(p.reasons@)
    }
}

/// The fingerprint misses of one probe, as the report shows them.
pub fn probe_text(p: &ProbeReport) -> (t: String)
    ensures
        t@ == probe_spec(*p),
{
    if p.reasons.len() == 0 {
        return String::from_str("  fingerprint misses: none reported\n");
    }
    let mut t = String::from_str("  fingerprint misses: ");
    append_num(&mut t, p.reasons.len());
    t.append("\n");
    let ghost base = t@;
    let mut i: usize = 0;
    while i < p.reasons.len()
        invariant
            i <= p.reasons@.len(),
            t@ == base + reason_lines(p.reasons@.take(i as int)),
        decreases p.reasons@.len() - i,
    {
        assert(p.reasons@.take(i + 1).drop_last() == p.reasons@.take(i as int));
        assert(p.reasons@.take(i + 1).last() == p.reasons@[i as int]);
        let r = &p.reasons[i];
        t.append("    ");
        t.append(category_label(r.category));
        t.append(": ");
        match &r.package {
            Some(q) => {
                t.append(q.as_str());
                t.append(": ");
            },
            None => t.append(""),
        }
        t.append(r.detail.as_str());
        t.append("\n");
        i = i + 1;
    }
    assert(p.reasons@.take(p.reasons@.len() as int) == p.reasons@);
    t
}

} // verus!
