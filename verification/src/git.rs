//! Git worktrees as seed sources: reading `git worktree list --porcelain`
//! and ranking the other worktrees by how near their revision is to the
//! destination's.
use vstd::prelude::*;

use crate::numbers::{decimal, decimal_string, parse_unsigned, parse_unsigned_of};
use crate::paths::{paths_equal, same_path};
use crate::text::{chars_of, lines, lines_of, str_eq, strip_prefix, string_of, texts, trim, trim_of};

verus! {

broadcast use vstd::seq_lib::group_to_multiset_ensures;

/// One worktree block of `git worktree list --porcelain` that names both a
/// path and a `HEAD`.
#[derive(Debug, Clone)]
pub struct WorktreeEntry {
    pub path: String,
    pub head: String,
    pub branch: Option<String>,
}

/// The text of an optional string.
pub open spec fn opt_view(o: Option<String>) -> Option<Seq<char>> {
    match o {
        Some(s) => Some(s@),
        None => None,
    }
}

impl WorktreeEntry {
    pub open spec fn view_triple(&self) -> (Seq<char>, Seq<char>, Option<Seq<char>>) {
        (self.path@, self.head@, opt_view(self.branch))
    }
}

pub open spec fn entry_views(v: Seq<WorktreeEntry>) -> Seq<(Seq<char>, Seq<char>, Option<Seq<char>>)> {
    v.map_values(|e: WorktreeEntry| e.view_triple())
}

/// The block that ends here, if it named a path and a `HEAD`.
pub open spec fn flushed(
    path: Option<Seq<char>>,
    head: Option<Seq<char>>,
    branch: Option<Seq<char>>,
) -> Seq<(Seq<char>, Seq<char>, Option<Seq<char>>)> {
    if path is Some && head is Some {
        seq![(path->Some_0, head->Some_0, branch)]
    } else {
        seq![]
    }
}

/// The branch that carries over past the end of a block: a block that was
/// emitted takes its branch with it, an incomplete one leaves it behind.
pub open spec fn branch_after(
    path: Option<Seq<char>>,
    head: Option<Seq<char>>,
    branch: Option<Seq<char>>,
) -> Option<Seq<char>> {
    if path is Some && head is Some {
        None
    } else {
        branch
    }
}

/// The worktrees listed by the porcelain lines `ls`, given the block read so far.
pub open spec fn listed_from(
    ls: Seq<Seq<char>>,
    path: Option<Seq<char>>,
    head: Option<Seq<char>>,
    branch: Option<Seq<char>>,
) -> Seq<(Seq<char>, Seq<char>, Option<Seq<char>>)>
    decreases ls.len(),
{
    if ls.len() == 0 {
        flushed(path, head, branch)
    } else {
        let line = ls[0];
        let rest = ls.drop_first();
        match strip_prefix(line, "worktree "@) {
            Some(v) => flushed(path, head, branch) + listed_from(
                rest,
                Some(v),
                None,
                branch_after(path, head, branch),
            ),
            None => match strip_prefix(line, "HEAD "@) {
                Some(v) => listed_from(rest, path, Some(v), branch),
                None => match strip_prefix(line, "branch "@) {
                    Some(v) => listed_from(rest, path, head, Some(v)),
                    None => if line.len() == 0 {
                        flushed(path, head, branch) + listed_from(
                            rest,
                            None,
                            None,
                            branch_after(path, head, branch),
                        )
                    } else {
                        listed_from(rest, path, head, branch)
                    },
                },
            },
        }
    }
}

/// The worktrees `git worktree list --porcelain` printed, in order.
pub open spec fn listed_worktrees(porcelain: Seq<char>) -> Seq<(Seq<char>, Seq<char>, Option<Seq<char>>)> {
    listed_from(lines(porcelain), None, None, None)
}

fn opt_string(o: &Option<Vec<char>>) -> (r: Option<String>)
    ensures
        opt_view(r) == match o {
            Some(v) => Some(v@),
            None => None::<Seq<char>>,
        },
{
    match o {
        Some(v) => Some(string_of(v)),
        None => None,
    }
}

pub open spec fn chars_view(o: Option<Vec<char>>) -> Option<Seq<char>> {
    match o {
        Some(v) => Some(v@),
        None => None,
    }
}

/// Ends the current block: emits it if it is complete.
fn flush(
    out: &mut Vec<WorktreeEntry>,
    path: &mut Option<Vec<char>>,
    head: &mut Option<Vec<char>>,
    branch: &mut Option<Vec<char>>,
)
    ensures
        entry_views(final(out)@) == entry_views(old(out)@) + flushed(
            chars_view(*old(path)),
            chars_view(*old(head)),
            chars_view(*old(branch)),
        ),
        *final(path) is None,
        *final(head) is None,
        chars_view(*final(branch)) == branch_after(
            chars_view(*old(path)),
            chars_view(*old(head)),
            chars_view(*old(branch)),
        ),
{
    let ghost before = entry_views(out@);
    let p = path.take();
    let h = head.take();
    match (p, h) {
        (Some(p), Some(h)) => {
            let b = opt_string(branch);
            *branch = None;
            out.push(WorktreeEntry { path: string_of(&p), head: string_of(&h), branch: b });
            assert(entry_views(out@) == before.push(out@.last().view_triple()));
        },
        _ => {
            assert(entry_views(out@) == before + Seq::<
                (Seq<char>, Seq<char>, Option<Seq<char>>),
            >::empty());
        },
    }
}

/// Reads the worktrees of `git worktree list --porcelain`: each block that
/// names a `worktree` path and a `HEAD`, with its `branch` if it has one.
pub fn parse_worktree_list(porcelain: &str) -> (entries: Vec<WorktreeEntry>)
    ensures
        entry_views(entries@) == listed_worktrees(porcelain@),
{
    let chars = chars_of(porcelain);
    let ls = lines_of(&chars);
    let worktree_prefix = chars_of("worktree ");
    let head_prefix = chars_of("HEAD ");
    let branch_prefix = chars_of("branch ");
    let mut out: Vec<WorktreeEntry> = Vec::new();
    let mut path: Option<Vec<char>> = None;
    let mut head: Option<Vec<char>> = None;
    let mut branch: Option<Vec<char>> = None;
    let mut i: usize = 0;
    assert(texts(ls@).skip(0) == texts(ls@));
    while i < ls.len()
        invariant
            i <= ls@.len(),
            texts(ls@) == lines(porcelain@),
            worktree_prefix@ == "worktree "@,
            head_prefix@ == "HEAD "@,
            branch_prefix@ == "branch "@,
            listed_worktrees(porcelain@) == entry_views(out@) + listed_from(
                texts(ls@).skip(i as int),
                chars_view(path),
                chars_view(head),
                chars_view(branch),
            ),
        decreases ls@.len() - i,
    {
        let ghost rest = texts(ls@).skip(i as int);
        assert(rest[0] == ls@[i as int]@);
        assert(rest.drop_first() == texts(ls@).skip(i + 1));
        let line = &ls[i];
        let ghost before = entry_views(out@);
        match crate::text::strip_prefix_of(line, &worktree_prefix) {
            Some(value) => {
                flush(&mut out, &mut path, &mut head, &mut branch);
                path = Some(value);
            },
            None => match crate::text::strip_prefix_of(line, &head_prefix) {
                Some(value) => {
                    head = Some(value);
                },
                None => match crate::text::strip_prefix_of(line, &branch_prefix) {
                    Some(value) => {
                        branch = Some(value);
                    },
                    None => {
                        if line.len() == 0 {
                            flush(&mut out, &mut path, &mut head, &mut branch);
                        }
                    },
                },
            },
        }
        i = i + 1;
    }
    flush(&mut out, &mut path, &mut head, &mut branch);
    out
}

// ---------------------------------------------------------------------------
// Ranking
// ---------------------------------------------------------------------------

/// A worktree that could seed the destination, with what ranks it.
#[derive(Debug, Clone)]
pub struct RankedCandidate {
    /// Commits between the two revisions through their merge base.
    pub distance: u64,
    pub dirty: bool,
    /// Checked out on `refs/heads/main`.
    pub main: bool,
    /// How the revisions relate, in words.
    pub relation: String,
    pub path: String,
}

/// The worktree chosen as a seed source, and why.
#[derive(Debug, Clone)]
pub struct SourceSelection {
    pub path: String,
    pub reason: String,
}

/// `a` ranks strictly before `b`: nearer first, then clean before dirty,
/// then `main` before other branches.
pub open spec fn ranks_before(a: RankedCandidate, b: RankedCandidate) -> bool {
    ||| a.distance < b.distance
    ||| a.distance == b.distance && !a.dirty && b.dirty
    ||| a.distance == b.distance && a.dirty == b.dirty && a.main && !b.main
}

/// `a` and `b` rank alike.
pub open spec fn same_rank(a: RankedCandidate, b: RankedCandidate) -> bool {
    a.distance == b.distance && a.dirty == b.dirty && a.main == b.main
}

/// Puts `x` after every element of `s` that does not rank after it.
pub open spec fn insert_stable(s: Seq<RankedCandidate>, x: RankedCandidate) -> Seq<RankedCandidate>
    decreases s.len(),
{
    if s.len() == 0 {
        seq![x]
    } else if ranks_before(x, s[0]) {
        seq![x] + s
    } else {
        seq![s[0]] + insert_stable(s.drop_first(), x)
    }
}

/// The candidates in rank order; candidates that rank alike keep their
/// order (`sort_by_key`, which is stable).
pub open spec fn stable_sort(s: Seq<RankedCandidate>) -> Seq<RankedCandidate>
    decreases s.len(),
{
    if s.len() == 0 {
        seq![]
    } else {
        insert_stable(stable_sort(s.drop_last()), s.last())
    }
}

/// No candidate ranks before one that comes earlier.
pub open spec fn rank_sorted(s: Seq<RankedCandidate>) -> bool {
    forall|i: int, j: int| 0 <= i < j < s.len() ==> !ranks_before(#[trigger] s[j], #[trigger] s[i])
}

/// The reason shown for a selected source.
pub open spec fn reason_of(c: RankedCandidate) -> Seq<char> {
    c.relation@ + if c.dirty {
        ", dirty"@
    } else {
        ""@
    }
}

pub open spec fn selection_views(v: Seq<SourceSelection>) -> Seq<(Seq<char>, Seq<char>)> {
    v.map_values(|s: SourceSelection| (s.path@, s.reason@))
}

pub open spec fn selections_of(v: Seq<RankedCandidate>) -> Seq<(Seq<char>, Seq<char>)> {
    v.map_values(|c: RankedCandidate| (c.path@, reason_of(c)))
}

proof fn lemma_insert_at(s: Seq<RankedCandidate>, x: RankedCandidate, p: int)
    requires
        0 <= p <= s.len(),
        forall|j: int| 0 <= j < p ==> !ranks_before(x, #[trigger] s[j]),
        p == s.len() || ranks_before(x, s[p]),
    ensures
        insert_stable(s, x) == s.take(p).push(x) + s.skip(p),
    decreases s.len(),
{
    if s.len() == 0 {
        assert(s.take(p).push(x) + s.skip(p) == seq![x]);
    } else if p == 0 {
        assert(s.take(0).push(x) + s.skip(0) == seq![x] + s);
    } else {
        let t = s.drop_first();
        assert forall|j: int| 0 <= j < p - 1 implies !ranks_before(x, #[trigger] t[j]) by {
            assert(t[j] == s[j + 1]);
        }
        if p < s.len() {
            assert(t[p - 1] == s[p]);
        }
        lemma_insert_at(t, x, p - 1);
        assert(seq![s[0]] + (t.take(p - 1).push(x) + t.skip(p - 1)) == s.take(p).push(x) + s.skip(
            p,
        ));
    }
}

fn ranks_before_exec(a: &RankedCandidate, b: &RankedCandidate) -> (r: bool)
    ensures
        r == ranks_before(*a, *b),
{
    a.distance < b.distance || (a.distance == b.distance && !a.dirty && b.dirty) || (a.distance
        == b.distance && a.dirty == b.dirty && a.main && !b.main)
}

/// Orders the candidates by rank, keeping the order of candidates that rank
/// alike.
pub fn sort_candidates(candidates: Vec<RankedCandidate>) -> (sorted: Vec<RankedCandidate>)
    ensures
        sorted@ == stable_sort(candidates@),
{
    let ghost input = candidates@;
    let mut rest = candidates;
    let mut out: Vec<RankedCandidate> = Vec::new();
    let ghost mut k: int = 0;
    assert(input.take(0) == Seq::<RankedCandidate>::empty());
    while rest.len() > 0
        invariant
            0 <= k <= input.len(),
            rest@ == input.skip(k),
            out@ == stable_sort(input.take(k)),
        decreases rest@.len(),
    {
        let x = rest.remove(0);
        assert(x == input[k]);
        assert(rest@ == input.skip(k + 1));
        let mut p: usize = 0;
        while p < out.len() && !ranks_before_exec(&x, &out[p])
            invariant
                p <= out@.len(),
                forall|j: int| 0 <= j < p ==> !ranks_before(x, #[trigger] out@[j]),
            decreases out@.len() - p,
        {
            p = p + 1;
        }
        proof {
            lemma_insert_at(out@, x, p as int);
            assert(input.take(k + 1).drop_last() == input.take(k));
            assert(input.take(k + 1).last() == x);
        }
        let ghost before = out@;
        out.insert(p, x);
        assert(out@ == before.take(p as int).push(x) + before.skip(p as int));
        proof {
            k = k + 1;
        }
    }
    assert(input.take(k) == input);
    out
}

/// Ranks the candidates and states each one's reason: its relation, and
/// `, dirty` for a dirty worktree. The first is the preferred source.
pub fn rank_candidates(candidates: Vec<RankedCandidate>) -> (ranked: Vec<SourceSelection>)
    ensures
        selection_views(ranked@) == selections_of(stable_sort(candidates@)),
{
    let sorted = sort_candidates(candidates);
    let mut out: Vec<SourceSelection> = Vec::new();
    let mut i: usize = 0;
    while i < sorted.len()
        invariant
            i <= sorted@.len(),
            selection_views(out@) == selections_of(sorted@.take(i as int)),
        decreases sorted@.len() - i,
    {
        let c = &sorted[i];
        let mut reason = String::from_str(c.relation.as_str());
        if c.dirty {
            reason.append(", dirty");
        }
        proof {
            reveal_strlit(", dirty");
            reveal_strlit("");
            assert(reason@ == reason_of(*c));
        }
        let path = String::from_str(c.path.as_str());
        let ghost before = selection_views(out@);
        out.push(SourceSelection { path, reason });
        assert(selection_views(out@) == before.push((c.path@, reason_of(*c))));
        assert(sorted@.take(i + 1) == sorted@.take(i as int).push(*c));
        assert(selections_of(sorted@.take(i + 1)) == selections_of(sorted@.take(i as int)).push(
            (c.path@, reason_of(*c)),
        ));
        i = i + 1;
    }
    assert(sorted@.take(sorted@.len() as int) == sorted@);
    out
}

/// The preferred seed source: the best-ranked candidate, if any.
pub fn best_source_worktree(candidates: Vec<RankedCandidate>) -> (best: Option<SourceSelection>)
    ensures
        stable_sort(candidates@).len() == 0 ==> best is None,
        stable_sort(candidates@).len() > 0 ==> (best matches Some(s) && (s.path@, s.reason@)
            == selections_of(stable_sort(candidates@))[0]),
{
    let ghost sorted = stable_sort(candidates@);
    let mut ranked = rank_candidates(candidates);
    assert(selection_views(ranked@).len() == ranked@.len());
    assert(selections_of(sorted).len() == sorted.len());
    if ranked.len() == 0 {
        None
    } else {
        assert(selection_views(ranked@)[0] == (ranked@[0].path@, ranked@[0].reason@));
        let first = ranked.remove(0);
        Some(first)
    }
}

// ---------------------------------------------------------------------------
// Relations between revisions
// ---------------------------------------------------------------------------

/// How a candidate's revision relates to the destination's, given the
/// commits each has beyond their merge base.
pub open spec fn relation_text(candidate: nat, destination: nat) -> Seq<char> {
    if candidate == 0 {
        "ancestor "@ + decimal(destination) + " commit(s) behind"@
    } else if destination == 0 {
        "descendant "@ + decimal(candidate) + " commit(s) ahead"@
    } else {
        "nearby branch, "@ + decimal(candidate) + "+"@ + decimal(destination)
            + " commit(s) from merge base"@
    }
}

pub open spec fn is_main_branch(branch: Option<String>) -> bool {
    branch matches Some(b) && b@ == "refs/heads/main"@
}

/// A worktree ranked as a seed candidate. `distances` holds the commits the
/// candidate and the destination each have beyond their merge base; `None`
/// means the two are at the same revision.
pub fn rank_entry(entry: WorktreeEntry, dirty: bool, distances: Option<(u64, u64)>) -> (c: RankedCandidate)
    requires
        distances matches Some((a, b)) ==> a + b <= u64::MAX,
    ensures
        c.path@ == entry.path@,
        c.dirty == dirty,
        c.main == is_main_branch(entry.branch),
        match distances {
            None => c.distance == 0 && c.relation@ == "exact revision"@,
            Some((a, b)) => c.distance == a + b && c.relation@ == relation_text(a as nat, b as nat),
        },
{
    let main = match &entry.branch {
        Some(b) => str_eq(b.as_str(), "refs/heads/main"),
        None => false,
    };
    let (distance, relation) = match distances {
        None => (0u64, String::from_str("exact revision")),
        Some((a, b)) => {
            let mut text: String;
            if a == 0 {
                text = String::from_str("ancestor ");
                text.append(decimal_string(b).as_str());
                text.append(" commit(s) behind");
            } else if b == 0 {
                text = String::from_str("descendant ");
                text.append(decimal_string(a).as_str());
                text.append(" commit(s) ahead");
            } else {
                text = String::from_str("nearby branch, ");
                text.append(decimal_string(a).as_str());
                text.append("+");
                text.append(decimal_string(b).as_str());
                text.append(" commit(s) from merge base");
            }
            (a + b, text)
        },
    };
    RankedCandidate { distance, dirty, main, relation, path: entry.path }
}

/// A listed worktree can seed the destination when it is another directory
/// that still exists.
pub fn is_candidate(path: &str, destination: &str, is_dir: bool) -> (ok: bool)
    ensures
        ok == (!same_path(path@, destination@) && is_dir),
{
    !paths_equal(path, destination) && is_dir
}

/// Reads a commit count that `git rev-list --count` printed.
pub fn parse_commit_count(stdout: &str) -> (n: Option<u64>)
    ensures
        match parse_unsigned(trim(stdout@), u64::MAX as nat) {
            Some(v) => n == Some(v as u64),
            None => n is None,
        },
{
    let chars = chars_of(stdout);
    let trimmed = trim_of(&chars);
    parse_unsigned_of(&trimmed, u64::MAX)
}

// ---------------------------------------------------------------------------
// Laws
// ---------------------------------------------------------------------------

proof fn lemma_insert_stable_multiset(s: Seq<RankedCandidate>, x: RankedCandidate)
    ensures
        insert_stable(s, x).to_multiset() == s.to_multiset().insert(x),
        insert_stable(s, x).len() == s.len() + 1,
    decreases s.len(),
{
    if s.len() == 0 {
        assert(seq![x] == Seq::<RankedCandidate>::empty().push(x));
    } else if ranks_before(x, s[0]) {
        vstd::seq_lib::lemma_multiset_commutative(seq![x], s);
        assert(seq![x] == Seq::<RankedCandidate>::empty().push(x));
    } else {
        let t = s.drop_first();
        lemma_insert_stable_multiset(t, x);
        vstd::seq_lib::lemma_multiset_commutative(seq![s[0]], insert_stable(t, x));
        vstd::seq_lib::lemma_multiset_commutative(seq![s[0]], t);
        assert(seq![s[0]] + t == s);
        assert(seq![s[0]] == Seq::<RankedCandidate>::empty().push(s[0]));
    }
}

proof fn lemma_insert_stable_members(s: Seq<RankedCandidate>, x: RankedCandidate, i: int)
    requires
        0 <= i < insert_stable(s, x).len(),
    ensures
        insert_stable(s, x)[i] == x || s.contains(insert_stable(s, x)[i]),
    decreases s.len(),
{
    lemma_insert_stable_multiset(s, x);
    if s.len() > 0 && !ranks_before(x, s[0]) && i > 0 {
        lemma_insert_stable_members(s.drop_first(), x, i - 1);
        let y = insert_stable(s, x)[i];
        if y != x {
            let k = choose|k: int| 0 <= k < s.drop_first().len() && s.drop_first()[k] == y;
            assert(s[k + 1] == y);
        }
    } else if s.len() > 0 && ranks_before(x, s[0]) && i > 0 {
        assert(s[i - 1] == insert_stable(s, x)[i]);
    } else if s.len() > 0 && i == 0 && !ranks_before(x, s[0]) {
        assert(s[0] == insert_stable(s, x)[0]);
    }
}

proof fn lemma_insert_stable_sorted(s: Seq<RankedCandidate>, x: RankedCandidate)
    requires
        rank_sorted(s),
    ensures
        rank_sorted(insert_stable(s, x)),
    decreases s.len(),
{
    if s.len() == 0 {
    } else if ranks_before(x, s[0]) {
        let r = seq![x] + s;
        assert forall|i: int, j: int| 0 <= i < j < r.len() implies !ranks_before(
            #[trigger] r[j],
            #[trigger] r[i],
        ) by {
            if i == 0 {
                assert(r[j] == s[j - 1]);
                if j - 1 > 0 {
                    assert(!ranks_before(s[j - 1], s[0]));
                }
            } else {
                assert(r[i] == s[i - 1] && r[j] == s[j - 1]);
            }
        }
    } else {
        let t = s.drop_first();
        assert forall|i: int, j: int| 0 <= i < j < t.len() implies !ranks_before(
            #[trigger] t[j],
            #[trigger] t[i],
        ) by {
            assert(t[i] == s[i + 1] && t[j] == s[j + 1]);
        }
        lemma_insert_stable_sorted(t, x);
        let u = insert_stable(t, x);
        let r = seq![s[0]] + u;
        assert forall|i: int, j: int| 0 <= i < j < r.len() implies !ranks_before(
            #[trigger] r[j],
            #[trigger] r[i],
        ) by {
            if i == 0 {
                assert(r[j] == u[j - 1]);
                lemma_insert_stable_members(t, x, j - 1);
                if u[j - 1] != x {
                    let k = choose|k: int| 0 <= k < t.len() && t[k] == u[j - 1];
                    assert(s[k + 1] == u[j - 1]);
                }
            } else {
                assert(r[i] == u[i - 1] && r[j] == u[j - 1]);
            }
        }
    }
}

proof fn lemma_stable_sort_facts(s: Seq<RankedCandidate>)
    ensures
        rank_sorted(stable_sort(s)),
        stable_sort(s).to_multiset() == s.to_multiset(),
        stable_sort(s).len() == s.len(),
    decreases s.len(),
{
    if s.len() > 0 {
        lemma_stable_sort_facts(s.drop_last());
        lemma_insert_stable_sorted(stable_sort(s.drop_last()), s.last());
        lemma_insert_stable_multiset(stable_sort(s.drop_last()), s.last());
        assert(s.drop_last().push(s.last()) == s);
    }
}

/// The candidates of a rank, in order.
pub open spec fn of_rank(s: Seq<RankedCandidate>, k: RankedCandidate) -> Seq<RankedCandidate> {
    s.filter(|c: RankedCandidate| same_rank(c, k))
}

proof fn lemma_insert_stable_of_rank(s: Seq<RankedCandidate>, x: RankedCandidate, k: RankedCandidate)
    requires
        rank_sorted(s),
    ensures
        of_rank(insert_stable(s, x), k) == if same_rank(x, k) {
            of_rank(s, k).push(x)
        } else {
            of_rank(s, k)
        },
    decreases s.len(),
{
    let f = |c: RankedCandidate| same_rank(c, k);
    reveal_with_fuel(Seq::filter, 2);
    if s.len() == 0 {
        assert(seq![x].drop_last() == Seq::<RankedCandidate>::empty());
    } else if ranks_before(x, s[0]) {
        // Every element of s ranks after x, so none shares x's rank.
        assert forall|j: int| 0 <= j < s.len() implies !same_rank(x, #[trigger] s[j]) by {
            if j > 0 {
                assert(!ranks_before(s[j], s[0]));
            }
        }
        if same_rank(x, k) {
            assert forall|j: int| 0 <= j < s.len() implies !f(#[trigger] s[j]) by {}
            assert(s.filter(f) =~= Seq::<RankedCandidate>::empty()) by {
                s.filter_lemma(f);
                if s.filter(f).len() > 0 {
                    let y = s.filter(f)[0];
                    assert(s.filter(f).contains(y));
                    s.lemma_filter_contains_rev(f, y);
                    let j = choose|j: int| 0 <= j < s.len() && s[j] == y;
                    assert(f(y));
                    assert(!f(s[j]));
                }
            }
            lemma_filter_prepend(x, s, f);
        } else {
            lemma_filter_prepend(x, s, f);
        }
    } else {
        let t = s.drop_first();
        assert forall|i: int, j: int| 0 <= i < j < t.len() implies !ranks_before(
            #[trigger] t[j],
            #[trigger] t[i],
        ) by {
            assert(t[i] == s[i + 1] && t[j] == s[j + 1]);
        }
        lemma_insert_stable_of_rank(t, x, k);
        lemma_filter_prepend(s[0], insert_stable(t, x), f);
        lemma_filter_prepend(s[0], t, f);
        assert(seq![s[0]] + t == s);
    }
}

proof fn lemma_filter_prepend(a: RankedCandidate, s: Seq<RankedCandidate>, f: spec_fn(RankedCandidate) -> bool)
    ensures
        (seq![a] + s).filter(f) == if f(a) {
            seq![a] + s.filter(f)
        } else {
            s.filter(f)
        },
    decreases s.len(),
{
    reveal_with_fuel(Seq::filter, 2);
    let t = seq![a] + s;
    if s.len() == 0 {
        assert(t.drop_last() == Seq::<RankedCandidate>::empty());
        assert(t.last() == a);
    } else {
        assert(t.drop_last() == seq![a] + s.drop_last());
        assert(t.last() == s.last());
        lemma_filter_prepend(a, s.drop_last(), f);
        if f(s.last()) {
            assert(s.filter(f) == s.drop_last().filter(f).push(s.last()));
        } else {
            assert(s.filter(f) == s.drop_last().filter(f));
        }
    }
}

/// Ranking sorts: a candidate never comes after one it ranks before, so a
/// nearer revision always comes first and `main` only breaks ties.
pub proof fn law_ranking_is_sorted(candidates: Seq<RankedCandidate>)
    ensures
        rank_sorted(stable_sort(candidates)),
        forall|i: int, j: int|
            0 <= i < j < candidates.len() ==> #[trigger] stable_sort(candidates)[i].distance
                <= #[trigger] stable_sort(candidates)[j].distance,
{
    lemma_stable_sort_facts(candidates);
    let r = stable_sort(candidates);
    assert forall|i: int, j: int| 0 <= i < j < candidates.len() implies #[trigger] r[i].distance
        <= #[trigger] r[j].distance by {
        assert(!ranks_before(r[j], r[i]));
    }
}

/// Ranking neither drops nor invents a candidate.
pub proof fn law_ranking_is_a_permutation(candidates: Seq<RankedCandidate>)
    ensures
        stable_sort(candidates).to_multiset() == candidates.to_multiset(),
        stable_sort(candidates).len() == candidates.len(),
{
    lemma_stable_sort_facts(candidates);
}

/// Ranking is stable: candidates that rank alike keep the order in which
/// the worktrees were listed.
pub proof fn law_ranking_is_stable(candidates: Seq<RankedCandidate>, k: RankedCandidate)
    ensures
        of_rank(stable_sort(candidates), k) == of_rank(candidates, k),
    decreases candidates.len(),
{
    let f = |c: RankedCandidate| same_rank(c, k);
    if candidates.len() == 0 {
        reveal_with_fuel(Seq::filter, 1);
    } else {
        let s = candidates.drop_last();
        law_ranking_is_stable(s, k);
        lemma_stable_sort_facts(s);
        lemma_insert_stable_of_rank(stable_sort(s), candidates.last(), k);
        assert(s.push(candidates.last()) == candidates);
        reveal_with_fuel(Seq::filter, 1);
        assert(candidates.drop_last() == s);
    }
}

} // verus!
