//! The Git index as freshness evidence: the tracked entries of
//! `git ls-files --stage -z`, the dirty paths of `git diff --name-only -z`,
//! and the triage that picks which tracked files may have their
//! modification time mirrored from the source worktree.
use vstd::prelude::*;

use crate::text::{chars_of, texts, words, words_of};

verus! {

// ---------------------------------------------------------------------------
// Byte strings and their order
// ---------------------------------------------------------------------------

/// `a` sorts strictly before `b` (lexicographic over bytes).
pub open spec fn bytes_lt(a: Seq<u8>, b: Seq<u8>) -> bool
    decreases a.len(),
{
    if b.len() == 0 {
        false
    } else if a.len() == 0 {
        true
    } else if a[0] < b[0] {
        true
    } else if a[0] == b[0] {
        bytes_lt(a.drop_first(), b.drop_first())
    } else {
        false
    }
}

pub proof fn lemma_bytes_lt_irreflexive(a: Seq<u8>)
    ensures
        !bytes_lt(a, a),
    decreases a.len(),
{
    if a.len() > 0 {
        lemma_bytes_lt_irreflexive(a.drop_first());
    }
}

pub proof fn lemma_bytes_lt_transitive(a: Seq<u8>, b: Seq<u8>, c: Seq<u8>)
    requires
        bytes_lt(a, b),
        bytes_lt(b, c),
    ensures
        bytes_lt(a, c),
    decreases a.len(),
{
    if a.len() > 0 && b.len() > 0 && c.len() > 0 && a[0] == b[0] && b[0] == c[0] {
        lemma_bytes_lt_transitive(a.drop_first(), b.drop_first(), c.drop_first());
    }
}

pub proof fn lemma_bytes_lt_total(a: Seq<u8>, b: Seq<u8>)
    ensures
        a == b || bytes_lt(a, b) || bytes_lt(b, a),
    decreases a.len(),
{
    if a.len() == 0 && b.len() == 0 {
        assert(a =~= b);
    } else if a.len() > 0 && b.len() > 0 && a[0] == b[0] {
        lemma_bytes_lt_total(a.drop_first(), b.drop_first());
        if a.drop_first() == b.drop_first() {
            assert(a == seq![a[0]] + a.drop_first());
            assert(b == seq![b[0]] + b.drop_first());
        }
    }
}

fn bytes_less(a: &Vec<u8>, b: &Vec<u8>) -> (lt: bool)
    ensures
        lt == bytes_lt(a@, b@),
{
    let mut i: usize = 0;
    assert(a@.skip(0) == a@);
    assert(b@.skip(0) == b@);
    while i < a.len() && i < b.len() && a[i] == b[i]
        invariant
            i <= a@.len(),
            i <= b@.len(),
            bytes_lt(a@, b@) == bytes_lt(a@.skip(i as int), b@.skip(i as int)),
        decreases a@.len() - i,
    {
        assert(a@.skip(i as int).drop_first() == a@.skip(i + 1));
        assert(b@.skip(i as int).drop_first() == b@.skip(i + 1));
        i = i + 1;
    }
    if i == b.len() {
        false
    } else if i == a.len() {
        true
    } else {
        a[i] < b[i]
    }
}

fn bytes_equal(a: &Vec<u8>, b: &Vec<u8>) -> (eq: bool)
    ensures
        eq == (a@ == b@),
{
    if a.len() != b.len() {
        return false;
    }
    let mut i: usize = 0;
    while i < a.len()
        invariant
            i <= a@.len(),
            a@.len() == b@.len(),
            forall|k: int| 0 <= k < i ==> a@[k] == b@[k],
        decreases a@.len() - i,
    {
        if a[i] != b[i] {
            return false;
        }
        i = i + 1;
    }
    assert(a@ =~= b@);
    true
}

// ---------------------------------------------------------------------------
// Tables keyed by path bytes
// ---------------------------------------------------------------------------

/// A path (as Git prints it, in bytes) and the text recorded for it.
#[derive(Debug)]
pub struct PathEntry {
    pub path: Vec<u8>,
    pub value: String,
}

/// Paths in strictly increasing byte order.
pub open spec fn strictly_sorted(s: Seq<PathEntry>) -> bool {
    forall|i: int, j: int| 0 <= i < j < s.len() ==> bytes_lt(#[trigger] s[i].path@, #[trigger] s[j].path@)
}

pub open spec fn has_path(s: Seq<PathEntry>, k: Seq<u8>) -> bool {
    exists|i: int| 0 <= i < s.len() && #[trigger] s[i].path@ == k
}

/// The first position at or after `i` whose path is `k` (the length if none).
pub open spec fn position_of(s: Seq<PathEntry>, k: Seq<u8>, i: int) -> int
    decreases s.len() - i,
{
    if i < 0 || i >= s.len() {
        s.len() as int
    } else if s[i].path@ == k {
        i
    } else {
        position_of(s, k, i + 1)
    }
}

pub open spec fn value_at(s: Seq<PathEntry>, k: Seq<u8>) -> Seq<char> {
    s[position_of(s, k, 0)].value@
}

/// The map a sequence of entries with distinct paths stands for.
pub open spec fn table_map(s: Seq<PathEntry>) -> Map<Seq<u8>, Seq<char>> {
    Map::new(|k: Seq<u8>| has_path(s, k), |k: Seq<u8>| value_at(s, k))
}

/// A map from path bytes to text, kept sorted by path and holding each path
/// once, as a `BTreeMap` keyed by path would. A `std::collections::BTreeMap`
/// is not used: vstd specifies it only for keys that obey its ordering model
/// (`obeys_cmp`), which byte strings and paths do not provide, so nothing
/// about its contents could be proved.
pub struct PathTable {
    entries: Vec<PathEntry>,
}

proof fn lemma_position_of(s: Seq<PathEntry>, n: int, i: int)
    requires
        strictly_sorted(s),
        0 <= i <= n < s.len(),
    ensures
        position_of(s, s[n].path@, i) == n,
    decreases n - i,
{
    if i < n {
        assert(bytes_lt(s[i].path@, s[n].path@));
        lemma_bytes_lt_irreflexive(s[n].path@);
        lemma_position_of(s, n, i + 1);
    }
}

proof fn lemma_value_at(s: Seq<PathEntry>, n: int)
    requires
        strictly_sorted(s),
        0 <= n < s.len(),
    ensures
        value_at(s, s[n].path@) == s[n].value@,
{
    lemma_position_of(s, n, 0);
}

impl PathTable {
    #[verifier::type_invariant]
    spec fn sorted_paths(self) -> bool {
        strictly_sorted(self.entries@)
    }

    /// The entries, in path order.
    pub closed spec fn entry_seq(self) -> Seq<PathEntry> {
        self.entries@
    }

    pub open spec fn view(self) -> Map<Seq<u8>, Seq<char>> {
        table_map(self.entry_seq())
    }

    pub fn new() -> (t: Self)
        ensures
            t.view() == Map::<Seq<u8>, Seq<char>>::empty(),
            t.entry_seq().len() == 0,
    {
        let t = PathTable { entries: Vec::new() };
        assert(table_map(t.entries@) =~= Map::<Seq<u8>, Seq<char>>::empty());
        t
    }

    pub fn len(&self) -> (n: usize)
        ensures
            n == self.entry_seq().len(),
    {
        self.entries.len()
    }

    /// The first position whose path does not sort before `key`.
    fn lower_bound(&self, key: &Vec<u8>) -> (p: usize)
        ensures
            p <= self.entries@.len(),
            forall|i: int| 0 <= i < p ==> bytes_lt(#[trigger] self.entries@[i].path@, key@),
            forall|i: int| p <= i < self.entries@.len() ==> !bytes_lt(#[trigger] self.entries@[i].path@, key@),
    {
        proof {
            use_type_invariant(self);
        }
        let mut lo: usize = 0;
        let mut hi: usize = self.entries.len();
        while lo < hi
            invariant
                lo <= hi <= self.entries@.len(),
                strictly_sorted(self.entries@),
                forall|i: int| 0 <= i < lo ==> bytes_lt(#[trigger] self.entries@[i].path@, key@),
                forall|i: int| hi <= i < self.entries@.len() ==> !bytes_lt(#[trigger] self.entries@[i].path@, key@),
            decreases hi - lo,
        {
            let mid = lo + (hi - lo) / 2;
            if bytes_less(&self.entries[mid].path, key) {
                proof {
                    assert forall|i: int| 0 <= i < mid + 1 implies bytes_lt(#[trigger] self.entries@[i].path@, key@) by {
                        if i < mid {
                            lemma_bytes_lt_transitive(self.entries@[i].path@, self.entries@[mid as int].path@, key@);
                        }
                    }
                }
                lo = mid + 1;
            } else {
                proof {
                    assert forall|i: int| mid <= i < self.entries@.len() implies !bytes_lt(#[trigger] self.entries@[i].path@, key@) by {
                        if i > mid && bytes_lt(self.entries@[i].path@, key@) {
                            lemma_bytes_lt_transitive(self.entries@[mid as int].path@, self.entries@[i].path@, key@);
                        }
                    }
                }
                hi = mid;
            }
        }
        lo
    }

    /// The text recorded for `key`, if any (`BTreeMap::get`).
    pub fn get(&self, key: &Vec<u8>) -> (r: Option<&String>)
        ensures
            match r {
                Some(v) => self.view().dom().contains(key@) && self.view()[key@] == v@,
                None => !self.view().dom().contains(key@),
            },
    {
        proof {
            use_type_invariant(self);
        }
        let p = self.lower_bound(key);
        if p < self.entries.len() && bytes_equal(&self.entries[p].path, key) {
            proof {
                lemma_value_at(self.entries@, p as int);
            }
            Some(&self.entries[p].value)
        } else {
            proof {
                if has_path(self.entries@, key@) {
                    let i = choose|i: int| 0 <= i < self.entries@.len() && #[trigger] self.entries@[i].path@ == key@;
                    lemma_bytes_lt_irreflexive(key@);
                    if i > p {
                        lemma_bytes_lt_total(self.entries@[p as int].path@, key@);
                    }
                }
            }
            None
        }
    }

    /// Whether the table holds `key` (`BTreeSet::contains` on its paths).
    pub fn contains(&self, key: &Vec<u8>) -> (found: bool)
        ensures
            found == self.view().dom().contains(key@),
    {
        self.get(key).is_some()
    }

    /// Records `value` for `key`, replacing what was there (`BTreeMap::insert`).
    pub fn insert(&mut self, key: Vec<u8>, value: String)
        ensures
            final(self).view() == old(self).view().insert(key@, value@),
    {
        proof {
            use_type_invariant(&*self);
        }
        let p = self.lower_bound(&key);
        let ghost old_entries = self.entries@;
        let ghost k = key@;
        let ghost v = value@;
        if p < self.entries.len() && bytes_equal(&self.entries[p].path, &key) {
            let mut entries: Vec<PathEntry> = Vec::new();
            std::mem::swap(&mut entries, &mut self.entries);
            entries.set(p, PathEntry { path: key, value });
            let ghost new_entries = entries@;
            proof {
                assert(strictly_sorted(new_entries)) by {
                    assert forall|i: int, j: int| 0 <= i < j < new_entries.len() implies bytes_lt(
                        #[trigger] new_entries[i].path@,
                        #[trigger] new_entries[j].path@,
                    ) by {
                        assert(old_entries[i].path@ == new_entries[i].path@);
                        assert(old_entries[j].path@ == new_entries[j].path@);
                    }
                }
                assert forall|q: Seq<u8>| #[trigger] has_path(new_entries, q) == has_path(old_entries, q) by {
                    if has_path(old_entries, q) {
                        let i = choose|i: int| 0 <= i < old_entries.len() && #[trigger] old_entries[i].path@ == q;
                        assert(new_entries[i].path@ == q);
                    }
                    if has_path(new_entries, q) {
                        let i = choose|i: int| 0 <= i < new_entries.len() && #[trigger] new_entries[i].path@ == q;
                        assert(old_entries[i].path@ == q);
                    }
                }
                assert(table_map(new_entries) =~= table_map(old_entries).insert(k, v)) by {
                    assert forall|q: Seq<u8>| #[trigger] table_map(new_entries).dom().contains(q) implies
                        table_map(new_entries)[q] == table_map(old_entries).insert(k, v)[q] by {
                        let i = choose|i: int| 0 <= i < new_entries.len() && #[trigger] new_entries[i].path@ == q;
                        lemma_value_at(new_entries, i);
                        if q != k {
                            lemma_value_at(old_entries, i);
                        }
                    }
                    assert(has_path(new_entries, k)) by {
                        assert(new_entries[p as int].path@ == k);
                    }
                }
            }
            self.entries = entries;
        } else {
            let mut entries: Vec<PathEntry> = Vec::new();
            std::mem::swap(&mut entries, &mut self.entries);
            entries.insert(p, PathEntry { path: key, value });
            let ghost new_entries = entries@;
            proof {
                assert(new_entries == old_entries.take(p as int).push(new_entries[p as int]) + old_entries.skip(p as int));
                if p < old_entries.len() {
                    lemma_bytes_lt_total(old_entries[p as int].path@, k);
                }
                assert forall|i: int| 0 <= i < new_entries.len() && i != p implies
                    (#[trigger] new_entries[i]) == old_entries[if i < p { i } else { i - 1 }] by {}
                assert(strictly_sorted(new_entries)) by {
                    assert forall|i: int, j: int| 0 <= i < j < new_entries.len() implies bytes_lt(
                        #[trigger] new_entries[i].path@,
                        #[trigger] new_entries[j].path@,
                    ) by {
                        if j == p {
                        } else if i == p {
                            if j > p + 1 {
                                lemma_bytes_lt_transitive(k, old_entries[p as int].path@, old_entries[j - 1].path@);
                            }
                        } else {
                            let i0 = if i < p { i } else { i - 1 };
                            let j0 = if j < p { j } else { j - 1 };
                            assert(old_entries[i0] == new_entries[i]);
                            assert(old_entries[j0] == new_entries[j]);
                        }
                    }
                }
                assert forall|q: Seq<u8>| #[trigger] has_path(new_entries, q) == (has_path(old_entries, q) || q == k) by {
                    if has_path(old_entries, q) {
                        let i = choose|i: int| 0 <= i < old_entries.len() && #[trigger] old_entries[i].path@ == q;
                        let i1 = if i < p { i } else { i + 1 };
                        assert(new_entries[i1].path@ == q);
                    }
                    if q == k {
                        assert(new_entries[p as int].path@ == q);
                    }
                    if has_path(new_entries, q) {
                        let i = choose|i: int| 0 <= i < new_entries.len() && #[trigger] new_entries[i].path@ == q;
                        if i != p {
                            let i0 = if i < p { i } else { i - 1 };
                            assert(old_entries[i0].path@ == q);
                        }
                    }
                }
                assert(table_map(new_entries) =~= table_map(old_entries).insert(k, v)) by {
                    assert forall|q: Seq<u8>| #[trigger] table_map(new_entries).dom().contains(q) implies
                        table_map(new_entries)[q] == table_map(old_entries).insert(k, v)[q] by {
                        let i = choose|i: int| 0 <= i < new_entries.len() && #[trigger] new_entries[i].path@ == q;
                        lemma_value_at(new_entries, i);
                        if i != p {
                            let i0 = if i < p { i } else { i - 1 };
                            lemma_value_at(old_entries, i0);
                            if q == k {
                                lemma_bytes_lt_irreflexive(k);
                            }
                        }
                    }
                }
            }
            self.entries = entries;
        }
    }
}


// ---------------------------------------------------------------------------
// NUL-separated output
// ---------------------------------------------------------------------------

/// The pieces of `bytes.split(|b| *b == 0)`: one more than there are NULs.
pub open spec fn nul_split(b: Seq<u8>) -> Seq<Seq<u8>>
    decreases b.len(),
{
    if b.len() == 0 {
        seq![seq![]]
    } else {
        let p = nul_split(b.drop_last());
        if b.last() == 0 {
            p.push(seq![])
        } else {
            p.update(p.len() - 1, p.last().push(b.last()))
        }
    }
}

proof fn lemma_nul_split_len(b: Seq<u8>)
    ensures
        nul_split(b).len() >= 1,
    decreases b.len(),
{
    if b.len() > 0 {
        lemma_nul_split_len(b.drop_last());
    }
}

pub open spec fn non_empty(r: Seq<u8>) -> bool {
    r.len() > 0
}

/// The records of NUL-terminated Git output (`-z`), empty ones skipped.
pub open spec fn nul_records(b: Seq<u8>) -> Seq<Seq<u8>> {
    nul_split(b).filter(|r: Seq<u8>| non_empty(r))
}

pub open spec fn byte_views(v: Seq<Vec<u8>>) -> Seq<Seq<u8>> {
    v.map_values(|x: Vec<u8>| x@)
}

/// Splits NUL-terminated output into its non-empty records.
pub fn nul_records_of(bytes: &[u8]) -> (records: Vec<Vec<u8>>)
    ensures
        byte_views(records@) == nul_records(bytes@),
{
    let mut pieces: Vec<Vec<u8>> = Vec::new();
    let mut current: Vec<u8> = Vec::new();
    let mut i: usize = 0;
    assert(bytes@.take(0) == Seq::<u8>::empty());
    while i < bytes.len()
        invariant
            i <= bytes@.len(),
            byte_views(pieces@).push(current@) == nul_split(bytes@.take(i as int)),
        decreases bytes@.len() - i,
    {
        let ghost prev = byte_views(pieces@).push(current@);
        assert(bytes@.take(i + 1).drop_last() == bytes@.take(i as int));
        assert(bytes@.take(i + 1).last() == bytes@[i as int]);
        proof {
            lemma_nul_split_len(bytes@.take(i as int));
        }
        if bytes[i] == 0 {
            let mut done: Vec<u8> = Vec::new();
            std::mem::swap(&mut done, &mut current);
            pieces.push(done);
            assert(byte_views(pieces@).push(current@) == prev.push(Seq::<u8>::empty()));
        } else {
            current.push(bytes[i]);
            assert(byte_views(pieces@).push(current@) == prev.update(prev.len() - 1, prev.last().push(bytes@[i as int])));
        }
        i = i + 1;
    }
    assert(bytes@.take(bytes@.len() as int) == bytes@);
    let ghost prev_pieces = byte_views(pieces@);
    pieces.push(current);
    let ghost all = byte_views(pieces@);
    assert(all == prev_pieces.push(current@));
    assert(all == nul_split(bytes@));
    let mut records: Vec<Vec<u8>> = Vec::new();
    let ghost mut j: int = 0;
    let ghost f = |r: Seq<u8>| non_empty(r);
    assert(all.take(0).filter(f) == Seq::<Seq<u8>>::empty()) by {
        reveal_with_fuel(Seq::filter, 1);
    }
    while pieces.len() > 0
        invariant
            j <= all.len(),
            0 <= j,
            f == (|r: Seq<u8>| non_empty(r)),
            byte_views(pieces@) == all.skip(j),
            byte_views(records@) == all.take(j).filter(f),
        decreases pieces@.len(),
    {
        assert(byte_views(pieces@).len() == pieces@.len());
        assert(byte_views(pieces@)[0] == pieces@[0]@);
        let piece = pieces.remove(0);
        assert(piece@ == all[j]);
        assert(all.take(j + 1) == all.take(j).push(piece@));
        proof {
            all.take(j).lemma_filter_push(piece@, f);
        }
        let ghost kept = all.take(j).filter(f);
        assert(f(all[j]) == non_empty(all[j]));
        assert(all.take(j + 1).filter(f) == if non_empty(all[j]) {
            kept.push(all[j])
        } else {
            kept
        });
        if piece.len() > 0 {
            let ghost before = byte_views(records@);
            records.push(piece);
            assert(byte_views(records@) == before.push(all[j]));
        }
        assert(byte_views(records@) == all.take(j + 1).filter(f));
        assert(all.skip(j).drop_first() == all.skip(j + 1));
        proof {
            j = j + 1;
        }
    }
    assert(byte_views(pieces@).len() == pieces@.len());
    assert(j == all.len());
    assert(all.take(j) == all);
    records
}

// ---------------------------------------------------------------------------
// Text of bytes
// ---------------------------------------------------------------------------

/// Names what `String::from_utf8_lossy` makes of `bytes`.
pub uninterp spec fn lossy_text(bytes: Seq<u8>) -> Seq<char>;

/// Decodes `bytes` with `String::from_utf8_lossy` (invalid sequences become
/// U+FFFD); which text comes out is left to the name `lossy_text`.
#[verifier::external_body]
pub(crate) fn utf8_lossy(bytes: &[u8]) -> (text: String)
    ensures
        text@ == lossy_text(bytes@),
{
    String::from_utf8_lossy(bytes).into_owned()
}

// ---------------------------------------------------------------------------
// The index
// ---------------------------------------------------------------------------

/// The first position of `byte` in `r`, if any.
pub open spec fn first_byte(r: Seq<u8>, byte: u8, i: int) -> Option<int>
    decreases r.len() - i,
{
    if i < 0 || i >= r.len() {
        None
    } else if r[i] == byte {
        Some(i)
    } else {
        first_byte(r, byte, i + 1)
    }
}

/// The path and object id of one `git ls-files --stage -z` record
/// (`<mode> <oid> <stage>\t<path>`), when it is a stage-0 entry.
pub open spec fn index_record(r: Seq<u8>) -> Option<(Seq<u8>, Seq<char>)> {
    match first_byte(r, 9, 0) {
        None => None,
        Some(t) => {
            let fields = words(lossy_text(r.take(t)));
            if fields.len() < 2 {
                None
            } else {
                let stage = if fields.len() >= 3 {
                    fields[2]
                } else {
                    ""@
                };
                if stage != "0"@ {
                    None
                } else {
                    Some((r.skip(t + 1), fields[1]))
                }
            }
        },
    }
}

/// The map of tracked paths to object ids the records give, a later record
/// for a path replacing an earlier one.
pub open spec fn index_map(records: Seq<Seq<u8>>) -> Map<Seq<u8>, Seq<char>>
    decreases records.len(),
{
    if records.len() == 0 {
        Map::empty()
    } else {
        let m = index_map(records.drop_last());
        match index_record(records.last()) {
            Some((path, oid)) => m.insert(path, oid),
            None => m,
        }
    }
}

proof fn lemma_first_byte(r: Seq<u8>, byte: u8, i: int)
    requires
        0 <= i,
    ensures
        first_byte(r, byte, i) matches Some(k) ==> i <= k < r.len() && r[k] == byte,
        first_byte(r, byte, i) is None ==> forall|j: int| i <= j < r.len() ==> r[j] != byte,
    decreases r.len() - i,
{
    if i < r.len() && r[i] != byte {
        lemma_first_byte(r, byte, i + 1);
    }
}

fn index_record_of(r: &Vec<u8>) -> (entry: Option<(Vec<u8>, String)>)
    ensures
        match index_record(r@) {
            Some((path, oid)) => entry matches Some((p, o)) && p@ == path && o@ == oid,
            None => entry is None,
        },
{
    let mut t: usize = 0;
    while t < r.len() && r[t] != 9
        invariant
            t <= r@.len(),
            first_byte(r@, 9, 0) == first_byte(r@, 9, t as int),
        decreases r@.len() - t,
    {
        t = t + 1;
    }
    if t == r.len() {
        return None;
    }
    let mut header_bytes: Vec<u8> = Vec::new();
    let mut k: usize = 0;
    while k < t
        invariant
            k <= t < r@.len(),
            header_bytes@ == r@.take(k as int),
        decreases t - k,
    {
        header_bytes.push(r[k]);
        assert(r@.take(k + 1) == r@.take(k as int).push(r@[k as int]));
        k = k + 1;
    }
    let header = utf8_lossy(header_bytes.as_slice());
    let header_chars = chars_of(header.as_str());
    let fields = words_of(&header_chars);
    assert(texts(fields@) == words(lossy_text(r@.take(t as int))));
    if fields.len() < 2 {
        return None;
    }
    assert(texts(fields@)[1] == fields@[1]@);
    let zero = chars_of("0");
    let stage_ok = if fields.len() >= 3 {
        assert(texts(fields@)[2] == fields@[2]@);
        crate::text::same_chars(&fields[2], &zero)
    } else {
        proof {
            reveal_strlit("0");
            reveal_strlit("");
            assert(""@ != "0"@) by {
                assert(""@.len() == 0);
            }
        }
        false
    };
    if !stage_ok {
        return None;
    }
    let mut path: Vec<u8> = Vec::new();
    let mut m: usize = t + 1;
    while m < r.len()
        invariant
            t < m <= r@.len(),
            path@ == r@.subrange(t + 1, m as int),
        decreases r@.len() - m,
    {
        path.push(r[m]);
        assert(r@.subrange(t + 1, m + 1) == r@.subrange(t + 1, m as int).push(r@[m as int]));
        m = m + 1;
    }
    assert(path@ == r@.skip(t + 1));
    Some((path, crate::text::string_of(&fields[1])))
}

/// The stage-0 entries of `git ls-files --stage -z`: each tracked path
/// with its object id (`tracked_index_entries`).
pub fn tracked_index_entries(stdout: &[u8]) -> (table: PathTable)
    ensures
        table.view() == index_map(nul_records(stdout@)),
{
    let records = nul_records_of(stdout);
    let ghost recs = byte_views(records@);
    let mut table = PathTable::new();
    let mut i: usize = 0;
    assert(recs.take(0) == Seq::<Seq<u8>>::empty());
    while i < records.len()
        invariant
            i <= records@.len(),
            recs == byte_views(records@),
            recs == nul_records(stdout@),
            table.view() == index_map(recs.take(i as int)),
        decreases records@.len() - i,
    {
        assert(recs.take(i + 1).drop_last() == recs.take(i as int));
        assert(recs.take(i + 1).last() == records@[i as int]@);
        match index_record_of(&records[i]) {
            Some((path, oid)) => {
                table.insert(path, oid);
            },
            None => {},
        }
        i = i + 1;
    }
    assert(recs.take(records@.len() as int) == recs);
    table
}

/// The paths of `git diff --name-only -z` and `git diff --cached --name-only -z`.
pub open spec fn dirty_set(unstaged: Seq<u8>, staged: Seq<u8>) -> Set<Seq<u8>> {
    Set::new(|p: Seq<u8>| nul_records(unstaged).contains(p) || nul_records(staged).contains(p))
}

fn insert_records(table: &mut PathTable, records: &Vec<Vec<u8>>)
    ensures
        final(table).view().dom() == old(table).view().dom().union(
            Set::new(|p: Seq<u8>| byte_views(records@).contains(p)),
        ),
{
    let ghost start = table.view().dom();
    let mut i: usize = 0;
    while i < records.len()
        invariant
            i <= records@.len(),
            table.view().dom() == start.union(
                Set::new(|p: Seq<u8>| byte_views(records@).take(i as int).contains(p)),
            ),
        decreases records@.len() - i,
    {
        let ghost before = table.view().dom();
        let mut copy: Vec<u8> = Vec::new();
        let mut k: usize = 0;
        while k < records[i].len()
            invariant
                i < records@.len(),
                k <= records@[i as int]@.len(),
                copy@ == records@[i as int]@.take(k as int),
            decreases records@[i as int]@.len() - k,
        {
            copy.push(records[i][k]);
            assert(records@[i as int]@.take(k + 1) == records@[i as int]@.take(k as int).push(records@[i as int]@[k as int]));
            k = k + 1;
        }
        assert(copy@ == records@[i as int]@);
        table.insert(copy, String::new());
        proof {
            let v = byte_views(records@);
            assert(v[i as int] == copy@);
            assert(v.take(i + 1) == v.take(i as int).push(v[i as int]));
            let a = Set::new(|p: Seq<u8>| v.take(i as int).contains(p));
            let b = Set::new(|p: Seq<u8>| v.take(i + 1).contains(p));
            assert(b =~= a.insert(v[i as int])) by {
                assert forall|p: Seq<u8>| b.contains(p) <==> a.insert(v[i as int]).contains(p) by {
                    if v.take(i + 1).contains(p) {
                        let j = choose|j: int| 0 <= j < v.take(i + 1).len() && #[trigger] v.take(i + 1)[j] == p;
                        if j < i {
                            assert(v.take(i as int)[j] == p);
                        }
                    }
                    if v.take(i as int).contains(p) {
                        let j = choose|j: int| 0 <= j < v.take(i as int).len() && #[trigger] v.take(i as int)[j] == p;
                        assert(v.take(i + 1)[j] == p);
                    }
                    if p == v[i as int] {
                        assert(v.take(i + 1)[i as int] == p);
                    }
                }
            }
            assert(table.view().dom() == before.insert(copy@));
            assert(table.view().dom() =~= start.union(b));
        }
        i = i + 1;
    }
    assert(byte_views(records@).take(records@.len() as int) == byte_views(records@));
}

/// The tracked paths with changes in the worktree or the index (empty
/// values; only the paths count).
pub fn dirty_tracked_paths(unstaged: &[u8], staged: &[u8]) -> (table: PathTable)
    ensures
        table.view().dom() == dirty_set(unstaged@, staged@),
{
    let mut table = PathTable::new();
    let a = nul_records_of(unstaged);
    let b = nul_records_of(staged);
    insert_records(&mut table, &a);
    insert_records(&mut table, &b);
    assert(table.view().dom() =~= dirty_set(unstaged@, staged@));
    table
}

// ---------------------------------------------------------------------------
// Triage
// ---------------------------------------------------------------------------

/// What the index alone says of one tracked source file.
#[derive(Debug, Clone, Copy, PartialEq, Eq, Structural)]
pub enum IndexVerdict {
    /// The destination does not track it.
    Missing,
    /// Changed in either worktree.
    Dirty,
    /// Tracked in both with different contents.
    Different,
    /// Tracked in both with the same object, clean in both: its bytes may
    /// still be compared and its mtime mirrored.
    Candidate,
}

pub open spec fn verdict(
    path: Seq<u8>,
    oid: Seq<char>,
    destination: Map<Seq<u8>, Seq<char>>,
    source_dirty: Set<Seq<u8>>,
    destination_dirty: Set<Seq<u8>>,
) -> IndexVerdict {
    if !destination.dom().contains(path) {
        IndexVerdict::Missing
    } else if source_dirty.contains(path) || destination_dirty.contains(path) {
        IndexVerdict::Dirty
    } else if oid != destination[path] {
        IndexVerdict::Different
    } else {
        IndexVerdict::Candidate
    }
}

/// Counts of missing, dirty and different entries, and the candidates in
/// order, over the source entries `s`.
pub open spec fn triage(
    s: Seq<PathEntry>,
    destination: Map<Seq<u8>, Seq<char>>,
    source_dirty: Set<Seq<u8>>,
    destination_dirty: Set<Seq<u8>>,
) -> (nat, nat, nat, Seq<Seq<u8>>)
    decreases s.len(),
{
    if s.len() == 0 {
        (0, 0, 0, seq![])
    } else {
        let (m, d, f, c) = triage(s.drop_last(), destination, source_dirty, destination_dirty);
        let e = s.last();
        match verdict(e.path@, e.value@, destination, source_dirty, destination_dirty) {
            IndexVerdict::Missing => (m + 1, d, f, c),
            IndexVerdict::Dirty => (m, d + 1, f, c),
            IndexVerdict::Different => (m, d, f + 1, c),
            IndexVerdict::Candidate => (m, d, f, c.push(e.path@)),
        }
    }
}

/// What the index says of the source's tracked files.
#[derive(Debug)]
pub struct IndexTriage {
    pub missing: usize,
    pub dirty: usize,
    pub different: usize,
    /// Files whose bytes are to be compared, in path order.
    pub candidates: Vec<Vec<u8>>,
}

proof fn lemma_triage_sum(
    s: Seq<PathEntry>,
    destination: Map<Seq<u8>, Seq<char>>,
    sd: Set<Seq<u8>>,
    dd: Set<Seq<u8>>,
)
    ensures
        ({
            let (m, d, f, c) = triage(s, destination, sd, dd);
            m + d + f + c.len() == s.len()
        }),
    decreases s.len(),
{
    if s.len() > 0 {
        lemma_triage_sum(s.drop_last(), destination, sd, dd);
    }
}

/// The source entry a candidate comes from.
proof fn lemma_candidate_source(
    s: Seq<PathEntry>,
    destination: Map<Seq<u8>, Seq<char>>,
    sd: Set<Seq<u8>>,
    dd: Set<Seq<u8>>,
    i: int,
) -> (j: int)
    requires
        0 <= i < triage(s, destination, sd, dd).3.len(),
    ensures
        0 <= j < s.len(),
        s[j].path@ == triage(s, destination, sd, dd).3[i],
        verdict(s[j].path@, s[j].value@, destination, sd, dd) == IndexVerdict::Candidate,
    decreases s.len(),
{
    let c0 = triage(s.drop_last(), destination, sd, dd).3;
    let c = triage(s, destination, sd, dd).3;
    let e = s.last();
    if verdict(e.path@, e.value@, destination, sd, dd) == IndexVerdict::Candidate {
        assert(c == c0.push(e.path@));
        if i == c0.len() {
            (s.len() - 1) as int
        } else {
            let j = lemma_candidate_source(s.drop_last(), destination, sd, dd, i);
            assert(s[j] == s.drop_last()[j]);
            j
        }
    } else {
        assert(c == c0);
        let j = lemma_candidate_source(s.drop_last(), destination, sd, dd, i);
        assert(s[j] == s.drop_last()[j]);
        j
    }
}

/// Sorts the source's tracked files by what the index says: missing from
/// the destination, dirty in either worktree, different objects, or
/// candidates for an mtime mirror. Every candidate is tracked in both with
/// the same object id and is clean in both.
pub fn triage_index(
    source: &PathTable,
    destination: &PathTable,
    source_dirty: &PathTable,
    destination_dirty: &PathTable,
) -> (t: IndexTriage)
    ensures
        (t.missing as nat, t.dirty as nat, t.different as nat, byte_views(t.candidates@)) == triage(
            source.entry_seq(),
            destination.view(),
            source_dirty.view().dom(),
            destination_dirty.view().dom(),
        ),
        t.missing + t.dirty + t.different + t.candidates@.len() == source.entry_seq().len(),
        forall|i: int| 0 <= i < t.candidates@.len() ==> {
            let c = #[trigger] t.candidates@[i]@;
            &&& source.view().dom().contains(c)
            &&& destination.view().dom().contains(c)
            &&& source.view()[c] == destination.view()[c]
            &&& !source_dirty.view().dom().contains(c)
            &&& !destination_dirty.view().dom().contains(c)
        },
{
    proof {
        use_type_invariant(source);
    }
    let ghost s = source.entries@;
    let ghost dm = destination.view();
    let ghost sd = source_dirty.view().dom();
    let ghost dd = destination_dirty.view().dom();
    let mut t = IndexTriage { missing: 0, dirty: 0, different: 0, candidates: Vec::new() };
    let mut i: usize = 0;
    assert(s.take(0) == Seq::<PathEntry>::empty());
    while i < source.entries.len()
        invariant
            i <= s.len(),
            s == source.entries@,
            strictly_sorted(s),
            dm == destination.view(),
            sd == source_dirty.view().dom(),
            dd == destination_dirty.view().dom(),
            (t.missing as nat, t.dirty as nat, t.different as nat, byte_views(t.candidates@)) == triage(s.take(i as int), dm, sd, dd),
            t.missing + t.dirty + t.different + t.candidates@.len() == i,
        decreases s.len() - i,
    {
        assert(s.take(i + 1).drop_last() == s.take(i as int));
        assert(s.take(i + 1).last() == s[i as int]);
        proof {
            lemma_triage_sum(s.take(i as int), dm, sd, dd);
        }
        let entry = &source.entries[i];
        match destination.get(&entry.path) {
            None => {
                t.missing = t.missing + 1;
            },
            Some(destination_oid) => {
                if source_dirty.contains(&entry.path) || destination_dirty.contains(&entry.path) {
                    t.dirty = t.dirty + 1;
                } else {
                    let a = chars_of(entry.value.as_str());
                    let b = chars_of(destination_oid.as_str());
                    if !crate::text::same_chars(&a, &b) {
                        t.different = t.different + 1;
                    } else {
                        let mut copy: Vec<u8> = Vec::new();
                        let mut k: usize = 0;
                        while k < entry.path.len()
                            invariant
                                k <= entry.path@.len(),
                                copy@ == entry.path@.take(k as int),
                            decreases entry.path@.len() - k,
                        {
                            copy.push(entry.path[k]);
                            assert(entry.path@.take(k + 1) == entry.path@.take(k as int).push(entry.path@[k as int]));
                            k = k + 1;
                        }
                        assert(copy@ == entry.path@);
                        let ghost before = byte_views(t.candidates@);
                        t.candidates.push(copy);
                        assert(byte_views(t.candidates@) == before.push(entry.path@));
                    }
                }
            },
        }
        i = i + 1;
    }
    assert(s.take(s.len() as int) == s);
    proof {
        lemma_triage_sum(s, dm, sd, dd);
        assert forall|i: int| 0 <= i < t.candidates@.len() implies {
            let c = #[trigger] t.candidates@[i]@;
            &&& source.view().dom().contains(c)
            &&& destination.view().dom().contains(c)
            &&& source.view()[c] == destination.view()[c]
            &&& !source_dirty.view().dom().contains(c)
            &&& !destination_dirty.view().dom().contains(c)
        } by {
            let c = t.candidates@[i]@;
            assert(byte_views(t.candidates@)[i] == c);
            let j = lemma_candidate_source(s, dm, sd, dd, i);
            assert(has_path(s, c));
            lemma_value_at(s, j);
        }
    }
    t
}

} // verus!
