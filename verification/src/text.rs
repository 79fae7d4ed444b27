//! Character-level text handling: the `str` operations the rest of the
//! library reads command output and configuration with, each stated as a
//! spec function over `Seq<char>` and implemented over `Vec<char>`.
use vstd::prelude::*;

verus! {

// ---------------------------------------------------------------------------
// Specifications
// ---------------------------------------------------------------------------

/// `char::is_whitespace`: the Unicode `White_Space` property.
pub open spec fn is_ws(c: char) -> bool {
    let n = c as u32;
    ||| n == 0x20
    ||| 0x09 <= n <= 0x0d
    ||| n == 0x85
    ||| n == 0xa0
    ||| n == 0x1680
    ||| 0x2000 <= n <= 0x200a
    ||| n == 0x2028
    ||| n == 0x2029
    ||| n == 0x202f
    ||| n == 0x205f
    ||| n == 0x3000
}

pub open spec fn trim_start(s: Seq<char>) -> Seq<char>
    decreases s.len(),
{
    if s.len() > 0 && is_ws(s[0]) {
        trim_start(s.drop_first())
    } else {
        s
    }
}

pub open spec fn trim_end(s: Seq<char>) -> Seq<char>
    decreases s.len(),
{
    if s.len() > 0 && is_ws(s.last()) {
        trim_end(s.drop_last())
    } else {
        s
    }
}

/// `str::trim`.
pub open spec fn trim(s: Seq<char>) -> Seq<char> {
    trim_end(trim_start(s))
}

/// `str::starts_with` with a string pattern.
pub open spec fn has_prefix(s: Seq<char>, p: Seq<char>) -> bool {
    p.len() <= s.len() && s.subrange(0, p.len() as int) == p
}

/// `str::ends_with` with a string pattern.
pub open spec fn has_suffix(s: Seq<char>, p: Seq<char>) -> bool {
    p.len() <= s.len() && s.subrange(s.len() - p.len(), s.len() as int) == p
}

/// `str::strip_prefix` with a string pattern.
pub open spec fn strip_prefix(s: Seq<char>, p: Seq<char>) -> Option<Seq<char>> {
    if has_prefix(s, p) {
        Some(s.skip(p.len() as int))
    } else {
        None
    }
}

pub open spec fn matches_at(s: Seq<char>, p: Seq<char>, i: int) -> bool {
    0 <= i && i + p.len() <= s.len() && s.subrange(i, i + p.len()) == p
}

/// The first position at or after `i` where `p` occurs in `s`.
pub open spec fn find_from(s: Seq<char>, p: Seq<char>, i: int) -> Option<int>
    decreases s.len() - i,
{
    if i < 0 || i + p.len() > s.len() {
        None
    } else if matches_at(s, p, i) {
        Some(i)
    } else if i < s.len() {
        find_from(s, p, i + 1)
    } else {
        None
    }
}

/// `str::find` with a string pattern.
pub open spec fn find(s: Seq<char>, p: Seq<char>) -> Option<int> {
    find_from(s, p, 0)
}

/// `str::contains` with a string pattern.
pub open spec fn contains(s: Seq<char>, p: Seq<char>) -> bool {
    find(s, p) is Some
}

/// The first position at or after `i` that holds `c`.
pub open spec fn find_char_from(s: Seq<char>, c: char, i: int) -> Option<int>
    decreases s.len() - i,
{
    if i < 0 || i >= s.len() {
        None
    } else if s[i] == c {
        Some(i)
    } else {
        find_char_from(s, c, i + 1)
    }
}

/// The last position before `j` that holds `c`.
pub open spec fn rfind_char_before(s: Seq<char>, c: char, j: int) -> Option<int>
    decreases j,
{
    if j <= 0 || j > s.len() {
        None
    } else if s[j - 1] == c {
        Some(j - 1)
    } else {
        rfind_char_before(s, c, j - 1)
    }
}

/// `str::rfind` with a `char` pattern.
pub open spec fn rfind_char(s: Seq<char>, c: char) -> Option<int> {
    rfind_char_before(s, c, s.len() as int)
}

/// `s.split(c).next()`: everything before the first `c`.
pub open spec fn before_char(s: Seq<char>, c: char) -> Seq<char> {
    match find_char_from(s, c, 0) {
        Some(k) => s.take(k),
        None => s,
    }
}

/// The text after the first `c`, if `s` holds one.
pub open spec fn after_char(s: Seq<char>, c: char) -> Option<Seq<char>> {
    match find_char_from(s, c, 0) {
        Some(k) => Some(s.skip(k + 1)),
        None => None,
    }
}

/// `s.split(p).nth(1)` with a non-empty string pattern.
pub open spec fn second_field(s: Seq<char>, p: Seq<char>) -> Option<Seq<char>> {
    match find(s, p) {
        Some(k) => {
            let rest = s.skip(k + p.len());
            match find(rest, p) {
                Some(j) => Some(rest.take(j)),
                None => Some(rest),
            }
        },
        None => None,
    }
}

/// A line as `str::lines` yields it: a trailing `\r` before the `\n` goes.
pub open spec fn strip_cr(line: Seq<char>) -> Seq<char> {
    if line.len() > 0 && line.last() == '\r' {
        line.drop_last()
    } else {
        line
    }
}

/// The character sequences held by a sequence of character vectors.
pub open spec fn texts(v: Seq<Vec<char>>) -> Seq<Seq<char>> {
    v.map_values(|x: Vec<char>| x@)
}

pub open spec fn lines_from(s: Seq<char>, start: int) -> Seq<Seq<char>>
    decreases s.len() - start,
{
    if start < 0 || start >= s.len() {
        seq![]
    } else {
        match find_char_from(s, '\n', start) {
            Some(k) => if start <= k < s.len() {
                seq![strip_cr(s.subrange(start, k))] + lines_from(s, k + 1)
            } else {
                seq![]
            },
            None => seq![s.subrange(start, s.len() as int)],
        }
    }
}

/// `str::lines`.
pub open spec fn lines(s: Seq<char>) -> Seq<Seq<char>> {
    lines_from(s, 0)
}

/// The pieces of `str::split_inclusive('\n')`, each with its `\n` if it has one.
pub open spec fn pieces_from(s: Seq<char>, start: int) -> Seq<Seq<char>>
    decreases s.len() - start,
{
    if start < 0 || start >= s.len() {
        seq![]
    } else {
        match find_char_from(s, '\n', start) {
            Some(k) => if start <= k < s.len() {
                seq![s.subrange(start, k + 1)] + pieces_from(s, k + 1)
            } else {
                seq![]
            },
            None => seq![s.subrange(start, s.len() as int)],
        }
    }
}

pub open spec fn pieces(s: Seq<char>) -> Seq<Seq<char>> {
    pieces_from(s, 0)
}

/// `str::replace`: every non-overlapping occurrence of `p`, left to right,
/// becomes `t` (an empty `p` puts `t` around every character).
pub open spec fn replace(s: Seq<char>, p: Seq<char>, t: Seq<char>) -> Seq<char>
    decreases s.len(),
{
    if p.len() == 0 {
        if s.len() == 0 {
            t
        } else {
            t + seq![s[0]] + replace(s.drop_first(), p, t)
        }
    } else if has_prefix(s, p) {
        t + replace(s.skip(p.len() as int), p, t)
    } else if s.len() == 0 {
        s
    } else {
        seq![s[0]] + replace(s.drop_first(), p, t)
    }
}

/// `str::trim_matches` with a `char` pattern.
pub open spec fn trim_char_start(s: Seq<char>, c: char) -> Seq<char>
    decreases s.len(),
{
    if s.len() > 0 && s[0] == c {
        trim_char_start(s.drop_first(), c)
    } else {
        s
    }
}

pub open spec fn trim_char_end(s: Seq<char>, c: char) -> Seq<char>
    decreases s.len(),
{
    if s.len() > 0 && s.last() == c {
        trim_char_end(s.drop_last(), c)
    } else {
        s
    }
}

pub open spec fn trim_char(s: Seq<char>, c: char) -> Seq<char> {
    trim_char_end(trim_char_start(s, c), c)
}

/// Where the run of non-whitespace starting at `i` ends.
pub open spec fn word_end(s: Seq<char>, i: int) -> int
    decreases s.len() - i,
{
    if i < 0 || i >= s.len() || is_ws(s[i]) {
        i
    } else {
        word_end(s, i + 1)
    }
}

pub proof fn lemma_word_end(s: Seq<char>, i: int)
    requires
        0 <= i <= s.len(),
    ensures
        i <= word_end(s, i) <= s.len(),
        i < s.len() && !is_ws(s[i]) ==> word_end(s, i) > i,
        forall|k: int| i <= k < word_end(s, i) ==> !is_ws(s[k]),
        word_end(s, i) < s.len() ==> is_ws(s[word_end(s, i)]),
    decreases s.len() - i,
{
    if i < s.len() && !is_ws(s[i]) {
        lemma_word_end(s, i + 1);
    }
}

/// The words of `str::split_whitespace` from position `i` on.
pub open spec fn words_from(s: Seq<char>, i: int) -> Seq<Seq<char>>
    decreases s.len() - i,
{
    if i < 0 || i >= s.len() {
        seq![]
    } else if is_ws(s[i]) {
        words_from(s, i + 1)
    } else {
        let e = word_end(s, i);
        proof {
            lemma_word_end(s, i);
        }
        seq![s.subrange(i, e)] + words_from(s, e)
    }
}

/// `str::split_whitespace`.
pub open spec fn words(s: Seq<char>) -> Seq<Seq<char>> {
    words_from(s, 0)
}

/// `parts` joined with `sep` between neighbours (`[String]::join`).
pub open spec fn join(parts: Seq<Seq<char>>, sep: Seq<char>) -> Seq<char>
    decreases parts.len(),
{
    if parts.len() == 0 {
        seq![]
    } else if parts.len() == 1 {
        parts[0]
    } else {
        join(parts.drop_last(), sep) + sep + parts.last()
    }
}

// ---------------------------------------------------------------------------
// Lemmas
// ---------------------------------------------------------------------------

pub proof fn lemma_find_char_from_range(s: Seq<char>, c: char, i: int)
    ensures
        find_char_from(s, c, i) matches Some(k) ==> i <= k < s.len() && s[k] == c
            && forall|j: int| i <= j < k ==> s[j] != c,
        find_char_from(s, c, i) is None ==> forall|j: int| 0 <= i <= j < s.len() ==> s[j] != c,
    decreases s.len() - i,
{
    if i < 0 || i >= s.len() {
    } else if s[i] == c {
    } else {
        lemma_find_char_from_range(s, c, i + 1);
    }
}

/// Searching `p + b` from inside `b` finds what searching `b` finds, shifted.
pub proof fn lemma_find_char_shift(p: Seq<char>, b: Seq<char>, c: char, j: int)
    requires
        0 <= j,
    ensures
        find_char_from(p + b, c, p.len() + j) == match find_char_from(b, c, j) {
            Some(k) => Some(p.len() + k),
            None => None,
        },
    decreases b.len() - j,
{
    let s = p + b;
    if j < b.len() {
        assert(s[p.len() + j] == b[j]);
        if b[j] != c {
            lemma_find_char_shift(p, b, c, j + 1);
            assert(p.len() + j + 1 == p.len() + (j + 1));
        }
    }
}

/// Searching a text that begins with `a` finds, from inside `a`, what
/// searching `a` finds; where `a` has no match, the search goes on past it.
pub proof fn lemma_find_char_prefix(a: Seq<char>, s: Seq<char>, c: char, i: int)
    requires
        a.len() <= s.len(),
        s.take(a.len() as int) == a,
        0 <= i <= a.len(),
    ensures
        find_char_from(a, c, i) matches Some(k) ==> find_char_from(s, c, i) == Some(k),
        find_char_from(a, c, i) is None ==> find_char_from(s, c, i) == find_char_from(s, c, a.len() as int),
    decreases a.len() - i,
{
    if i < a.len() {
        assert(s[i] == s.take(a.len() as int)[i]);
        if a[i] != c {
            lemma_find_char_prefix(a, s, c, i + 1);
        }
    }
}

/// The lines of `p + b` from inside `b` are the lines of `b`.
pub proof fn lemma_lines_shift(p: Seq<char>, b: Seq<char>, j: int)
    requires
        0 <= j,
    ensures
        lines_from(p + b, p.len() + j) == lines_from(b, j),
    decreases b.len() - j,
{
    let s = p + b;
    lemma_find_char_shift(p, b, '\n', j);
    lemma_find_char_from_range(b, '\n', j);
    if j < b.len() {
        match find_char_from(b, '\n', j) {
            Some(k) => {
                assert(s.subrange(p.len() + j, p.len() + k) == b.subrange(j, k));
                lemma_lines_shift(p, b, k + 1);
                assert(p.len() + k + 1 == p.len() + (k + 1));
            },
            None => {
                assert(s.subrange(p.len() + j, s.len() as int) == b.subrange(j, b.len() as int));
            },
        }
    }
}

pub proof fn lemma_rfind_char_before_range(s: Seq<char>, c: char, j: int)
    ensures
        rfind_char_before(s, c, j) matches Some(k) ==> 0 <= k < j <= s.len() && s[k] == c
            && forall|m: int| k < m < j ==> s[m] != c,
        rfind_char_before(s, c, j) is None && 0 <= j <= s.len() ==> forall|m: int|
            0 <= m < j ==> s[m] != c,
    decreases j,
{
    if j <= 0 || j > s.len() {
    } else if s[j - 1] == c {
    } else {
        lemma_rfind_char_before_range(s, c, j - 1);
    }
}

pub proof fn lemma_find_from_range(s: Seq<char>, p: Seq<char>, i: int)
    ensures
        find_from(s, p, i) matches Some(k) ==> i <= k && k + p.len() <= s.len() && matches_at(
            s,
            p,
            k,
        ) && forall|j: int| i <= j < k ==> !matches_at(s, p, j),
        find_from(s, p, i) is None ==> forall|j: int| 0 <= i <= j ==> !matches_at(s, p, j),
    decreases s.len() - i,
{
    if i < 0 || i + p.len() > s.len() {
    } else if matches_at(s, p, i) {
    } else if i < s.len() {
        lemma_find_from_range(s, p, i + 1);
    } else {
        assert forall|j: int| 0 <= i <= j implies !matches_at(s, p, j) by {
            if j > i {
            } else {
            }
        }
    }
}

proof fn lemma_trim_start_skip(s: Seq<char>, i: int)
    requires
        0 <= i <= s.len(),
        forall|k: int| 0 <= k < i ==> is_ws(s[k]),
        i == s.len() || !is_ws(s[i]),
    ensures
        trim_start(s) == s.skip(i),
    decreases i,
{
    if i == 0 {
        assert(s.skip(0) == s);
    } else {
        let t = s.drop_first();
        assert forall|k: int| 0 <= k < i - 1 implies is_ws(t[k]) by {
            assert(t[k] == s[k + 1]);
        }
        lemma_trim_start_skip(t, i - 1);
        assert(t.skip(i - 1) == s.skip(i));
    }
}

proof fn lemma_trim_end_take(s: Seq<char>, j: int)
    requires
        0 <= j <= s.len(),
        forall|k: int| j <= k < s.len() ==> is_ws(s[k]),
        j == 0 || !is_ws(s[j - 1]),
    ensures
        trim_end(s) == s.take(j),
    decreases s.len() - j,
{
    if j == s.len() {
        assert(s.take(j) == s);
    } else {
        let t = s.drop_last();
        assert forall|k: int| j <= k < t.len() implies is_ws(t[k]) by {
            assert(t[k] == s[k]);
        }
        lemma_trim_end_take(t, j);
        assert(t.take(j) == s.take(j));
    }
}

proof fn lemma_trim_char_start_skip(s: Seq<char>, c: char, i: int)
    requires
        0 <= i <= s.len(),
        forall|k: int| 0 <= k < i ==> s[k] == c,
        i == s.len() || s[i] != c,
    ensures
        trim_char_start(s, c) == s.skip(i),
    decreases i,
{
    if i == 0 {
        assert(s.skip(0) == s);
    } else {
        let t = s.drop_first();
        assert forall|k: int| 0 <= k < i - 1 implies t[k] == c by {
            assert(t[k] == s[k + 1]);
        }
        lemma_trim_char_start_skip(t, c, i - 1);
        assert(t.skip(i - 1) == s.skip(i));
    }
}

proof fn lemma_trim_char_end_take(s: Seq<char>, c: char, j: int)
    requires
        0 <= j <= s.len(),
        forall|k: int| j <= k < s.len() ==> s[k] == c,
        j == 0 || s[j - 1] != c,
    ensures
        trim_char_end(s, c) == s.take(j),
    decreases s.len() - j,
{
    if j == s.len() {
        assert(s.take(j) == s);
    } else {
        let t = s.drop_last();
        assert forall|k: int| j <= k < t.len() implies t[k] == c by {
            assert(t[k] == s[k]);
        }
        lemma_trim_char_end_take(t, c, j);
        assert(t.take(j) == s.take(j));
    }
}

// ---------------------------------------------------------------------------
// Conversions
// ---------------------------------------------------------------------------

/// Compares two string slices for equal contents (`str`'s `==`).
#[verifier::external_body]
pub(crate) fn str_eq(a: &str, b: &str) -> (equal: bool)
    ensures
        equal == (a@ == b@),
{
    a == b
}

/// Appends one character to a `String` (`String::push`).
#[verifier::external_body]
pub(crate) fn push_char(s: &mut String, c: char)
    ensures
        final(s)@ == old(s)@.push(c),
{
    s.push(c)
}

/// `parts.join(sep)`.
pub fn join_texts(parts: &Vec<String>, sep: &str) -> (out: String)
    ensures
        out@ == join(crate::order::views(parts@), sep@),
{
    let ghost v = crate::order::views(parts@);
    let mut out = String::new();
    let mut i: usize = 0;
    while i < parts.len()
        invariant
            i <= parts@.len(),
            v == crate::order::views(parts@),
            out@ == join(v.take(i as int), sep@),
        decreases parts@.len() - i,
    {
        assert(v.take(i + 1).drop_last() == v.take(i as int));
        assert(v.take(i + 1).last() == parts@[i as int]@);
        if i > 0 {
            out.append(sep);
        } else {
            assert(v.take(1) == seq![parts@[0]@]);
        }
        out.append(parts[i].as_str());
        i = i + 1;
    }
    assert(v.take(parts@.len() as int) == v);
    out
}

/// The characters of `s`, in order.
pub fn chars_of(s: &str) -> (out: Vec<char>)
    ensures
        out@ == s@,
{
    let mut out: Vec<char> = Vec::new();
    for c in it: s.chars()
        invariant
            out@ == it.seq().take(it.index() as int),
    {
        out.push(c);
    }
    out
}

/// The `String` that holds exactly the characters of `v`.
pub fn string_of(v: &Vec<char>) -> (out: String)
    ensures
        out@ == v@,
{
    let mut out = String::new();
    let mut i: usize = 0;
    while i < v.len()
        invariant
            i <= v.len(),
            out@ == v@.take(i as int),
        decreases v.len() - i,
    {
        push_char(&mut out, v[i]);
        i = i + 1;
        assert(out@ == v@.take(i as int));
    }
    assert(v@.take(v.len() as int) == v@);
    out
}

/// A copy of `s[a..b]`.
pub fn slice(s: &Vec<char>, a: usize, b: usize) -> (out: Vec<char>)
    requires
        a <= b <= s.len(),
    ensures
        out@ == s@.subrange(a as int, b as int),
{
    let mut out: Vec<char> = Vec::new();
    let mut i: usize = a;
    while i < b
        invariant
            a <= i <= b <= s.len(),
            out@ == s@.subrange(a as int, i as int),
        decreases b - i,
    {
        out.push(s[i]);
        i = i + 1;
        assert(out@ == s@.subrange(a as int, i as int));
    }
    out
}

/// `v` followed by `w`.
pub fn concat(v: &Vec<char>, w: &Vec<char>) -> (out: Vec<char>)
    ensures
        out@ == v@ + w@,
{
    let mut out = v.clone();
    let mut i: usize = 0;
    while i < w.len()
        invariant
            i <= w.len(),
            out@ == v@ + w@.take(i as int),
        decreases w.len() - i,
    {
        out.push(w[i]);
        i = i + 1;
        assert(out@ == v@ + w@.take(i as int));
    }
    assert(w@.take(w.len() as int) == w@);
    out
}

/// Appends `w` to `v` in place.
pub fn extend(v: &mut Vec<char>, w: &Vec<char>)
    ensures
        final(v)@ == old(v)@ + w@,
{
    let mut i: usize = 0;
    while i < w.len()
        invariant
            i <= w.len(),
            v@ == old(v)@ + w@.take(i as int),
        decreases w.len() - i,
    {
        v.push(w[i]);
        i = i + 1;
        assert(v@ == old(v)@ + w@.take(i as int));
    }
    assert(w@.take(w.len() as int) == w@);
}

/// Whether two character vectors hold the same characters.
pub fn same_chars(v: &Vec<char>, w: &Vec<char>) -> (equal: bool)
    ensures
        equal == (v@ == w@),
{
    if v.len() != w.len() {
        return false;
    }
    let mut i: usize = 0;
    while i < v.len()
        invariant
            i <= v.len() == w.len(),
            forall|k: int| 0 <= k < i ==> v@[k] == w@[k],
        decreases v.len() - i,
    {
        if v[i] != w[i] {
            return false;
        }
        i = i + 1;
    }
    assert(v@ == w@);
    true
}

// ---------------------------------------------------------------------------
// Searching
// ---------------------------------------------------------------------------

/// `char::is_whitespace`.
pub fn is_whitespace(c: char) -> (b: bool)
    ensures
        b == is_ws(c),
{
    let n = c as u32;
    n == 0x20 || (0x09 <= n && n <= 0x0d) || n == 0x85 || n == 0xa0 || n == 0x1680 || (0x2000
        <= n && n <= 0x200a) || n == 0x2028 || n == 0x2029 || n == 0x202f || n == 0x205f || n
        == 0x3000
}

/// Whether `p` occurs in `s` at position `i`.
pub fn matches_here(s: &Vec<char>, p: &Vec<char>, i: usize) -> (b: bool)
    requires
        i <= s.len(),
    ensures
        b == matches_at(s@, p@, i as int),
{
    if p.len() > s.len() - i {
        return false;
    }
    let mut k: usize = 0;
    while k < p.len()
        invariant
            i + p.len() <= s.len(),
            k <= p.len(),
            forall|m: int| 0 <= m < k ==> s@[i + m] == p@[m],
        decreases p.len() - k,
    {
        if s[i + k] != p[k] {
            assert(s@.subrange(i as int, i + p.len())[k as int] != p@[k as int]);
            return false;
        }
        k = k + 1;
    }
    assert(s@.subrange(i as int, i + p.len()) == p@);
    true
}

/// `s[from..].find(p)`, as a position in `s`.
pub fn find_at(s: &Vec<char>, p: &Vec<char>, from: usize) -> (r: Option<usize>)
    requires
        from <= s.len(),
    ensures
        r matches Some(k) ==> find_from(s@, p@, from as int) == Some(k as int),
        r is None ==> find_from(s@, p@, from as int) is None,
{
    if p.len() > s.len() - from {
        return None;
    }
    let last = s.len() - p.len();
    let mut i: usize = from;
    while i <= last
        invariant
            from <= i,
            last + p.len() == s.len(),
            from <= last + 1,
            find_from(s@, p@, from as int) == find_from(s@, p@, i as int),
        decreases last + 1 - i,
    {
        if matches_here(s, p, i) {
            return Some(i);
        }
        if i == last {
            assert(find_from(s@, p@, i as int) == find_from(s@, p@, i + 1)) by {
                if p@.len() == 0 {
                    assert(s@.subrange(i as int, i as int) == p@);
                }
            }
            assert(find_from(s@, p@, i + 1) is None);
            return None;
        }
        i = i + 1;
    }
    None
}

/// `str::find`.
pub fn find_str(s: &Vec<char>, p: &Vec<char>) -> (r: Option<usize>)
    ensures
        r matches Some(k) ==> find(s@, p@) == Some(k as int),
        r is None ==> find(s@, p@) is None,
{
    find_at(s, p, 0)
}

/// `str::contains`.
pub fn contains_str(s: &Vec<char>, p: &Vec<char>) -> (b: bool)
    ensures
        b == contains(s@, p@),
{
    find_str(s, p).is_some()
}

/// `str::starts_with`.
pub fn starts_with(s: &Vec<char>, p: &Vec<char>) -> (b: bool)
    ensures
        b == has_prefix(s@, p@),
{
    if p.len() > s.len() {
        return false;
    }
    let b = matches_here(s, p, 0);
    assert(b == has_prefix(s@, p@));
    b
}

/// `str::ends_with`.
pub fn ends_with(s: &Vec<char>, p: &Vec<char>) -> (b: bool)
    ensures
        b == has_suffix(s@, p@),
{
    if p.len() > s.len() {
        return false;
    }
    matches_here(s, p, s.len() - p.len())
}

/// `str::strip_prefix`.
pub fn strip_prefix_of(s: &Vec<char>, p: &Vec<char>) -> (r: Option<Vec<char>>)
    ensures
        r matches Some(v) ==> strip_prefix(s@, p@) == Some(v@),
        r is None ==> strip_prefix(s@, p@) is None,
{
    if starts_with(s, p) {
        Some(slice(s, p.len(), s.len()))
    } else {
        None
    }
}

/// The first position at or after `from` holding `c`.
pub fn find_char(s: &Vec<char>, c: char, from: usize) -> (r: Option<usize>)
    ensures
        r matches Some(k) ==> find_char_from(s@, c, from as int) == Some(k as int),
        r is None ==> find_char_from(s@, c, from as int) is None,
{
    let mut i: usize = from;
    while i < s.len()
        invariant
            from <= i,
            find_char_from(s@, c, from as int) == find_char_from(s@, c, i as int),
        decreases s.len() - i,
    {
        if s[i] == c {
            return Some(i);
        }
        i = i + 1;
    }
    None
}

/// `str::rfind` with a `char`.
pub fn rfind_char_of(s: &Vec<char>, c: char) -> (r: Option<usize>)
    ensures
        r matches Some(k) ==> rfind_char(s@, c) == Some(k as int),
        r is None ==> rfind_char(s@, c) is None,
{
    let mut j: usize = s.len();
    while j > 0
        invariant
            j <= s.len(),
            rfind_char(s@, c) == rfind_char_before(s@, c, j as int),
        decreases j,
    {
        if s[j - 1] == c {
            return Some(j - 1);
        }
        j = j - 1;
    }
    None
}

/// `str::trim`.
pub fn trim_of(s: &Vec<char>) -> (out: Vec<char>)
    ensures
        out@ == trim(s@),
{
    let mut i: usize = 0;
    while i < s.len() && is_whitespace(s[i])
        invariant
            i <= s.len(),
            forall|k: int| 0 <= k < i ==> is_ws(s@[k]),
        decreases s.len() - i,
    {
        i = i + 1;
    }
    proof {
        lemma_trim_start_skip(s@, i as int);
    }
    let mut j: usize = s.len();
    while j > i && is_whitespace(s[j - 1])
        invariant
            i <= j <= s.len(),
            forall|k: int| j <= k < s.len() ==> is_ws(s@[k]),
        decreases j,
    {
        j = j - 1;
    }
    proof {
        let t = s@.skip(i as int);
        assert forall|k: int| j - i <= k < t.len() implies is_ws(t[k]) by {
            assert(t[k] == s@[k + i]);
        }
        lemma_trim_end_take(t, j - i);
        assert(t.take(j - i) == s@.subrange(i as int, j as int));
    }
    slice(s, i, j)
}

/// `str::trim_matches` with a `char`.
pub fn trim_char_of(s: &Vec<char>, c: char) -> (out: Vec<char>)
    ensures
        out@ == trim_char(s@, c),
{
    let mut i: usize = 0;
    while i < s.len() && s[i] == c
        invariant
            i <= s.len(),
            forall|k: int| 0 <= k < i ==> s@[k] == c,
        decreases s.len() - i,
    {
        i = i + 1;
    }
    proof {
        lemma_trim_char_start_skip(s@, c, i as int);
    }
    let mut j: usize = s.len();
    while j > i && s[j - 1] == c
        invariant
            i <= j <= s.len(),
            forall|k: int| j <= k < s.len() ==> s@[k] == c,
        decreases j,
    {
        j = j - 1;
    }
    proof {
        let t = s@.skip(i as int);
        assert forall|k: int| j - i <= k < t.len() implies t[k] == c by {
            assert(t[k] == s@[k + i]);
        }
        lemma_trim_char_end_take(t, c, j - i);
        assert(t.take(j - i) == s@.subrange(i as int, j as int));
    }
    slice(s, i, j)
}

/// `s.split(c).next()`.
pub fn before_char_of(s: &Vec<char>, c: char) -> (out: Vec<char>)
    ensures
        out@ == before_char(s@, c),
{
    match find_char(s, c, 0) {
        Some(k) => {
            proof {
                lemma_find_char_from_range(s@, c, 0);
            }
            slice(s, 0, k)
        },
        None => s.clone(),
    }
}

/// The text after the first `c`.
pub fn after_char_of(s: &Vec<char>, c: char) -> (out: Option<Vec<char>>)
    ensures
        out matches Some(v) ==> after_char(s@, c) == Some(v@),
        out is None ==> after_char(s@, c) is None,
{
    match find_char(s, c, 0) {
        Some(k) => {
            proof {
                lemma_find_char_from_range(s@, c, 0);
            }
            assert(k < s.len());
            Some(slice(s, k + 1, s.len()))
        },
        None => None,
    }
}

/// `s.split(p).nth(1)`.
pub fn second_field_of(s: &Vec<char>, p: &Vec<char>) -> (out: Option<Vec<char>>)
    ensures
        out matches Some(v) ==> second_field(s@, p@) == Some(v@),
        out is None ==> second_field(s@, p@) is None,
{
    match find_str(s, p) {
        Some(k) => {
            proof {
                lemma_find_from_range(s@, p@, 0);
            }
            assert(k + p.len() <= s.len());
            let rest = slice(s, k + p.len(), s.len());
            assert(rest@ == s@.skip(k + p@.len()));
            match find_str(&rest, p) {
                Some(j) => {
                    proof {
                        lemma_find_from_range(rest@, p@, 0);
                    }
                    Some(slice(&rest, 0, j))
                },
                None => Some(rest),
            }
        },
        None => None,
    }
}

/// `str::lines`.
pub fn lines_of(s: &Vec<char>) -> (out: Vec<Vec<char>>)
    ensures
        texts(out@) == lines(s@),
{
    let mut out: Vec<Vec<char>> = Vec::new();
    let mut start: usize = 0;
    while start < s.len()
        invariant
            start <= s.len(),
            lines(s@) == texts(out@) + lines_from(s@, start as int),
        decreases s.len() - start,
    {
        proof {
            lemma_find_char_from_range(s@, '\n', start as int);
        }
        match find_char(s, '\n', start) {
            Some(k) => {
                let mut line = slice(s, start, k);
                if line.len() > 0 && line[line.len() - 1] == '\r' {
                    line.pop();
                }
                let ghost prev = texts(out@);
                out.push(line);
                assert(texts(out@) == prev.push(line@));
                start = k + 1;
            },
            None => {
                let line = slice(s, start, s.len());
                let ghost prev = texts(out@);
                out.push(line);
                assert(texts(out@) == prev.push(line@));
                start = s.len();
            },
        }
    }
    assert(lines_from(s@, start as int) == Seq::<Seq<char>>::empty());
    out
}

/// `str::split_whitespace`.
pub fn words_of(s: &Vec<char>) -> (out: Vec<Vec<char>>)
    ensures
        texts(out@) == words(s@),
{
    let mut out: Vec<Vec<char>> = Vec::new();
    let mut i: usize = 0;
    while i < s.len()
        invariant
            i <= s.len(),
            words(s@) == texts(out@) + words_from(s@, i as int),
        decreases s.len() - i,
    {
        if is_whitespace(s[i]) {
            i = i + 1;
        } else {
            let mut e: usize = i;
            while e < s.len() && !is_whitespace(s[e])
                invariant
                    i <= e <= s.len(),
                    word_end(s@, i as int) == word_end(s@, e as int),
                decreases s.len() - e,
            {
                e = e + 1;
            }
            proof {
                lemma_word_end(s@, i as int);
            }
            let word = slice(s, i, e);
            let ghost prev = texts(out@);
            out.push(word);
            assert(texts(out@) == prev.push(word@));
            assert(prev.push(word@) + words_from(s@, e as int) == prev + (seq![word@] + words_from(
                s@,
                e as int,
            )));
            i = e;
        }
    }
    assert(words_from(s@, i as int) == Seq::<Seq<char>>::empty());
    assert(texts(out@) + Seq::<Seq<char>>::empty() == texts(out@));
    out
}

/// The pieces of `str::split_inclusive('\n')`.
pub fn pieces_of(s: &Vec<char>) -> (out: Vec<Vec<char>>)
    ensures
        texts(out@) == pieces(s@),
{
    let mut out: Vec<Vec<char>> = Vec::new();
    let mut start: usize = 0;
    while start < s.len()
        invariant
            start <= s.len(),
            pieces(s@) == texts(out@) + pieces_from(s@, start as int),
        decreases s.len() - start,
    {
        proof {
            lemma_find_char_from_range(s@, '\n', start as int);
        }
        match find_char(s, '\n', start) {
            Some(k) => {
                let piece = slice(s, start, k + 1);
                let ghost prev = texts(out@);
                out.push(piece);
                assert(texts(out@) == prev.push(piece@));
                start = k + 1;
            },
            None => {
                let piece = slice(s, start, s.len());
                let ghost prev = texts(out@);
                out.push(piece);
                assert(texts(out@) == prev.push(piece@));
                start = s.len();
            },
        }
    }
    assert(pieces_from(s@, start as int) == Seq::<Seq<char>>::empty());
    out
}

} // verus!
