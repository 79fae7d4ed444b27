//! Freshness rebasing: which cached build-script directives embed the source
//! checkout, which of them can be relocated, and the per-file verdicts that
//! decide whether a destination file may take the source file's mtime.
use vstd::prelude::*;

use crate::json::{array_at, json_get, push_strings, strings_in, Json};
use crate::order::{output_key_lt, text_lt_of, OutputKey};
use crate::paths::{component_keys, components_of, path_components, paths_equal, same_path, PathComponent};
use crate::text::{
    after_char, before_char, chars_of, find, has_prefix, lines, pieces, replace, rfind_char,
    strip_prefix, string_of, texts, trim,
};

verus! {

/// A build-script directive that names the source checkout.
#[derive(Debug, Clone)]
pub struct PathSensitiveOutput {
    pub output_file: String,
    pub command: String,
    pub rebasable: bool,
    pub reason: Option<String>,
}

/// What a freshness analysis (or synchronization) found and did.
#[derive(Debug, Clone)]
pub struct FreshnessReport {
    pub same_repository: bool,
    pub eligible_files: usize,
    pub synced_files: usize,
    pub dirty_files: usize,
    pub different_files: usize,
    pub missing_files: usize,
    pub rebased_build_script_directives: usize,
    pub synced_watched_entries: usize,
    pub path_sensitive_outputs: Vec<PathSensitiveOutput>,
}

/// The number of outputs in `s` whose relocation flag is `rebasable`.
pub open spec fn count_outputs(s: Seq<PathSensitiveOutput>, rebasable: bool) -> nat
    decreases s.len(),
{
    if s.len() == 0 {
        0
    } else {
        count_outputs(s.drop_last(), rebasable) + if s.last().rebasable == rebasable {
            1nat
        } else {
            0nat
        }
    }
}

pub proof fn lemma_count_outputs_bound(s: Seq<PathSensitiveOutput>, rebasable: bool)
    ensures
        count_outputs(s, rebasable) <= s.len(),
        count_outputs(s, true) + count_outputs(s, false) == s.len(),
    decreases s.len(),
{
    if s.len() > 0 {
        lemma_count_outputs_bound(s.drop_last(), rebasable);
    }
}

fn count_with(outputs: &Vec<PathSensitiveOutput>, rebasable: bool) -> (n: usize)
    ensures
        n == count_outputs(outputs@, rebasable),
{
    let mut n: usize = 0;
    let mut i: usize = 0;
    while i < outputs.len()
        invariant
            i <= outputs@.len(),
            n == count_outputs(outputs@.take(i as int), rebasable),
        decreases outputs@.len() - i,
    {
        proof {
            assert(outputs@.take(i + 1).drop_last() == outputs@.take(i as int));
            lemma_count_outputs_bound(outputs@.take(i as int), rebasable);
        }
        if outputs[i].rebasable == rebasable {
            n = n + 1;
        }
        i = i + 1;
    }
    assert(outputs@.take(outputs@.len() as int) == outputs@);
    n
}

impl FreshnessReport {
    /// A report of nothing: no repository in common, nothing found.
    pub fn empty() -> (report: Self)
        ensures
            !report.same_repository,
            report.eligible_files == 0,
            report.synced_files == 0,
            report.dirty_files == 0,
            report.different_files == 0,
            report.missing_files == 0,
            report.rebased_build_script_directives == 0,
            report.synced_watched_entries == 0,
            report.path_sensitive_outputs@.len() == 0,
    {
        FreshnessReport {
            same_repository: false,
            eligible_files: 0,
            synced_files: 0,
            dirty_files: 0,
            different_files: 0,
            missing_files: 0,
            rebased_build_script_directives: 0,
            synced_watched_entries: 0,
            path_sensitive_outputs: Vec::new(),
        }
    }

    /// Directives that cannot be relocated; any of them withholds freshness.
    pub fn blocking_outputs(&self) -> (n: usize)
        ensures
            n == count_outputs(self.path_sensitive_outputs@, false),
    {
        count_with(&self.path_sensitive_outputs, false)
    }

    /// Directives that can be relocated to the destination.
    pub fn rebasable_outputs(&self) -> (n: usize)
        ensures
            n == count_outputs(self.path_sensitive_outputs@, true),
    {
        count_with(&self.path_sensitive_outputs, true)
    }
}

/// Every path-sensitive directive is either blocking or rebasable.
pub proof fn law_outputs_are_blocking_or_rebasable(report: FreshnessReport)
    ensures
        count_outputs(report.path_sensitive_outputs@, false) + count_outputs(
            report.path_sensitive_outputs@,
            true,
        ) == report.path_sensitive_outputs@.len(),
{
    lemma_count_outputs_bound(report.path_sensitive_outputs@, true);
}


// ---------------------------------------------------------------------------
// Build-script directives
// ---------------------------------------------------------------------------

pub open spec fn opt_text(o: Option<String>) -> Option<Seq<char>> {
    match o {
        Some(s) => Some(s@),
        None => None,
    }
}

/// The value of a `rustc-link-lib` directive, in either syntax, trimmed.
pub open spec fn link_lib_value(line: Seq<char>) -> Option<Seq<char>> {
    match strip_prefix(line, "cargo:rustc-link-lib="@) {
        Some(v) => Some(trim(v)),
        None => match strip_prefix(line, "cargo::rustc-link-lib="@) {
            Some(v) => Some(trim(v)),
            None => None,
        },
    }
}

/// The library a `rustc-link-lib` directive links: the value after its last
/// `=` (which drops a `static=`-style kind), before any `:`, trimmed; none
/// when that is empty.
pub open spec fn link_lib(line: Seq<char>) -> Option<Seq<char>> {
    match link_lib_value(line) {
        None => None,
        Some(value) => {
            let named = match rfind_char(value, '=') {
                Some(k) => value.skip(k + 1),
                None => value,
            };
            let name = trim(before_char(named, ':'));
            if name.len() == 0 {
                None
            } else {
                Some(name)
            }
        },
    }
}

/// The library a `cargo:rustc-link-lib=` line links, if it is one.
pub fn link_lib_name(line: &str) -> (name: Option<String>)
    ensures
        opt_text(name) == link_lib(line@),
{
    let chars = chars_of(line);
    let p1 = chars_of("cargo:rustc-link-lib=");
    let p2 = chars_of("cargo::rustc-link-lib=");
    let value = match crate::text::strip_prefix_of(&chars, &p1) {
        Some(v) => crate::text::trim_of(&v),
        None => match crate::text::strip_prefix_of(&chars, &p2) {
            Some(v) => crate::text::trim_of(&v),
            None => {
                return None;
            },
        },
    };
    let named = match crate::text::rfind_char_of(&value, '=') {
        Some(k) => {
            proof {
                crate::text::lemma_rfind_char_before_range(value@, '=', value@.len() as int);
            }
            crate::text::slice(&value, k + 1, value.len())
        },
        None => value,
    };
    let before = crate::text::before_char_of(&named, ':');
    let name = crate::text::trim_of(&before);
    if name.len() == 0 {
        None
    } else {
        Some(string_of(&name))
    }
}

/// A file that `rustc` can link as `library`: `lib<name>.a`, `.dylib`,
/// `.so`, a versioned `.so.*`, or `<name>.lib`, `.dll`, `.framework`.
pub open spec fn link_artifact(file_name: Seq<char>, library: Seq<char>) -> bool {
    let unix = "lib"@ + library;
    ||| file_name == unix + ".a"@
    ||| file_name == unix + ".dylib"@
    ||| file_name == unix + ".so"@
    ||| has_prefix(file_name, unix + ".so."@)
    ||| file_name == library + ".lib"@
    ||| file_name == library + ".dll"@
    ||| file_name == library + ".framework"@
}

fn joined(a: &Vec<char>, b: &str) -> (out: Vec<char>)
    ensures
        out@ == a@ + b@,
{
    let tail = chars_of(b);
    crate::text::concat(a, &tail)
}

/// Whether `file_name` is a linkable artifact of `library`.
pub fn link_artifact_name_matches(file_name: &str, library: &str) -> (matches: bool)
    ensures
        matches == link_artifact(file_name@, library@),
{
    let f = chars_of(file_name);
    let lib = chars_of(library);
    let lib_prefix = chars_of("lib");
    let unix = crate::text::concat(&lib_prefix, &lib);
    let same = |x: &Vec<char>| -> (b: bool)
        ensures
            b == (f@ == x@),
        { crate::text::same_chars(&f, x) };
    same(&joined(&unix, ".a")) || same(&joined(&unix, ".dylib")) || same(&joined(&unix, ".so"))
        || crate::text::starts_with(&f, &joined(&unix, ".so.")) || same(&joined(&lib, ".lib"))
        || same(&joined(&lib, ".dll")) || same(&joined(&lib, ".framework"))
}

/// A directive that embeds `source`: a `cargo:` or `cargo::` line holding it
/// that is not a warning.
pub open spec fn path_sensitive(line: Seq<char>, source: Seq<char>) -> bool {
    &&& (has_prefix(line, "cargo:"@) || has_prefix(line, "cargo::"@))
    &&& crate::text::contains(line, source)
    &&& !has_prefix(line, "cargo:warning="@)
    &&& !has_prefix(line, "cargo::warning="@)
}

/// Whether a build-script output line names the source checkout.
pub fn is_path_sensitive_directive(line: &str, source: &str) -> (sensitive: bool)
    ensures
        sensitive == path_sensitive(line@, source@),
{
    let l = chars_of(line);
    let src = chars_of(source);
    (crate::text::starts_with(&l, &chars_of("cargo:")) || crate::text::starts_with(
        &l,
        &chars_of("cargo::"),
    )) && crate::text::contains_str(&l, &src) && !crate::text::starts_with(
        &l,
        &chars_of("cargo:warning="),
    ) && !crate::text::starts_with(&l, &chars_of("cargo::warning="))
}

/// The directives whose embedded path can be moved to the destination: the
/// ones that only name watched files and link search directories.
pub open spec fn relocatable_field(line: Seq<char>) -> bool {
    ||| has_prefix(line, "cargo:rerun-if-changed="@)
    ||| has_prefix(line, "cargo::rerun-if-changed="@)
    ||| has_prefix(line, "cargo:rustc-link-search="@)
    ||| has_prefix(line, "cargo::rustc-link-search="@)
}

pub open spec fn msg_unsupported_field() -> Seq<char> {
    "directive embeds the source checkout in an unsupported field"@
}

pub open spec fn msg_not_isolated() -> Seq<char> {
    "source path could not be isolated"@
}

/// Where a directive's path lands in the destination: the destination
/// followed by what comes after the first occurrence of `source`; or why
/// the directive cannot be moved.
pub open spec fn relocated_path(line: Seq<char>, source: Seq<char>, destination: Seq<char>) -> Result<
    Seq<char>,
    Seq<char>,
> {
    if !relocatable_field(line) {
        Err(msg_unsupported_field())
    } else {
        match find(line, source) {
            None => Err(msg_not_isolated()),
            Some(i) => Ok(destination + line.skip(i + source.len())),
        }
    }
}

/// The destination path a directive would name once relocated, or why it
/// cannot be relocated.
pub fn rebased_directive_path(line: &str, source: &str, destination: &str) -> (r: Result<String, String>)
    ensures
        match relocated_path(line@, source@, destination@) {
            Ok(p) => r matches Ok(x) && x@ == p,
            Err(m) => r matches Err(x) && x@ == m,
        },
{
    let l = chars_of(line);
    let safe = crate::text::starts_with(&l, &chars_of("cargo:rerun-if-changed="))
        || crate::text::starts_with(&l, &chars_of("cargo::rerun-if-changed="))
        || crate::text::starts_with(&l, &chars_of("cargo:rustc-link-search="))
        || crate::text::starts_with(&l, &chars_of("cargo::rustc-link-search="));
    if !safe {
        return Err(String::from_str("directive embeds the source checkout in an unsupported field"));
    }
    let src = chars_of(source);
    match crate::text::find_str(&l, &src) {
        None => Err(String::from_str("source path could not be isolated")),
        Some(i) => {
            proof {
                crate::text::lemma_find_from_range(l@, src@, 0);
            }
            assert(i + src@.len() <= l@.len());
            let total: usize = l.len();
            let start: usize = i + src.len();
            let suffix = crate::text::slice(&l, start, total);
            let mut out = String::from_str(destination);
            out.append(string_of(&suffix).as_str());
            assert(l@.skip(i + src@.len()) == l@.subrange(i + src@.len(), l@.len() as int));
            Ok(out)
        },
    }
}

/// The verdict on one path-bearing directive: rebasable, or blocking with a
/// reason. `destination_exists` says whether the path `relocated_path`
/// gives exists.
pub open spec fn directive_verdict(
    line: Seq<char>,
    source: Seq<char>,
    destination: Seq<char>,
    destination_exists: bool,
) -> (bool, Option<Seq<char>>) {
    match relocated_path(line, source, destination) {
        Err(m) => (false, Some(m)),
        Ok(p) => if destination_exists {
            (true, None)
        } else {
            (false, Some("equivalent destination path does not exist: "@ + p))
        },
    }
}

/// Classifies a path-bearing directive: relocatable (and its relocated path
/// exists), or not, with the reason.
pub fn classify_path_directive(line: &str, source: &str, destination: &str, destination_exists: bool) -> (verdict: (bool, Option<String>))
    ensures
        (verdict.0, opt_text(verdict.1)) == directive_verdict(
            line@,
            source@,
            destination@,
            destination_exists,
        ),
{
    match rebased_directive_path(line, source, destination) {
        Err(m) => (false, Some(m)),
        Ok(p) => if destination_exists {
            (true, None)
        } else {
            let mut m = String::from_str("equivalent destination path does not exist: ");
            m.append(p.as_str());
            (false, Some(m))
        },
    }
}

/// The trimmed lines of build-script output that embed `source`.
pub open spec fn sensitive_lines(ls: Seq<Seq<char>>, source: Seq<char>) -> Seq<Seq<char>>
    decreases ls.len(),
{
    if ls.len() == 0 {
        seq![]
    } else {
        let rest = sensitive_lines(ls.drop_last(), source);
        if path_sensitive(trim(ls.last()), source) {
            rest.push(trim(ls.last()))
        } else {
            rest
        }
    }
}

/// The directives of one build-script `output` file that embed `source`,
/// trimmed, in file order.
pub fn path_sensitive_directives(text: &str, source: &str) -> (found: Vec<String>)
    ensures
        crate::order::views(found@) == sensitive_lines(lines(text@), source@),
{
    let chars = chars_of(text);
    let ls = lines_of_text(&chars);
    let mut found: Vec<String> = Vec::new();
    let mut i: usize = 0;
    while i < ls.len()
        invariant
            i <= ls@.len(),
            texts(ls@) == lines(text@),
            crate::order::views(found@) == sensitive_lines(texts(ls@).take(i as int), source@),
        decreases ls@.len() - i,
    {
        let ghost prefix = texts(ls@).take(i + 1);
        assert(prefix.drop_last() == texts(ls@).take(i as int));
        assert(prefix.last() == ls@[i as int]@);
        let trimmed = crate::text::trim_of(&ls[i]);
        let t = string_of(&trimmed);
        if is_path_sensitive_directive(t.as_str(), source) {
            let ghost before = crate::order::views(found@);
            found.push(t);
            assert(crate::order::views(found@) == before.push(trimmed@));
        }
        i = i + 1;
    }
    assert(texts(ls@).take(ls@.len() as int) == texts(ls@));
    found
}

fn lines_of_text(chars: &Vec<char>) -> (ls: Vec<Vec<char>>)
    ensures
        texts(ls@) == lines(chars@),
{
    crate::text::lines_of(chars)
}

/// The commands of the rebasable directives found in `output_file`.
pub open spec fn rebasable_in(outputs: Seq<PathSensitiveOutput>, output_file: Seq<char>) -> Seq<Seq<char>>
    decreases outputs.len(),
{
    if outputs.len() == 0 {
        seq![]
    } else {
        let rest = rebasable_in(outputs.drop_last(), output_file);
        let o = outputs.last();
        if o.rebasable && same_path(o.output_file@, output_file) {
            rest.push(o.command@)
        } else {
            rest
        }
    }
}

/// The commands of the rebasable directives that were found in `output_file`.
pub fn rebasable_commands(outputs: &Vec<PathSensitiveOutput>, output_file: &str) -> (commands: Vec<String>)
    ensures
        crate::order::views(commands@) == rebasable_in(outputs@, output_file@),
{
    let mut commands: Vec<String> = Vec::new();
    let mut i: usize = 0;
    while i < outputs.len()
        invariant
            i <= outputs@.len(),
            crate::order::views(commands@) == rebasable_in(outputs@.take(i as int), output_file@),
        decreases outputs@.len() - i,
    {
        assert(outputs@.take(i + 1).drop_last() == outputs@.take(i as int));
        assert(outputs@.take(i + 1).last() == outputs@[i as int]);
        let o = &outputs[i];
        if o.rebasable && paths_equal(o.output_file.as_str(), output_file) {
            let ghost before = crate::order::views(commands@);
            commands.push(String::from_str(o.command.as_str()));
            assert(crate::order::views(commands@) == before.push(o.command@));
        }
        i = i + 1;
    }
    assert(outputs@.take(outputs@.len() as int) == outputs@);
    commands
}

/// A piece of `split_inclusive('\n')` without its newline.
pub open spec fn piece_line(piece: Seq<char>) -> Seq<char> {
    if piece.len() > 0 && piece.last() == '\n' {
        piece.drop_last()
    } else {
        piece
    }
}

pub open spec fn piece_newline(piece: Seq<char>) -> Seq<char> {
    if piece.len() > 0 && piece.last() == '\n' {
        "\n"@
    } else {
        ""@
    }
}

/// One line of a destination `output` file after relocation: a line whose
/// trimmed text is one of `commands` has `source` replaced by `destination`.
pub open spec fn rebased_piece(
    piece: Seq<char>,
    commands: Seq<Seq<char>>,
    source: Seq<char>,
    destination: Seq<char>,
) -> Seq<char> {
    let line = piece_line(piece);
    if commands.contains(trim(line)) {
        replace(line, source, destination) + piece_newline(piece)
    } else {
        line + piece_newline(piece)
    }
}

/// The file's pieces after relocation, and how many lines were relocated.
pub open spec fn rebased_pieces(
    ps: Seq<Seq<char>>,
    commands: Seq<Seq<char>>,
    source: Seq<char>,
    destination: Seq<char>,
) -> (Seq<char>, nat)
    decreases ps.len(),
{
    if ps.len() == 0 {
        (seq![], 0)
    } else {
        let (text, n) = rebased_pieces(ps.drop_last(), commands, source, destination);
        let p = ps.last();
        (
            text + rebased_piece(p, commands, source, destination),
            n + if commands.contains(trim(piece_line(p))) {
                1nat
            } else {
                0nat
            },
        )
    }
}

/// `str::replace`.
pub fn replace_all(s: &Vec<char>, p: &Vec<char>, t: &Vec<char>) -> (out: Vec<char>)
    ensures
        out@ == replace(s@, p@, t@),
{
    let mut out: Vec<char> = Vec::new();
    let mut i: usize = 0;
    assert(s@.skip(0) == s@);
    while i < s.len()
        invariant
            i <= s@.len(),
            replace(s@, p@, t@) == out@ + replace(s@.skip(i as int), p@, t@),
        decreases s@.len() - i,
    {
        let ghost rest = s@.skip(i as int);
        if p.len() == 0 {
            crate::text::extend(&mut out, t);
            out.push(s[i]);
            assert(rest[0] == s@[i as int]);
            assert(rest.drop_first() == s@.skip(i + 1));
            i = i + 1;
        } else if crate::text::matches_here(s, p, i) {
            assert(rest.subrange(0, p@.len() as int) == s@.subrange(i as int, i + p@.len()));
            crate::text::extend(&mut out, t);
            assert(rest.skip(p@.len() as int) == s@.skip(i + p@.len()));
            i = i + p.len();
        } else {
            assert(!has_prefix(rest, p@)) by {
                if has_prefix(rest, p@) {
                    assert(rest.subrange(0, p@.len() as int) == s@.subrange(
                        i as int,
                        i + p@.len(),
                    ));
                }
            }
            out.push(s[i]);
            assert(rest[0] == s@[i as int]);
            assert(rest.drop_first() == s@.skip(i + 1));
            i = i + 1;
        }
    }
    if p.len() == 0 {
        crate::text::extend(&mut out, t);
    }
    assert(s@.skip(i as int) == Seq::<char>::empty());
    out
}

fn contains_text(commands: &Vec<String>, line: &Vec<char>) -> (found: bool)
    ensures
        found == crate::order::views(commands@).contains(line@),
{
    let ghost v = crate::order::views(commands@);
    let mut i: usize = 0;
    while i < commands.len()
        invariant
            i <= commands@.len(),
            v == crate::order::views(commands@),
            forall|k: int| 0 <= k < i ==> v[k] != line@,
        decreases commands@.len() - i,
    {
        let c = chars_of(commands[i].as_str());
        if crate::text::same_chars(&c, line) {
            assert(v[i as int] == line@);
            return true;
        }
        i = i + 1;
    }
    false
}

/// Rewrites a destination build-script `output` file: each line whose
/// trimmed text is one of `commands` has `source` replaced by
/// `destination`; every other line and every line ending stays as it was.
/// Also gives the number of lines rewritten.
pub fn rebase_output_text(text: &str, commands: &Vec<String>, source: &str, destination: &str) -> (r: (String, usize))
    ensures
        (r.0@, r.1 as nat) == rebased_pieces(
            pieces(text@),
            crate::order::views(commands@),
            source@,
            destination@,
        ),
{
    let chars = chars_of(text);
    let ps = crate::text::pieces_of(&chars);
    let src = chars_of(source);
    let dst = chars_of(destination);
    let ghost cmds = crate::order::views(commands@);
    let mut out: Vec<char> = Vec::new();
    let mut count: usize = 0;
    let mut i: usize = 0;
    while i < ps.len()
        invariant
            i <= ps@.len(),
            texts(ps@) == pieces(text@),
            cmds == crate::order::views(commands@),
            src@ == source@,
            dst@ == destination@,
            count <= i,
            (out@, count as nat) == rebased_pieces(texts(ps@).take(i as int), cmds, source@, destination@),
        decreases ps@.len() - i,
    {
        let ghost prefix = texts(ps@).take(i + 1);
        assert(prefix.drop_last() == texts(ps@).take(i as int));
        assert(prefix.last() == ps@[i as int]@);
        let piece = &ps[i];
        let has_newline = piece.len() > 0 && piece[piece.len() - 1] == '\n';
        let line = if has_newline {
            crate::text::slice(piece, 0, piece.len() - 1)
        } else {
            crate::text::slice(piece, 0, piece.len())
        };
        assert(line@ == piece_line(piece@));
        let trimmed = crate::text::trim_of(&line);
        if contains_text(commands, &trimmed) {
            let replaced = replace_all(&line, &src, &dst);
            crate::text::extend(&mut out, &replaced);
            count = count + 1;
        } else {
            crate::text::extend(&mut out, &line);
        }
        if has_newline {
            out.push('\n');
        }
        proof {
            reveal_strlit("\n");
            reveal_strlit("");
        }
        i = i + 1;
    }
    assert(texts(ps@).take(ps@.len() as int) == texts(ps@));
    (string_of(&out), count)
}

/// A line without any listed command, or a file in which no command is
/// rebasable, comes out unchanged.
pub proof fn law_rebase_leaves_other_lines(
    ps: Seq<Seq<char>>,
    commands: Seq<Seq<char>>,
    source: Seq<char>,
    destination: Seq<char>,
)
    requires
        forall|i: int| 0 <= i < ps.len() ==> !commands.contains(trim(piece_line(#[trigger] ps[i]))),
    ensures
        rebased_pieces(ps, commands, source, destination) == (ps.fold_left(
            Seq::<char>::empty(),
            |acc: Seq<char>, p: Seq<char>| acc + p,
        ), 0nat),
    decreases ps.len(),
{
    if ps.len() > 0 {
        law_rebase_leaves_other_lines(ps.drop_last(), commands, source, destination);
        let p = ps.last();
        assert(!commands.contains(trim(piece_line(ps[ps.len() - 1]))));
        assert(piece_line(p) + piece_newline(p) == p) by {
            reveal_strlit("\n");
            reveal_strlit("");
            if p.len() > 0 && p.last() == '\n' {
                assert(p.drop_last() + seq!['\n'] == p);
            }
        }
        assert forall|i: int| 0 <= i < ps.drop_last().len() implies !commands.contains(
            trim(piece_line(#[trigger] ps.drop_last()[i])),
        ) by {
            assert(ps.drop_last()[i] == ps[i]);
        }
    }
}

/// The link libraries a build-script `output` names, and the search paths
/// into the source checkout it gives (each from the first occurrence of
/// `source_prefix` to the end of its trimmed line). Without a link library
/// there is nothing to materialize, and no search path is reported.
pub open spec fn link_search_in(ls: Seq<Seq<char>>, source_prefix: Seq<char>) -> Seq<Seq<char>>
    decreases ls.len(),
{
    if ls.len() == 0 {
        seq![]
    } else {
        let rest = link_search_in(ls.drop_last(), source_prefix);
        let line = trim(ls.last());
        if (has_prefix(line, "cargo:rustc-link-search="@) || has_prefix(
            line,
            "cargo::rustc-link-search="@,
        )) && find(line, source_prefix) is Some {
            rest.push(line.skip(find(line, source_prefix)->Some_0))
        } else {
            rest
        }
    }
}

pub open spec fn link_libs_in(ls: Seq<Seq<char>>) -> Seq<Seq<char>>
    decreases ls.len(),
{
    if ls.len() == 0 {
        seq![]
    } else {
        let rest = link_libs_in(ls.drop_last());
        match link_lib(ls.last()) {
            Some(name) => rest.push(name),
            None => rest,
        }
    }
}

/// Reads one build-script `output` file for native link state: the linked
/// libraries, and the search paths into the source checkout (none when it
/// links no library).
pub fn link_search_directives(text: &str, source_prefix: &str) -> (r: (Vec<String>, Vec<String>))
    ensures
        crate::order::views(r.0@) == link_libs_in(lines(text@)),
        crate::order::views(r.1@) == if link_libs_in(lines(text@)).len() == 0 {
            Seq::<Seq<char>>::empty()
        } else {
            link_search_in(lines(text@), source_prefix@)
        },
{
    let chars = chars_of(text);
    let ls = lines_of_text(&chars);
    let prefix = chars_of(source_prefix);
    let p1 = chars_of("cargo:rustc-link-search=");
    let p2 = chars_of("cargo::rustc-link-search=");
    let mut libs: Vec<String> = Vec::new();
    let mut searches: Vec<String> = Vec::new();
    let mut i: usize = 0;
    while i < ls.len()
        invariant
            i <= ls@.len(),
            texts(ls@) == lines(text@),
            prefix@ == source_prefix@,
            p1@ == "cargo:rustc-link-search="@,
            p2@ == "cargo::rustc-link-search="@,
            crate::order::views(libs@) == link_libs_in(texts(ls@).take(i as int)),
            crate::order::views(searches@) == link_search_in(texts(ls@).take(i as int), source_prefix@),
        decreases ls@.len() - i,
    {
        let ghost prefix_lines = texts(ls@).take(i + 1);
        assert(prefix_lines.drop_last() == texts(ls@).take(i as int));
        assert(prefix_lines.last() == ls@[i as int]@);
        let line_text = string_of(&ls[i]);
        match link_lib_name(line_text.as_str()) {
            Some(name) => {
                let ghost before = crate::order::views(libs@);
                libs.push(name);
                assert(crate::order::views(libs@) == before.push(libs@.last()@));
            },
            None => {},
        }
        let line = crate::text::trim_of(&ls[i]);
        if crate::text::starts_with(&line, &p1) || crate::text::starts_with(&line, &p2) {
            match crate::text::find_str(&line, &prefix) {
                Some(start) => {
                    proof {
                        crate::text::lemma_find_from_range(line@, prefix@, 0);
                    }
                    let rest = crate::text::slice(&line, start, line.len());
                    assert(rest@ == line@.skip(start as int));
                    let ghost before = crate::order::views(searches@);
                    searches.push(string_of(&rest));
                    assert(crate::order::views(searches@) == before.push(rest@));
                },
                None => {},
            }
        }
        i = i + 1;
    }
    assert(texts(ls@).take(ls@.len() as int) == texts(ls@));
    if libs.len() == 0 {
        (libs, Vec::new())
    } else {
        (libs, searches)
    }
}

/// A link search directory is worth forking when it lies strictly inside the
/// source checkout, the destination lacks it, and Git ignores it (so it is
/// build state, not tracked source).
pub open spec fn search_wanted(relative: Seq<char>, destination_has_it: bool, ignored: bool) -> bool {
    relative.len() > 0 && !destination_has_it && ignored
}

/// Whether to fork the state behind one link search directory, given its
/// path relative to the source checkout and what the file system and Git
/// say of it.
pub fn link_search_wanted(relative: &str, destination_has_it: bool, ignored: bool) -> (wanted: bool)
    ensures
        wanted == search_wanted(relative@, destination_has_it, ignored),
{
    chars_of(relative).len() > 0 && !destination_has_it && ignored
}

/// The ignored artifacts among those found, in order (an artifact outside
/// the checkout, `None`, is left out).
pub open spec fn ignored_artifacts(artifacts: Seq<Option<(Seq<char>, bool)>>) -> Seq<Seq<char>>
    decreases artifacts.len(),
{
    if artifacts.len() == 0 {
        seq![]
    } else {
        let rest = ignored_artifacts(artifacts.drop_last());
        match artifacts.last() {
            Some((path, true)) => rest.push(path),
            _ => rest,
        }
    }
}

/// What to fork for a wanted search directory: nothing when it holds no
/// artifact of a linked library; else its ignored artifacts, then the search
/// directory itself where it is a symlink (recreated without the caches
/// behind it).
pub open spec fn search_forks(
    relative: Seq<char>,
    artifacts: Seq<Option<(Seq<char>, bool)>>,
    is_symlink: bool,
) -> Seq<Seq<char>> {
    if artifacts.len() == 0 {
        seq![]
    } else if is_symlink {
        ignored_artifacts(artifacts).push(relative)
    } else {
        ignored_artifacts(artifacts)
    }
}

pub open spec fn artifact_views(v: Seq<Option<(String, bool)>>) -> Seq<Option<(Seq<char>, bool)>> {
    v.map_values(|a: Option<(String, bool)>| match a {
        Some((p, ignored)) => Some((p@, ignored)),
        None => None,
    })
}

/// The paths, relative to the source checkout, to fork for one wanted link
/// search directory: `artifacts` are the linkable artifacts found in it, each
/// with its relative path (`None` outside the checkout) and whether Git
/// ignores it.
pub fn link_search_forks(relative: &str, artifacts: &Vec<Option<(String, bool)>>, is_symlink: bool) -> (forks: Vec<String>)
    ensures
        crate::order::views(forks@) == search_forks(relative@, artifact_views(artifacts@), is_symlink),
{
    let mut forks: Vec<String> = Vec::new();
    if artifacts.len() == 0 {
        return forks;
    }
    let ghost a = artifact_views(artifacts@);
    let mut i: usize = 0;
    while i < artifacts.len()
        invariant
            i <= artifacts@.len(),
            a == artifact_views(artifacts@),
            crate::order::views(forks@) == ignored_artifacts(a.take(i as int)),
        decreases artifacts@.len() - i,
    {
        assert(a.take(i + 1).drop_last() == a.take(i as int));
        assert(a.take(i + 1).last() == a[i as int]);
        match &artifacts[i] {
            Some((path, true)) => {
                let ghost before = crate::order::views(forks@);
                forks.push(path.clone());
                assert(crate::order::views(forks@) == before.push(path@));
            },
            _ => {},
        }
        i = i + 1;
    }
    assert(a.take(a.len() as int) == a);
    if is_symlink {
        let ghost before = crate::order::views(forks@);
        forks.push(String::from_str(relative));
        assert(crate::order::views(forks@) == before.push(relative@));
    }
    forks
}

// ---------------------------------------------------------------------------
// Build-script fingerprints
// ---------------------------------------------------------------------------

pub open spec fn is_hex_digit(c: char) -> bool {
    ||| ('0' <= c && c <= '9')
    ||| ('a' <= c && c <= 'f')
    ||| ('A' <= c && c <= 'F')
}

/// The package of a `<name>-<16 hex digits>` fingerprint directory.
pub open spec fn fingerprint_package(directory: Seq<char>) -> Option<Seq<char>> {
    match rfind_char(directory, '-') {
        None => None,
        Some(k) => {
            let hash = directory.skip(k + 1);
            if hash.len() == 16 && forall|i: int| 0 <= i < 16 ==> is_hex_digit(#[trigger] hash[i]) {
                Some(directory.take(k))
            } else {
                None
            }
        },
    }
}

/// The package a build-script fingerprint belongs to, read from the name of
/// the directory that holds it.
pub fn fingerprint_package_name(directory: &str) -> (name: Option<String>)
    ensures
        opt_text(name) == fingerprint_package(directory@),
{
    let d = chars_of(directory);
    match crate::text::rfind_char_of(&d, '-') {
        None => None,
        Some(k) => {
            proof {
                crate::text::lemma_rfind_char_before_range(d@, '-', d@.len() as int);
            }
            let hash = crate::text::slice(&d, k + 1, d.len());
            assert(hash@ == d@.skip(k + 1));
            if hash.len() != 16 {
                return None;
            }
            let mut i: usize = 0;
            while i < 16
                invariant
                    i <= 16,
                    hash@.len() == 16,
                    hash@ == d@.skip(k + 1),
                    d@ == directory@,
                    rfind_char(directory@, '-') == Some(k as int),
                    forall|j: int| 0 <= j < i ==> is_hex_digit(#[trigger] hash@[j]),
                decreases 16 - i,
            {
                let c = hash[i];
                if !(('0' <= c && c <= '9') || ('a' <= c && c <= 'f') || ('A' <= c && c <= 'F')) {
                    assert(!is_hex_digit(hash@[i as int]));
                    return None;
                }
                i = i + 1;
            }
            let name = crate::text::slice(&d, 0, k);
            assert(name@ == d@.take(k as int));
            Some(string_of(&name))
        },
    }
}

/// The paths of a fingerprint `local` entry's `RerunIfChanged.paths`.
pub open spec fn rerun_paths(item: Json) -> Seq<Seq<char>> {
    match json_get(item, "RerunIfChanged"@) {
        Some(entry) => match array_at(entry, "paths"@) {
            Some(paths) => strings_in(paths),
            None => seq![],
        },
        None => seq![],
    }
}

pub open spec fn rerun_paths_all(items: Seq<Json>) -> Seq<Seq<char>>
    decreases items.len(),
{
    if items.len() == 0 {
        seq![]
    } else {
        rerun_paths_all(items.drop_last()) + rerun_paths(items.last())
    }
}

/// Every path a build-script fingerprint watches (`local[*].RerunIfChanged.paths`).
pub open spec fn watched_in(fingerprint: Json) -> Seq<Seq<char>> {
    match array_at(fingerprint, "local"@) {
        Some(items) => rerun_paths_all(items),
        None => seq![],
    }
}

/// The paths a build-script fingerprint watches, in order.
pub fn watched_paths(fingerprint: &Json) -> (paths: Vec<String>)
    ensures
        crate::order::views(paths@) == watched_in(*fingerprint),
{
    let mut out: Vec<String> = Vec::new();
    match fingerprint.array_at("local") {
        None => {},
        Some(items) => {
            let mut i: usize = 0;
            while i < items.len()
                invariant
                    i <= items@.len(),
                    array_at(*fingerprint, "local"@) == Some(items@),
                    crate::order::views(out@) == rerun_paths_all(items@.take(i as int)),
                decreases items@.len() - i,
            {
                assert(items@.take(i + 1).drop_last() == items@.take(i as int));
                assert(items@.take(i + 1).last() == items@[i as int]);
                match items[i].get("RerunIfChanged") {
                    Some(entry) => match entry.array_at("paths") {
                        Some(paths) => push_strings(&mut out, paths),
                        None => {
                            assert(crate::order::views(out@) == crate::order::views(out@) + Seq::<Seq<char>>::empty());
                        },
                    },
                    None => {
                        assert(crate::order::views(out@) == crate::order::views(out@) + Seq::<Seq<char>>::empty());
                    },
                }
                i = i + 1;
            }
            assert(items@.take(items@.len() as int) == items@);
        },
    }
    out
}


// ---------------------------------------------------------------------------
// Counting and mirroring
// ---------------------------------------------------------------------------

/// Starts a count over the index triage. An analysis (`apply` false) resets
/// the file counts to what the index alone decided; a synchronization
/// (`apply` true) leaves the analysis counts as they were.
pub fn begin_count(report: &mut FreshnessReport, triage: &crate::index::IndexTriage, apply: bool)
    ensures
        final(report).same_repository == old(report).same_repository,
        final(report).synced_files == old(report).synced_files,
        final(report).rebased_build_script_directives == old(report).rebased_build_script_directives,
        final(report).synced_watched_entries == old(report).synced_watched_entries,
        final(report).path_sensitive_outputs@ == old(report).path_sensitive_outputs@,
        apply ==> final(report).eligible_files == old(report).eligible_files
            && final(report).missing_files == old(report).missing_files
            && final(report).dirty_files == old(report).dirty_files
            && final(report).different_files == old(report).different_files,
        !apply ==> final(report).eligible_files == 0 && final(report).missing_files
            == triage.missing && final(report).dirty_files == triage.dirty
            && final(report).different_files == triage.different,
{
    if !apply {
        report.eligible_files = 0;
        report.missing_files = triage.missing;
        report.dirty_files = triage.dirty;
        report.different_files = triage.different;
    }
}

/// What the file system says of an index candidate in both worktrees.
#[derive(Debug, Clone, Copy, PartialEq, Eq, Structural)]
pub enum FileCheck {
    /// Either side could not be inspected.
    Unreadable,
    /// Either side is not a regular file (a symlink, say).
    NotBothFiles,
    /// Both are regular files with different bytes.
    Differs,
    /// Both are regular files with the same bytes.
    Identical,
}

/// Counts one candidate's file check, and answers whether the destination
/// file is to take the source file's modification time: only for identical
/// bytes, and only when synchronizing.
pub fn record_file_check(report: &mut FreshnessReport, check: FileCheck, apply: bool) -> (mirror: bool)
    requires
        !apply && check == FileCheck::Unreadable ==> old(report).missing_files < usize::MAX,
        !apply && check == FileCheck::Differs ==> old(report).different_files < usize::MAX,
        !apply && check == FileCheck::Identical ==> old(report).eligible_files < usize::MAX,
        apply && check == FileCheck::Identical ==> old(report).synced_files < usize::MAX,
    ensures
        mirror == (apply && check == FileCheck::Identical),
        final(report).same_repository == old(report).same_repository,
        final(report).dirty_files == old(report).dirty_files,
        final(report).rebased_build_script_directives == old(report).rebased_build_script_directives,
        final(report).synced_watched_entries == old(report).synced_watched_entries,
        final(report).path_sensitive_outputs@ == old(report).path_sensitive_outputs@,
        final(report).missing_files == old(report).missing_files + if !apply && check
            == FileCheck::Unreadable {
            1int
        } else {
            0int
        },
        final(report).different_files == old(report).different_files + if !apply && check
            == FileCheck::Differs {
            1int
        } else {
            0int
        },
        final(report).eligible_files == old(report).eligible_files + if !apply && check
            == FileCheck::Identical {
            1int
        } else {
            0int
        },
        final(report).synced_files == old(report).synced_files + if apply && check
            == FileCheck::Identical {
            1int
        } else {
            0int
        },
{
    match check {
        FileCheck::Unreadable => {
            if !apply {
                report.missing_files = report.missing_files + 1;
            }
            false
        },
        FileCheck::NotBothFiles => false,
        FileCheck::Differs => {
            if !apply {
                report.different_files = report.different_files + 1;
            }
            false
        },
        FileCheck::Identical => {
            if !apply {
                report.eligible_files = report.eligible_files + 1;
                false
            } else {
                report.synced_files = report.synced_files + 1;
                true
            }
        },
    }
}

/// Whether a synchronization may go on to mirror modification times: the
/// worktrees share a repository and no cached directive blocks relocation.
pub fn mtime_sync_allowed(report: &FreshnessReport) -> (allowed: bool)
    ensures
        allowed == (report.same_repository && count_outputs(report.path_sensitive_outputs@, false)
            == 0),
{
    report.same_repository && report.blocking_outputs() == 0
}

/// A single blocking directive withholds every mtime mirror.
pub proof fn law_blockers_withhold_freshness(report: FreshnessReport, i: int)
    requires
        0 <= i < report.path_sensitive_outputs@.len(),
        !report.path_sensitive_outputs@[i].rebasable,
    ensures
        count_outputs(report.path_sensitive_outputs@, false) > 0,
    decreases report.path_sensitive_outputs@.len(),
{
    lemma_count_blocking_positive(report.path_sensitive_outputs@, i);
}

proof fn lemma_count_blocking_positive(s: Seq<PathSensitiveOutput>, i: int)
    requires
        0 <= i < s.len(),
        !s[i].rebasable,
    ensures
        count_outputs(s, false) > 0,
    decreases s.len(),
{
    if i < s.len() - 1 {
        lemma_count_blocking_positive(s.drop_last(), i);
    }
}

/// Only directives in the relocatable fields (watched files, link search
/// directories) can ever be judged rebasable.
pub proof fn law_unknown_directives_block(
    line: Seq<char>,
    source: Seq<char>,
    destination: Seq<char>,
    destination_exists: bool,
)
    requires
        !relocatable_field(line),
    ensures
        directive_verdict(line, source, destination, destination_exists) == (
            false,
            Some(msg_unsupported_field()),
        ),
{
}


/// Watched files and link search directories relocate in both the `cargo:`
/// and the `cargo::` syntax: such a directive that names the source checkout
/// is rebasable exactly when its relocated path exists, and that path is the
/// destination followed by what comes after an occurrence of the source in
/// the line.
pub proof fn law_watched_and_search_paths_relocate(
    line: Seq<char>,
    source: Seq<char>,
    destination: Seq<char>,
    destination_exists: bool,
)
    requires
        has_prefix(line, "cargo:rerun-if-changed="@) || has_prefix(line, "cargo::rerun-if-changed="@)
            || has_prefix(line, "cargo:rustc-link-search="@) || has_prefix(
            line,
            "cargo::rustc-link-search="@,
        ),
        crate::text::contains(line, source),
    ensures
        directive_verdict(line, source, destination, destination_exists).0 == destination_exists,
        destination_exists ==> directive_verdict(line, source, destination, destination_exists).1 is None,
        relocated_path(line, source, destination) matches Ok(p) && exists|i: int|
            0 <= i && i + source.len() <= line.len() && line.subrange(i, i + source.len()) == source
                && p == destination + #[trigger] line.skip(i + source.len()),
{
    crate::text::lemma_find_from_range(line, source, 0);
    let i = find(line, source)->Some_0;
    assert(line.subrange(i, i + source.len()) == source);
}

// ---------------------------------------------------------------------------
// Ordering the findings
// ---------------------------------------------------------------------------

/// The number of rebasable directives among `outputs`.
pub fn count_rebasable(outputs: &Vec<PathSensitiveOutput>) -> (n: usize)
    ensures
        n == count_outputs(outputs@, true),
{
    count_with(outputs, true)
}

/// A directive's key: the components of its output file, then its text.
pub open spec fn output_key(o: PathSensitiveOutput) -> OutputKey {
    (components_of(o.output_file@), o.command@)
}

/// Adds `x` to sorted `s` unless a directive with its key is there already.
pub open spec fn insert_unique(s: Seq<PathSensitiveOutput>, x: PathSensitiveOutput) -> Seq<PathSensitiveOutput>
    decreases s.len(),
{
    if s.len() == 0 {
        seq![x]
    } else if output_key(x) == output_key(s[0]) {
        s
    } else if output_key_lt(output_key(x), output_key(s[0])) {
        seq![x] + s
    } else {
        seq![s[0]] + insert_unique(s.drop_first(), x)
    }
}

/// The directives sorted by output file and text, the first of each key kept
/// (a stable sort followed by `dedup_by` on the key).
pub open spec fn sorted_unique(s: Seq<PathSensitiveOutput>) -> Seq<PathSensitiveOutput>
    decreases s.len(),
{
    if s.len() == 0 {
        seq![]
    } else {
        insert_unique(sorted_unique(s.drop_last()), s.last())
    }
}

proof fn lemma_insert_unique_at(s: Seq<PathSensitiveOutput>, x: PathSensitiveOutput, p: int)
    requires
        0 <= p <= s.len(),
        forall|j: int| 0 <= j < p ==> output_key(x) != output_key(#[trigger] s[j]) && !output_key_lt(output_key(x), output_key(s[j])),
        p < s.len() ==> output_key(x) == output_key(s[p]) || output_key_lt(output_key(x), output_key(s[p])),
    ensures
        p < s.len() && output_key(x) == output_key(s[p]) ==> insert_unique(s, x) == s,
        !(p < s.len() && output_key(x) == output_key(s[p])) ==> insert_unique(s, x) == s.take(p).push(x) + s.skip(p),
    decreases s.len(),
{
    if s.len() == 0 {
        assert(s.take(p).push(x) + s.skip(p) == seq![x]);
    } else if p == 0 {
        assert(s.take(0).push(x) + s.skip(0) == seq![x] + s);
    } else {
        let t = s.drop_first();
        assert(output_key(x) != output_key(s[0]));
        assert forall|j: int| 0 <= j < p - 1 implies output_key(x) != output_key(#[trigger] t[j]) && !output_key_lt(output_key(x), output_key(t[j])) by {
            assert(t[j] == s[j + 1]);
        }
        if p < s.len() {
            assert(t[p - 1] == s[p]);
        }
        lemma_insert_unique_at(t, x, p - 1);
        if !(p < s.len() && output_key(x) == output_key(s[p])) {
            assert(seq![s[0]] + (t.take(p - 1).push(x) + t.skip(p - 1)) == s.take(p).push(x) + s.skip(p));
        } else {
            assert(seq![s[0]] + t == s);
        }
    }
}

struct KeyedText {
    components: Vec<PathComponent>,
    command: Vec<char>,
}

impl KeyedText {
    spec fn key(&self) -> OutputKey {
        (component_keys(self.components@), self.command@)
    }
}

fn component_key_of(c: &PathComponent) -> (r: (u8, Vec<char>))
    ensures
        (r.0 as nat, r.1@) == c.key(),
{
    match c {
        PathComponent::Prefix(s) => (0, chars_of(s.as_str())),
        PathComponent::RootDir => (1, Vec::new()),
        PathComponent::CurDir => (2, Vec::new()),
        PathComponent::ParentDir => (3, Vec::new()),
        PathComponent::Normal(s) => (4, chars_of(s.as_str())),
    }
}

fn components_compare(a: &Vec<PathComponent>, b: &Vec<PathComponent>) -> (r: (bool, bool))
    ensures
        r.0 == crate::order::components_lt(component_keys(a@), component_keys(b@)),
        r.1 == (component_keys(a@) == component_keys(b@)),
{
    let ghost ka = component_keys(a@);
    let ghost kb = component_keys(b@);
    let mut i: usize = 0;
    assert(ka.skip(0) == ka && kb.skip(0) == kb);
    while i < a.len() && i < b.len()
        invariant
            i <= a@.len(),
            i <= b@.len(),
            ka == component_keys(a@),
            kb == component_keys(b@),
            ka.take(i as int) == kb.take(i as int),
            crate::order::components_lt(ka, kb) == crate::order::components_lt(ka.skip(i as int), kb.skip(i as int)),
        decreases a@.len() - i,
    {
        let (ra, ta) = component_key_of(&a[i]);
        let (rb, tb) = component_key_of(&b[i]);
        assert(ka.skip(i as int)[0] == ka[i as int] && ka[i as int] == a@[i as int].key());
        assert(kb.skip(i as int)[0] == kb[i as int] && kb[i as int] == b@[i as int].key());
        if ra < rb || (ra == rb && text_lt_of(&ta, &tb)) {
            proof {
                if ka == kb {
                    assert(ka[i as int] == kb[i as int]);
                    crate::order::lemma_component_lt_order(ka[i as int], kb[i as int], kb[i as int]);
                }
            }
            return (true, false);
        }
        if !(ra == rb && crate::text::same_chars(&ta, &tb)) {
            proof {
                assert(ka[i as int] != kb[i as int]);
                if ka == kb {
                    assert(ka[i as int] == kb[i as int]);
                }
            }
            return (false, false);
        }
        assert(ka[i as int] == kb[i as int]);
        assert(ka.skip(i as int).drop_first() == ka.skip(i + 1));
        assert(kb.skip(i as int).drop_first() == kb.skip(i + 1));
        assert(ka.take(i + 1) == ka.take(i as int).push(ka[i as int]));
        assert(kb.take(i + 1) == kb.take(i as int).push(kb[i as int]));
        i = i + 1;
    }
    proof {
        if i == a@.len() && i == b@.len() {
            assert(ka == ka.take(i as int));
            assert(kb == kb.take(i as int));
        } else if ka == kb {
            assert(ka.len() == kb.len());
        }
    }
    (i == a.len() && i < b.len(), i == a.len() && i == b.len())
}

fn key_compare(a: &KeyedText, b: &KeyedText) -> (r: (bool, bool))
    ensures
        r.0 == output_key_lt(a.key(), b.key()),
        r.1 == (a.key() == b.key()),
{
    let (lt, eq) = components_compare(&a.components, &b.components);
    let command_lt = text_lt_of(&a.command, &b.command);
    let command_eq = crate::text::same_chars(&a.command, &b.command);
    (lt || (eq && command_lt), eq && command_eq)
}

/// Sorts the findings by output file (in `Path` order, by components) and
/// directive text, keeping the first finding of each pair.
pub fn sort_outputs(found: Vec<PathSensitiveOutput>) -> (sorted: Vec<PathSensitiveOutput>)
    ensures
        sorted@ == sorted_unique(found@),
{
    let ghost input = found@;
    let mut rest = found;
    let mut out: Vec<PathSensitiveOutput> = Vec::new();
    let mut keys: Vec<KeyedText> = Vec::new();
    let ghost mut k: int = 0;
    assert(input.take(0) == Seq::<PathSensitiveOutput>::empty());
    while rest.len() > 0
        invariant
            0 <= k <= input.len(),
            rest@ == input.skip(k),
            out@ == sorted_unique(input.take(k)),
            keys@.len() == out@.len(),
            forall|j: int| 0 <= j < keys@.len() ==> (#[trigger] keys@[j]).key() == output_key(out@[j]),
        decreases rest@.len(),
    {
        let x = rest.remove(0);
        assert(x == input[k]);
        assert(rest@ == input.skip(k + 1));
        let xk = KeyedText { components: path_components(x.output_file.as_str()), command: chars_of(x.command.as_str()) };
        assert(xk.key() == output_key(x));
        let mut p: usize = 0;
        let mut equal = false;
        let mut stop = false;
        while p < out.len() && !stop
            invariant
                p <= out@.len(),
                keys@.len() == out@.len(),
                forall|j: int| 0 <= j < keys@.len() ==> (#[trigger] keys@[j]).key() == output_key(out@[j]),
                xk.key() == output_key(x),
                forall|j: int| 0 <= j < p ==> output_key(x) != output_key(#[trigger] out@[j]) && !output_key_lt(output_key(x), output_key(out@[j])),
                stop ==> p < out@.len() && (output_key(x) == output_key(out@[p as int]) || output_key_lt(output_key(x), output_key(out@[p as int]))),
                stop ==> equal == (output_key(x) == output_key(out@[p as int])),
                !stop ==> !equal,
            decreases out@.len() - p + (if stop { 0int } else { 1int }),
        {
            let (lt, eq) = key_compare(&xk, &keys[p]);
            assert(keys@[p as int].key() == output_key(out@[p as int]));
            if eq || lt {
                stop = true;
                equal = eq;
            } else {
                p = p + 1;
            }
        }
        proof {
            lemma_insert_unique_at(out@, x, p as int);
            assert(input.take(k + 1).drop_last() == input.take(k));
            assert(input.take(k + 1).last() == x);
        }
        if !equal {
            let ghost before = out@;
            let ghost before_keys = keys@;
            out.insert(p, x);
            keys.insert(p, xk);
            assert(out@ == before.take(p as int).push(x) + before.skip(p as int));
            assert forall|j: int| 0 <= j < keys@.len() implies (#[trigger] keys@[j]).key() == output_key(out@[j]) by {
                if j < p {
                    assert(keys@[j] == before_keys[j] && out@[j] == before[j]);
                } else if j > p {
                    assert(keys@[j] == before_keys[j - 1] && out@[j] == before[j - 1]);
                }
            }
        }
        proof {
            k = k + 1;
        }
    }
    assert(input.take(k) == input);
    out
}

// Laws of the ordering.

proof fn lemma_insert_unique_members(s: Seq<PathSensitiveOutput>, x: PathSensitiveOutput, i: int)
    requires
        0 <= i < insert_unique(s, x).len(),
    ensures
        insert_unique(s, x)[i] == x || s.contains(insert_unique(s, x)[i]),
    decreases s.len(),
{
    if s.len() > 0 && output_key(x) != output_key(s[0]) && !output_key_lt(output_key(x), output_key(s[0])) {
        if i > 0 {
            lemma_insert_unique_members(s.drop_first(), x, i - 1);
            let y = insert_unique(s, x)[i];
            if y != x {
                let j = choose|j: int| 0 <= j < s.drop_first().len() && s.drop_first()[j] == y;
                assert(s[j + 1] == y);
            }
        } else {
            assert(s[0] == insert_unique(s, x)[0]);
        }
    } else if s.len() > 0 && output_key(x) == output_key(s[0]) {
        assert(s[i] == insert_unique(s, x)[i]);
    } else if s.len() > 0 && i > 0 {
        assert(s[i - 1] == insert_unique(s, x)[i]);
    }
}

/// Strictly increasing keys.
pub open spec fn strictly_increasing(s: Seq<PathSensitiveOutput>) -> bool {
    forall|i: int, j: int| 0 <= i < j < s.len() ==> output_key_lt(output_key(#[trigger] s[i]), output_key(#[trigger] s[j]))
}

proof fn lemma_insert_unique_sorted(s: Seq<PathSensitiveOutput>, x: PathSensitiveOutput)
    requires
        strictly_increasing(s),
    ensures
        strictly_increasing(insert_unique(s, x)),
    decreases s.len(),
{
    if s.len() == 0 {
    } else if output_key(x) == output_key(s[0]) {
    } else if output_key_lt(output_key(x), output_key(s[0])) {
        let r = seq![x] + s;
        assert forall|i: int, j: int| 0 <= i < j < r.len() implies output_key_lt(output_key(#[trigger] r[i]), output_key(#[trigger] r[j])) by {
            if i == 0 {
                assert(r[j] == s[j - 1]);
                if j - 1 > 0 {
                    assert(output_key_lt(output_key(s[0]), output_key(s[j - 1])));
                    crate::order::lemma_output_key_order(output_key(x), output_key(s[0]), output_key(s[j - 1]));
                }
            } else {
                assert(r[i] == s[i - 1] && r[j] == s[j - 1]);
            }
        }
    } else {
        crate::order::lemma_output_key_order(output_key(x), output_key(s[0]), output_key(s[0]));
        let t = s.drop_first();
        assert forall|i: int, j: int| 0 <= i < j < t.len() implies output_key_lt(output_key(#[trigger] t[i]), output_key(#[trigger] t[j])) by {
            assert(t[i] == s[i + 1] && t[j] == s[j + 1]);
        }
        lemma_insert_unique_sorted(t, x);
        let u = insert_unique(t, x);
        let r = seq![s[0]] + u;
        assert forall|i: int, j: int| 0 <= i < j < r.len() implies output_key_lt(output_key(#[trigger] r[i]), output_key(#[trigger] r[j])) by {
            if i == 0 {
                assert(r[j] == u[j - 1]);
                lemma_insert_unique_members(t, x, j - 1);
                if u[j - 1] != x {
                    let m = choose|m: int| 0 <= m < t.len() && t[m] == u[j - 1];
                    assert(s[m + 1] == u[j - 1]);
                }
            } else {
                assert(r[i] == u[i - 1] && r[j] == u[j - 1]);
            }
        }
    }
}

proof fn lemma_insert_unique_keeps(s: Seq<PathSensitiveOutput>, x: PathSensitiveOutput)
    ensures
        exists|i: int| 0 <= i < insert_unique(s, x).len() && output_key(#[trigger] insert_unique(s, x)[i]) == output_key(x),
        forall|j: int| 0 <= j < s.len() ==> insert_unique(s, x).contains(#[trigger] s[j]),
    decreases s.len(),
{
    let r = insert_unique(s, x);
    if s.len() == 0 {
        assert(r[0] == x);
    } else if output_key(x) == output_key(s[0]) {
        assert(r[0] == s[0]);
        assert forall|j: int| 0 <= j < s.len() implies r.contains(#[trigger] s[j]) by {
            assert(r[j] == s[j]);
        }
    } else if output_key_lt(output_key(x), output_key(s[0])) {
        assert(r[0] == x);
        assert forall|j: int| 0 <= j < s.len() implies r.contains(#[trigger] s[j]) by {
            assert(r[j + 1] == s[j]);
        }
    } else {
        let t = s.drop_first();
        lemma_insert_unique_keeps(t, x);
        let u = insert_unique(t, x);
        let i = choose|i: int| 0 <= i < u.len() && output_key(#[trigger] u[i]) == output_key(x);
        assert(r[i + 1] == u[i]);
        assert forall|j: int| 0 <= j < s.len() implies r.contains(#[trigger] s[j]) by {
            if j == 0 {
                assert(r[0] == s[0]);
            } else {
                assert(t[j - 1] == s[j]);
                assert(u.contains(t[j - 1]));
                let m = choose|m: int| 0 <= m < u.len() && u[m] == t[j - 1];
                assert(r[m + 1] == s[j]);
            }
        }
    }
}

/// The findings come out strictly sorted: no two share an output file and a
/// directive, and each comes before every finding with a greater key.
pub proof fn law_findings_sorted_without_duplicates(found: Seq<PathSensitiveOutput>)
    ensures
        strictly_increasing(sorted_unique(found)),
    decreases found.len(),
{
    if found.len() > 0 {
        law_findings_sorted_without_duplicates(found.drop_last());
        lemma_insert_unique_sorted(sorted_unique(found.drop_last()), found.last());
    }
}

/// Sorting loses no finding's key, and invents no finding.
pub proof fn law_findings_keep_every_key(found: Seq<PathSensitiveOutput>)
    ensures
        forall|j: int| 0 <= j < found.len() ==> exists|i: int|
            0 <= i < sorted_unique(found).len() && output_key(#[trigger] sorted_unique(found)[i]) == output_key(#[trigger] found[j]),
        forall|i: int| 0 <= i < sorted_unique(found).len() ==> found.contains(#[trigger] sorted_unique(found)[i]),
    decreases found.len(),
{
    if found.len() > 0 {
        let prev = found.drop_last();
        law_findings_keep_every_key(prev);
        let sp = sorted_unique(prev);
        let r = sorted_unique(found);
        lemma_insert_unique_keeps(sp, found.last());
        assert forall|j: int| 0 <= j < found.len() implies exists|i: int|
            0 <= i < r.len() && output_key(#[trigger] r[i]) == output_key(#[trigger] found[j]) by {
            if j == found.len() - 1 {
                let i = choose|i: int| 0 <= i < r.len() && output_key(#[trigger] r[i]) == output_key(found.last());
                assert(output_key(r[i]) == output_key(found[j]));
            } else {
                assert(prev[j] == found[j]);
                let i0 = choose|i: int| 0 <= i < sp.len() && output_key(#[trigger] sp[i]) == output_key(prev[j]);
                assert(r.contains(sp[i0]));
                let i = choose|i: int| 0 <= i < r.len() && r[i] == sp[i0];
                assert(output_key(r[i]) == output_key(found[j]));
            }
        }
        assert forall|i: int| 0 <= i < r.len() implies found.contains(#[trigger] r[i]) by {
            lemma_insert_unique_members(sp, found.last(), i);
            if r[i] == found.last() {
                assert(found[found.len() - 1] == r[i]);
            } else {
                assert(prev.contains(r[i]));
                let m = choose|m: int| 0 <= m < prev.len() && prev[m] == r[i];
                assert(found[m] == r[i]);
            }
        }
    }
}

} // verus!
