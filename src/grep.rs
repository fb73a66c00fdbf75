//! Selecting the lines that a regular expression matches, and resolving the
//! paths to scan.

use vstd::prelude::*;
use vstd::string::StringExecFns;
use crate::text::{decimal, push_decimal, views};

verus! {

/// The `regex` crate's compiled regular expression, carried as an opaque
/// value.
#[verifier::external_type_specification]
#[verifier::external_body]
pub struct ExRegex(regex::Regex);

/// Whether `pattern` compiles into a regular expression, case-insensitive
/// when `insensitive`.
pub uninterp spec fn compiles(pattern: Seq<char>, insensitive: bool) -> bool;

/// Whether the regular expression compiled from `pattern` (case-insensitive
/// when `insensitive`) matches somewhere in `line`.
pub uninterp spec fn regex_matches(pattern: Seq<char>, insensitive: bool, line: Seq<char>) -> bool;

/// Relies on `regex::RegexBuilder::build` after `case_insensitive`: it
/// succeeds or fails according to the pattern and that flag alone.
#[verifier::external_body]
fn build_regex(pattern: &str, insensitive: bool) -> (r: Option<regex::Regex>)
    ensures
        r is Some <==> compiles(pattern@, insensitive),
{
    regex::RegexBuilder::new(pattern).case_insensitive(insensitive).build().ok()
}

/// A compiled pattern, with the text and flag it was compiled from. The
/// fields are private and set only by `Pattern::new`, so `re` is always the
/// compilation of `source` under `insensitive`.
pub struct Pattern {
    re: regex::Regex,
    source: String,
    insensitive: bool,
}

impl View for Pattern {
    type V = (Seq<char>, bool);

    closed spec fn view(&self) -> (Seq<char>, bool) {
        (self.source@, self.insensitive)
    }
}

/// Relies on `regex::Regex::is_match`: whether the regular expression that
/// `p` holds matches somewhere in `line`, a function of the text and flag it
/// was compiled from (`p@`) and of `line`.
#[verifier::external_body]
fn regex_is_match(p: &Pattern, line: &str) -> (r: bool)
    ensures
        r == regex_matches(p@.0, p@.1, line@),
{
    p.re.is_match(line)
}

/// The message for a pattern that does not compile.
pub open spec fn invalid_pattern_message(pattern: Seq<char>) -> Seq<char> {
    "Invalid pattern \"\""@ + pattern + "\"\""@
}

impl Pattern {
    /// Compiles `pattern`, case-insensitive when `insensitive`; the error
    /// holds the message for a pattern that does not compile.
    pub fn new(pattern: &str, insensitive: bool) -> (r: Result<Pattern, String>)
        ensures
            r is Ok <==> compiles(pattern@, insensitive),
            r matches Ok(p) ==> p@ == (pattern@, insensitive),
            r matches Err(e) ==> e@ == invalid_pattern_message(pattern@),
    {
        match build_regex(pattern, insensitive) {
            Some(re) => Ok(Pattern { re, source: String::from_str(pattern), insensitive }),
            None => {
                let mut e = String::from_str("Invalid pattern \"\"");
                e.append(pattern);
                e.append("\"\"");
                Err(e)
            },
        }
    }

    /// Whether the pattern matches somewhere in `line`.
    pub fn is_match(&self, line: &str) -> (r: bool)
        ensures
            r == regex_matches(self@.0, self@.1, line@),
    {
        regex_is_match(self, line)
    }
}

/// The lines of `lines` kept when `matched` tells, line by line, whether the
/// pattern matched: those where it did, or where it did not when `invert`.
pub open spec fn kept(lines: Seq<Seq<char>>, matched: Seq<bool>, invert: bool) -> Seq<Seq<char>>
    decreases lines.len(),
{
    if lines.len() == 0 || matched.len() == 0 {
        Seq::empty()
    } else {
        kept(lines.drop_last(), matched.drop_last(), invert) + if matched.last() != invert {
            seq![lines.last()]
        } else {
            Seq::empty()
        }
    }
}

/// The lines of `lines`, in order, that the pattern `(pattern, insensitive)`
/// matches, or that it does not match when `invert`.
pub open spec fn selected(lines: Seq<Seq<char>>, pattern: (Seq<char>, bool), invert: bool) -> Seq<
    Seq<char>,
>
    decreases lines.len(),
{
    if lines.len() == 0 {
        Seq::empty()
    } else {
        selected(lines.drop_last(), pattern, invert) + if regex_matches(
            pattern.0,
            pattern.1,
            lines.last(),
        ) != invert {
            seq![lines.last()]
        } else {
            Seq::empty()
        }
    }
}

/// Keeps the lines of `lines` for which `matched` holds, or for which it
/// does not when `invert`, in order.
pub fn select_lines(lines: &Vec<String>, matched: &Vec<bool>, invert: bool) -> (r: Vec<String>)
    requires
        matched@.len() == lines@.len(),
    ensures
        views(r@) == kept(views(lines@), matched@, invert),
{
    let mut r: Vec<String> = Vec::new();
    let mut i: usize = 0;
    while i < lines.len()
        invariant
            i <= lines@.len(),
            matched@.len() == lines@.len(),
            views(r@) == kept(views(lines@.subrange(0, i as int)), matched@.subrange(0, i as int), invert),
        decreases lines.len() - i,
    {
        let ghost before = views(lines@.subrange(0, i as int));
        let ghost after = views(lines@.subrange(0, i + 1));
        assert(after.drop_last() =~= before);
        assert(matched@.subrange(0, i + 1).drop_last() =~= matched@.subrange(0, i as int));
        if matched[i] != invert {
            r.push(lines[i].clone());
        }
        assert(views(r@) =~= kept(after, matched@.subrange(0, i + 1), invert));
        i = i + 1;
    }
    assert(lines@.subrange(0, i as int) =~= lines@);
    assert(matched@.subrange(0, i as int) =~= matched@);
    r
}

proof fn lemma_kept_is_selected(lines: Seq<Seq<char>>, matched: Seq<bool>, pattern: (Seq<char>, bool), invert: bool)
    requires
        matched.len() == lines.len(),
        forall|j: int| 0 <= j < lines.len() ==> matched[j] == regex_matches(pattern.0, pattern.1, #[trigger] lines[j]),
    ensures
        kept(lines, matched, invert) == selected(lines, pattern, invert),
    decreases lines.len(),
{
    if lines.len() > 0 {
        lemma_kept_is_selected(lines.drop_last(), matched.drop_last(), pattern, invert);
        assert(matched.last() == regex_matches(pattern.0, pattern.1, lines[lines.len() - 1]));
    }
}

/// The lines of `lines` that `pattern` matches, or does not match when
/// `invert`, in order.
pub fn find_lines(lines: &Vec<String>, pattern: &Pattern, invert: bool) -> (r: Vec<String>)
    ensures
        views(r@) == selected(views(lines@), pattern@, invert),
{
    let mut matched: Vec<bool> = Vec::new();
    let mut i: usize = 0;
    while i < lines.len()
        invariant
            i <= lines@.len(),
            matched@.len() == i,
            forall|j: int| 0 <= j < i ==> matched@[j] == regex_matches(pattern@.0, pattern@.1, #[trigger] lines@[j]@),
        decreases lines.len() - i,
    {
        matched.push(pattern.is_match(lines[i].as_str()));
        i = i + 1;
    }
    proof {
        assert forall|j: int| 0 <= j < lines@.len() implies matched@[j] == regex_matches(pattern@.0, pattern@.1, #[trigger] views(lines@)[j]) by {
            assert(views(lines@)[j] == lines@[j]@);
        }
        lemma_kept_is_selected(views(lines@), matched@, pattern@, invert);
    }
    select_lines(lines, &matched, invert)
}

/// A line is selected exactly when whether the pattern matches it differs
/// from `invert`.
pub proof fn lemma_selected_line(line: Seq<char>, pattern: (Seq<char>, bool), invert: bool)
    ensures
        selected(seq![line], pattern, invert) == if regex_matches(pattern.0, pattern.1, line) != invert {
            seq![line]
        } else {
            Seq::empty()
        },
{
    assert(seq![line].drop_last() =~= Seq::<Seq<char>>::empty());
    assert(selected(seq![line].drop_last(), pattern, invert) =~= Seq::empty());
    assert(selected(seq![line], pattern, invert) =~= if regex_matches(pattern.0, pattern.1, line) != invert {
        seq![line]
    } else {
        Seq::empty()
    });
}

/// Selection goes line by line and keeps order: selecting from `a` followed
/// by `b` is selecting from `a`, followed by selecting from `b`.
pub proof fn lemma_selected_concat(a: Seq<Seq<char>>, b: Seq<Seq<char>>, pattern: (Seq<char>, bool), invert: bool)
    ensures
        selected(a + b, pattern, invert) == selected(a, pattern, invert) + selected(b, pattern, invert),
    decreases b.len(),
{
    if b.len() == 0 {
        assert(a + b =~= a);
        assert(selected(a, pattern, invert) + selected(b, pattern, invert) =~= selected(a, pattern, invert));
    } else {
        lemma_selected_concat(a, b.drop_last(), pattern, invert);
        assert((a + b).drop_last() =~= a + b.drop_last());
        assert(selected(a + b, pattern, invert) =~= selected(a, pattern, invert) + selected(b, pattern, invert));
    }
}

/// The count-mode output for a source: the number of lines selected, a
/// space, and the source's name.
pub open spec fn count_line(n: nat, name: Seq<char>) -> Seq<char> {
    decimal(n) + seq![' '] + name
}

/// The count-mode output for a source named `name` with `n` lines selected.
pub fn format_match_count(n: usize, name: &str) -> (r: String)
    ensures
        r@ == count_line(n as nat, name@),
{
    let mut r = String::new();
    push_decimal(&mut r, n as u64);
    proof {
        reveal_strlit(" ");
        assert(" "@ =~= seq![' ']);
    }
    r.append(" ");
    r.append(name);
    assert(r@ =~= count_line(n as nat, name@));
    r
}

/// What a path names, as found on disk.
pub enum PathKind {
    /// A regular file.
    File,
    /// A directory.
    Directory,
    /// Something else, such as a device or a socket.
    Other,
    /// Nothing could be found; the text says why.
    Missing(String),
}

/// An entry met while walking a directory tree.
pub struct WalkEntry {
    pub path: String,
    pub is_file: bool,
}

/// A path to scan, with what it names and, for a directory walked, the
/// entries below it.
pub struct PathEntry {
    pub path: String,
    pub kind: PathKind,
    pub walked: Vec<WalkEntry>,
}

/// The paths of the regular files among `walked`, in order.
pub open spec fn walked_files(walked: Seq<WalkEntry>) -> Seq<Seq<char>>
    decreases walked.len(),
{
    if walked.len() == 0 {
        Seq::empty()
    } else {
        walked_files(walked.drop_last()) + if walked.last().is_file {
            seq![walked.last().path@]
        } else {
            Seq::empty()
        }
    }
}

/// The message for a directory given without recursion.
pub open spec fn directory_message(path: Seq<char>) -> Seq<char> {
    path + " is a directory"@
}

/// The message for a path that could not be found.
pub open spec fn missing_message(path: Seq<char>, reason: Seq<char>) -> Seq<char> {
    path + ": "@ + reason
}

/// The sources that one path yields: standard input for `-`; a regular file
/// itself; under recursion, every regular file below a directory; an error
/// for a directory without recursion or a path that could not be found; and
/// nothing for anything else.
pub open spec fn resolved(e: PathEntry, recursive: bool) -> Seq<Result<Seq<char>, Seq<char>>> {
    if e.path@ == seq!['-'] {
        seq![Ok(e.path@)]
    } else {
        match e.kind {
            PathKind::File => seq![Ok(e.path@)],
            PathKind::Directory => if recursive {
                walked_files(e.walked@).map_values(|p: Seq<char>| Ok(p))
            } else {
                seq![Err(directory_message(e.path@))]
            },
            PathKind::Other => Seq::empty(),
            PathKind::Missing(reason) => seq![Err(missing_message(e.path@, reason@))],
        }
    }
}

/// The sources that `entries` yield, path after path.
pub open spec fn resolved_all(entries: Seq<PathEntry>, recursive: bool) -> Seq<Result<Seq<char>, Seq<char>>>
    decreases entries.len(),
{
    if entries.len() == 0 {
        Seq::empty()
    } else {
        resolved_all(entries.drop_last(), recursive) + resolved(entries.last(), recursive)
    }
}

/// The mathematical value of a source or of the error for it.
pub open spec fn found_view(r: Result<String, String>) -> Result<Seq<char>, Seq<char>> {
    match r {
        Ok(p) => Ok(p@),
        Err(m) => Err(m@),
    }
}

/// The mathematical values of sources and errors.
pub open spec fn found_views(rs: Seq<Result<String, String>>) -> Seq<Result<Seq<char>, Seq<char>>> {
    rs.map_values(|r: Result<String, String>| found_view(r))
}

fn is_dash(path: &String) -> (r: bool)
    ensures
        r == (path@ == seq!['-']),
{
    proof {
        reveal_strlit("-");
        assert("-"@ =~= seq!['-']);
    }
    let dash = String::from_str("-");
    *path == dash
}

/// Whether `path`, found to be `kind`, is to be walked: a directory, other
/// than `-`, under recursion.
pub fn wants_walk(path: &String, kind: &PathKind, recursive: bool) -> (r: bool)
    ensures
        r == (path@ != seq!['-'] && kind is Directory && recursive),
{
    !is_dash(path) && recursive && match kind {
        PathKind::Directory => true,
        _ => false,
    }
}

fn push_walked_files(out: &mut Vec<Result<String, String>>, walked: &Vec<WalkEntry>)
    ensures
        found_views(final(out)@) == found_views(old(out)@) + walked_files(walked@).map_values(
            |p: Seq<char>| Ok(p),
        ),
{
    let ghost start = found_views(out@);
    let mut i: usize = 0;
    while i < walked.len()
        invariant
            i <= walked@.len(),
            found_views(out@) == start + walked_files(walked@.subrange(0, i as int)).map_values(
                |p: Seq<char>| Ok(p),
            ),
        decreases walked.len() - i,
    {
        let ghost before = walked@.subrange(0, i as int);
        let ghost after = walked@.subrange(0, i + 1);
        assert(after.drop_last() =~= before);
        let ghost prev = out@;
        if walked[i].is_file {
            out.push(Ok(walked[i].path.clone()));
            assert(walked_files(after) =~= walked_files(before).push(walked@[i as int].path@));
            assert(found_views(out@) =~= found_views(prev).push(Ok(walked@[i as int].path@)));
        } else {
            assert(walked_files(after) =~= walked_files(before));
        }
        assert(found_views(out@) =~= start + walked_files(after).map_values(|p: Seq<char>| Ok(p)));
        i = i + 1;
    }
    assert(walked@.subrange(0, i as int) =~= walked@);
}

fn push_resolved(out: &mut Vec<Result<String, String>>, e: &PathEntry, recursive: bool)
    ensures
        found_views(final(out)@) == found_views(old(out)@) + resolved(*e, recursive),
{
    let ghost start = out@;
    if is_dash(&e.path) {
        out.push(Ok(e.path.clone()));
    } else {
        match &e.kind {
            PathKind::File => {
                out.push(Ok(e.path.clone()));
            },
            PathKind::Directory => {
                if recursive {
                    push_walked_files(out, &e.walked);
                } else {
                    let mut m = e.path.clone();
                    m.append(" is a directory");
                    out.push(Err(m));
                }
            },
            PathKind::Other => {},
            PathKind::Missing(reason) => {
                let mut m = e.path.clone();
                m.append(": ");
                m.append(reason.as_str());
                out.push(Err(m));
            },
        }
    }
    assert(found_views(out@) =~= found_views(start) + resolved(*e, recursive));
}

/// The sources to scan for `entries`, path after path; each path that does
/// not yield a source yields its error in its place.
pub fn find_files(entries: &Vec<PathEntry>, recursive: bool) -> (r: Vec<Result<String, String>>)
    ensures
        found_views(r@) == resolved_all(entries@, recursive),
{
    let mut r: Vec<Result<String, String>> = Vec::new();
    let mut i: usize = 0;
    while i < entries.len()
        invariant
            i <= entries@.len(),
            found_views(r@) == resolved_all(entries@.subrange(0, i as int), recursive),
        decreases entries.len() - i,
    {
        let ghost before = entries@.subrange(0, i as int);
        let ghost after = entries@.subrange(0, i + 1);
        assert(after.drop_last() =~= before);
        push_resolved(&mut r, &entries[i], recursive);
        i = i + 1;
    }
    assert(entries@.subrange(0, i as int) =~= entries@);
    r
}

/// A directory, under recursion, yields exactly the regular files met in its
/// walk, in the order met; without recursion, it yields one error and
/// nothing to scan.
pub proof fn lemma_directory_discovery(e: PathEntry)
    requires
        e.kind is Directory,
        e.path@ != seq!['-'],
    ensures
        resolved(e, true) == walked_files(e.walked@).map_values(|p: Seq<char>| Ok::<Seq<char>, Seq<char>>(p)),
        resolved(e, false) == seq![Err::<Seq<char>, Seq<char>>(directory_message(e.path@))],
{
}

/// Paths are resolved independently: what `a` followed by `b` yields is
/// what `a` yields followed by what `b` yields, so an error on one path
/// leaves the sources of the others as they are.
pub proof fn lemma_resolved_concat(a: Seq<PathEntry>, b: Seq<PathEntry>, recursive: bool)
    ensures
        resolved_all(a + b, recursive) == resolved_all(a, recursive) + resolved_all(b, recursive),
    decreases b.len(),
{
    if b.len() == 0 {
        assert(a + b =~= a);
        assert(resolved_all(a, recursive) + resolved_all(b, recursive) =~= resolved_all(a, recursive));
    } else {
        lemma_resolved_concat(a, b.drop_last(), recursive);
        assert((a + b).drop_last() =~= a + b.drop_last());
        assert(resolved_all(a + b, recursive) =~= resolved_all(a, recursive) + resolved_all(b, recursive));
    }
}

/// Without recursion, a directory followed by a regular file yields one
/// error for the directory and the file as a source.
pub proof fn lemma_directory_then_file(d: PathEntry, f: PathEntry)
    requires
        d.kind is Directory,
        f.kind is File,
        d.path@ != seq!['-'],
    ensures
        resolved_all(seq![d, f], false) == seq![
            Err::<Seq<char>, Seq<char>>(directory_message(d.path@)),
            Ok(f.path@),
        ],
{
    lemma_resolved_two(d, f, false);
    assert(resolved_all(seq![d, f], false) =~= seq![
        Err::<Seq<char>, Seq<char>>(directory_message(d.path@)),
        Ok(f.path@),
    ]);
}

/// A path that could not be found, followed by a regular file, yields an
/// error naming the path and its reason, and the file as a source.
pub proof fn lemma_missing_then_file(m: PathEntry, f: PathEntry, recursive: bool)
    requires
        m.kind is Missing,
        f.kind is File,
        m.path@ != seq!['-'],
    ensures
        resolved_all(seq![m, f], recursive) == seq![
            Err::<Seq<char>, Seq<char>>(missing_message(m.path@, m.kind->Missing_0@)),
            Ok(f.path@),
        ],
{
    lemma_resolved_two(m, f, recursive);
    assert(resolved_all(seq![m, f], recursive) =~= seq![
        Err::<Seq<char>, Seq<char>>(missing_message(m.path@, m.kind->Missing_0@)),
        Ok(f.path@),
    ]);
}

proof fn lemma_resolved_two(a: PathEntry, b: PathEntry, recursive: bool)
    ensures
        resolved_all(seq![a, b], recursive) == resolved(a, recursive) + resolved(b, recursive),
{
    let both = seq![a, b];
    assert(both.drop_last() =~= seq![a]);
    assert(seq![a].drop_last() =~= Seq::<PathEntry>::empty());
    assert(resolved_all(seq![a].drop_last(), recursive) =~= Seq::empty());
    assert(resolved_all(seq![a], recursive) =~= resolved(a, recursive));
}

} // verus!
