//! Line, word, byte and character counts of a text, and their rendering.

use vstd::prelude::*;
use vstd::string::{StrSliceExecFns, StringExecFns, StringSliceAdditionalSpecFns};
use crate::text::{decimal, is_white, is_whitespace, pad_left, right_justify};

verus! {

/// The number of newline characters in `s`.
pub open spec fn newlines(s: Seq<char>) -> nat
    decreases s.len(),
{
    if s.len() == 0 {
        0
    } else {
        newlines(s.drop_last()) + if s.last() == '\n' { 1nat } else { 0nat }
    }
}

/// The number of lines in `s`: each newline ends one, and a non-empty tail
/// after the last newline is one more.
pub open spec fn line_count(s: Seq<char>) -> nat {
    newlines(s) + if s.len() > 0 && s.last() != '\n' { 1nat } else { 0nat }
}

/// Whether a word starts at position `i` of `s`: a non-whitespace character
/// that is first or follows whitespace.
pub open spec fn word_starts_at(s: Seq<char>, i: int) -> bool {
    !is_white(s[i]) && (i == 0 || is_white(s[i - 1]))
}

/// The number of maximal runs of non-whitespace characters in `s`.
pub open spec fn word_count(s: Seq<char>) -> nat
    decreases s.len(),
{
    if s.len() == 0 {
        0
    } else {
        word_count(s.drop_last()) + if word_starts_at(s, s.len() - 1) { 1nat } else { 0nat }
    }
}

proof fn lemma_newlines_bound(s: Seq<char>)
    ensures
        newlines(s) <= s.len(),
    decreases s.len(),
{
    if s.len() > 0 {
        lemma_newlines_bound(s.drop_last());
    }
}

/// Counts of one source.
#[derive(Debug, Clone, Copy, PartialEq, Eq, Structural)]
pub struct FileInfo {
    pub num_lines: usize,
    pub num_words: usize,
    pub num_bytes: usize,
    pub num_chars: usize,
}

/// Counts the lines, words, bytes (in UTF-8) and characters of `text`.
pub fn count(text: &str) -> (r: FileInfo)
    ensures
        r.num_lines == line_count(text@),
        r.num_words == word_count(text@),
        r.num_bytes == text.spec_bytes().len(),
        r.num_chars == text@.len(),
{
    let num_chars = text.unicode_len();
    let num_bytes = text.as_bytes().len();
    let mut num_lines: usize = 0;
    let mut num_words: usize = 0;
    let mut prev_white = true;
    let mut last_newline = true;
    for c in it: text.chars()
        invariant
            num_chars == text@.len(),
            it.seq() == text@,
            ({
                let p = text@.subrange(0, it.index() as int);
                &&& num_lines == newlines(p)
                &&& num_words == word_count(p)
                &&& prev_white == (p.len() == 0 || is_white(p.last()))
                &&& last_newline == (p.len() == 0 || p.last() == '\n')
                    &&& word_count(p) <= p.len()
            }),
    {
        let ghost p = text@.subrange(0, it.index() as int);
        let ghost q = text@.subrange(0, it.index() + 1);
        assert(q.drop_last() =~= p);
        proof {
            lemma_newlines_bound(p);
        }
        let white = is_whitespace(c);
        if c == '\n' {
            num_lines = num_lines + 1;
        }
        if !white && prev_white {
            num_words = num_words + 1;
        }
        prev_white = white;
        last_newline = c == '\n';
    }
    assert(text@.subrange(0, text@.len() as int) =~= text@);
    if !last_newline {
        proof {
            lemma_newlines_bound(text@.drop_last());
        }
        num_lines = num_lines + 1;
    }
    FileInfo { num_lines, num_words, num_bytes, num_chars }
}

/// The rendering of one count: eight columns, right-justified, or nothing.
pub open spec fn field_text(value: nat, show: bool) -> Seq<char> {
    if show {
        pad_left(decimal(value), 8)
    } else {
        Seq::empty()
    }
}

/// Renders `value` right-justified in eight columns when `show`, else as
/// the empty string.
pub fn format_field(value: usize, show: bool) -> (r: String)
    ensures
        r@ == field_text(value as nat, show),
{
    if show {
        right_justify(value as u64, 8)
    } else {
        let r = String::new();
        assert(r@ =~= Seq::<char>::empty());
        r
    }
}

/// Which counts are shown.
#[derive(Debug, Clone, Copy, PartialEq, Eq, Structural)]
pub struct Fields {
    pub lines: bool,
    pub words: bool,
    pub bytes: bool,
    pub chars: bool,
}

impl Fields {
    /// The fields requested; when none is, lines, words and bytes.
    pub fn new(lines: bool, words: bool, bytes: bool, chars: bool) -> (r: Fields)
        ensures
            !lines && !words && !bytes && !chars ==> r == (Fields {
                lines: true,
                words: true,
                bytes: true,
                chars: false,
            }),
            lines || words || bytes || chars ==> r == (Fields { lines, words, bytes, chars }),
    {
        if !lines && !words && !bytes && !chars {
            Fields { lines: true, words: true, bytes: true, chars: false }
        } else {
            Fields { lines, words, bytes, chars }
        }
    }
}

/// The shown counts of `info`, in the order lines, words, bytes, characters.
pub open spec fn counts_text(info: FileInfo, fields: Fields) -> Seq<char> {
    field_text(info.num_lines as nat, fields.lines) + field_text(info.num_words as nat, fields.words)
        + field_text(info.num_bytes as nat, fields.bytes) + field_text(
        info.num_chars as nat,
        fields.chars,
    )
}

/// The output line for one source: its counts, then its name unless it is
/// standard input (`-`).
pub open spec fn report_line(info: FileInfo, fields: Fields, name: Seq<char>) -> Seq<char> {
    counts_text(info, fields) + if name == seq!['-'] {
        Seq::empty()
    } else {
        seq![' '] + name
    }
}

fn render_counts(info: &FileInfo, fields: Fields) -> (r: String)
    ensures
        r@ == counts_text(*info, fields),
{
    let mut r = format_field(info.num_lines, fields.lines);
    r.append(format_field(info.num_words, fields.words).as_str());
    r.append(format_field(info.num_bytes, fields.bytes).as_str());
    r.append(format_field(info.num_chars, fields.chars).as_str());
    r
}

/// The output line for a source named `name` with counts `info`.
pub fn format_counts(info: &FileInfo, fields: Fields, name: &str) -> (r: String)
    ensures
        r@ == report_line(*info, fields, name@),
{
    let mut r = render_counts(info, fields);
    proof {
        reveal_strlit("-");
        reveal_strlit(" ");
        assert("-"@ =~= seq!['-']);
        assert(" "@ =~= seq![' ']);
    }
    let dash = String::from_str("-");
    if String::from_str(name) == dash {
        assert(r@ =~= report_line(*info, fields, name@));
    } else {
        r.append(" ");
        r.append(name);
        assert(r@ =~= report_line(*info, fields, name@));
    }
    r
}

/// One count of `info`: 0 lines, 1 words, 2 bytes, 3 characters.
pub open spec fn field_of(info: FileInfo, k: int) -> nat {
    if k == 0 {
        info.num_lines as nat
    } else if k == 1 {
        info.num_words as nat
    } else if k == 2 {
        info.num_bytes as nat
    } else {
        info.num_chars as nat
    }
}

/// The sum of count `k` over `infos`.
pub open spec fn sum_field(infos: Seq<FileInfo>, k: int) -> nat
    decreases infos.len(),
{
    if infos.len() == 0 {
        0
    } else {
        sum_field(infos.drop_last(), k) + field_of(infos.last(), k)
    }
}

/// Whether every field-wise sum over `infos` fits in a `usize`.
pub open spec fn total_fits(infos: Seq<FileInfo>) -> bool {
    forall|k: int| 0 <= k < 4 ==> #[trigger] sum_field(infos, k) <= usize::MAX
}

proof fn lemma_sum_field_monotone(infos: Seq<FileInfo>, i: int, k: int)
    requires
        0 <= i <= infos.len(),
    ensures
        sum_field(infos.subrange(0, i), k) <= sum_field(infos, k),
    decreases infos.len() - i,
{
    if i < infos.len() {
        lemma_sum_field_monotone(infos, i + 1, k);
        assert(infos.subrange(0, i + 1).drop_last() =~= infos.subrange(0, i));
    } else {
        assert(infos.subrange(0, i) =~= infos);
    }
}

/// The field-wise sum of `infos`; `None` when a sum does not fit in a `usize`.
pub fn total(infos: &Vec<FileInfo>) -> (r: Option<FileInfo>)
    ensures
        r is Some <==> total_fits(infos@),
        r matches Some(t) ==> forall|k: int| 0 <= k < 4 ==> #[trigger] field_of(t, k) == sum_field(infos@, k),
{
    let mut t = FileInfo { num_lines: 0, num_words: 0, num_bytes: 0, num_chars: 0 };
    let mut i: usize = 0;
    while i < infos.len()
        invariant
            i <= infos@.len(),
            forall|k: int| 0 <= k < 4 ==> #[trigger] field_of(t, k) == sum_field(infos@.subrange(0, i as int), k),
        decreases infos.len() - i,
    {
        let ghost before = infos@.subrange(0, i as int);
        let ghost after = infos@.subrange(0, i + 1);
        assert(after.drop_last() =~= before);
        assert(field_of(t, 0) == sum_field(before, 0));
        assert(field_of(t, 1) == sum_field(before, 1));
        assert(field_of(t, 2) == sum_field(before, 2));
        assert(field_of(t, 3) == sum_field(before, 3));
        let x = infos[i];
        let (l, w, b, c) = match (
            t.num_lines.checked_add(x.num_lines),
            t.num_words.checked_add(x.num_words),
            t.num_bytes.checked_add(x.num_bytes),
            t.num_chars.checked_add(x.num_chars),
        ) {
            (Some(l), Some(w), Some(b), Some(c)) => (l, w, b, c),
            _ => {
                proof {
                    let k = if t.num_lines as int + x.num_lines > usize::MAX {
                        0int
                    } else if t.num_words as int + x.num_words > usize::MAX {
                        1int
                    } else if t.num_bytes as int + x.num_bytes > usize::MAX {
                        2int
                    } else {
                        3int
                    };
                    assert(sum_field(after, k) > usize::MAX);
                    lemma_sum_field_monotone(infos@, i + 1, k);
                }
                return None;
            },
        };
        t = FileInfo { num_lines: l, num_words: w, num_bytes: b, num_chars: c };
        assert(field_of(t, 0) == sum_field(after, 0));
        assert(field_of(t, 1) == sum_field(after, 1));
        assert(field_of(t, 2) == sum_field(after, 2));
        assert(field_of(t, 3) == sum_field(after, 3));
        i = i + 1;
    }
    assert(infos@.subrange(0, i as int) =~= infos@);
    proof {
        assert forall|k: int| 0 <= k < 4 implies #[trigger] sum_field(infos@, k) <= usize::MAX by {
            assert(field_of(t, k) == sum_field(infos@, k));
        }
    }
    Some(t)
}

/// The line that closes a report over `n_sources` sources: the totals,
/// labelled, when there is more than one source.
pub fn total_line(total: &FileInfo, fields: Fields, n_sources: usize) -> (r: Option<String>)
    ensures
        r is Some <==> n_sources > 1,
        r matches Some(s) ==> s@ == counts_text(*total, fields) + " total"@,
{
    if n_sources > 1 {
        let mut r = render_counts(total, fields);
        r.append(" total");
        Some(r)
    } else {
        None
    }
}

/// The total over two sources is the field-wise sum of their counts.
pub proof fn lemma_total_of_two(c1: FileInfo, c2: FileInfo)
    ensures
        forall|k: int| 0 <= k < 4 ==> sum_field(seq![c1, c2], k) == #[trigger] field_of(c1, k) + field_of(c2, k),
{
    let both = seq![c1, c2];
    assert(both.drop_last() =~= seq![c1]);
    assert(seq![c1].drop_last() =~= Seq::<FileInfo>::empty());
    assert forall|k: int| 0 <= k < 4 implies sum_field(both, k) == #[trigger] field_of(c1, k) + field_of(c2, k) by {
        assert(sum_field(Seq::<FileInfo>::empty(), k) == 0);
        assert(sum_field(seq![c1], k) == field_of(c1, k));
    }
}

/// With two sources, the total line shows, for each field shown, the sum of
/// the two sources' counts, followed by the label.
pub proof fn lemma_total_line_of_two(c1: FileInfo, c2: FileInfo, t: FileInfo, fields: Fields)
    requires
        forall|k: int| 0 <= k < 4 ==> #[trigger] field_of(t, k) == sum_field(seq![c1, c2], k),
    ensures
        counts_text(t, fields) + " total"@ == field_text(
            (c1.num_lines + c2.num_lines) as nat,
            fields.lines,
        ) + field_text((c1.num_words + c2.num_words) as nat, fields.words) + field_text(
            (c1.num_bytes + c2.num_bytes) as nat,
            fields.bytes,
        ) + field_text((c1.num_chars + c2.num_chars) as nat, fields.chars) + " total"@,
{
    lemma_total_of_two(c1, c2);
    assert(field_of(t, 0) == field_of(c1, 0) + field_of(c2, 0));
    assert(field_of(t, 1) == field_of(c1, 1) + field_of(c2, 1));
    assert(field_of(t, 2) == field_of(c1, 2) + field_of(c2, 2));
    assert(field_of(t, 3) == field_of(c1, 3) + field_of(c2, 3));
}

} // verus!
