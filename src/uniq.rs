//! Collapsing runs of repeated lines.

use vstd::prelude::*;
use vstd::string::StringExecFns;
use crate::text::{decimal, pad_left, right_justify, trim_line_end, trimmed_line_end, views};

verus! {

/// Whether two lines belong to one run: equal once their trailing line
/// terminators (`\n`, `\r`) are removed.
pub open spec fn same_line(a: Seq<char>, b: Seq<char>) -> bool {
    trim_line_end(a) == trim_line_end(b)
}

/// The runs of `lines`: for each maximal stretch of consecutive lines that
/// are the same line, its length and its first line.
pub open spec fn runs(lines: Seq<Seq<char>>) -> Seq<(nat, Seq<char>)>
    decreases lines.len(),
{
    if lines.len() == 0 {
        Seq::empty()
    } else {
        let r = runs(lines.drop_last());
        let l = lines.last();
        if r.len() > 0 && same_line(r.last().1, l) {
            r.update(r.len() - 1, ((r.last().0 + 1) as nat, r.last().1))
        } else {
            r.push((1nat, l))
        }
    }
}

/// The mathematical value of a collapsed run.
pub open spec fn run_view(r: (u64, String)) -> (nat, Seq<char>) {
    (r.0 as nat, r.1@)
}

/// The mathematical values of collapsed runs.
pub open spec fn run_views(rs: Seq<(u64, String)>) -> Seq<(nat, Seq<char>)> {
    rs.map_values(|r: (u64, String)| run_view(r))
}

proof fn lemma_runs_count_bound(lines: Seq<Seq<char>>)
    ensures
        runs(lines).len() <= lines.len(),
        forall|j: int| 0 <= j < runs(lines).len() ==> #[trigger] runs(lines)[j].0 <= lines.len(),
    decreases lines.len(),
{
    if lines.len() > 0 {
        lemma_runs_count_bound(lines.drop_last());
    }
}

/// The mathematical value of a run handed out, if any.
pub open spec fn opt_run_view(r: Option<(u64, String)>) -> Option<(nat, Seq<char>)> {
    match r {
        Some(x) => Some(run_view(x)),
        None => None,
    }
}

/// Whether `line` continues the run `current`.
pub open spec fn continues(current: Option<(nat, Seq<char>)>, line: Seq<char>) -> bool {
    current is Some && same_line(current.unwrap().1, line)
}

/// A collapse under way: either no run has started, or a run is open with
/// its first line and its length so far.
pub struct Collapser {
    previous: String,
    previous_trimmed: String,
    count: u64,
}

impl Collapser {
    /// The state is consistent: the trimmed line is that of the run's line.
    pub closed spec fn wf(&self) -> bool {
        self.previous_trimmed@ == trim_line_end(self.previous@)
    }

    /// The open run, if any: its length and its first line.
    pub closed spec fn current(&self) -> Option<(nat, Seq<char>)> {
        if self.count == 0 {
            None
        } else {
            Some((self.count as nat, self.previous@))
        }
    }

    /// A collapse with no run open.
    pub fn new() -> (r: Collapser)
        ensures
            r.wf(),
            r.current() is None,
    {
        let r = Collapser { previous: String::new(), previous_trimmed: String::new(), count: 0 };
        assert(r.previous_trimmed@ =~= trim_line_end(r.previous@));
        r
    }

    /// Takes the next line. A line that continues the open run lengthens
    /// it; any other line closes the open run, which is handed out, and
    /// opens a run of its own.
    pub fn push_line(&mut self, line: String) -> (r: Option<(u64, String)>)
        requires
            old(self).wf(),
            old(self).current() matches Some(c) ==> c.0 < u64::MAX,
        ensures
            final(self).wf(),
            continues(old(self).current(), line@) ==> r is None && final(self).current() == Some(
                ((old(self).current().unwrap().0 + 1) as nat, old(self).current().unwrap().1),
            ),
            !continues(old(self).current(), line@) ==> opt_run_view(r) == old(self).current()
                && final(self).current() == Some((1nat, line@)),
    {
        let trimmed = trimmed_line_end(line.as_str());
        if self.count > 0 && trimmed == self.previous_trimmed {
            self.count = self.count + 1;
            None
        } else {
            let mut next = Collapser { previous: line, previous_trimmed: trimmed, count: 1 };
            core::mem::swap(self, &mut next);
            if next.count > 0 {
                Some((next.count, next.previous))
            } else {
                None
            }
        }
    }

    /// Ends the collapse, handing out the open run, if any.
    pub fn finish(self) -> (r: Option<(u64, String)>)
        ensures
            opt_run_view(r) == self.current(),
    {
        if self.count > 0 {
            Some((self.count, self.previous))
        } else {
            None
        }
    }
}

/// Collapses each run of `lines` into its length and its first line.
pub fn collapse(lines: &Vec<String>) -> (r: Vec<(u64, String)>)
    ensures
        run_views(r@) == runs(views(lines@)),
{
    let mut out: Vec<(u64, String)> = Vec::new();
    let mut state = Collapser::new();
    let mut i: usize = 0;
    while i < lines.len()
        invariant
            i <= lines@.len(),
            state.wf(),
            (state.current() is None) == (i == 0),
            state.current() matches Some(c) ==> c.0 <= i,
            ({
                let r = runs(views(lines@.subrange(0, i as int)));
                match state.current() {
                    None => r.len() == 0 && out@.len() == 0,
                    Some(c) => r == run_views(out@).push(c),
                }
            }),
        decreases lines.len() - i,
    {
        let ghost before = views(lines@.subrange(0, i as int));
        let ghost after = views(lines@.subrange(0, i + 1));
        assert(after.drop_last() =~= before);
        proof {
            lemma_runs_count_bound(before);
        }
        let ghost prev_out = out@;
        match state.push_line(lines[i].clone()) {
            Some(run) => {
                out.push(run);
                assert(run_views(out@) =~= run_views(prev_out).push(run_view(run)));
            },
            None => {},
        }
        assert(runs(after) =~= run_views(out@).push(state.current().unwrap()));
        i = i + 1;
    }
    assert(lines@.subrange(0, i as int) =~= lines@);
    let ghost prev_out = out@;
    match state.finish() {
        Some(run) => {
            out.push(run);
            assert(run_views(out@) =~= run_views(prev_out).push(run_view(run)));
        },
        None => {
            assert(run_views(out@) =~= runs(views(lines@)));
        },
    }
    out
}

/// The output of one run: its line, after its count right-justified in
/// four columns and a space when `show_count`.
pub open spec fn run_text(count: nat, text: Seq<char>, show_count: bool) -> Seq<char> {
    if show_count {
        pad_left(decimal(count), 4) + seq![' '] + text
    } else {
        text
    }
}

/// The output of a sequence of runs.
pub open spec fn output_text(rs: Seq<(nat, Seq<char>)>, show_count: bool) -> Seq<char>
    decreases rs.len(),
{
    if rs.len() == 0 {
        Seq::empty()
    } else {
        output_text(rs.drop_last(), show_count) + run_text(rs.last().0, rs.last().1, show_count)
    }
}

/// The output of one run.
pub fn format_run(count: u64, text: &str, show_count: bool) -> (r: String)
    ensures
        r@ == run_text(count as nat, text@, show_count),
{
    if show_count {
        let mut r = right_justify(count, 4);
        proof {
            reveal_strlit(" ");
            assert(" "@ =~= seq![' ']);
        }
        r.append(" ");
        r.append(text);
        r
    } else {
        text.to_owned()
    }
}

/// The output of collapsed runs, one after another.
pub fn render(rs: &Vec<(u64, String)>, show_count: bool) -> (r: String)
    ensures
        r@ == output_text(run_views(rs@), show_count),
{
    let mut r = String::new();
    let mut i: usize = 0;
    while i < rs.len()
        invariant
            i <= rs@.len(),
            r@ == output_text(run_views(rs@.subrange(0, i as int)), show_count),
        decreases rs.len() - i,
    {
        let ghost before = run_views(rs@.subrange(0, i as int));
        let ghost after = run_views(rs@.subrange(0, i + 1));
        assert(after.drop_last() =~= before);
        let piece = format_run(rs[i].0, rs[i].1.as_str(), show_count);
        r.append(piece.as_str());
        i = i + 1;
    }
    assert(rs@.subrange(0, i as int) =~= rs@);
    r
}

/// The lines of a sequence of runs.
pub open spec fn run_texts(rs: Seq<(nat, Seq<char>)>) -> Seq<Seq<char>> {
    rs.map_values(|r: (nat, Seq<char>)| r.1)
}

/// Whether no two consecutive lines of `ts` are the same line.
pub open spec fn no_adjacent_repeats(ts: Seq<Seq<char>>) -> bool {
    forall|j: int| 0 <= j < ts.len() - 1 ==> !#[trigger] same_line(ts[j], ts[j + 1])
}

proof fn lemma_runs_distinct(lines: Seq<Seq<char>>)
    ensures
        no_adjacent_repeats(run_texts(runs(lines))),
    decreases lines.len(),
{
    if lines.len() > 0 {
        let r = runs(lines.drop_last());
        lemma_runs_distinct(lines.drop_last());
        let ts = run_texts(runs(lines));
        let prev = run_texts(r);
        assert forall|j: int| 0 <= j < ts.len() - 1 implies !#[trigger] same_line(ts[j], ts[j + 1]) by {
            if j + 1 < prev.len() {
                assert(ts[j] == prev[j]);
                assert(ts[j + 1] == prev[j + 1]);
            }
        }
    }
}

proof fn lemma_runs_of_distinct(ts: Seq<Seq<char>>)
    requires
        no_adjacent_repeats(ts),
    ensures
        runs(ts) == ts.map_values(|t: Seq<char>| (1nat, t)),
    decreases ts.len(),
{
    if ts.len() > 0 {
        let init = ts.drop_last();
        assert forall|j: int| 0 <= j < init.len() - 1 implies !#[trigger] same_line(init[j], init[j + 1]) by {
            assert(same_line(ts[j], ts[j + 1]) == same_line(init[j], init[j + 1]));
        }
        lemma_runs_of_distinct(init);
        if init.len() > 0 {
            let j = ts.len() - 2;
            assert(!same_line(ts[j], ts[j + 1]));
        }
        assert(runs(ts) =~= ts.map_values(|t: Seq<char>| (1nat, t)));
    } else {
        assert(runs(ts) =~= ts.map_values(|t: Seq<char>| (1nat, t)));
    }
}

/// Collapsing is idempotent: collapsing the lines that a collapse yields
/// gives each of them back once, each as a run of one line.
pub proof fn lemma_collapse_idempotent(lines: Seq<Seq<char>>)
    ensures
        runs(run_texts(runs(lines))) == run_texts(runs(lines)).map_values(
            |t: Seq<char>| (1nat, t),
        ),
{
    lemma_runs_distinct(lines);
    lemma_runs_of_distinct(run_texts(runs(lines)));
}

proof fn lemma_plain_output_by_texts(a: Seq<(nat, Seq<char>)>, b: Seq<(nat, Seq<char>)>)
    requires
        run_texts(a) == run_texts(b),
    ensures
        output_text(a, false) == output_text(b, false),
    decreases a.len(),
{
    assert(a.len() == run_texts(a).len());
    assert(b.len() == run_texts(b).len());
    if a.len() > 0 {
        assert(run_texts(a.drop_last()) =~= run_texts(a).drop_last());
        assert(run_texts(b.drop_last()) =~= run_texts(b).drop_last());
        lemma_plain_output_by_texts(a.drop_last(), b.drop_last());
        assert(run_texts(a)[a.len() - 1] == a.last().1);
        assert(run_texts(b)[b.len() - 1] == b.last().1);
    }
}

/// Collapsing the lines that a collapse yields prints, without counts, the
/// same text as the first collapse printed.
pub proof fn lemma_collapse_output_stable(lines: Seq<Seq<char>>)
    ensures
        output_text(runs(run_texts(runs(lines))), false) == output_text(runs(lines), false),
{
    lemma_collapse_idempotent(lines);
    let ts = run_texts(runs(lines));
    assert(run_texts(runs(ts)) =~= ts);
    lemma_plain_output_by_texts(runs(ts), runs(lines));
}

/// A line terminator, `\n` or `\r\n`, does not tell two lines apart.
pub proof fn lemma_terminator_same_line(s: Seq<char>)
    ensures
        same_line(s, s.push('\n')),
        same_line(s, s.push('\r').push('\n')),
{
    assert(s.push('\n').drop_last() =~= s);
    assert(s.push('\r').push('\n').drop_last() =~= s.push('\r'));
    assert(s.push('\r').drop_last() =~= s);
    assert(trim_line_end(s.push('\r')) == trim_line_end(s));
    assert(trim_line_end(s.push('\r').push('\n')) == trim_line_end(s.push('\r')));
}

} // verus!
