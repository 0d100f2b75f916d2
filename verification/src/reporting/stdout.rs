//! The plain-text coverage report: per-file counts of covered and coverable
//! lines and, in verbose mode, the ranges of uncovered lines.
use vstd::prelude::*;
use vstd::relations::{sorted_by, total_ordering};
use crate::config::{Config, project_relative};
use crate::paths::{FilePath, PathPart, display};
use crate::text::{decimal, decimal_string, join, join_strings, push_decimal, string_views};
use crate::traces::{
    CoverageStat, Trace, TraceMap, all_traces, child_traces, covered, coverable, uncovered_lines,
};

verus! {

/// The label of a range of lines: `a` for a single line, `a-b` otherwise.
pub open spec fn range_label(first: u64, last: u64) -> Seq<char> {
    if first == last {
        decimal(first as nat)
    } else {
        decimal(first as nat) + seq!['-'] + decimal(last as nat)
    }
}

/// The maximal runs of consecutive line numbers in `s`, in order, each as
/// its first and last line: a line one past the end of the current run
/// extends it, any other line starts a new run.
pub open spec fn line_runs(s: Seq<u64>) -> Seq<(u64, u64)>
    decreases s.len(),
{
    if s.len() == 0 {
        Seq::empty()
    } else {
        let r = line_runs(s.drop_last());
        if r.len() > 0 && s.last() == r.last().1 + 1 {
            r.drop_last().push((r.last().0, s.last()))
        } else {
            r.push((s.last(), s.last()))
        }
    }
}

/// The labels of a sequence of runs.
pub open spec fn run_labels(runs: Seq<(u64, u64)>) -> Seq<Seq<char>> {
    runs.map_values(|r: (u64, u64)| range_label(r.0, r.1))
}

/// The ascending order of line numbers.
pub open spec fn line_order() -> spec_fn(u64, u64) -> bool {
    |a: u64, b: u64| a <= b
}

/// `s` sorted in ascending order.
pub open spec fn sorted_lines(s: Seq<u64>) -> Seq<u64> {
    s.sort_by(line_order())
}

/// The labels that the verbose report gives the uncovered lines of one file:
/// one per run of consecutive uncovered lines, in ascending order. A last run
/// that ends on the line just below `u64::MAX` is not flushed, so it gets no
/// label.
pub open spec fn uncovered_groups(ts: Seq<Trace>) -> Seq<Seq<char>> {
    let runs = line_runs(sorted_lines(uncovered_lines(ts)));
    if runs.len() > 0 && runs.last().1 == u64::MAX - 1 {
        run_labels(runs.drop_last())
    } else {
        run_labels(runs)
    }
}

/// Whether no uncovered line of `ts` is `u64::MAX` (the line number on which
/// the grouping of uncovered lines would overflow).
pub open spec fn uncovered_below_max(ts: Seq<Trace>) -> bool {
    forall|k: int| 0 <= k < uncovered_lines(ts).len() ==> #[trigger] uncovered_lines(ts)[k] < u64::MAX
}

/// The verbose line of one file: its path relative to the project, then the
/// labels of its uncovered runs; nothing where it has no uncovered run.
pub open spec fn verbose_line(manifest: Seq<PathPart>, file: (Seq<PathPart>, Seq<Trace>)) -> Seq<char> {
    let groups = uncovered_groups(file.1);
    if groups.len() == 0 {
        Seq::empty()
    } else {
        display(project_relative(manifest, file.0)) + ": "@ + join(groups, ", "@) + seq!['\n']
    }
}

/// The verbose lines of the first `k` files.
pub open spec fn verbose_lines(
    manifest: Seq<PathPart>,
    entries: Seq<(Seq<PathPart>, Seq<Trace>)>,
    k: nat,
) -> Seq<char>
    decreases k,
{
    if k == 0 {
        Seq::empty()
    } else {
        verbose_lines(manifest, entries, (k - 1) as nat) + verbose_line(manifest, entries[k - 1])
    }
}

/// The count line of the `k`-th file: its path relative to the project, the
/// covered and the coverable items under it.
pub open spec fn count_line(
    manifest: Seq<PathPart>,
    entries: Seq<(Seq<PathPart>, Seq<Trace>)>,
    k: int,
) -> Seq<char> {
    let file = entries[k].0;
    display(project_relative(manifest, file)) + ": "@ + decimal(covered(child_traces(entries, file)))
        + seq!['/'] + decimal(coverable(child_traces(entries, file))) + seq!['\n']
}

/// The count lines of the first `k` files.
pub open spec fn count_lines(
    manifest: Seq<PathPart>,
    entries: Seq<(Seq<PathPart>, Seq<Trace>)>,
    k: nat,
) -> Seq<char>
    decreases k,
{
    if k == 0 {
        Seq::empty()
    } else {
        count_lines(manifest, entries, (k - 1) as nat) + count_line(manifest, entries, k - 1)
    }
}

/// The text of the report, up to the closing percentage line.
pub open spec fn report_text(verbose: bool, manifest: Seq<PathPart>, entries: Seq<(Seq<PathPart>, Seq<Trace>)>) -> Seq<char> {
    if entries.len() == 0 {
        "No Coverage Results Collected\n"@
    } else {
        "Coverage Results\n\n"@ + (if verbose {
            "Uncovered Lines:\n"@ + verbose_lines(manifest, entries, entries.len()) + "\n"@
        } else {
            Seq::empty()
        }) + "Tested / Total Lines:\n"@ + count_lines(manifest, entries, entries.len())
    }
}

/// One step of the grouping of line numbers, on the labels made so far and
/// the run being built: the first line starts a run; a line one past the end
/// of the run extends it; any other line closes the run (adding its label)
/// and starts a new one.
pub open spec fn accumulate_step(state: (Seq<Seq<char>>, Seq<u64>), next: u64) -> (Seq<Seq<char>>, Seq<u64>) {
    if state.1.len() == 0 {
        (state.0, seq![next])
    } else if next == state.1.last() + 1 {
        (state.0, state.1.push(next))
    } else {
        (state.0.push(range_label(state.1[0], state.1.last())), seq![next])
    }
}

/// The grouping state after folding the lines of `xs` in order, from no
/// labels and no run.
pub open spec fn fold_lines(xs: Seq<u64>) -> (Seq<Seq<char>>, Seq<u64>)
    decreases xs.len(),
{
    if xs.len() == 0 {
        (Seq::empty(), Seq::empty())
    } else {
        accumulate_step(fold_lines(xs.drop_last()), xs.last())
    }
}

/// The lines `first..=last`, in order.
pub open spec fn run_lines(first: u64, last: u64) -> Seq<u64> {
    Seq::new((last - first + 1) as nat, |i: int| (first + i) as u64)
}

/// The lines of a sequence of runs, run after run.
pub open spec fn expand_runs(runs: Seq<(u64, u64)>) -> Seq<u64>
    decreases runs.len(),
{
    if runs.len() == 0 {
        Seq::empty()
    } else {
        expand_runs(runs.drop_last()) + run_lines(runs.last().0, runs.last().1)
    }
}

/// The plain-text report: its text, and for a non-empty trace map the totals
/// of covered and coverable items from which the closing percentage line is
/// made.
pub struct StdoutReport {
    pub text: String,
    pub totals: Option<(usize, usize)>,
}

/// Folds one line number into the ranges built so far (`acc`) and the run
/// being built (`group`): a line one past the end of the run extends it;
/// otherwise the run is closed (its label `first` or `first-last` is added to
/// `acc`) and a new run starts at the line.
pub fn accumulate_lines(state: (Vec<String>, Vec<u64>), next: u64) -> (r: (Vec<String>, Vec<u64>))
    requires
        state.1@.len() > 0 ==> state.1@.last() < u64::MAX,
    ensures
        state.1@.len() == 0 ==> string_views(r.0@) == string_views(state.0@) && r.1@ == seq![next],
        state.1@.len() > 0 && next == state.1@.last() + 1 ==> string_views(r.0@) == string_views(
            state.0@,
        ) && r.1@ == state.1@.push(next),
        state.1@.len() > 0 && next != state.1@.last() + 1 ==> string_views(r.0@) == string_views(
            state.0@,
        ).push(range_label(state.1@[0], state.1@.last())) && r.1@ == seq![next],
        (string_views(r.0@), r.1@) == accumulate_step((string_views(state.0@), state.1@), next),
{
    let (mut acc, mut group) = state;
    let ghost acc0 = acc@;
    if group.len() > 0 {
        let last = group[group.len() - 1];
        if next == last + 1 {
            group.push(next);
            (acc, group)
        } else {
            let first = group[0];
            let mut label = decimal_string(first);
            if first != last {
                label.append("-");
                push_decimal(&mut label, last);
                proof {
                    reveal_strlit("-");
                }
            }
            proof {
                if first != last {
                    assert(label@ =~= range_label(first, last));
                }
            }
            acc.push(label);
            proof {
                assert(string_views(acc@) =~= string_views(acc0).push(range_label(first, last)));
            }
            let mut fresh: Vec<u64> = Vec::new();
            fresh.push(next);
            assert(fresh@ =~= seq![next]);
            (acc, fresh)
        }
    } else {
        group.push(next);
        assert(group@ =~= seq![next]);
        (acc, group)
    }
}

proof fn lemma_line_order_total()
    ensures
        total_ordering(line_order()),
{
}

proof fn lemma_runs_last(s: Seq<u64>)
    requires
        s.len() > 0,
    ensures
        line_runs(s).len() > 0,
        line_runs(s).last().1 == s.last(),
{
}

/// Sorts line numbers in ascending order.
pub fn sort_lines(v: Vec<u64>) -> (r: Vec<u64>)
    ensures
        r@ == sorted_lines(v@),
{
    let mut out: Vec<u64> = Vec::new();
    let mut i: usize = 0;
    assert(v@.take(0) =~= out@);
    while i < v.len()
        invariant
            i <= v@.len(),
            sorted_by(out@, line_order()),
            out@.to_multiset() == v@.take(i as int).to_multiset(),
        decreases v@.len() - i,
    {
        let x = v[i];
        let mut p: usize = 0;
        while p < out.len() && out[p] <= x
            invariant
                p <= out@.len(),
                forall|q: int| 0 <= q < p ==> out@[q] <= x,
            decreases out@.len() - p,
        {
            p = p + 1;
        }
        let ghost before = out@;
        out.insert(p, x);
        proof {
            broadcast use vstd::seq_lib::group_to_multiset_ensures;
            assert(out@.remove(p as int) =~= before);
            assert(out@[p as int] == x);
            assert(v@.take(i + 1) =~= v@.take(i as int).push(x));
            assert(out@.to_multiset() =~= before.to_multiset().insert(x)) by {
                broadcast use vstd::multiset::group_multiset_axioms;
                assert(before.to_multiset() =~= out@.to_multiset().remove(x));
                assert(out@.to_multiset().count(x) > 0) by {
                    assert(out@.contains(x)) by {
                        assert(out@[p as int] == x);
                    }
                }
            }
            assert forall|a: int, b: int| 0 <= a < b < out@.len() implies #[trigger] (line_order())(
                out@[a],
                out@[b],
            ) by {
                if a < p && b > p {
                    assert((line_order())(before[a], before[b - 1]));
                } else if a < p && b == p {
                } else if a == p {
                    if p < before.len() {
                        assert(!(before[p as int] <= x));
                        assert(before[p as int] <= before[b - 1]) by {
                            if b - 1 > p {
                                assert((line_order())(before[p as int], before[b - 1]));
                            }
                        }
                    }
                } else if a > p {
                    assert((line_order())(before[a - 1], before[b - 1]));
                } else {
                    assert((line_order())(before[a], before[b]));
                }
            }
        }
        i = i + 1;
    }
    proof {
        assert(v@.take(v@.len() as int) =~= v@);
        lemma_line_order_total();
        v@.lemma_sort_by_ensures(line_order());
        vstd::seq_lib::lemma_sorted_unique(out@, v@.sort_by(line_order()), line_order());
    }
    out
}

/// The lines of `ts` whose statistic is a line with no hits, in order.
pub fn uncovered_in(ts: &Vec<Trace>) -> (r: Vec<u64>)
    ensures
        r@ == uncovered_lines(ts@),
{
    let mut r: Vec<u64> = Vec::new();
    let mut i: usize = 0;
    while i < ts.len()
        invariant
            i <= ts@.len(),
            r@ == uncovered_lines(ts@.take(i as int)),
        decreases ts@.len() - i,
    {
        proof {
            assert(ts@.take(i + 1).drop_last() =~= ts@.take(i as int));
        }
        match ts[i].stats {
            CoverageStat::Line(x) => {
                if x == 0 {
                    r.push(ts[i].line);
                }
            },
            _ => {},
        }
        i = i + 1;
    }
    assert(ts@.take(ts@.len() as int) =~= ts@);
    r
}

/// The labels of the runs of uncovered lines of one file, as the verbose
/// report prints them.
pub fn uncovered_ranges(ts: &Vec<Trace>) -> (r: Vec<String>)
    requires
        uncovered_below_max(ts@),
    ensures
        string_views(r@) == uncovered_groups(ts@),
{
    let lines = uncovered_in(ts);
    let sorted = sort_lines(lines);
    let ghost s = sorted@;
    proof {
        lemma_line_order_total();
        uncovered_lines(ts@).lemma_sort_by_ensures(line_order());
        assert forall|k: int| 0 <= k < s.len() implies #[trigger] s[k] < u64::MAX by {
            broadcast use vstd::seq_lib::group_to_multiset_ensures;
            assert(s.contains(s[k]));
            assert(uncovered_lines(ts@).contains(s[k]));
        }
    }
    let mut acc: Vec<String> = Vec::new();
    let mut group: Vec<u64> = Vec::new();
    let mut i: usize = 0;
    while i < sorted.len()
        invariant
            i <= s.len(),
            s == sorted@,
            forall|k: int| 0 <= k < s.len() ==> #[trigger] s[k] < u64::MAX,
            i == 0 ==> acc@.len() == 0 && group@.len() == 0,
            i > 0 ==> {
                let runs = line_runs(s.take(i as int));
                &&& group@.len() > 0
                &&& runs.len() > 0
                &&& group@[0] == runs.last().0
                &&& group@.last() == runs.last().1
                &&& string_views(acc@) == run_labels(runs.drop_last())
            },
        decreases s.len() - i,
    {
        let x = sorted[i];
        proof {
            assert(s.take(i + 1).drop_last() =~= s.take(i as int));
            assert(s.take(i + 1).last() == x);
            if i > 0 {
                lemma_runs_last(s.take(i as int));
                assert(s.take(i as int).last() == s[i - 1]);
            }
        }
        let ghost runs0 = line_runs(s.take(i as int));
        let ghost acc0 = string_views(acc@);
        let state = accumulate_lines((acc, group), x);
        acc = state.0;
        group = state.1;
        proof {
            let runs1 = line_runs(s.take(i + 1));
            if i == 0 {
                assert(runs0 =~= Seq::<(u64, u64)>::empty());
                assert(runs1 =~= seq![(x, x)]);
                assert(string_views(acc@) =~= run_labels(runs1.drop_last()));
            } else if x == runs0.last().1 + 1 {
                assert(runs1.drop_last() =~= runs0.drop_last());
            } else {
                assert(runs1.drop_last() =~= runs0);
                assert(run_labels(runs0) =~= run_labels(runs0.drop_last()).push(
                    range_label(runs0.last().0, runs0.last().1),
                ));
            }
        }
        i = i + 1;
    }
    proof {
        assert(s.take(s.len() as int) =~= s);
    }
    let ghost runs = line_runs(s);
    let ghost acc_before = string_views(acc@);
    let state = accumulate_lines((acc, group), u64::MAX);
    proof {
        if s.len() == 0 {
            assert(runs =~= Seq::<(u64, u64)>::empty());
            assert(run_labels(runs) =~= Seq::<Seq<char>>::empty());
        } else {
            if runs.last().1 != u64::MAX - 1 {
                assert(run_labels(runs) =~= run_labels(runs.drop_last()).push(
                    range_label(runs.last().0, runs.last().1),
                ));
            }
        }
    }
    state.0
}

/// The verbose section of one file: its line, or nothing where it has no
/// uncovered run.
fn push_verbose_line(out: &mut String, config: &Config, path: &FilePath, ts: &Vec<Trace>)
    requires
        uncovered_below_max(ts@),
    ensures
        final(out)@ == old(out)@ + verbose_line(config.manifest@, (path@, ts@)),
{
    let groups = uncovered_ranges(ts);
    if groups.len() > 0 {
        let rel = config.strip_project_path(path);
        out.append(rel.display().as_str());
        out.append(": ");
        out.append(join_strings(&groups, ", ").as_str());
        crate::text::push_char(out, '\n');
        proof {
            assert(string_views(groups@).len() == groups@.len());
            assert(final(out)@ =~= old(out)@ + verbose_line(config.manifest@, (path@, ts@)));
        }
    } else {
        assert(string_views(groups@).len() == 0);
        assert(final(out)@ =~= old(out)@ + verbose_line(config.manifest@, (path@, ts@)));
    }
}

/// The count line of the `k`-th file.
fn push_count_line(out: &mut String, config: &Config, traces: &TraceMap, k: usize)
    requires
        traces.wf(),
        k < traces@.len(),
    ensures
        final(out)@ == old(out)@ + count_line(config.manifest@, traces@, k as int),
{
    let file = traces.path_at(k);
    let rel = config.strip_project_path(file);
    out.append(rel.display().as_str());
    out.append(": ");
    push_decimal(out, traces.covered_in_path(file) as u64);
    crate::text::push_char(out, '/');
    push_decimal(out, traces.coverable_in_path(file) as u64);
    crate::text::push_char(out, '\n');
    assert(final(out)@ =~= old(out)@ + count_line(config.manifest@, traces@, k as int));
}

/// Whether the uncovered lines of every file lie below `u64::MAX`.
pub open spec fn all_uncovered_below_max(entries: Seq<(Seq<PathPart>, Seq<Trace>)>) -> bool {
    forall|i: int| 0 <= i < entries.len() ==> uncovered_below_max(#[trigger] entries[i].1)
}

/// The plain-text report of `traces`: everything but the closing percentage
/// line, which is made from `totals` (covered and coverable items in all
/// files) where the map is not empty.
pub fn report_body(config: &Config, traces: &TraceMap) -> (r: StdoutReport)
    requires
        traces.wf(),
        config.verbose ==> all_uncovered_below_max(traces@),
    ensures
        r.text@ == report_text(config.verbose, config.manifest@, traces@),
        traces@.len() == 0 ==> r.totals is None,
        traces@.len() > 0 ==> r.totals == Some(
            (covered(all_traces(traces@)) as usize, coverable(all_traces(traces@)) as usize),
        ),
{
    let mut text = String::new();
    if traces.is_empty() {
        text.append("No Coverage Results Collected\n");
        assert(text@ =~= report_text(config.verbose, config.manifest@, traces@));
        return StdoutReport { text, totals: None };
    }
    text.append("Coverage Results\n\n");
    let ghost head = text@;
    if config.verbose {
        text.append("Uncovered Lines:\n");
        let ghost start = text@;
        let mut i: usize = 0;
        while i < traces.file_count()
            invariant
                i <= traces@.len(),
                all_uncovered_below_max(traces@),
                text@ == start + verbose_lines(config.manifest@, traces@, i as nat),
            decreases traces@.len() - i,
        {
            assert(uncovered_below_max(traces@[i as int].1));
            push_verbose_line(&mut text, config, traces.path_at(i), traces.traces_at(i));
            assert(text@ =~= start + verbose_lines(config.manifest@, traces@, (i + 1) as nat));
            i = i + 1;
        }
        text.append("\n");
    }
    let ghost mid = text@;
    text.append("Tested / Total Lines:\n");
    let ghost start = text@;
    let mut k: usize = 0;
    while k < traces.file_count()
        invariant
            k <= traces@.len(),
            traces.wf(),
            text@ == start + count_lines(config.manifest@, traces@, k as nat),
        decreases traces@.len() - k,
    {
        push_count_line(&mut text, config, traces, k);
        assert(text@ =~= start + count_lines(config.manifest@, traces@, (k + 1) as nat));
        k = k + 1;
    }
    let covered_total = traces.total_covered();
    let coverable_total = traces.total_coverable();
    assert(text@ =~= report_text(config.verbose, config.manifest@, traces@));
    StdoutReport { text, totals: Some((covered_total, coverable_total)) }
}

/// Whether `s` is strictly increasing.
pub open spec fn strictly_increasing(s: Seq<u64>) -> bool {
    forall|i: int, j: int| 0 <= i < j < s.len() ==> s[i] < s[j]
}

/// The grouping of line numbers into runs yields maximal ranges: for a
/// strictly increasing sequence of lines, every run starts no later than it
/// ends, the runs are in ascending order with at least one missing line
/// between two runs, and a line is in the sequence exactly when it lies in
/// one of the runs.
pub proof fn law_runs_are_maximal_ranges(s: Seq<u64>)
    requires
        strictly_increasing(s),
    ensures
        forall|i: int| 0 <= i < line_runs(s).len() ==> (#[trigger] line_runs(s)[i]).0 <= line_runs(s)[i].1,
        forall|i: int, j: int|
            0 <= i < j < line_runs(s).len() ==> (#[trigger] line_runs(s)[i]).1 + 1 < (#[trigger] line_runs(s)[j]).0,
        forall|x: u64|
            s.contains(x) <==> exists|i: int|
                0 <= i < line_runs(s).len() && (#[trigger] line_runs(s)[i]).0 <= x <= line_runs(s)[i].1,
    decreases s.len(),
{
    let runs = line_runs(s);
    if s.len() > 0 {
        let t = s.drop_last();
        let x = s.last();
        assert(strictly_increasing(t));
        law_runs_are_maximal_ranges(t);
        let r = line_runs(t);
        if t.len() > 0 {
            lemma_runs_last(t);
            assert(t.last() == s[s.len() - 2]);
            assert(t.last() < x);
        }
        if r.len() > 0 && x == r.last().1 + 1 {
            assert(runs == r.drop_last().push((r.last().0, x)));
            assert forall|y: u64| s.contains(y) <==> exists|i: int|
                0 <= i < runs.len() && (#[trigger] runs[i]).0 <= y <= runs[i].1 by {
                if s.contains(y) {
                    if y == x {
                        assert(runs[runs.len() - 1].0 <= y <= runs[runs.len() - 1].1);
                    } else {
                        let k = choose|k: int| 0 <= k < s.len() && s[k] == y;
                        assert(t[k] == y);
                        assert(t.contains(y));
                        let i = choose|i: int| 0 <= i < r.len() && (#[trigger] r[i]).0 <= y <= r[i].1;
                        assert(runs[i].0 <= y <= runs[i].1);
                    }
                }
                if exists|i: int| 0 <= i < runs.len() && (#[trigger] runs[i]).0 <= y <= runs[i].1 {
                    let i = choose|i: int| 0 <= i < runs.len() && (#[trigger] runs[i]).0 <= y <= runs[i].1;
                    if i < runs.len() - 1 {
                        assert(r[i] == runs[i]);
                        assert(t.contains(y));
                        let k = choose|k: int| 0 <= k < t.len() && t[k] == y;
                        assert(s[k] == y);
                    } else if y == x {
                        assert(s[s.len() - 1] == y);
                    } else {
                        assert(r[r.len() - 1].0 <= y <= r[r.len() - 1].1);
                        assert(t.contains(y));
                        let k = choose|k: int| 0 <= k < t.len() && t[k] == y;
                        assert(s[k] == y);
                    }
                }
            }
        } else {
            assert(runs == r.push((x, x)));
            if r.len() > 0 {
                assert(r.last().1 == t.last());
            }
            assert forall|y: u64| s.contains(y) <==> exists|i: int|
                0 <= i < runs.len() && (#[trigger] runs[i]).0 <= y <= runs[i].1 by {
                if s.contains(y) {
                    if y == x {
                        assert(runs[runs.len() - 1].0 <= y <= runs[runs.len() - 1].1);
                    } else {
                        let k = choose|k: int| 0 <= k < s.len() && s[k] == y;
                        assert(t[k] == y);
                        assert(t.contains(y));
                        let i = choose|i: int| 0 <= i < r.len() && (#[trigger] r[i]).0 <= y <= r[i].1;
                        assert(runs[i].0 <= y <= runs[i].1);
                    }
                }
                if exists|i: int| 0 <= i < runs.len() && (#[trigger] runs[i]).0 <= y <= runs[i].1 {
                    let i = choose|i: int| 0 <= i < runs.len() && (#[trigger] runs[i]).0 <= y <= runs[i].1;
                    if i < runs.len() - 1 {
                        assert(r[i] == runs[i]);
                        assert(t.contains(y));
                        let k = choose|k: int| 0 <= k < t.len() && t[k] == y;
                        assert(s[k] == y);
                    } else {
                        assert(s[s.len() - 1] == y);
                    }
                }
            }
            assert forall|i: int, j: int|
                0 <= i < j < runs.len() implies (#[trigger] runs[i]).1 + 1 < (#[trigger] runs[j]).0 by {
                if j == runs.len() - 1 {
                    if i < r.len() - 1 {
                        assert(r[i].1 + 1 < r[r.len() - 1].0);
                    }
                    assert(r[r.len() - 1].0 <= r[r.len() - 1].1);
                } else {
                    assert(r[i].1 + 1 < r[j].0);
                }
            }
        }
    }
}

proof fn lemma_fold_lines(xs: Seq<u64>)
    requires
        forall|k: int| 0 <= k < xs.len() ==> #[trigger] xs[k] < u64::MAX,
    ensures
        xs.len() == 0 ==> fold_lines(xs).0.len() == 0 && fold_lines(xs).1.len() == 0,
        xs.len() > 0 ==> {
            let runs = line_runs(xs);
            &&& fold_lines(xs).1.len() > 0
            &&& runs.len() > 0
            &&& fold_lines(xs).1[0] == runs.last().0
            &&& fold_lines(xs).1.last() == runs.last().1
            &&& fold_lines(xs).0 == run_labels(runs.drop_last())
        },
    decreases xs.len(),
{
    if xs.len() > 0 {
        let t = xs.drop_last();
        let x = xs.last();
        assert forall|k: int| 0 <= k < t.len() implies #[trigger] t[k] < u64::MAX by {
            assert(t[k] == xs[k]);
        }
        lemma_fold_lines(t);
        let r = line_runs(t);
        let runs = line_runs(xs);
        if t.len() == 0 {
            assert(r =~= Seq::<(u64, u64)>::empty());
            assert(runs =~= seq![(x, x)]);
            assert(run_labels(runs.drop_last()) =~= Seq::<Seq<char>>::empty());
        } else {
            lemma_runs_last(t);
            if x == r.last().1 + 1 {
                assert(runs.drop_last() =~= r.drop_last());
            } else {
                assert(runs.drop_last() =~= r);
                assert(run_labels(r) =~= run_labels(r.drop_last()).push(range_label(r.last().0, r.last().1)));
            }
        }
    }
}

/// Folding line numbers in order and then flushing with `u64::MAX` labels the
/// maximal runs: for lines all below `u64::MAX - 1`, the labels are those of
/// `line_runs` (`a` or `a-b` per run, in order) and the run left open is the
/// single line `u64::MAX`.
pub proof fn law_fold_then_flush_gives_runs(xs: Seq<u64>)
    requires
        forall|k: int| 0 <= k < xs.len() ==> #[trigger] xs[k] < u64::MAX - 1,
    ensures
        accumulate_step(fold_lines(xs), u64::MAX) == (run_labels(line_runs(xs)), seq![u64::MAX]),
{
    assert forall|k: int| 0 <= k < xs.len() implies #[trigger] xs[k] < u64::MAX by {}
    lemma_fold_lines(xs);
    let runs = line_runs(xs);
    if xs.len() == 0 {
        assert(runs =~= Seq::<(u64, u64)>::empty());
        assert(run_labels(runs) =~= Seq::<Seq<char>>::empty());
    } else {
        lemma_runs_last(xs);
        assert(xs[xs.len() - 1] < u64::MAX - 1);
        assert(run_labels(runs) =~= run_labels(runs.drop_last()).push(range_label(runs.last().0, runs.last().1)));
    }
}

/// Expanding the runs of a strictly increasing sequence of lines gives the
/// sequence back.
pub proof fn law_runs_expand_to_lines(xs: Seq<u64>)
    requires
        strictly_increasing(xs),
    ensures
        expand_runs(line_runs(xs)) == xs,
    decreases xs.len(),
{
    if xs.len() > 0 {
        let t = xs.drop_last();
        let x = xs.last();
        assert(strictly_increasing(t));
        law_runs_expand_to_lines(t);
        law_runs_are_maximal_ranges(t);
        let r = line_runs(t);
        let runs = line_runs(xs);
        if t.len() > 0 {
            lemma_runs_last(t);
        }
        if r.len() > 0 && x == r.last().1 + 1 {
            let a = r.last().0;
            let b = r.last().1;
            assert(r[r.len() - 1].0 <= r[r.len() - 1].1);
            assert(runs.drop_last() =~= r.drop_last());
            assert(runs.last() == (a, x));
            assert(run_lines(a, x) =~= run_lines(a, b).push(x));
            assert(expand_runs(runs) =~= expand_runs(r).push(x));
        } else {
            assert(runs.drop_last() =~= r);
            assert(run_lines(x, x) =~= seq![x]);
            assert(expand_runs(runs) =~= expand_runs(r).push(x));
        }
        assert(t.push(x) =~= xs);
    }
}

/// The uncovered lines of two sequences of traces, one after the other.
pub proof fn lemma_uncovered_lines_concat(a: Seq<Trace>, b: Seq<Trace>)
    ensures
        uncovered_lines(a + b) == uncovered_lines(a) + uncovered_lines(b),
    decreases b.len(),
{
    if b.len() == 0 {
        assert(a + b =~= a);
        assert(uncovered_lines(a) + uncovered_lines(b) =~= uncovered_lines(a));
    } else {
        lemma_uncovered_lines_concat(a, b.drop_last());
        assert((a + b).drop_last() =~= a + b.drop_last());
        assert((a + b).last() == b.last());
        if b.last().stats == CoverageStat::Line(0) {
            assert(uncovered_lines(a) + uncovered_lines(b) =~= (uncovered_lines(a) + uncovered_lines(
                b.drop_last(),
            )).push(b.last().line));
        } else {
            assert(uncovered_lines(a) + uncovered_lines(b) =~= uncovered_lines(a) + uncovered_lines(
                b.drop_last(),
            ));
        }
    }
}

/// A trace that is not a line without hits adds no uncovered line, wherever
/// it is inserted.
pub proof fn law_other_traces_add_no_uncovered_line(a: Seq<Trace>, t: Trace, b: Seq<Trace>)
    requires
        t.stats != CoverageStat::Line(0),
    ensures
        uncovered_lines(a + seq![t] + b) == uncovered_lines(a + b),
{
    lemma_uncovered_lines_concat(a + seq![t], b);
    lemma_uncovered_lines_concat(a, seq![t]);
    lemma_uncovered_lines_concat(a, b);
    assert(seq![t].drop_last() =~= Seq::<Trace>::empty());
    assert(seq![t].last() == t);
    assert(uncovered_lines(Seq::<Trace>::empty()) =~= Seq::<u64>::empty());
    assert(uncovered_lines(seq![t]) =~= Seq::<u64>::empty());
    assert(uncovered_lines(a) + uncovered_lines(seq![t]) =~= uncovered_lines(a));
}

/// Swapping two neighbouring traces keeps the same uncovered lines, up to
/// order (any reordering is made of such swaps).
pub proof fn law_swapping_traces_keeps_uncovered_lines(a: Seq<Trace>, t1: Trace, t2: Trace, b: Seq<Trace>)
    ensures
        uncovered_lines(a + seq![t1, t2] + b).to_multiset() == uncovered_lines(a + seq![t2, t1] + b).to_multiset(),
{
    broadcast use vstd::seq_lib::group_to_multiset_ensures;
    lemma_uncovered_lines_concat(a + seq![t1, t2], b);
    lemma_uncovered_lines_concat(a, seq![t1, t2]);
    lemma_uncovered_lines_concat(a + seq![t2, t1], b);
    lemma_uncovered_lines_concat(a, seq![t2, t1]);
    lemma_uncovered_lines_concat(seq![t1], seq![t2]);
    lemma_uncovered_lines_concat(seq![t2], seq![t1]);
    assert(seq![t1] + seq![t2] =~= seq![t1, t2]);
    assert(seq![t2] + seq![t1] =~= seq![t2, t1]);
    let u1 = uncovered_lines(seq![t1]);
    let u2 = uncovered_lines(seq![t2]);
    vstd::seq_lib::lemma_multiset_commutative(u1, u2);
    vstd::seq_lib::lemma_multiset_commutative(u2, u1);
    let ua = uncovered_lines(a);
    let ub = uncovered_lines(b);
    vstd::seq_lib::lemma_multiset_commutative(ua + (u1 + u2), ub);
    vstd::seq_lib::lemma_multiset_commutative(ua + (u2 + u1), ub);
    vstd::seq_lib::lemma_multiset_commutative(ua, u1 + u2);
    vstd::seq_lib::lemma_multiset_commutative(ua, u2 + u1);
    assert((u1 + u2).to_multiset() =~= (u2 + u1).to_multiset()) by {
        broadcast use vstd::multiset::group_multiset_axioms;
    }
}

/// The verbose line of a file depends only on its uncovered lines, not on
/// their order nor on its other traces: two sequences of traces with the same
/// uncovered lines (counted with repeats) give the same line.
pub proof fn law_verbose_line_depends_on_uncovered_lines(
    manifest: Seq<PathPart>,
    path: Seq<PathPart>,
    ts1: Seq<Trace>,
    ts2: Seq<Trace>,
)
    requires
        uncovered_lines(ts1).to_multiset() == uncovered_lines(ts2).to_multiset(),
    ensures
        uncovered_groups(ts1) == uncovered_groups(ts2),
        verbose_line(manifest, (path, ts1)) == verbose_line(manifest, (path, ts2)),
{
    let u1 = uncovered_lines(ts1);
    let u2 = uncovered_lines(ts2);
    lemma_line_order_total();
    u1.lemma_sort_by_ensures(line_order());
    u2.lemma_sort_by_ensures(line_order());
    vstd::seq_lib::lemma_sorted_unique(u1.sort_by(line_order()), u2.sort_by(line_order()), line_order());
}

/// Whether `s` is in ascending order, repeats allowed.
pub open spec fn ascending(s: Seq<u64>) -> bool {
    forall|i: int, j: int| 0 <= i < j < s.len() ==> s[i] <= s[j]
}

/// The runs of an ascending sequence of lines (repeats allowed): each run
/// starts no later than it ends, the runs come in ascending order, a run is
/// never directly followed by one that starts on the line after its end, and a
/// line is in the sequence exactly when it lies in one of the runs.
proof fn lemma_runs_of_ascending(s: Seq<u64>)
    requires
        ascending(s),
    ensures
        forall|i: int| 0 <= i < line_runs(s).len() ==> (#[trigger] line_runs(s)[i]).0 <= line_runs(s)[i].1,
        forall|i: int, j: int|
            0 <= i < j < line_runs(s).len() ==> (#[trigger] line_runs(s)[i]).1 <= (#[trigger] line_runs(s)[j]).0,
        forall|i: int, j: int|
            0 <= i && j == i + 1 && j < line_runs(s).len() ==> (#[trigger] line_runs(s)[i]).1 + 1
                != (#[trigger] line_runs(s)[j]).0,
        forall|x: u64|
            s.contains(x) <==> exists|i: int|
                0 <= i < line_runs(s).len() && (#[trigger] line_runs(s)[i]).0 <= x <= line_runs(s)[i].1,
    decreases s.len(),
{
    let runs = line_runs(s);
    if s.len() > 0 {
        let t = s.drop_last();
        let x = s.last();
        assert(ascending(t));
        lemma_runs_of_ascending(t);
        let r = line_runs(t);
        if t.len() > 0 {
            lemma_runs_last(t);
            assert(t.last() == s[s.len() - 2]);
            assert(t.last() <= x);
        }
        if r.len() > 0 && x == r.last().1 + 1 {
            assert(runs == r.drop_last().push((r.last().0, x)));
            assert(r[r.len() - 1].0 <= r[r.len() - 1].1);
            assert forall|i: int, j: int|
                0 <= i < j < runs.len() implies (#[trigger] runs[i]).1 <= (#[trigger] runs[j]).0 by {
                assert(r[i].1 <= r[j].0);
            }
            assert forall|i: int, j: int|
                0 <= i && j == i + 1 && j < runs.len() implies (#[trigger] runs[i]).1 + 1 != (#[trigger] runs[j]).0 by {
                assert(r[i].1 + 1 != r[j].0);
            }
            assert forall|y: u64| s.contains(y) <==> exists|i: int|
                0 <= i < runs.len() && (#[trigger] runs[i]).0 <= y <= runs[i].1 by {
                if s.contains(y) {
                    if y == x {
                        assert(runs[runs.len() - 1].0 <= y <= runs[runs.len() - 1].1);
                    } else {
                        let k = choose|k: int| 0 <= k < s.len() && s[k] == y;
                        assert(t[k] == y);
                        assert(t.contains(y));
                        let i = choose|i: int| 0 <= i < r.len() && (#[trigger] r[i]).0 <= y <= r[i].1;
                        assert(runs[i].0 <= y <= runs[i].1);
                    }
                }
                if exists|i: int| 0 <= i < runs.len() && (#[trigger] runs[i]).0 <= y <= runs[i].1 {
                    let i = choose|i: int| 0 <= i < runs.len() && (#[trigger] runs[i]).0 <= y <= runs[i].1;
                    if i < runs.len() - 1 {
                        assert(r[i] == runs[i]);
                        assert(t.contains(y));
                        let k = choose|k: int| 0 <= k < t.len() && t[k] == y;
                        assert(s[k] == y);
                    } else if y == x {
                        assert(s[s.len() - 1] == y);
                    } else {
                        assert(r[r.len() - 1].0 <= y <= r[r.len() - 1].1);
                        assert(t.contains(y));
                        let k = choose|k: int| 0 <= k < t.len() && t[k] == y;
                        assert(s[k] == y);
                    }
                }
            }
        } else {
            assert(runs == r.push((x, x)));
            if r.len() > 0 {
                assert(r.last().1 == t.last());
            }
            assert forall|y: u64| s.contains(y) <==> exists|i: int|
                0 <= i < runs.len() && (#[trigger] runs[i]).0 <= y <= runs[i].1 by {
                if s.contains(y) {
                    if y == x {
                        assert(runs[runs.len() - 1].0 <= y <= runs[runs.len() - 1].1);
                    } else {
                        let k = choose|k: int| 0 <= k < s.len() && s[k] == y;
                        assert(t[k] == y);
                        assert(t.contains(y));
                        let i = choose|i: int| 0 <= i < r.len() && (#[trigger] r[i]).0 <= y <= r[i].1;
                        assert(runs[i].0 <= y <= runs[i].1);
                    }
                }
                if exists|i: int| 0 <= i < runs.len() && (#[trigger] runs[i]).0 <= y <= runs[i].1 {
                    let i = choose|i: int| 0 <= i < runs.len() && (#[trigger] runs[i]).0 <= y <= runs[i].1;
                    if i < runs.len() - 1 {
                        assert(r[i] == runs[i]);
                        assert(t.contains(y));
                        let k = choose|k: int| 0 <= k < t.len() && t[k] == y;
                        assert(s[k] == y);
                    } else {
                        assert(s[s.len() - 1] == y);
                    }
                }
            }
            assert forall|i: int, j: int|
                0 <= i < j < runs.len() implies (#[trigger] runs[i]).1 <= (#[trigger] runs[j]).0 by {
                if j == runs.len() - 1 {
                    if i < r.len() - 1 {
                        assert(r[i].1 <= r[r.len() - 1].0);
                    }
                    assert(r[r.len() - 1].0 <= r[r.len() - 1].1);
                } else {
                    assert(r[i].1 <= r[j].0);
                }
            }
            assert forall|i: int, j: int|
                0 <= i && j == i + 1 && j < runs.len() implies (#[trigger] runs[i]).1 + 1 != (#[trigger] runs[j]).0 by {
                if j < runs.len() - 1 {
                    assert(r[i].1 + 1 != r[j].0);
                }
            }
        }
    }
}

/// What the verbose report lists for a file whose uncovered lines all lie
/// below `u64::MAX - 1`: one label per run of its uncovered lines taken in
/// ascending order, `a` for a run of the single line `a` and `a-b` for a run
/// from line `a` to line `b`. The runs start no later than they end, come in
/// ascending order, are never directly followed by a run that starts on the
/// next line, and together hold exactly the uncovered lines: a line is
/// uncovered exactly when it lies in one of the labelled ranges.
pub proof fn law_uncovered_groups_label_the_runs(ts: Seq<Trace>)
    requires
        forall|k: int| 0 <= k < uncovered_lines(ts).len() ==> #[trigger] uncovered_lines(ts)[k] < u64::MAX - 1,
    ensures
        ({
            let runs = line_runs(sorted_lines(uncovered_lines(ts)));
            let groups = uncovered_groups(ts);
            &&& groups.len() == runs.len()
            &&& forall|i: int|
                0 <= i < runs.len() ==> #[trigger] groups[i] == (if runs[i].0 == runs[i].1 {
                    decimal(runs[i].0 as nat)
                } else {
                    decimal(runs[i].0 as nat) + "-"@ + decimal(runs[i].1 as nat)
                })
            &&& forall|i: int| 0 <= i < runs.len() ==> (#[trigger] runs[i]).0 <= runs[i].1
            &&& forall|i: int, j: int| 0 <= i < j < runs.len() ==> (#[trigger] runs[i]).1 <= (#[trigger] runs[j]).0
            &&& forall|i: int, j: int|
                0 <= i && j == i + 1 && j < runs.len() ==> (#[trigger] runs[i]).1 + 1 != (#[trigger] runs[j]).0
            &&& forall|x: u64|
                uncovered_lines(ts).contains(x) <==> exists|i: int|
                    0 <= i < runs.len() && (#[trigger] runs[i]).0 <= x <= runs[i].1
        }),
{
    let u = uncovered_lines(ts);
    let s = sorted_lines(u);
    let runs = line_runs(s);
    lemma_line_order_total();
    u.lemma_sort_by_ensures(line_order());
    assert forall|i: int, j: int| 0 <= i < j < s.len() implies s[i] <= s[j] by {
        assert((line_order())(s[i], s[j]));
    }
    lemma_runs_of_ascending(s);
    assert forall|x: u64| #[trigger] u.contains(x) <==> s.contains(x) by {
        broadcast use vstd::seq_lib::group_to_multiset_ensures;
        assert(u.to_multiset().count(x) == s.to_multiset().count(x));
    }
    if runs.len() > 0 {
        lemma_runs_last(s);
        assert(s.contains(s.last()));
        assert(u.contains(s.last()));
        let k = choose|k: int| 0 <= k < u.len() && u[k] == s.last();
        assert(u[k] < u64::MAX - 1);
    }
    reveal_strlit("-");
    assert("-"@ =~= seq!['-']);
    assert(uncovered_groups(ts) == run_labels(runs));
}

} // verus!
