//! Coverage traces: per source file, the coverage statistic of each traced
//! line, with the counts of coverable and covered items under a path.
use vstd::prelude::*;
use crate::paths::{FilePath, PathPart, starts_with};

verus! {

/// Which ways a logical condition has gone.
#[derive(Clone, Copy)]
pub struct LogicState {
    pub been_true: bool,
    pub been_false: bool,
}

/// The coverage statistic of one trace.
pub enum CoverageStat {
    /// A line and the number of times it was hit.
    Line(u64),
    /// A branch and which ways it went.
    Branch(LogicState),
    /// A condition made of several logical states.
    Condition(Vec<LogicState>),
}

/// One traced location of a source file.
pub struct Trace {
    /// The line number.
    pub line: u64,
    /// The instruction address, where one is known.
    pub address: Option<u64>,
    /// The length of the traced instruction.
    pub length: usize,
    /// What was recorded for it.
    pub stats: CoverageStat,
}

/// The traces of one source file.
pub struct FileTraces {
    path: FilePath,
    traces: Vec<Trace>,
}

/// The traces of all source files, one entry per file, in the order the
/// files were first added.
pub struct TraceMap {
    entries: Vec<FileTraces>,
}

/// The number of ways a logical state has gone (0, 1 or 2).
pub open spec fn state_covered(s: LogicState) -> nat {
    (if s.been_true { 1nat } else { 0nat }) + (if s.been_false { 1nat } else { 0nat })
}

/// The number of ways the states of a condition have gone.
pub open spec fn states_covered(v: Seq<LogicState>) -> nat
    decreases v.len(),
{
    if v.len() == 0 {
        0
    } else {
        states_covered(v.drop_last()) + state_covered(v.last())
    }
}

/// How many coverable items a trace stands for: one for a line, two for a
/// branch, two per state of a condition.
pub open spec fn amount_coverable(t: Trace) -> nat {
    match t.stats {
        CoverageStat::Line(_) => 1,
        CoverageStat::Branch(_) => 2,
        CoverageStat::Condition(v) => 2 * v@.len(),
    }
}

/// How many of a trace's coverable items were covered.
pub open spec fn amount_covered(t: Trace) -> nat {
    match t.stats {
        CoverageStat::Line(hits) => if hits > 0 { 1 } else { 0 },
        CoverageStat::Branch(s) => state_covered(s),
        CoverageStat::Condition(v) => states_covered(v@),
    }
}

/// The coverable items of a sequence of traces.
pub open spec fn coverable(ts: Seq<Trace>) -> nat
    decreases ts.len(),
{
    if ts.len() == 0 {
        0
    } else {
        coverable(ts.drop_last()) + amount_coverable(ts.last())
    }
}

/// The covered items of a sequence of traces.
pub open spec fn covered(ts: Seq<Trace>) -> nat
    decreases ts.len(),
{
    if ts.len() == 0 {
        0
    } else {
        covered(ts.drop_last()) + amount_covered(ts.last())
    }
}

/// The traces of every file under `root` (whose path starts with `root`), in
/// file order.
pub open spec fn child_traces(entries: Seq<(Seq<PathPart>, Seq<Trace>)>, root: Seq<PathPart>) -> Seq<Trace>
    decreases entries.len(),
{
    if entries.len() == 0 {
        Seq::empty()
    } else if starts_with(entries.last().0, root) {
        child_traces(entries.drop_last(), root) + entries.last().1
    } else {
        child_traces(entries.drop_last(), root)
    }
}

/// Every trace, in file order.
pub open spec fn all_traces(entries: Seq<(Seq<PathPart>, Seq<Trace>)>) -> Seq<Trace> {
    child_traces(entries, Seq::empty())
}

/// The files of a trace map, in order.
pub open spec fn files_of(entries: Seq<(Seq<PathPart>, Seq<Trace>)>) -> Seq<Seq<PathPart>> {
    entries.map_values(|e: (Seq<PathPart>, Seq<Trace>)| e.0)
}

/// The lines of a sequence of traces whose line statistic shows no hits, in order.
pub open spec fn uncovered_lines(ts: Seq<Trace>) -> Seq<u64>
    decreases ts.len(),
{
    if ts.len() == 0 {
        Seq::empty()
    } else if ts.last().stats == CoverageStat::Line(0) {
        uncovered_lines(ts.drop_last()).push(ts.last().line)
    } else {
        uncovered_lines(ts.drop_last())
    }
}

impl View for FileTraces {
    type V = (Seq<PathPart>, Seq<Trace>);

    closed spec fn view(&self) -> (Seq<PathPart>, Seq<Trace>) {
        (self.path@, self.traces@)
    }
}

impl View for TraceMap {
    type V = Seq<(Seq<PathPart>, Seq<Trace>)>;

    closed spec fn view(&self) -> Seq<(Seq<PathPart>, Seq<Trace>)> {
        self.entries@.map_values(|e: FileTraces| e@)
    }
}

pub proof fn lemma_states_covered_bound(v: Seq<LogicState>)
    ensures
        states_covered(v) <= 2 * v.len(),
    decreases v.len(),
{
    if v.len() > 0 {
        lemma_states_covered_bound(v.drop_last());
    }
}

pub proof fn lemma_amount_covered_bound(t: Trace)
    ensures
        amount_covered(t) <= amount_coverable(t),
{
    match t.stats {
        CoverageStat::Condition(v) => lemma_states_covered_bound(v@),
        _ => {},
    }
}

pub proof fn lemma_coverable_concat(a: Seq<Trace>, b: Seq<Trace>)
    ensures
        coverable(a + b) == coverable(a) + coverable(b),
        covered(a + b) == covered(a) + covered(b),
    decreases b.len(),
{
    if b.len() == 0 {
        assert(a + b =~= a);
    } else {
        lemma_coverable_concat(a, b.drop_last());
        assert((a + b).drop_last() =~= a + b.drop_last());
    }
}

pub proof fn lemma_coverable_prefix(ts: Seq<Trace>, k: int)
    requires
        0 <= k <= ts.len(),
    ensures
        coverable(ts.take(k)) <= coverable(ts),
        covered(ts.take(k)) <= covered(ts),
    decreases ts.len(),
{
    if k < ts.len() {
        lemma_coverable_prefix(ts.drop_last(), k);
        assert(ts.drop_last().take(k) =~= ts.take(k));
    } else {
        assert(ts.take(k) =~= ts);
    }
}

pub proof fn lemma_child_within_all(entries: Seq<(Seq<PathPart>, Seq<Trace>)>, root: Seq<PathPart>)
    ensures
        coverable(child_traces(entries, root)) <= coverable(all_traces(entries)),
    decreases entries.len(),
{
    if entries.len() > 0 {
        let e = entries.drop_last();
        lemma_child_within_all(e, root);
        let empty = Seq::<PathPart>::empty();
        assert(entries.last().0.take(0) =~= empty);
        assert(starts_with(entries.last().0, empty));
        lemma_coverable_concat(child_traces(e, empty), entries.last().1);
        if starts_with(entries.last().0, root) {
            lemma_coverable_concat(child_traces(e, root), entries.last().1);
        }
    }
}

/// Coverage never exceeds what can be covered.
pub proof fn lemma_covered_within_coverable(ts: Seq<Trace>)
    ensures
        covered(ts) <= coverable(ts),
    decreases ts.len(),
{
    if ts.len() > 0 {
        lemma_covered_within_coverable(ts.drop_last());
        lemma_amount_covered_bound(ts.last());
    }
}

/// How many items a trace stands for.
pub fn trace_coverable(t: &Trace) -> (r: usize)
    requires
        amount_coverable(*t) <= usize::MAX,
    ensures
        r == amount_coverable(*t),
{
    match &t.stats {
        CoverageStat::Line(_) => 1,
        CoverageStat::Branch(_) => 2,
        CoverageStat::Condition(v) => 2 * v.len(),
    }
}

fn state_hits(s: LogicState) -> (r: usize)
    ensures
        r == state_covered(s),
{
    (if s.been_true { 1 } else { 0 }) + (if s.been_false { 1 } else { 0 })
}

/// How many of a trace's items were covered.
pub fn trace_covered(t: &Trace) -> (r: usize)
    requires
        amount_coverable(*t) <= usize::MAX,
    ensures
        r == amount_covered(*t),
{
    proof {
        lemma_amount_covered_bound(*t);
    }
    match &t.stats {
        CoverageStat::Line(hits) => if *hits > 0 { 1 } else { 0 },
        CoverageStat::Branch(s) => state_hits(*s),
        CoverageStat::Condition(v) => {
            let mut acc: usize = 0;
            let mut i: usize = 0;
            proof {
                lemma_states_covered_bound(v@);
            }
            while i < v.len()
                invariant
                    i <= v@.len(),
                    2 * v@.len() <= usize::MAX,
                    acc == states_covered(v@.take(i as int)),
                    acc <= 2 * i,
                decreases v@.len() - i,
            {
                proof {
                    assert(v@.take(i + 1).drop_last() =~= v@.take(i as int));
                }
                acc = acc + state_hits(v[i]);
                i = i + 1;
            }
            assert(v@.take(v@.len() as int) =~= v@);
            acc
        },
    }
}

impl TraceMap {
    /// Whether the map is well formed: no file appears twice, and the number of
    /// coverable items fits in a `usize`.
    pub open spec fn wf(&self) -> bool {
        &&& forall|i: int, j: int|
            0 <= i < j < self@.len() ==> (#[trigger] self@[i]).0 != (#[trigger] self@[j]).0
        &&& coverable(all_traces(self@)) <= usize::MAX
    }

    /// An empty map.
    pub fn new() -> (r: TraceMap)
        ensures
            r.wf(),
            r@ == Seq::<(Seq<PathPart>, Seq<Trace>)>::empty(),
    {
        let r = TraceMap { entries: Vec::new() };
        assert(r@ =~= Seq::<(Seq<PathPart>, Seq<Trace>)>::empty());
        r
    }

    /// Whether no file has been traced.
    pub fn is_empty(&self) -> (r: bool)
        ensures
            r == (self@.len() == 0),
    {
        self.entries.len() == 0
    }

    /// The number of files.
    pub fn file_count(&self) -> (r: usize)
        ensures
            r == self@.len(),
    {
        self.entries.len()
    }

    /// The path of the `i`-th file.
    pub fn path_at(&self, i: usize) -> (r: &FilePath)
        requires
            i < self@.len(),
        ensures
            r@ == self@[i as int].0,
    {
        &self.entries[i].path
    }

    /// The traces of the `i`-th file.
    pub fn traces_at(&self, i: usize) -> (r: &Vec<Trace>)
        requires
            i < self@.len(),
        ensures
            r@ == self@[i as int].1,
    {
        &self.entries[i].traces
    }

    /// The files, in order.
    pub fn files(&self) -> (r: Vec<FilePath>)
        ensures
            r@.len() == self@.len(),
            forall|i: int| 0 <= i < self@.len() ==> (#[trigger] r@[i])@ == self@[i].0,
    {
        let mut r: Vec<FilePath> = Vec::new();
        let mut i: usize = 0;
        while i < self.entries.len()
            invariant
                i <= self@.len(),
                self@.len() == self.entries@.len(),
                r@.len() == i,
                forall|j: int| 0 <= j < i ==> (#[trigger] r@[j])@ == self@[j].0,
            decreases self@.len() - i,
        {
            r.push(self.entries[i].path.duplicate());
            i = i + 1;
        }
        r
    }

    /// Records a trace for `file`: appended to that file's traces, or as the
    /// first trace of a new file at the end.
    pub fn add_trace(&mut self, file: &FilePath, trace: Trace)
        requires
            old(self).wf(),
            coverable(all_traces(old(self)@)) + amount_coverable(trace) <= usize::MAX,
        ensures
            final(self).wf(),
            forall|i: int|
                0 <= i < old(self)@.len() && old(self)@[i].0 == file@
                    ==> final(self)@ == old(self)@.update(i, (file@, old(self)@[i].1.push(trace))),
            (forall|i: int| 0 <= i < old(self)@.len() ==> old(self)@[i].0 != file@)
                ==> final(self)@ == old(self)@.push((file@, seq![trace])),
            coverable(all_traces(final(self)@)) == coverable(all_traces(old(self)@)) + amount_coverable(trace),
    {
        let ghost pre = self@;
        let ghost t = trace;
        let mut i: usize = 0;
        while i < self.entries.len()
            invariant
                i <= self.entries@.len(),
                self@ == pre,
                t == trace,
                pre == old(self)@,
                coverable(all_traces(pre)) + amount_coverable(t) <= usize::MAX,
                forall|a: int, b: int| 0 <= a < b < pre.len() ==> (#[trigger] pre[a]).0 != (#[trigger] pre[b]).0,
                forall|j: int| 0 <= j < i ==> pre[j].0 != file@,
            decreases self.entries@.len() - i,
        {
            if self.entries[i].path.same_path(file) {
                let ghost old_entries = self.entries@;
                let mut e = self.entries.remove(i);
                assert(e == old_entries[i as int]);
                assert(e.path@ == file@);
                assert(pre[i as int] == old_entries[i as int]@);
                let ghost old_ts = e.traces@;
                assert(old_ts == pre[i as int].1);
                e.traces.push(trace);
                assert(e.traces@ == old_ts.push(t));
                let ghost new_e = e;
                self.entries.insert(i, e);
                proof {
                    assert(self.entries@ =~= old_entries.update(i as int, new_e));
                    let post = pre.update(i as int, (file@, pre[i as int].1.push(t)));
                    assert(new_e@ == (file@, pre[i as int].1.push(t)));
                    assert(self@ =~= post);
                    lemma_all_traces_extend(pre, i as int, t);
                    assert forall|a: int, b: int| 0 <= a < b < post.len() implies (#[trigger] post[a]).0 != (#[trigger] post[b]).0 by {
                        assert(pre[a].0 != pre[b].0);
                    }
                    assert(coverable(all_traces(self@)) == coverable(all_traces(pre)) + amount_coverable(t));
                    assert forall|k: int| 0 <= k < pre.len() && pre[k].0 == file@ implies k == i by {
                        if k != i {
                            if k < i {
                                assert(pre[k].0 != pre[i as int].0);
                            } else {
                                assert(pre[i as int].0 != pre[k].0);
                            }
                        }
                    }
                }
                return;
            }
            i = i + 1;
        }
        let mut ts: Vec<Trace> = Vec::new();
        ts.push(trace);
        self.entries.push(FileTraces { path: file.duplicate(), traces: ts });
        proof {
            let post = pre.push((file@, seq![t]));
            assert(ts@ =~= seq![t]);
            assert(self@ =~= post);
            assert(post.drop_last() =~= pre);
            let empty = Seq::<PathPart>::empty();
            assert(file@.take(0) =~= empty);
            lemma_coverable_concat(all_traces(pre), seq![t]);
            assert(coverable(seq![t]) == amount_coverable(t)) by {
                assert(seq![t].drop_last() =~= Seq::<Trace>::empty());
                assert(coverable(Seq::<Trace>::empty()) == 0);
            }
            assert forall|a: int, b: int| 0 <= a < b < post.len() implies (#[trigger] post[a]).0 != (#[trigger] post[b]).0 by {
                if b == pre.len() {
                    assert(pre[a].0 != file@);
                } else {
                    assert(pre[a].0 != pre[b].0);
                }
            }
        }
    }

    /// Whether `trace` can be added without the count of coverable items
    /// overflowing a `usize` (the condition of `add_trace`).
    pub fn fits_trace(&self, trace: &Trace) -> (r: bool)
        requires
            self.wf(),
        ensures
            r == (coverable(all_traces(self@)) + amount_coverable(*trace) <= usize::MAX),
    {
        let total = self.total_coverable();
        let room = usize::MAX - total;
        match &trace.stats {
            CoverageStat::Line(_) => room >= 1,
            CoverageStat::Branch(_) => room >= 2,
            CoverageStat::Condition(v) => v.len() <= room / 2,
        }
    }

    /// The traces of every file under `root`, in file order.
    pub fn get_child_traces(&self, root: &FilePath) -> (r: Vec<&Trace>)
        ensures
            r@.len() == child_traces(self@, root@).len(),
            forall|k: int| 0 <= k < r@.len() ==> *(#[trigger] r@[k]) == child_traces(self@, root@)[k],
    {
        let mut r: Vec<&Trace> = Vec::new();
        let mut i: usize = 0;
        while i < self.entries.len()
            invariant
                i <= self.entries@.len(),
                self@.len() == self.entries@.len(),
                r@.len() == child_traces(self@.take(i as int), root@).len(),
                forall|k: int| 0 <= k < r@.len() ==> *(#[trigger] r@[k]) == child_traces(self@.take(i as int), root@)[k],
            decreases self.entries@.len() - i,
        {
            let e = &self.entries[i];
            let ghost before = child_traces(self@.take(i as int), root@);
            let ghost start = r@.len();
            assert(e@ == self@[i as int]);
            if e.path.starts_with(root) {
                let mut j: usize = 0;
                while j < e.traces.len()
                    invariant
                        j <= e.traces@.len(),
                        start == before.len(),
                        r@.len() == start + j,
                        forall|k: int| 0 <= k < start ==> *(#[trigger] r@[k]) == before[k],
                        forall|k: int| 0 <= k < j ==> *(#[trigger] r@[start + k]) == e.traces@[k],
                    decreases e.traces@.len() - j,
                {
                    r.push(&e.traces[j]);
                    j = j + 1;
                }
                proof {
                    let after = before + e.traces@;
                    assert forall|k: int| 0 <= k < r@.len() implies *(#[trigger] r@[k]) == after[k] by {
                        if k >= start {
                            assert(*r@[start + (k - start)] == e.traces@[k - start]);
                        }
                    }
                }
            }
            assert(self@.take(i + 1).drop_last() =~= self@.take(i as int));
            assert(self@.take(i + 1).last() == self@[i as int]);
            i = i + 1;
        }
        assert(self@.take(self@.len() as int) =~= self@);
        r
    }

    /// The number of coverable items under `root`.
    pub fn coverable_in_path(&self, root: &FilePath) -> (r: usize)
        requires
            self.wf(),
        ensures
            r == coverable(child_traces(self@, root@)),
    {
        let ts = self.get_child_traces(root);
        let ghost s = child_traces(self@, root@);
        proof {
            lemma_child_within_all(self@, root@);
        }
        let mut acc: usize = 0;
        let mut k: usize = 0;
        while k < ts.len()
            invariant
                k <= ts@.len(),
                ts@.len() == s.len(),
                forall|q: int| 0 <= q < ts@.len() ==> *(#[trigger] ts@[q]) == s[q],
                coverable(s) <= usize::MAX,
                acc == coverable(s.take(k as int)),
            decreases ts@.len() - k,
        {
            proof {
                assert(s.take(k + 1).drop_last() =~= s.take(k as int));
                lemma_coverable_prefix(s, k + 1);
            }
            acc = acc + trace_coverable(ts[k]);
            k = k + 1;
        }
        assert(s.take(s.len() as int) =~= s);
        acc
    }

    /// The number of covered items under `root`.
    pub fn covered_in_path(&self, root: &FilePath) -> (r: usize)
        requires
            self.wf(),
        ensures
            r == covered(child_traces(self@, root@)),
    {
        let ts = self.get_child_traces(root);
        let ghost s = child_traces(self@, root@);
        proof {
            lemma_child_within_all(self@, root@);
            lemma_covered_within_coverable(s);
        }
        let mut acc: usize = 0;
        let mut k: usize = 0;
        while k < ts.len()
            invariant
                k <= ts@.len(),
                ts@.len() == s.len(),
                forall|q: int| 0 <= q < ts@.len() ==> *(#[trigger] ts@[q]) == s[q],
                coverable(s) <= usize::MAX,
                covered(s) <= coverable(s),
                acc == covered(s.take(k as int)),
            decreases ts@.len() - k,
        {
            proof {
                assert(s.take(k + 1).drop_last() =~= s.take(k as int));
                lemma_coverable_prefix(s, k + 1);
                lemma_covered_within_coverable(s.take(k + 1));
            }
            acc = acc + trace_covered(ts[k]);
            k = k + 1;
        }
        assert(s.take(s.len() as int) =~= s);
        acc
    }

    /// The number of coverable items in all files.
    pub fn total_coverable(&self) -> (r: usize)
        requires
            self.wf(),
        ensures
            r == coverable(all_traces(self@)),
    {
        let root = FilePath::empty();
        self.coverable_in_path(&root)
    }

    /// The number of covered items in all files.
    pub fn total_covered(&self) -> (r: usize)
        requires
            self.wf(),
        ensures
            r == covered(all_traces(self@)),
    {
        let root = FilePath::empty();
        self.covered_in_path(&root)
    }
}

proof fn lemma_all_traces_extend(
    entries: Seq<(Seq<PathPart>, Seq<Trace>)>,
    i: int,
    t: Trace,
)
    requires
        0 <= i < entries.len(),
    ensures
        coverable(all_traces(entries.update(i, (entries[i].0, entries[i].1.push(t))))) == coverable(
            all_traces(entries),
        ) + amount_coverable(t),
    decreases entries.len(),
{
    let empty = Seq::<PathPart>::empty();
    let upd = entries.update(i, (entries[i].0, entries[i].1.push(t)));
    assert(entries.last().0.take(0) =~= empty);
    assert(upd.last().0.take(0) =~= empty);
    if i == entries.len() - 1 {
        assert(upd.drop_last() =~= entries.drop_last());
        let before = all_traces(entries.drop_last());
        lemma_coverable_concat(before, entries.last().1);
        lemma_coverable_concat(before, entries.last().1.push(t));
        assert(entries.last().1.push(t).drop_last() =~= entries.last().1);
    } else {
        lemma_all_traces_extend(entries.drop_last(), i, t);
        assert(upd.drop_last() =~= entries.drop_last().update(i, (entries[i].0, entries[i].1.push(t))));
        lemma_coverable_concat(all_traces(entries.drop_last()), entries.last().1);
        lemma_coverable_concat(all_traces(upd.drop_last()), entries.last().1);
    }
}

/// Coverage never exceeds what can be covered: under any path, the covered
/// items are at most the coverable ones.
pub proof fn law_covered_within_coverable(entries: Seq<(Seq<PathPart>, Seq<Trace>)>, root: Seq<PathPart>)
    ensures
        covered(child_traces(entries, root)) <= coverable(child_traces(entries, root)),
{
    lemma_covered_within_coverable(child_traces(entries, root));
}

/// A directory counts at least what any path under it counts: where `inner`
/// starts with `outer`, the coverable and the covered items under `inner` are
/// at most those under `outer`.
pub proof fn law_nested_paths_count_less(
    entries: Seq<(Seq<PathPart>, Seq<Trace>)>,
    outer: Seq<PathPart>,
    inner: Seq<PathPart>,
)
    requires
        starts_with(inner, outer),
    ensures
        coverable(child_traces(entries, inner)) <= coverable(child_traces(entries, outer)),
        covered(child_traces(entries, inner)) <= covered(child_traces(entries, outer)),
    decreases entries.len(),
{
    if entries.len() > 0 {
        let e = entries.drop_last();
        let last = entries.last();
        law_nested_paths_count_less(e, outer, inner);
        if starts_with(last.0, inner) {
            assert(last.0.take(outer.len() as int) =~= inner.take(outer.len() as int));
            assert(starts_with(last.0, outer));
            lemma_coverable_concat(child_traces(e, inner), last.1);
            lemma_coverable_concat(child_traces(e, outer), last.1);
        } else if starts_with(last.0, outer) {
            lemma_coverable_concat(child_traces(e, outer), last.1);
        }
    }
}

} // verus!
