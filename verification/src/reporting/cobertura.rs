//! The Cobertura report: one package per source directory, one class per
//! source file, and the line statistics of each file.
//!
//! The XML layout the report follows:
//!
//! ```text
//! <coverage line-rate="0.0" branch-rate="0.0" version="1.9" timestamp="...">
//!   <sources><source>PATH</source>...</sources>
//!   <packages>
//!     <package name=".." line-rate="0.0" branch-rate="0.0" complexity="0.0">
//!       <classes>
//!         <class name="Main" filename="main.rs" line-rate="0.0" branch-rate="0.0" complexity="0.0">
//!           <methods>...</methods>
//!           <lines><line number="10" hits="4" branch="false"/></lines>
//!         </class>
//!       </classes>
//!     </package>
//!   </packages>
//! </coverage>
//! ```
//!
//! Rates are kept as exact ratios of two counts.
use vstd::prelude::*;
use crate::config::{Config, project_relative, project_root};
use crate::paths::{FilePath, PathPart, display, file_stem, parent, strip_prefix};
use crate::traces::{CoverageStat, Trace, TraceMap, child_traces, covered, coverable, files_of};

verus! {

/// The error of the Cobertura report.
pub enum Error {
    Unknown,
}

impl Error {
    /// A short description of the error.
    pub fn description(&self) -> (r: &'static str)
        ensures
            r@ == "Unknown Error"@,
    {
        "Unknown Error"
    }

    /// The underlying error: there is none.
    pub fn cause(&self) -> (r: Option<&Error>)
        ensures
            r is None,
    {
        None
    }

    /// The error as it is displayed.
    pub fn message(&self) -> (r: String)
        ensures
            r@ == "Unknown Error"@,
    {
        String::from_str("Unknown Error")
    }
}

/// A rate given exactly, as `numerator / denominator` (a zero denominator
/// stands for the undefined rate of nothing to cover).
#[derive(Clone, Copy)]
pub struct Ratio {
    pub numerator: usize,
    pub denominator: usize,
}

/// The rate 0.
pub open spec fn zero_rate() -> Ratio {
    Ratio { numerator: 0, denominator: 1 }
}

/// The kinds of branch condition.
#[derive(Clone, Copy)]
pub enum ConditionType {
    Jump,
}

/// A condition of a branch line.
#[derive(Clone, Copy)]
pub struct Condition {
    pub number: usize,
    pub cond_type: ConditionType,
    pub coverage: Ratio,
}

/// A line of a class or method.
pub enum Line {
    Plain { number: u64, hits: u64 },
    Branch { number: u64, hits: u64, conditions: Vec<Condition> },
}

/// A line as a value.
pub enum LineView {
    Plain { number: u64, hits: u64 },
    Branch { number: u64, hits: u64, conditions: Seq<Condition> },
}

impl View for Line {
    type V = LineView;

    open spec fn view(&self) -> LineView {
        match self {
            Line::Plain { number, hits } => LineView::Plain { number: *number, hits: *hits },
            Line::Branch { number, hits, conditions } => LineView::Branch {
                number: *number,
                hits: *hits,
                conditions: conditions@,
            },
        }
    }
}

/// A method of a class.
pub struct Method {
    name: String,
    signature: String,
    line_rate: Ratio,
    branch_rate: Ratio,
    lines: Vec<Line>,
}

/// A method as a value.
pub struct MethodView {
    pub name: Seq<char>,
    pub signature: Seq<char>,
    pub line_rate: Ratio,
    pub branch_rate: Ratio,
    pub lines: Seq<LineView>,
}

/// A class: one source file.
pub struct Class {
    name: String,
    file_name: String,
    line_rate: Ratio,
    branch_rate: Ratio,
    complexity: Ratio,
    lines: Vec<Line>,
    methods: Vec<Method>,
}

/// A class as a value.
pub struct ClassView {
    pub name: Seq<char>,
    pub file_name: Seq<char>,
    pub line_rate: Ratio,
    pub branch_rate: Ratio,
    pub complexity: Ratio,
    pub lines: Seq<LineView>,
    pub methods: Seq<MethodView>,
}

/// A package: one source directory.
pub struct Package {
    name: String,
    line_rate: Ratio,
    branch_rate: Ratio,
    complexity: Ratio,
    classes: Vec<Class>,
}

/// A package as a value.
pub struct PackageView {
    pub name: Seq<char>,
    pub line_rate: Ratio,
    pub branch_rate: Ratio,
    pub complexity: Ratio,
    pub classes: Seq<ClassView>,
}

/// The Cobertura report.
pub struct Report {
    timestamp: i64,
    line_rate: Ratio,
    branch_rate: Ratio,
    sources: Vec<FilePath>,
    packages: Vec<Package>,
}

/// The report as a value.
pub struct ReportView {
    pub timestamp: i64,
    pub line_rate: Ratio,
    pub branch_rate: Ratio,
    pub sources: Seq<Seq<PathPart>>,
    pub packages: Seq<PackageView>,
}

impl View for Method {
    type V = MethodView;

    closed spec fn view(&self) -> MethodView {
        MethodView {
            name: self.name@,
            signature: self.signature@,
            line_rate: self.line_rate,
            branch_rate: self.branch_rate,
            lines: self.lines@.map_values(|l: Line| l@),
        }
    }
}

impl View for Class {
    type V = ClassView;

    closed spec fn view(&self) -> ClassView {
        ClassView {
            name: self.name@,
            file_name: self.file_name@,
            line_rate: self.line_rate,
            branch_rate: self.branch_rate,
            complexity: self.complexity,
            lines: self.lines@.map_values(|l: Line| l@),
            methods: self.methods@.map_values(|m: Method| m@),
        }
    }
}

impl View for Package {
    type V = PackageView;

    closed spec fn view(&self) -> PackageView {
        PackageView {
            name: self.name@,
            line_rate: self.line_rate,
            branch_rate: self.branch_rate,
            complexity: self.complexity,
            classes: self.classes@.map_values(|c: Class| c@),
        }
    }
}

impl View for Report {
    type V = ReportView;

    closed spec fn view(&self) -> ReportView {
        ReportView {
            timestamp: self.timestamp,
            line_rate: self.line_rate,
            branch_rate: self.branch_rate,
            sources: self.sources@.map_values(|p: FilePath| p@),
            packages: self.packages@.map_values(|p: Package| p@),
        }
    }
}

/// The sources of the report: the project directory, where the manifest has one.
pub open spec fn report_sources(manifest: Seq<PathPart>) -> Seq<Seq<PathPart>> {
    match parent(manifest) {
        Some(p) => seq![p],
        None => Seq::empty(),
    }
}

/// The line of a trace that records line hits.
pub open spec fn line_of(t: Trace) -> LineView {
    LineView::Plain { number: t.line, hits: t.stats->Line_0 }
}

/// Whether every trace records line hits.
pub open spec fn all_line_stats(ts: Seq<Trace>) -> bool {
    forall|k: int| 0 <= k < ts.len() ==> (#[trigger] ts[k]).stats is Line
}

/// The coverage ratio under a path.
pub open spec fn rate_under(entries: Seq<(Seq<PathPart>, Seq<Trace>)>, p: Seq<PathPart>) -> Ratio {
    Ratio {
        numerator: covered(child_traces(entries, p)) as usize,
        denominator: coverable(child_traces(entries, p)) as usize,
    }
}

/// The class of a source file: its stem, its path relative to the project,
/// its coverage ratio, the lines of the traces under it, and no methods.
pub open spec fn class_of(
    manifest: Seq<PathPart>,
    entries: Seq<(Seq<PathPart>, Seq<Trace>)>,
    file: Seq<PathPart>,
) -> ClassView {
    ClassView {
        name: match file_stem(file) {
            Some(s) => s,
            None => Seq::empty(),
        },
        file_name: display(project_relative(manifest, file)),
        line_rate: rate_under(entries, file),
        branch_rate: zero_rate(),
        complexity: zero_rate(),
        lines: child_traces(entries, file).map_values(|t: Trace| line_of(t)),
        methods: Seq::empty(),
    }
}

/// The classes of the first `k` files whose parent is `dir`, in file order.
pub open spec fn classes_in(
    manifest: Seq<PathPart>,
    entries: Seq<(Seq<PathPart>, Seq<Trace>)>,
    dir: Seq<PathPart>,
    k: nat,
) -> Seq<ClassView>
    decreases k,
{
    if k == 0 {
        Seq::empty()
    } else if parent(entries[k - 1].0) == Some(dir) {
        classes_in(manifest, entries, dir, (k - 1) as nat).push(class_of(manifest, entries, entries[k - 1].0))
    } else {
        classes_in(manifest, entries, dir, (k - 1) as nat)
    }
}

/// The package of a source directory: its path relative to the project (empty
/// where it lies outside the project), its coverage ratio and its classes.
pub open spec fn package_of(
    manifest: Seq<PathPart>,
    entries: Seq<(Seq<PathPart>, Seq<Trace>)>,
    dir: Seq<PathPart>,
) -> PackageView {
    PackageView {
        name: match strip_prefix(dir, project_root(manifest)) {
            Some(r) => display(r),
            None => Seq::empty(),
        },
        line_rate: rate_under(entries, dir),
        branch_rate: zero_rate(),
        complexity: zero_rate(),
        classes: classes_in(manifest, entries, dir, entries.len()),
    }
}

/// The directories of the first `k` files (those that have one), in file
/// order, with consecutive repeats dropped.
pub open spec fn package_dirs(files: Seq<Seq<PathPart>>, k: nat) -> Seq<Seq<PathPart>>
    decreases k,
{
    if k == 0 {
        Seq::empty()
    } else {
        let d = package_dirs(files, (k - 1) as nat);
        match parent(files[k - 1]) {
            Some(p) => if d.len() > 0 && d.last() == p {
                d
            } else {
                d.push(p)
            },
            None => d,
        }
    }
}

/// The packages of the report.
pub open spec fn report_packages(manifest: Seq<PathPart>, entries: Seq<(Seq<PathPart>, Seq<Trace>)>) -> Seq<PackageView> {
    package_dirs(files_of(entries), entries.len()).map_values(
        |d: Seq<PathPart>| package_of(manifest, entries, d),
    )
}

/// The whole report for a given time.
pub open spec fn cobertura_report(
    timestamp: i64,
    manifest: Seq<PathPart>,
    entries: Seq<(Seq<PathPart>, Seq<Trace>)>,
) -> ReportView {
    ReportView {
        timestamp,
        line_rate: zero_rate(),
        branch_rate: zero_rate(),
        sources: report_sources(manifest),
        packages: report_packages(manifest, entries),
    }
}

/// Whether the traces of every file that has a directory record line hits
/// only (a class is made only of such traces).
pub open spec fn class_traces_are_lines(entries: Seq<(Seq<PathPart>, Seq<Trace>)>) -> bool {
    forall|i: int|
        0 <= i < entries.len() && parent(entries[i].0) is Some ==> all_line_stats(
            #[trigger] child_traces(entries, entries[i].0),
        )
}

/// Whether the traces of every file whose parent is `dir` record line hits
/// only (the classes of the package of `dir` are made of those traces).
pub open spec fn package_traces_are_lines(entries: Seq<(Seq<PathPart>, Seq<Trace>)>, dir: Seq<PathPart>) -> bool {
    forall|i: int|
        0 <= i < entries.len() && parent(entries[i].0) == Some(dir) ==> all_line_stats(
            #[trigger] child_traces(entries, entries[i].0),
        )
}

/// The time elapsed since the Unix epoch, as whole seconds and the
/// nanoseconds of the current second (`SystemTime::now().duration_since(UNIX_EPOCH)`);
/// none where the system clock reads before the epoch. Nothing is stated of
/// the value: it is the time.
#[verifier::external_body]
fn system_time_since_epoch() -> Option<(u64, u32)> {
    match std::time::SystemTime::now().duration_since(std::time::UNIX_EPOCH) {
        Ok(d) => Some((d.as_secs(), d.subsec_nanos())),
        Err(_) => None,
    }
}

/// Whether chrono has a UTC date-time for `secs` seconds and `nsecs`
/// nanoseconds after the Unix epoch (`DateTime::from_timestamp` gives `Some`).
pub uninterp spec fn chrono_accepts_timestamp(secs: i64, nsecs: u32) -> bool;

/// Whether `chrono::DateTime::from_timestamp(secs, nsecs)` gives a date-time.
/// Where it does, that date-time's `timestamp()` is `secs` again (chrono
/// documents the round trip), so only the answer is needed.
#[verifier::external_body]
fn chrono_timestamp_in_range(secs: i64, nsecs: u32) -> (r: bool)
    ensures
        r == chrono_accepts_timestamp(secs, nsecs),
{
    chrono::DateTime::from_timestamp(secs, nsecs).is_some()
}

/// The UTC timestamp of a clock reading: its seconds as an `i64` (wrapping, as
/// a cast does), where the clock is past the epoch and chrono has a date-time
/// for it; none otherwise.
pub open spec fn clock_timestamp(since_epoch: Option<(u64, u32)>) -> Option<i64> {
    match since_epoch {
        Some(reading) => if chrono_accepts_timestamp(reading.0 as i64, reading.1) {
            Some(reading.0 as i64)
        } else {
            None
        },
        None => None,
    }
}

/// The UTC timestamp of a clock reading (seconds and nanoseconds since the
/// Unix epoch, none before it).
pub fn timestamp_from_clock(since_epoch: Option<(u64, u32)>) -> (r: Option<i64>)
    ensures
        r == clock_timestamp(since_epoch),
{
    match since_epoch {
        Some((secs, nsecs)) => {
            let t = secs as i64;
            if chrono_timestamp_in_range(t, nsecs) {
                Some(t)
            } else {
                None
            }
        },
        None => None,
    }
}

fn zero() -> (r: Ratio)
    ensures
        r == zero_rate(),
{
    Ratio { numerator: 0, denominator: 1 }
}

/// The sources of the report.
pub fn render_sources(config: &Config) -> (r: Vec<FilePath>)
    ensures
        r@.map_values(|p: FilePath| p@) == report_sources(config.manifest@),
{
    let mut r: Vec<FilePath> = Vec::new();
    match config.manifest.parent() {
        Some(p) => {
            r.push(p);
        },
        None => {},
    }
    assert(r@.map_values(|p: FilePath| p@) =~= report_sources(config.manifest@));
    r
}

/// The line of a trace that records line hits.
pub fn render_line(trace: &Trace) -> (r: Line)
    requires
        trace.stats is Line,
    ensures
        r@ == line_of(*trace),
{
    match &trace.stats {
        CoverageStat::Line(hits) => Line::Plain { number: trace.line, hits: *hits },
        _ => Line::Plain { number: trace.line, hits: 0 },
    }
}

/// The class of a source file.
pub fn render_class(config: &Config, traces: &TraceMap, file: &FilePath) -> (r: Class)
    requires
        traces.wf(),
        all_line_stats(child_traces(traces@, file@)),
    ensures
        r@ == class_of(config.manifest@, traces@, file@),
{
    let name = match file.file_stem() {
        Some(s) => s,
        None => String::new(),
    };
    let file_name = config.strip_project_path(file).display();
    let covered_count = traces.covered_in_path(file);
    let coverable_count = traces.coverable_in_path(file);
    let ts = traces.get_child_traces(file);
    let ghost s = child_traces(traces@, file@);
    let mut lines: Vec<Line> = Vec::new();
    let mut k: usize = 0;
    while k < ts.len()
        invariant
            k <= ts@.len(),
            ts@.len() == s.len(),
            forall|q: int| 0 <= q < ts@.len() ==> *(#[trigger] ts@[q]) == s[q],
            all_line_stats(s),
            lines@.len() == k,
            forall|q: int| 0 <= q < k ==> (#[trigger] lines@[q])@ == line_of(s[q]),
        decreases ts@.len() - k,
    {
        assert(s[k as int].stats is Line);
        lines.push(render_line(ts[k]));
        k = k + 1;
    }
    let r = Class {
        name,
        file_name,
        line_rate: Ratio { numerator: covered_count, denominator: coverable_count },
        branch_rate: zero(),
        complexity: zero(),
        lines,
        methods: Vec::new(),
    };
    assert(r@.lines =~= s.map_values(|t: Trace| line_of(t)));
    assert(r@.methods =~= Seq::<MethodView>::empty());
    assert(r@.name =~= class_of(config.manifest@, traces@, file@).name);
    r
}

/// The classes of a source directory: one per file whose parent it is.
pub fn render_classes(config: &Config, traces: &TraceMap, pkg: &FilePath) -> (r: Vec<Class>)
    requires
        traces.wf(),
        package_traces_are_lines(traces@, pkg@),
    ensures
        r@.map_values(|c: Class| c@) == classes_in(config.manifest@, traces@, pkg@, traces@.len()),
{
    let mut r: Vec<Class> = Vec::new();
    let mut i: usize = 0;
    while i < traces.file_count()
        invariant
            i <= traces@.len(),
            traces.wf(),
            package_traces_are_lines(traces@, pkg@),
            r@.map_values(|c: Class| c@) == classes_in(config.manifest@, traces@, pkg@, i as nat),
        decreases traces@.len() - i,
    {
        let file = traces.path_at(i);
        let ghost before = r@.map_values(|c: Class| c@);
        match file.parent() {
            Some(p) => {
                if p.same_path(pkg) {
                    assert(all_line_stats(child_traces(traces@, traces@[i as int].0)));
                    r.push(render_class(config, traces, file));
                    assert(r@.map_values(|c: Class| c@) =~= before.push(
                        class_of(config.manifest@, traces@, traces@[i as int].0),
                    ));
                }
            },
            None => {},
        }
        i = i + 1;
    }
    r
}

/// The package of a source directory.
pub fn render_package(config: &Config, traces: &TraceMap, pkg: &FilePath) -> (r: Package)
    requires
        traces.wf(),
        package_traces_are_lines(traces@, pkg@),
    ensures
        r@ == package_of(config.manifest@, traces@, pkg@),
        r@.line_rate.numerator == covered(child_traces(traces@, pkg@)),
        r@.line_rate.denominator == coverable(child_traces(traces@, pkg@)),
{
    let root = config.root();
    let name = match pkg.strip_prefix(&root) {
        Some(rel) => rel.display(),
        None => String::new(),
    };
    let covered_count = traces.covered_in_path(pkg);
    let coverable_count = traces.coverable_in_path(pkg);
    let classes = render_classes(config, traces, pkg);
    let r = Package {
        name,
        line_rate: Ratio { numerator: covered_count, denominator: coverable_count },
        branch_rate: zero(),
        complexity: zero(),
        classes,
    };
    assert(r@.name =~= package_of(config.manifest@, traces@, pkg@).name);
    r
}

/// Removes consecutive repeated paths (`Vec::dedup`).
fn dedup_paths(v: Vec<FilePath>) -> (r: Vec<FilePath>)
    ensures
        r@.map_values(|p: FilePath| p@) == dedup_views(v@.map_values(|p: FilePath| p@)),
{
    let ghost vs = v@.map_values(|p: FilePath| p@);
    let mut r: Vec<FilePath> = Vec::new();
    let mut i: usize = 0;
    while i < v.len()
        invariant
            i <= v@.len(),
            vs == v@.map_values(|p: FilePath| p@),
            r@.map_values(|p: FilePath| p@) == dedup_views(vs.take(i as int)),
        decreases v@.len() - i,
    {
        let ghost before = r@.map_values(|p: FilePath| p@);
        assert(vs.take(i + 1).drop_last() =~= vs.take(i as int));
        assert(vs.take(i + 1).last() == v@[i as int]@);
        let n = r.len();
        if n > 0 && r[n - 1].same_path(&v[i]) {
        } else {
            r.push(v[i].duplicate());
            assert(r@.map_values(|p: FilePath| p@) =~= before.push(v@[i as int]@));
        }
        i = i + 1;
    }
    assert(vs.take(v@.len() as int) =~= vs);
    r
}

/// `s` with consecutive repeats dropped.
pub open spec fn dedup_views(s: Seq<Seq<PathPart>>) -> Seq<Seq<PathPart>>
    decreases s.len(),
{
    if s.len() == 0 {
        Seq::empty()
    } else {
        let d = dedup_views(s.drop_last());
        if d.len() > 0 && d.last() == s.last() {
            d
        } else {
            d.push(s.last())
        }
    }
}

/// The parents of the first `k` files that have one, in order.
pub open spec fn file_parents(files: Seq<Seq<PathPart>>, k: nat) -> Seq<Seq<PathPart>>
    decreases k,
{
    if k == 0 {
        Seq::empty()
    } else {
        match parent(files[k - 1]) {
            Some(p) => file_parents(files, (k - 1) as nat).push(p),
            None => file_parents(files, (k - 1) as nat),
        }
    }
}

proof fn lemma_package_dirs(files: Seq<Seq<PathPart>>, k: nat)
    requires
        k <= files.len(),
    ensures
        package_dirs(files, k) == dedup_views(file_parents(files, k)),
    decreases k,
{
    if k > 0 {
        lemma_package_dirs(files, (k - 1) as nat);
        let ps = file_parents(files, (k - 1) as nat);
        match parent(files[k - 1]) {
            Some(p) => {
                assert(ps.push(p).drop_last() =~= ps);
            },
            None => {},
        }
    }
}

/// The packages of the report: one per directory of the traced files, in
/// file order, consecutive repeats dropped.
pub fn render_packages(config: &Config, traces: &TraceMap) -> (r: Vec<Package>)
    requires
        traces.wf(),
        class_traces_are_lines(traces@),
    ensures
        r@.map_values(|p: Package| p@) == report_packages(config.manifest@, traces@),
{
    let files = traces.files();
    let ghost fs = files_of(traces@);
    let mut dirs: Vec<FilePath> = Vec::new();
    let mut i: usize = 0;
    while i < files.len()
        invariant
            i <= files@.len(),
            files@.len() == fs.len(),
            fs == files_of(traces@),
            forall|q: int| 0 <= q < files@.len() ==> (#[trigger] files@[q])@ == fs[q],
            dirs@.map_values(|p: FilePath| p@) == file_parents(fs, i as nat),
        decreases files@.len() - i,
    {
        let ghost before = dirs@.map_values(|p: FilePath| p@);
        match files[i].parent() {
            Some(p) => {
                dirs.push(p);
                assert(dirs@.map_values(|p: FilePath| p@) =~= before.push(parent(fs[i as int]).unwrap()));
            },
            None => {},
        }
        i = i + 1;
    }
    let dirs = dedup_paths(dirs);
    proof {
        lemma_package_dirs(fs, fs.len());
    }
    let ghost ds = package_dirs(fs, fs.len());
    let mut r: Vec<Package> = Vec::new();
    let mut j: usize = 0;
    while j < dirs.len()
        invariant
            j <= dirs@.len(),
            traces.wf(),
            class_traces_are_lines(traces@),
            dirs@.map_values(|p: FilePath| p@) == ds,
            r@.len() == j,
            forall|q: int| 0 <= q < j ==> (#[trigger] r@[q])@ == package_of(config.manifest@, traces@, ds[q]),
        decreases dirs@.len() - j,
    {
        assert(dirs@[j as int]@ == ds[j as int]);
        assert(package_traces_are_lines(traces@, ds[j as int]));
        r.push(render_package(config, traces, &dirs[j]));
        j = j + 1;
    }
    assert(r@.map_values(|p: Package| p@) =~= report_packages(config.manifest@, traces@));
    r
}

impl Report {
    /// The report of `traces` at the current time; fails with `Unknown` where
    /// the clock gives no UTC timestamp (see `timestamp_from_clock`).
    pub fn render(config: &Config, traces: &TraceMap) -> (r: Result<Report, Error>)
        requires
            traces.wf(),
            class_traces_are_lines(traces@),
        ensures
            r matches Ok(rep) ==> rep@ == cobertura_report(rep@.timestamp, config.manifest@, traces@),
            r matches Ok(rep) ==> exists|reading: (u64, u32)|
                #[trigger] clock_timestamp(Some(reading)) == Some(rep@.timestamp),
            r is Err ==> r matches Err(Error::Unknown),
    {
        let reading = system_time_since_epoch();
        match timestamp_from_clock(reading) {
            Some(timestamp) => {
                let rep = Report::render_at(config, traces, timestamp);
                assert(clock_timestamp(Some(reading.unwrap())) == Some(timestamp));
                Ok(rep)
            },
            None => Err(Error::Unknown),
        }
    }

    /// The report of `traces` at the given Unix time.
    pub fn render_at(config: &Config, traces: &TraceMap, timestamp: i64) -> (r: Report)
        requires
            traces.wf(),
            class_traces_are_lines(traces@),
        ensures
            r@ == cobertura_report(timestamp, config.manifest@, traces@),
    {
        let sources = render_sources(config);
        let packages = render_packages(config, traces);
        Report { timestamp, line_rate: zero(), branch_rate: zero(), sources, packages }
    }
}

impl Report {
    /// The time the report was made at, as a Unix timestamp.
    pub fn timestamp(&self) -> (r: i64)
        ensures
            r == self@.timestamp,
    {
        self.timestamp
    }

    /// The overall line rate.
    pub fn line_rate(&self) -> (r: Ratio)
        ensures
            r == self@.line_rate,
    {
        self.line_rate
    }

    /// The overall branch rate.
    pub fn branch_rate(&self) -> (r: Ratio)
        ensures
            r == self@.branch_rate,
    {
        self.branch_rate
    }

    /// The source directories.
    pub fn sources(&self) -> (r: &Vec<FilePath>)
        ensures
            r@.map_values(|p: FilePath| p@) == self@.sources,
    {
        &self.sources
    }

    /// The packages.
    pub fn packages(&self) -> (r: &Vec<Package>)
        ensures
            r@.map_values(|p: Package| p@) == self@.packages,
    {
        &self.packages
    }
}

impl Package {
    /// The package name.
    pub fn name(&self) -> (r: &String)
        ensures
            r@ == self@.name,
    {
        &self.name
    }

    /// The package's line rate.
    pub fn line_rate(&self) -> (r: Ratio)
        ensures
            r == self@.line_rate,
    {
        self.line_rate
    }

    /// The classes of the package.
    pub fn classes(&self) -> (r: &Vec<Class>)
        ensures
            r@.map_values(|c: Class| c@) == self@.classes,
    {
        &self.classes
    }
}

impl Class {
    /// The class name (the file stem).
    pub fn name(&self) -> (r: &String)
        ensures
            r@ == self@.name,
    {
        &self.name
    }

    /// The file name relative to the project.
    pub fn file_name(&self) -> (r: &String)
        ensures
            r@ == self@.file_name,
    {
        &self.file_name
    }

    /// The class's line rate.
    pub fn line_rate(&self) -> (r: Ratio)
        ensures
            r == self@.line_rate,
    {
        self.line_rate
    }

    /// The lines of the class.
    pub fn lines(&self) -> (r: &Vec<Line>)
        ensures
            r@.map_values(|l: Line| l@) == self@.lines,
    {
        &self.lines
    }

    /// The number of methods of the class.
    pub fn method_count(&self) -> (r: usize)
        ensures
            r == self@.methods.len(),
    {
        self.methods.len()
    }
}

/// Every traced file that has a directory is covered by a package: its
/// directory is one of the package directories, and no two consecutive
/// package directories are the same.
pub proof fn law_every_file_directory_is_a_package(files: Seq<Seq<PathPart>>, k: nat)
    requires
        k <= files.len(),
    ensures
        forall|i: int|
            0 <= i < k && parent(files[i]) is Some ==> package_dirs(files, k).contains(
                #[trigger] parent(files[i]).unwrap(),
            ),
        forall|j: int|
            0 <= j < package_dirs(files, k).len() - 1 ==> #[trigger] package_dirs(files, k)[j]
                != package_dirs(files, k)[j + 1],
    decreases k,
{
    if k > 0 {
        law_every_file_directory_is_a_package(files, (k - 1) as nat);
        let d = package_dirs(files, (k - 1) as nat);
        let dk = package_dirs(files, k);
        assert forall|i: int|
            0 <= i < k && parent(files[i]) is Some implies dk.contains(#[trigger] parent(files[i]).unwrap()) by {
            if i < k - 1 {
                let w = choose|w: int| 0 <= w < d.len() && d[w] == parent(files[i]).unwrap();
                assert(dk[w] == d[w]);
            } else {
                assert(dk[dk.len() - 1] == parent(files[i]).unwrap());
            }
        }
        assert forall|j: int| 0 <= j < dk.len() - 1 implies #[trigger] dk[j] != dk[j + 1] by {
            if j < d.len() - 1 {
                assert(d[j] != d[j + 1]);
            }
        }
    }
}

/// The indices of the first `k` files whose parent is `dir`, in order.
pub open spec fn indices_with_parent(
    entries: Seq<(Seq<PathPart>, Seq<Trace>)>,
    dir: Seq<PathPart>,
    k: nat,
) -> Seq<int>
    decreases k,
{
    if k == 0 {
        Seq::empty()
    } else if parent(entries[k - 1].0) == Some(dir) {
        indices_with_parent(entries, dir, (k - 1) as nat).push(k - 1)
    } else {
        indices_with_parent(entries, dir, (k - 1) as nat)
    }
}

proof fn lemma_classes_follow_files(
    manifest: Seq<PathPart>,
    entries: Seq<(Seq<PathPart>, Seq<Trace>)>,
    dir: Seq<PathPart>,
    k: nat,
)
    requires
        k <= entries.len(),
    ensures
        ({
            let idx = indices_with_parent(entries, dir, k);
            let cs = classes_in(manifest, entries, dir, k);
            &&& forall|a: int, b: int| 0 <= a < b < idx.len() ==> (#[trigger] idx[a]) < (#[trigger] idx[b])
            &&& forall|a: int|
                0 <= a < idx.len() ==> 0 <= #[trigger] idx[a] < k && parent(entries[idx[a]].0) == Some(dir)
            &&& forall|j: int| 0 <= j < k && parent(entries[j].0) == Some(dir) ==> #[trigger] idx.contains(j)
            &&& cs.len() == idx.len()
            &&& forall|a: int| 0 <= a < cs.len() ==> #[trigger] cs[a] == class_of(manifest, entries, entries[idx[a]].0)
        }),
    decreases k,
{
    if k > 0 {
        lemma_classes_follow_files(manifest, entries, dir, (k - 1) as nat);
        let idx0 = indices_with_parent(entries, dir, (k - 1) as nat);
        let idx = indices_with_parent(entries, dir, k);
        assert forall|j: int| 0 <= j < k && parent(entries[j].0) == Some(dir) implies #[trigger] idx.contains(j) by {
            if j < k - 1 {
                assert(idx0.contains(j));
                let w = choose|w: int| 0 <= w < idx0.len() && idx0[w] == j;
                assert(idx[w] == j);
            } else {
                assert(idx[idx.len() - 1] == j);
            }
        }
    }
}

/// The classes of a package are the traced files whose parent is exactly the
/// package directory, one class per such file, in file order: the `a`-th
/// class is the class of the `a`-th such file, and no other file (one in a
/// subdirectory or in an enclosing directory) gives a class.
pub proof fn law_package_classes_are_its_files(
    manifest: Seq<PathPart>,
    entries: Seq<(Seq<PathPart>, Seq<Trace>)>,
    dir: Seq<PathPart>,
)
    ensures
        ({
            let idx = indices_with_parent(entries, dir, entries.len());
            let cs = package_of(manifest, entries, dir).classes;
            &&& forall|a: int, b: int| 0 <= a < b < idx.len() ==> (#[trigger] idx[a]) < (#[trigger] idx[b])
            &&& forall|a: int|
                0 <= a < idx.len() ==> 0 <= #[trigger] idx[a] < entries.len() && parent(entries[idx[a]].0) == Some(dir)
            &&& forall|j: int|
                0 <= j < entries.len() && parent(entries[j].0) == Some(dir) ==> #[trigger] idx.contains(j)
            &&& cs.len() == idx.len()
            &&& forall|a: int| 0 <= a < cs.len() ==> #[trigger] cs[a] == class_of(manifest, entries, entries[idx[a]].0)
        }),
{
    lemma_classes_follow_files(manifest, entries, dir, entries.len());
}

proof fn lemma_package_dirs_are_parents(files: Seq<Seq<PathPart>>, k: nat)
    requires
        k <= files.len(),
    ensures
        forall|i: int|
            0 <= i < package_dirs(files, k).len() ==> exists|j: int|
                0 <= j < k && #[trigger] parent(files[j]) == Some(#[trigger] package_dirs(files, k)[i]),
    decreases k,
{
    if k > 0 {
        lemma_package_dirs_are_parents(files, (k - 1) as nat);
        let d = package_dirs(files, (k - 1) as nat);
        let dk = package_dirs(files, k);
        assert forall|i: int| 0 <= i < dk.len() implies exists|j: int|
            0 <= j < k && #[trigger] parent(files[j]) == Some(#[trigger] dk[i]) by {
            if i < d.len() {
                assert(dk[i] == d[i]);
                let j = choose|j: int| 0 <= j < k - 1 && #[trigger] parent(files[j]) == Some(d[i]);
                assert(parent(files[j]) == Some(dk[i]));
            } else {
                assert(parent(files[k - 1]) == Some(dk[i]));
            }
        }
    }
}

/// Each package of the report stands for the directory of a traced file, and
/// its line rate counts the traces under that directory and no others: the
/// covered items under it over the coverable items under it.
pub proof fn law_package_rate_counts_its_directory(
    manifest: Seq<PathPart>,
    entries: Seq<(Seq<PathPart>, Seq<Trace>)>,
    i: int,
)
    requires
        0 <= i < report_packages(manifest, entries).len(),
    ensures
        ({
            let dir = package_dirs(files_of(entries), entries.len())[i];
            let p = report_packages(manifest, entries)[i];
            &&& exists|j: int| 0 <= j < entries.len() && #[trigger] parent(entries[j].0) == Some(dir)
            &&& p.line_rate.numerator == covered(child_traces(entries, dir)) as usize
            &&& p.line_rate.denominator == coverable(child_traces(entries, dir)) as usize
        }),
{
    let files = files_of(entries);
    let dir = package_dirs(files, entries.len())[i];
    lemma_package_dirs_are_parents(files, entries.len());
    let j = choose|j: int| 0 <= j < entries.len() && #[trigger] parent(files[j]) == Some(dir);
    assert(files[j] == entries[j].0);
    assert(parent(entries[j].0) == Some(dir));
}

} // verus!
