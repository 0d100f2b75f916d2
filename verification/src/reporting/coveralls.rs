//! The Coveralls report: the identity under which it is sent, and the line
//! hits handed over for each source file.
use vstd::prelude::*;
use crate::config::{CiService, Config, project_relative};
use crate::paths::{FilePath, PathPart};
use crate::traces::{CoverageStat, Trace, TraceMap, child_traces};
use curl::Error as CurlError;
use std::collections::HashMap;

verus! {

/// A CI job, as Coveralls identifies it.
pub struct Service {
    pub service_name: CiService,
    pub service_job_id: String,
}

/// How a report identifies the project to Coveralls.
pub enum Identity {
    /// A repository token.
    RepoToken(String),
    /// A CI service and its job.
    ServiceToken(Service),
}

/// The errors of the Coveralls report.
pub enum Error {
    /// Sending the report failed.
    Export(CurlError),
    /// No Coveralls key was given.
    NoKey,
}

impl Error {
    /// A short description of the error.
    pub fn description(&self) -> (r: &'static str)
        ensures
            self is Export ==> r@ == "Could Not Export Report"@,
            self is NoKey ==> r@ == "No Coveralls Key Provided"@,
    {
        match self {
            Error::Export(_) => "Could Not Export Report",
            Error::NoKey => "No Coveralls Key Provided",
        }
    }

    /// The underlying transfer error, where there is one.
    pub fn cause(&self) -> (r: Option<&CurlError>)
        ensures
            self is NoKey ==> r is None,
            self matches Error::Export(e) ==> r == Some(e),
    {
        match self {
            Error::Export(e) => Some(e),
            Error::NoKey => None,
        }
    }

    /// The error as it is displayed.
    pub fn message(&self) -> (r: String)
        ensures
            self is Export ==> r@ == "Could Not Export Report"@,
            self is NoKey ==> r@ == "No Coveralls Key Provided"@,
    {
        String::from_str(self.description())
    }
}

/// The identity for a key: the CI job where a CI service is configured,
/// the repository token otherwise.
pub open spec fn identity_for(key: String, ci_tool: Option<CiService>) -> Identity {
    match ci_tool {
        Some(service) => Identity::ServiceToken(Service { service_name: service, service_job_id: key }),
        None => Identity::RepoToken(key),
    }
}

/// The identity for a key, built from the configured CI service.
pub fn identity_from_key(key: &String, ci_tool: &Option<CiService>) -> (r: Identity)
    ensures
        r == identity_for(*key, *ci_tool),
        ci_tool matches Some(service) ==> (r matches Identity::ServiceToken(s) && s.service_name == service
            && s.service_job_id == *key),
        ci_tool is None ==> (r matches Identity::RepoToken(k) && k == *key),
{
    match ci_tool {
        Some(service) => Identity::ServiceToken(
            Service { service_name: service.duplicate(), service_job_id: key.clone() },
        ),
        None => Identity::RepoToken(key.clone()),
    }
}

/// The Coveralls identity of the run; fails where no key was given.
pub fn get_coveralls_id(config: &Config) -> (r: Result<Identity, Error>)
    ensures
        config.coveralls is None ==> r matches Err(Error::NoKey),
        config.coveralls matches Some(key) ==> r == Ok::<Identity, Error>(identity_for(key, config.ci_tool)),
        config.coveralls matches Some(key) ==> (config.ci_tool matches Some(service) ==> (r matches Ok(
            Identity::ServiceToken(s),
        ) && s.service_name == service && s.service_job_id == key)),
        config.coveralls matches Some(key) ==> (config.ci_tool is None ==> (r matches Ok(
            Identity::RepoToken(k),
        ) && k == key)),
{
    match &config.coveralls {
        None => Err(Error::NoKey),
        Some(key) => Ok(identity_from_key(key, &config.ci_tool)),
    }
}

/// Whichever CI service is configured, the key identifies a job of that
/// service: the identity is a service token exactly when a CI service is
/// configured, its service is the configured one and its job id is the key;
/// without a CI service it is the key as a repository token.
pub proof fn law_identity_follows_ci_service(key: String, ci_tool: Option<CiService>)
    ensures
        identity_for(key, ci_tool) is ServiceToken <==> ci_tool is Some,
        identity_for(key, ci_tool) matches Identity::ServiceToken(s) ==> ci_tool == Some(s.service_name)
            && s.service_job_id == key,
        identity_for(key, ci_tool) matches Identity::RepoToken(k) ==> k == key && ci_tool is None,
{
}

/// Where a Coveralls report is sent.
pub enum Endpoint {
    /// coveralls.io itself.
    Coveralls,
    /// The configured report URI.
    Uri(String),
}

/// Where the report of a run is sent: the configured report URI, or
/// coveralls.io where none is configured.
pub fn export_endpoint(config: &Config) -> (r: Endpoint)
    ensures
        config.report_uri matches Some(uri) ==> r == Endpoint::Uri(uri),
        config.report_uri is None ==> r is Coveralls,
{
    match &config.report_uri {
        Some(uri) => Endpoint::Uri(uri.clone()),
        None => Endpoint::Coveralls,
    }
}

/// The line hits that a sequence of traces records, keyed and counted as
/// `usize` (the casts of the line number and hits): each line-hit trace sets
/// the hits of its line; other traces add nothing.
pub open spec fn line_map(ts: Seq<Trace>) -> Map<usize, usize>
    decreases ts.len(),
{
    if ts.len() == 0 {
        Map::empty()
    } else {
        match ts.last().stats {
            CoverageStat::Line(hits) => line_map(ts.drop_last()).insert(ts.last().line as usize, hits as usize),
            _ => line_map(ts.drop_last()),
        }
    }
}

/// One source submission of the report: after each trace of a file, the
/// file's path relative to the project, its path, the line hits recorded so
/// far, and whether the trace was a line-hit trace (other statistics are
/// reported as unsupported).
pub struct SourceStep {
    pub rel_path: FilePath,
    pub path: FilePath,
    pub lines: HashMap<usize, usize>,
    pub supported: bool,
}

/// A source submission as a value.
pub struct SourceStepView {
    pub rel_path: Seq<PathPart>,
    pub path: Seq<PathPart>,
    pub lines: Map<usize, usize>,
    pub supported: bool,
}

impl View for SourceStep {
    type V = SourceStepView;

    open spec fn view(&self) -> SourceStepView {
        SourceStepView {
            rel_path: self.rel_path@,
            path: self.path@,
            lines: self.lines@,
            supported: self.supported,
        }
    }
}

/// The submission made after the `k`-th trace under `file`.
pub open spec fn step_at(
    manifest: Seq<PathPart>,
    entries: Seq<(Seq<PathPart>, Seq<Trace>)>,
    file: Seq<PathPart>,
    k: int,
) -> SourceStepView {
    let ts = child_traces(entries, file);
    SourceStepView {
        rel_path: project_relative(manifest, file),
        path: file,
        lines: line_map(ts.take(k + 1)),
        supported: ts[k].stats is Line,
    }
}

/// The submissions for one file, one per trace under it.
pub open spec fn file_steps(
    manifest: Seq<PathPart>,
    entries: Seq<(Seq<PathPart>, Seq<Trace>)>,
    file: Seq<PathPart>,
) -> Seq<SourceStepView> {
    Seq::new(child_traces(entries, file).len(), |k: int| step_at(manifest, entries, file, k))
}

/// The submissions for the first `i` files, in file order.
pub open spec fn report_steps(
    manifest: Seq<PathPart>,
    entries: Seq<(Seq<PathPart>, Seq<Trace>)>,
    i: nat,
) -> Seq<SourceStepView>
    decreases i,
{
    if i == 0 {
        Seq::empty()
    } else {
        report_steps(manifest, entries, (i - 1) as nat) + file_steps(manifest, entries, entries[i - 1].0)
    }
}

/// The submissions of one file.
fn push_file_steps(out: &mut Vec<SourceStep>, config: &Config, traces: &TraceMap, file: &FilePath)
    ensures
        final(out)@.map_values(|s: SourceStep| s@) == old(out)@.map_values(|s: SourceStep| s@)
            + file_steps(config.manifest@, traces@, file@),
{
    broadcast use vstd::std_specs::hash::group_hash_axioms;

    let ghost base = old(out)@.map_values(|s: SourceStep| s@);
    let ghost target = file_steps(config.manifest@, traces@, file@);
    let ts = traces.get_child_traces(file);
    let ghost s = child_traces(traces@, file@);
    let mut lines: HashMap<usize, usize> = HashMap::new();
    let mut k: usize = 0;
    while k < ts.len()
        invariant
            k <= ts@.len(),
            ts@.len() == s.len(),
            forall|q: int| 0 <= q < ts@.len() ==> *(#[trigger] ts@[q]) == s[q],
            s == child_traces(traces@, file@),
            target == file_steps(config.manifest@, traces@, file@),
            lines@ == line_map(s.take(k as int)),
            out@.map_values(|st: SourceStep| st@) == base + target.take(k as int),
        decreases ts@.len() - k,
    {
        let t = ts[k];
        let ghost lines0 = lines@;
        let supported = match &t.stats {
            CoverageStat::Line(hits) => {
                lines.insert(t.line as usize, *hits as usize);
                true
            },
            _ => false,
        };
        proof {
            assert(s.take(k + 1).drop_last() =~= s.take(k as int));
            assert(s.take(k + 1).last() == s[k as int]);
            assert(lines@ == line_map(s.take(k + 1)));
        }
        let ghost before = out@.map_values(|st: SourceStep| st@);
        out.push(SourceStep {
            rel_path: config.strip_project_path(file),
            path: file.duplicate(),
            lines: lines.clone(),
            supported,
        });
        proof {
            assert(out@.map_values(|st: SourceStep| st@) =~= before.push(target[k as int]));
            assert(target.take(k + 1) =~= target.take(k as int).push(target[k as int]));
        }
        k = k + 1;
    }
    assert(target.take(ts@.len() as int) =~= target);
}

/// The source submissions of the report, in file order: one after each
/// trace of each file.
pub fn source_steps(config: &Config, traces: &TraceMap) -> (r: Vec<SourceStep>)
    ensures
        r@.map_values(|s: SourceStep| s@) == report_steps(config.manifest@, traces@, traces@.len()),
{
    let mut r: Vec<SourceStep> = Vec::new();
    let mut i: usize = 0;
    assert(r@.map_values(|s: SourceStep| s@) =~= report_steps(config.manifest@, traces@, 0));
    while i < traces.file_count()
        invariant
            i <= traces@.len(),
            r@.map_values(|s: SourceStep| s@) == report_steps(config.manifest@, traces@, i as nat),
        decreases traces@.len() - i,
    {
        push_file_steps(&mut r, config, traces, traces.path_at(i));
        i = i + 1;
    }
    r
}

} // verus!
