//! The run configuration that the reports read.
use vstd::prelude::*;
use crate::paths::{FilePath, PathPart, parent, strip_prefix};

verus! {

/// Continuous-integration services known to Coveralls.
pub enum CiService {
    Travis,
    TravisPro,
    Circle,
    Semaphore,
    Jenkins,
    Codeship,
    /// Any other service, by the name Coveralls knows it under.
    Other(String),
}

impl CiService {
    /// A copy of this service.
    pub fn duplicate(&self) -> (r: CiService)
        ensures
            r == *self,
    {
        match self {
            CiService::Travis => CiService::Travis,
            CiService::TravisPro => CiService::TravisPro,
            CiService::Circle => CiService::Circle,
            CiService::Semaphore => CiService::Semaphore,
            CiService::Jenkins => CiService::Jenkins,
            CiService::Codeship => CiService::Codeship,
            CiService::Other(s) => CiService::Other(s.clone()),
        }
    }
}

/// The settings of a coverage run that the reports depend on.
pub struct Config {
    /// Path to the project's `Cargo.toml`.
    pub manifest: FilePath,
    /// Whether to list uncovered lines.
    pub verbose: bool,
    /// The Coveralls key, where one was given.
    pub coveralls: Option<String>,
    /// The CI service the run happens on, where one was given.
    pub ci_tool: Option<CiService>,
    /// Where to send a Coveralls report instead of coveralls.io.
    pub report_uri: Option<String>,
}

/// The project root: the directory of the manifest, or the manifest path
/// itself where it has no parent.
pub open spec fn project_root(manifest: Seq<PathPart>) -> Seq<PathPart> {
    match parent(manifest) {
        Some(p) => p,
        None => manifest,
    }
}

/// `path` relative to the project root, or `path` unchanged where it lies
/// outside the root.
pub open spec fn project_relative(manifest: Seq<PathPart>, path: Seq<PathPart>) -> Seq<PathPart> {
    match strip_prefix(path, project_root(manifest)) {
        Some(r) => r,
        None => path,
    }
}

impl Config {
    /// The project root (the manifest's directory).
    pub fn root(&self) -> (r: FilePath)
        ensures
            r@ == project_root(self.manifest@),
    {
        match self.manifest.parent() {
            Some(p) => p,
            None => self.manifest.duplicate(),
        }
    }

    /// Strips the project root from `path`, for display to the user.
    pub fn strip_project_path(&self, path: &FilePath) -> (r: FilePath)
        ensures
            r@ == project_relative(self.manifest@, path@),
    {
        let root = self.root();
        match path.strip_prefix(&root) {
            Some(p) => p,
            None => path.duplicate(),
        }
    }
}

} // verus!
