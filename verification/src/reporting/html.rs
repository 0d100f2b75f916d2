//! The HTML report of the newer layout, which has no output yet.
use vstd::prelude::*;
use crate::config::Config;
use crate::traces::TraceMap;

verus! {

/// The HTML report.
pub struct Report {}

/// The error of the HTML report.
pub enum Error {
    Unknown,
}

impl Error {
    /// A short description of the error (empty).
    pub fn description(&self) -> (r: &'static str)
        ensures
            r@ == ""@,
    {
        ""
    }

    /// The underlying error: there is none.
    pub fn cause(&self) -> (r: Option<&Error>)
        ensures
            r is None,
    {
        None
    }

    /// The error as it is displayed (empty).
    pub fn message(&self) -> (r: String)
        ensures
            r@ == Seq::<char>::empty(),
    {
        String::new()
    }
}

impl Report {
    /// Rendering is not supported: always fails with `Unknown`.
    pub fn render(config: &Config, traces: &TraceMap) -> (r: Result<Report, Error>)
        ensures
            r matches Err(Error::Unknown),
    {
        Err(Error::Unknown)
    }

    /// Exporting is not supported: always fails with `Unknown`.
    pub fn export(&self, config: &Config) -> (r: Result<(), Error>)
        ensures
            r matches Err(Error::Unknown),
    {
        Err(Error::Unknown)
    }
}

} // verus!
