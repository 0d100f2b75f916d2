//! The error and result types of the reports.
use vstd::prelude::*;

verus! {

/// The errors of a report.
pub enum Error {
    CoverallsAuth,
    Network,
    Unknown,
}

/// A report result.
pub type Result<A> = core::result::Result<A, Error>;

impl Default for Error {
    fn default() -> (r: Error)
        ensures
            r is Unknown,
    {
        Error::Unknown
    }
}

impl Error {
    /// The error as it is displayed: every error reads "Unknown Error".
    pub fn message(&self) -> (r: String)
        ensures
            r@ == "Unknown Error"@,
    {
        String::from_str("Unknown Error")
    }
}

} // verus!
