//! The identity of a Coveralls report.
use vstd::prelude::*;
use crate::config::Config;
use crate::report::types::{Error, Result};
use crate::reporting::coveralls::{Identity, identity_for, identity_from_key};

verus! {

/// The identity a Coveralls report is made with; fails with
/// `CoverallsAuth` where no Coveralls key was given.
pub fn mk_report_identity(config: &Config) -> (r: Result<Identity>)
    ensures
        config.coveralls is None ==> r matches Err(Error::CoverallsAuth),
        config.coveralls matches Some(key) ==> r == Ok::<Identity, Error>(identity_for(key, config.ci_tool)),
        config.coveralls matches Some(key) ==> (config.ci_tool matches Some(service) ==> (r matches Ok(
            Identity::ServiceToken(s),
        ) && s.service_name == service && s.service_job_id == key)),
        config.coveralls matches Some(key) ==> (config.ci_tool is None ==> (r matches Ok(
            Identity::RepoToken(k),
        ) && k == key)),
{
    match &config.coveralls {
        Some(key) => Ok(identity_from_key(key, &config.ci_tool)),
        None => Err(Error::CoverallsAuth),
    }
}

} // verus!
