//! Types of outside crates that the library carries through its values.
use vstd::prelude::*;
use curl::Error as CurlError;

verus! {

/// The error of a failed `curl` transfer.
#[verifier::external_type_specification]
#[verifier::external_body]
pub struct ExCurlError(CurlError);

} // verus!
