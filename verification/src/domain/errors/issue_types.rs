//! Errors about issue types.
use vstd::prelude::*;

verus! {

/// The repository has no issue type of the requested name.
#[derive(Debug, PartialEq, Eq)]
pub enum IssueTypesError {
    IssueTypeNotFound,
}

} // verus!
