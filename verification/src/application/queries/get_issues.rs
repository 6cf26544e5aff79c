//! The query for the open issues of a type in a repository.
use std::rc::Rc;
use vstd::prelude::*;

verus! {

/// Asks the repository `repo` for the open issues of a type in a repository.
pub struct GetIssuesQuery<R> {
    pub repo: Rc<R>,
}

} // verus!
