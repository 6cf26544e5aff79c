//! The query for an organization by its login.
use std::rc::Rc;
use vstd::prelude::*;

verus! {

/// Asks the repository `repo` for an organization by its login.
pub struct GetOrgQuery<R> {
    pub repo: Rc<R>,
}

} // verus!
