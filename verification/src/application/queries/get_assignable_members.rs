//! The query for the users who can be assigned in a repository.
use std::rc::Rc;
use vstd::prelude::*;

verus! {

/// Asks the repository `repo` for the users who can be assigned in a repository.
pub struct GetAssignableMembersQuery<R> {
    pub repo: Rc<R>,
}

} // verus!
