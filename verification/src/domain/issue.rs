//! Issues: their ids, the open ones, the types they can have, and a new one.
use vstd::prelude::*;

use crate::domain::member::Member;

verus! {

/// The global id of an issue.
#[derive(Clone, Debug, PartialEq, Eq)]
pub struct IssueId(pub String);

impl IssueId {
    pub fn new(id: String) -> (res: IssueId)
        ensures
            res.0@ == id@,
    {
        IssueId(id)
    }

    /// The id as text.
    pub fn as_str(&self) -> (res: &str)
        ensures
            res@ == self.0@,
    {
        self.0.as_str()
    }
}

impl std::ops::Deref for IssueId {
    type Target = str;

    fn deref(&self) -> (res: &str)
        ensures
            res@ == self.0@,
    {
        self.0.as_str()
    }
}

/// An open issue: its id and its title.
pub struct OpenIssue {
    pub id: IssueId,
    pub title: String,
}

impl OpenIssue {
    pub fn new(id: IssueId, title: String) -> (res: OpenIssue)
        ensures
            res.id == id,
            res.title == title,
    {
        OpenIssue { id, title }
    }
}

/// An issue type of a repository: its id and its name.
pub struct IssueType {
    pub id: String,
    pub name: String,
}

/// An issue to create.
pub struct Issue {
    /// The id, once GitHub has given one.
    pub id: Option<IssueId>,
    pub repo_id: String,
    pub title: String,
    pub body: String,
    pub issue_type_id: String,
    pub assignees: Vec<Member>,
}

} // verus!
