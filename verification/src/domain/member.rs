//! Team members.
use vstd::prelude::*;

verus! {

/// The global id of a member.
#[derive(Clone, Debug, PartialEq, Eq)]
pub struct MemberId(pub String);

impl MemberId {
    pub fn new(id: String) -> (res: MemberId)
        ensures
            res.0@ == id@,
    {
        MemberId(id)
    }

    /// The id as text.
    pub fn as_str(&self) -> (res: &str)
        ensures
            res@ == self.0@,
    {
        self.0.as_str()
    }
}

/// A team member: their id and their login.
pub struct Member {
    pub id: MemberId,
    pub login: String,
}

impl Member {
    pub fn new(id: MemberId, login: String) -> (res: Member)
        ensures
            res.id == id,
            res.login == login,
    {
        Member { id, login }
    }
}

} // verus!
