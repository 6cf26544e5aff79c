//! Errors about team members and assignable users.
use vstd::prelude::*;
use vstd::string::*;

verus! {

/// Why the members of a team or the assignable users could not be read.
#[derive(Debug, PartialEq, Eq)]
pub enum MemberError {
    EmptyTeamMembersResponse,
    TeamMembersWereNotFound,
    TeamMembersCursorNotFound,
    EmptyAssignableUsersResponse,
    AssignableUsersWereNotFound,
    AssignableUsersCursorNotFound,
}

impl MemberError {
    /// The text that reports this error.
    pub open spec fn spec_message(&self) -> Seq<char> {
        match self {
            MemberError::EmptyTeamMembersResponse => "get_team_members returned an empty response"@,
            MemberError::TeamMembersWereNotFound => "No team members were found"@,
            MemberError::TeamMembersCursorNotFound =>
                "Team members response requested another page without an end cursor"@,
            MemberError::EmptyAssignableUsersResponse =>
                "get_assignable_users returned an empty response"@,
            MemberError::AssignableUsersWereNotFound => "No assignable users were found"@,
            MemberError::AssignableUsersCursorNotFound =>
                "Assignable users response requested another page without an end cursor"@,
        }
    }

    /// The text that reports this error.
    pub fn message(&self) -> (res: String)
        ensures
            res@ == self.spec_message(),
    {
        match self {
            MemberError::EmptyTeamMembersResponse => String::from_str(
                "get_team_members returned an empty response",
            ),
            MemberError::TeamMembersWereNotFound => String::from_str("No team members were found"),
            MemberError::TeamMembersCursorNotFound => String::from_str(
                "Team members response requested another page without an end cursor",
            ),
            MemberError::EmptyAssignableUsersResponse => String::from_str(
                "get_assignable_users returned an empty response",
            ),
            MemberError::AssignableUsersWereNotFound => String::from_str(
                "No assignable users were found",
            ),
            MemberError::AssignableUsersCursorNotFound => String::from_str(
                "Assignable users response requested another page without an end cursor",
            ),
        }
    }
}

} // verus!
