//! The issue that the create use case asks for: its body, its type and its
//! assignees, out of what the queries returned.
use vstd::prelude::*;
use vstd::string::*;

use crate::domain::errors::issue_types::IssueTypesError;
use crate::domain::issue::{Issue, IssueType};
use crate::domain::member::{Member, MemberId};
use crate::github::{issue_type_matches, issue_type_matches_exec};

verus! {

/// Whether `id` is one of `ids`.
pub open spec fn is_listed(ids: Seq<String>, id: Seq<char>) -> bool {
    exists|k: int| 0 <= k < ids.len() && #[trigger] ids[k]@ == id
}

/// Those of `members` whose id is one of `assignable_member_ids`, in order.
pub open spec fn assignable_members(members: Seq<Member>, assignable_member_ids: Seq<String>) -> Seq<
    Member,
>
    decreases members.len(),
{
    if members.len() == 0 {
        Seq::empty()
    } else {
        let before = assignable_members(members.drop_last(), assignable_member_ids);
        if is_listed(assignable_member_ids, members.last().id.0@) {
            before.push(members.last())
        } else {
            before
        }
    }
}

/// The assignees are exactly the members whose id is one of
/// `assignable_member_ids`, each once and in input order: a member is kept
/// precisely when its id is listed.
pub proof fn lemma_assignable_members_are_the_listed_ones(
    members: Seq<Member>,
    assignable_member_ids: Seq<String>,
)
    ensures
        assignable_members(members, assignable_member_ids) == members.filter(
            |m: Member|
                exists|k: int|
                    0 <= k < assignable_member_ids.len() && #[trigger] assignable_member_ids[k]@
                        == m.id.0@,
        ),
    decreases members.len(),
{
    reveal(Seq::filter);
    if members.len() > 0 {
        lemma_assignable_members_are_the_listed_ones(members.drop_last(), assignable_member_ids);
    }
}

/// A copy of `member`.
fn copy_member(member: &Member) -> (res: Member)
    ensures
        res == *member,
{
    Member { id: MemberId(member.id.0.clone()), login: member.login.clone() }
}

/// Whether `id` is one of `ids`.
fn is_listed_exec(ids: &Vec<String>, id: &String) -> (res: bool)
    ensures
        res == is_listed(ids@, id@),
{
    let mut k: usize = 0;
    while k < ids.len()
        invariant
            k <= ids.len(),
            forall|m: int| 0 <= m < k ==> #[trigger] ids@[m]@ != id@,
        decreases ids.len() - k,
    {
        if ids[k] == *id {
            return true;
        }
        k = k + 1;
    }
    false
}

/// Those of `members` whose id is one of `assignable_member_ids`, in order
/// (see `assignable_members`). The ids come as a `Vec` and are searched in
/// order rather than held in a `HashSet`: vstd gives `HashSet` a model of its contents only for key types that it knows to obey its hash-table key model, and `String` is not one of them.
pub fn filter_assignable_members(members: Vec<Member>, assignable_member_ids: &Vec<String>) -> (res:
    Vec<Member>)
    ensures
        res@ == assignable_members(members@, assignable_member_ids@),
{
    let mut res: Vec<Member> = Vec::new();
    let mut i: usize = 0;
    while i < members.len()
        invariant
            i <= members.len(),
            res@ == assignable_members(members@.take(i as int), assignable_member_ids@),
        decreases members.len() - i,
    {
        assert(members@.take(i as int + 1).drop_last() =~= members@.take(i as int));
        if is_listed_exec(assignable_member_ids, &members[i].id.0) {
            res.push(copy_member(&members[i]));
        }
        i = i + 1;
    }
    assert(members@.take(members.len() as int) =~= members@);
    res
}

/// The mentions of `members`: `@`, the login and a space, for each.
pub open spec fn member_mentions(members: Seq<Member>) -> Seq<char>
    decreases members.len(),
{
    if members.len() == 0 {
        Seq::empty()
    } else {
        member_mentions(members.drop_last()) + "@"@ + members.last().login@ + " "@
    }
}

/// The body of the issue: `body`, then the mentions of `members` inside a
/// `<details>` block.
pub open spec fn extended_body(body: Seq<char>, members: Seq<Member>) -> Seq<char> {
    body + "\n<details>\n"@ + member_mentions(members) + "\n</details>"@
}

/// The id of the first of `issue_types` whose name is `issue_type` (see
/// `issue_type_matches`).
pub open spec fn find_issue_type_id(issue_types: Seq<IssueType>, issue_type: Seq<char>) -> Option<
    Seq<char>,
>
    decreases issue_types.len(),
{
    if issue_types.len() == 0 {
        None
    } else if issue_type_matches(issue_types[0].name@, issue_type) {
        Some(issue_types[0].id@)
    } else {
        find_issue_type_id(issue_types.drop_first(), issue_type)
    }
}

/// The id of the issue type `issue_type` among `issue_types`.
fn issue_type_id(issue_types: &Vec<IssueType>, issue_type: &str) -> (res: Option<String>)
    ensures
        match find_issue_type_id(issue_types@, issue_type@) {
            Some(id) => res matches Some(found) && found@ == id,
            None => res is None,
        },
{
    let mut i: usize = 0;
    assert(issue_types@.skip(0) =~= issue_types@);
    while i < issue_types.len()
        invariant
            i <= issue_types.len(),
            find_issue_type_id(issue_types@, issue_type@) == find_issue_type_id(
                issue_types@.skip(i as int),
                issue_type@,
            ),
        decreases issue_types.len() - i,
    {
        assert(issue_types@.skip(i as int).drop_first() =~= issue_types@.skip(i as int + 1));
        assert(issue_types@.skip(i as int)[0] == issue_types@[i as int]);
        if issue_type_matches_exec(issue_types[i].name.as_str(), issue_type) {
            return Some(issue_types[i].id.clone());
        }
        i = i + 1;
    }
    None
}

/// The body of the issue (see `extended_body`).
pub fn build_extended_body(body: &str, members: &Vec<Member>) -> (res: String)
    ensures
        res@ == extended_body(body@, members@),
{
    let mut mention_text = String::new();
    let mut i: usize = 0;
    while i < members.len()
        invariant
            i <= members.len(),
            mention_text@ == member_mentions(members@.take(i as int)),
        decreases members.len() - i,
    {
        assert(members@.take(i as int + 1).drop_last() =~= members@.take(i as int));
        mention_text.append("@");
        mention_text.append(members[i].login.as_str());
        mention_text.append(" ");
        i = i + 1;
    }
    assert(members@.take(members.len() as int) =~= members@);
    let mut text = String::from_str(body);
    text.append("\n<details>\n");
    text.append(mention_text.as_str());
    text.append("\n</details>");
    text
}

/// The issue to create in the repository `repo_id`, titled `title`, out of
/// the team `members`, the ids of the repository's assignable members and its
/// issue types: the body mentions every member, the type is the first whose
/// name is `issue_type`, and the assignees are the assignable members; fails
/// where the repository has no such issue type.
pub fn issue_to_create(
    repo_id: String,
    title: &str,
    body: &str,
    issue_type: &str,
    members: Vec<Member>,
    assignable_member_ids: &Vec<String>,
    issue_types: &Vec<IssueType>,
) -> (res: Result<Issue, IssueTypesError>)
    ensures
        match find_issue_type_id(issue_types@, issue_type@) {
            None => res == Err::<Issue, IssueTypesError>(IssueTypesError::IssueTypeNotFound),
            Some(type_id) => res matches Ok(issue) && {
                &&& issue.id is None
                &&& issue.repo_id@ == repo_id@
                &&& issue.title@ == title@
                &&& issue.body@ == extended_body(body@, members@)
                &&& issue.issue_type_id@ == type_id
                &&& issue.assignees@ == assignable_members(members@, assignable_member_ids@)
            },
        },
{
    let issue_type_id = match issue_type_id(issue_types, issue_type) {
        Some(id) => id,
        None => return Err(IssueTypesError::IssueTypeNotFound),
    };
    let extended = build_extended_body(body, &members);
    let assignees = filter_assignable_members(members, assignable_member_ids);
    Ok(
        Issue {
            id: None,
            repo_id,
            title: String::from_str(title),
            body: extended,
            issue_type_id,
            assignees,
        },
    )
}

} // verus!
