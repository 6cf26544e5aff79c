//! The standup run: who is mentioned and who is assigned, and the order in
//! which the run asks GitHub for things and changes them.
use vstd::prelude::*;
use vstd::string::*;

use crate::text::string_from_chars;

use crate::github::{
    assigned_to_all, created_with_type, lemma_created_issue_check, build_request_url, request_url, created_issue_problem, find_issue_type, find_standup_issue, select_issue_type,
    select_latest_open_issue, verify_created_issue, ApiIssue, CreatedIssueError, OpenIssue, User,
};

verus! {

/// GitHub's limit on the assignees of one issue.
pub const MAX_ASSIGNEES: usize = 10;

/// Whether one of `users` has the node id `node_id`.
pub open spec fn has_node(users: Seq<User>, node_id: Seq<char>) -> bool {
    exists|k: int| 0 <= k < users.len() && #[trigger] users[k].node_id@ == node_id
}

/// `known` followed by the members of `page` whose node id is not yet
/// among them, in order.
pub open spec fn add_members(known: Seq<User>, page: Seq<User>) -> Seq<User>
    decreases page.len(),
{
    if page.len() == 0 {
        known
    } else {
        let before = add_members(known, page.drop_last());
        if has_node(before, page.last().node_id@) {
            before
        } else {
            before.push(page.last())
        }
    }
}

/// The members of all `teams`, in team order, each node id once: where
/// teams share a member, the first occurrence stays.
pub open spec fn merge_teams(teams: Seq<Seq<User>>) -> Seq<User>
    decreases teams.len(),
{
    if teams.len() == 0 {
        Seq::empty()
    } else {
        add_members(merge_teams(teams.drop_last()), teams.last())
    }
}

/// The logins of those `members` whose node id is among `assignable`, in
/// order.
pub open spec fn assignable_logins(members: Seq<User>, assignable: Seq<User>) -> Seq<Seq<char>>
    decreases members.len(),
{
    if members.len() == 0 {
        Seq::empty()
    } else {
        let before = assignable_logins(members.drop_last(), assignable);
        if has_node(assignable, members.last().node_id@) {
            before.push(members.last().login@)
        } else {
            before
        }
    }
}

/// The assignees of the standup issue: the first `MAX_ASSIGNEES` of the
/// assignable logins.
pub open spec fn chosen_assignees(members: Seq<User>, assignable: Seq<User>) -> Seq<Seq<char>> {
    let all = assignable_logins(members, assignable);
    if all.len() <= MAX_ASSIGNEES {
        all
    } else {
        all.take(MAX_ASSIGNEES as int)
    }
}

/// The mentions of `members`: `@` and each login, separated by spaces.
pub open spec fn mentions(members: Seq<User>) -> Seq<char>
    decreases members.len(),
{
    if members.len() == 0 {
        Seq::empty()
    } else if members.len() == 1 {
        "@"@ + members[0].login@
    } else {
        mentions(members.drop_last()) + " @"@ + members.last().login@
    }
}

/// The body of the standup issue: the template, then the mentions of every
/// member inside a `<details>` block.
pub open spec fn issue_body(template: Seq<char>, members: Seq<User>) -> Seq<char> {
    template + "\n<details>\n"@ + mentions(members) + "\n</details>"@
}

/// Whether no two of `users` share a node id.
pub open spec fn distinct_nodes(users: Seq<User>) -> bool {
    forall|i: int, j: int|
        0 <= i < j < users.len() ==> #[trigger] users[i].node_id@ != #[trigger] users[j].node_id@
}

/// Whether `user` is one of the members of `teams`.
pub open spec fn in_some_team(teams: Seq<Seq<User>>, user: User) -> bool {
    exists|t: int, k: int| 0 <= t < teams.len() && 0 <= k < teams[t].len() && #[trigger] teams[t][k] == user
}

proof fn lemma_add_members(known: Seq<User>, page: Seq<User>)
    ensures
        add_members(known, page).len() >= known.len(),
        add_members(known, page).take(known.len() as int) == known,
        distinct_nodes(known) ==> distinct_nodes(add_members(known, page)),
        forall|k: int|
            0 <= k < page.len() ==> has_node(add_members(known, page), #[trigger] page[k].node_id@),
        forall|i: int|
            #![trigger add_members(known, page)[i]]
            known.len() <= i < add_members(known, page).len() ==> exists|k: int|
                0 <= k < page.len() && #[trigger] page[k] == add_members(known, page)[i],
    decreases page.len(),
{
    if page.len() == 0 {
        assert(known.take(known.len() as int) =~= known);
    } else {
        let prev = page.drop_last();
        lemma_add_members(known, prev);
        let before = add_members(known, prev);
        let res = add_members(known, page);
        let last = page.last();
        if !has_node(before, last.node_id@) {
            assert(res.take(known.len() as int) =~= before.take(known.len() as int));
            assert forall|i: int, j: int| 0 <= i < j < res.len() && distinct_nodes(known) implies
                #[trigger] res[i].node_id@ != #[trigger] res[j].node_id@ by {
                if j == before.len() {
                    assert(res[i] == before[i]);
                } else {
                    assert(res[i] == before[i] && res[j] == before[j]);
                }
            }
        }
        assert forall|k: int| 0 <= k < page.len() implies has_node(res, #[trigger] page[k].node_id@) by {
            if k < prev.len() {
                assert(page[k] == prev[k]);
                assert(has_node(before, prev[k].node_id@));
                let m = choose|m: int| 0 <= m < before.len() && #[trigger] before[m].node_id@ == prev[k].node_id@;
                assert(res[m] == before[m]);
            } else if has_node(before, last.node_id@) {
                let m = choose|m: int| 0 <= m < before.len() && #[trigger] before[m].node_id@ == last.node_id@;
                assert(res[m] == before[m]);
            } else {
                assert(res[before.len() as int] == last);
            }
        }
        assert forall|i: int| #![trigger res[i]] known.len() <= i < res.len() implies exists|k: int|
            0 <= k < page.len() && #[trigger] page[k] == res[i] by {
            if i < before.len() {
                let k = choose|k: int| 0 <= k < prev.len() && #[trigger] prev[k] == before[i];
                assert(page[k] == prev[k]);
                assert(res[i] == before[i]);
            } else {
                assert(page[page.len() - 1] == res[i]);
            }
        }
    }
}

/// The members gathered from several teams are listed once each by node
/// id; every member of every team is among them; and each of them is a
/// member of one of the teams, the first occurrence kept.
pub proof fn lemma_merge_teams_law(teams: Seq<Seq<User>>)
    ensures
        distinct_nodes(merge_teams(teams)),
        forall|t: int, k: int|
            0 <= t < teams.len() && 0 <= k < teams[t].len() ==> has_node(
                merge_teams(teams),
                #[trigger] teams[t][k].node_id@,
            ),
        forall|i: int|
            0 <= i < merge_teams(teams).len() ==> in_some_team(teams, #[trigger] merge_teams(teams)[i]),
    decreases teams.len(),
{
    if teams.len() > 0 {
        let prev = teams.drop_last();
        lemma_merge_teams_law(prev);
        let before = merge_teams(prev);
        let res = merge_teams(teams);
        lemma_add_members(before, teams.last());
        assert forall|t: int, k: int| 0 <= t < teams.len() && 0 <= k < teams[t].len() implies has_node(
            res,
            #[trigger] teams[t][k].node_id@,
        ) by {
            if t < prev.len() {
                assert(teams[t] == prev[t]);
                assert(has_node(before, prev[t][k].node_id@));
                let m = choose|m: int| 0 <= m < before.len() && #[trigger] before[m].node_id@ == prev[t][k].node_id@;
                assert(res.take(before.len() as int)[m] == before[m]);
            } else {
                assert(teams[t] == teams.last());
            }
        }
        assert forall|i: int| 0 <= i < res.len() implies in_some_team(teams, #[trigger] res[i]) by {
            if i < before.len() {
                assert(res.take(before.len() as int)[i] == before[i]);
                assert(in_some_team(prev, before[i]));
                let (t, k) = choose|t: int, k: int| 0 <= t < prev.len() && 0 <= k < prev[t].len() && #[trigger] prev[t][k] == before[i];
                assert(teams[t] == prev[t]);
            } else {
                let k = choose|k: int| 0 <= k < teams.last().len() && #[trigger] teams.last()[k] == res[i];
                assert(teams[teams.len() - 1][k] == res[i]);
            }
        }
    }
}

/// Whether `login` is the login of one of `members` whose node id is among
/// `assignable`.
pub open spec fn is_assignable_login(members: Seq<User>, assignable: Seq<User>, login: Seq<char>) -> bool {
    exists|k: int|
        0 <= k < members.len() && has_node(assignable, members[k].node_id@) && #[trigger] members[k].login@
            == login
}

proof fn lemma_assignable_logins_members(members: Seq<User>, assignable: Seq<User>)
    ensures
        forall|i: int|
                        0 <= i < assignable_logins(members, assignable).len() ==> is_assignable_login(members, assignable, #[trigger] assignable_logins(members, assignable)[i]),
    decreases members.len(),
{
    if members.len() > 0 {
        let prev = members.drop_last();
        lemma_assignable_logins_members(prev, assignable);
        let before = assignable_logins(prev, assignable);
        let res = assignable_logins(members, assignable);
        assert forall|i: int|
                        0 <= i < assignable_logins(members, assignable).len() implies is_assignable_login(members, assignable, #[trigger] assignable_logins(members, assignable)[i]) by {
            if i < before.len() {
                let k = choose|k: int| 0 <= k < prev.len() && has_node(assignable, prev[k].node_id@) && #[trigger] prev[k].login@ == before[i];
                assert(members[k] == prev[k]);
            } else {
                assert(members[members.len() - 1].login@ == res[i]);
            }
        }
    }
}

/// The standup issue is assigned to at most `MAX_ASSIGNEES` logins, each the
/// login of a team member whom the repository can assign, taken in team
/// order; fewer only when fewer members are assignable.
pub proof fn lemma_chosen_assignees_law(members: Seq<User>, assignable: Seq<User>)
    ensures
        chosen_assignees(members, assignable).len() <= MAX_ASSIGNEES,
        chosen_assignees(members, assignable) == assignable_logins(members, assignable).take(
            chosen_assignees(members, assignable).len() as int,
        ),
        assignable_logins(members, assignable).len() >= MAX_ASSIGNEES ==> chosen_assignees(
            members,
            assignable,
        ).len() == MAX_ASSIGNEES,
        forall|i: int|
                        0 <= i < chosen_assignees(members, assignable).len() ==> is_assignable_login(members, assignable, #[trigger] chosen_assignees(members, assignable)[i]),
{
    let all = assignable_logins(members, assignable);
    lemma_assignable_logins_members(members, assignable);
    assert(all.take(all.len() as int) =~= all);
    let chosen = chosen_assignees(members, assignable);
    assert forall|i: int|
                0 <= i < chosen_assignees(members, assignable).len() implies is_assignable_login(members, assignable, #[trigger] chosen_assignees(members, assignable)[i]) by {
        assert(chosen[i] == all[i]);
        assert(all[i] == assignable_logins(members, assignable)[i]);
    }
}

/// Whether `part` occurs in `text`.
pub open spec fn occurs_in(text: Seq<char>, part: Seq<char>) -> bool {
    exists|p: int|
        0 <= p && p + part.len() <= text.len() && #[trigger] text.subrange(p, p + part.len()) == part
}

proof fn lemma_occurs_in_extended(text: Seq<char>, part: Seq<char>, before: Seq<char>, after: Seq<char>)
    requires
        occurs_in(text, part),
    ensures
        occurs_in(before + text + after, part),
{
    let p = choose|p: int|
        0 <= p && p + part.len() <= text.len() && #[trigger] text.subrange(p, p + part.len()) == part;
    let whole = before + text + after;
    let q: int = before.len() + p;
    assert(whole.subrange(q, q + part.len()) =~= text.subrange(p, p + part.len()));
}

proof fn lemma_mentions_every_member(members: Seq<User>)
    ensures
        forall|i: int|
            0 <= i < members.len() ==> occurs_in(mentions(members), "@"@ + #[trigger] members[i].login@),
    decreases members.len(),
{
    reveal_strlit("@");
    reveal_strlit(" @");
    if members.len() == 1 {
        assert(members[0].login@ == members[0].login@);
        let text = mentions(members);
        let part = "@"@ + members[0].login@;
        assert(text.subrange(0int, 0int + part.len()) =~= part);
        assert(occurs_in(text, part));
    } else if members.len() > 1 {
        let prev = members.drop_last();
        lemma_mentions_every_member(prev);
        let m = mentions(prev);
        let last = members.last().login@;
        let text = mentions(members);
        assert(text == m + " @"@ + last);
        assert forall|i: int| 0 <= i < members.len() implies occurs_in(
            text,
            "@"@ + #[trigger] members[i].login@,
        ) by {
            if i < prev.len() {
                assert(members[i] == prev[i]);
                lemma_occurs_in_extended(m, "@"@ + prev[i].login@, Seq::empty(), " @"@ + last);
                assert(Seq::<char>::empty() + m + (" @"@ + last) =~= text);
            } else {
                let part = "@"@ + last;
                let q: int = m.len() as int + 1;
                assert(text.subrange(q, q + part.len()) =~= part);
            }
        }
    }
}

/// The body of the standup issue mentions every team member, `@` and the
/// login, whether or not the repository can assign them.
pub proof fn lemma_body_mentions_every_member(template: Seq<char>, members: Seq<User>)
    ensures
        forall|i: int|
            0 <= i < members.len() ==> occurs_in(
                issue_body(template, members),
                "@"@ + #[trigger] members[i].login@,
            ),
{
    lemma_mentions_every_member(members);
    assert forall|i: int| 0 <= i < members.len() implies occurs_in(
        issue_body(template, members),
        "@"@ + #[trigger] members[i].login@,
    ) by {
        lemma_occurs_in_extended(
            mentions(members),
            "@"@ + members[i].login@,
            template + "\n<details>\n"@,
            "\n</details>"@,
        );
        assert(template + "\n<details>\n"@ + mentions(members) + "\n</details>"@ =~= (template
            + "\n<details>\n"@) + mentions(members) + "\n</details>"@);
    }
}

proof fn lemma_assignable_logins_filter(members: Seq<User>, assignable: Seq<User>)
    ensures
        assignable_logins(members, assignable) == members.filter(
            |m: User|
                exists|k: int|
                    0 <= k < assignable.len() && #[trigger] assignable[k].node_id@ == m.node_id@,
        ).map_values(|m: User| m.login@),
    decreases members.len(),
{
    reveal(Seq::filter);
    let pred = |m: User|
        exists|k: int| 0 <= k < assignable.len() && #[trigger] assignable[k].node_id@ == m.node_id@;
    if members.len() > 0 {
        lemma_assignable_logins_filter(members.drop_last(), assignable);
        let sub = members.drop_last().filter(pred);
        assert(sub.push(members.last()).map_values(|m: User| m.login@) =~= sub.map_values(
            |m: User| m.login@,
        ).push(members.last().login@));
    } else {
        assert(members.filter(pred).map_values(|m: User| m.login@) =~= Seq::<Seq<char>>::empty());
    }
}

/// The assignees are exactly the logins of the team members whose node id
/// the repository can assign, in team order, cut after the first
/// `MAX_ASSIGNEES`: all of them where there are fewer.
pub proof fn lemma_assignees_are_the_first_assignable_members(members: Seq<User>, assignable: Seq<User>)
    ensures
        ({
            let logins = members.filter(
                |m: User|
                    exists|k: int|
                        0 <= k < assignable.len() && #[trigger] assignable[k].node_id@ == m.node_id@,
            ).map_values(|m: User| m.login@);
            &&& chosen_assignees(members, assignable).len() == if logins.len() < MAX_ASSIGNEES {
                logins.len()
            } else {
                MAX_ASSIGNEES as nat
            }
            &&& chosen_assignees(members, assignable) == logins.take(
                chosen_assignees(members, assignable).len() as int,
            )
        }),
{
    lemma_assignable_logins_filter(members, assignable);
    let all = assignable_logins(members, assignable);
    assert(all.take(all.len() as int) =~= all);
}

/// A copy of `user`.
pub fn copy_user(user: &User) -> (res: User)
    ensures
        res == *user,
{
    User { login: user.login.clone(), node_id: user.node_id.clone() }
}

/// Whether one of `users` has the node id `node_id`.
pub fn has_node_exec(users: &Vec<User>, node_id: &String) -> (res: bool)
    ensures
        res == has_node(users@, node_id@),
{
    let mut k: usize = 0;
    while k < users.len()
        invariant
            k <= users.len(),
            forall|m: int| 0 <= m < k ==> #[trigger] users@[m].node_id@ != node_id@,
        decreases users.len() - k,
    {
        if users[k].node_id == *node_id {
            return true;
        }
        k = k + 1;
    }
    false
}

/// Adds to `members` those of `page` whose node id is not yet among them,
/// in order (see `add_members`). The node ids seen so far are those of
/// `members` itself, searched in order rather than kept in a `HashSet`:
/// vstd gives `HashSet` a model of its contents only for key types that it knows to obey its hash-table key model, and `String` is not one of them.
pub fn add_team_members(members: &mut Vec<User>, page: &Vec<User>)
    ensures
        final(members)@ == add_members(old(members)@, page@),
{
    let mut i: usize = 0;
    while i < page.len()
        invariant
            i <= page.len(),
            members@ == add_members(old(members)@, page@.take(i as int)),
        decreases page.len() - i,
    {
        assert(page@.take(i as int + 1).drop_last() =~= page@.take(i as int));
        if !has_node_exec(members, &page[i].node_id) {
            let user = copy_user(&page[i]);
            members.push(user);
        }
        i = i + 1;
    }
    assert(page@.take(page.len() as int) =~= page@);
}

/// The members of all `teams`, in team order, each node id once (see
/// `merge_teams`); the seen node ids are searched as `add_team_members`
/// says.
pub fn collect_team_members(teams: &Vec<Vec<User>>) -> (res: Vec<User>)
    ensures
        res@ == merge_teams(teams.deep_view()),
{
    let mut members: Vec<User> = Vec::new();
    let mut t: usize = 0;
    while t < teams.len()
        invariant
            t <= teams.len(),
            members@ == merge_teams(teams.deep_view().take(t as int)),
        decreases teams.len() - t,
    {
        assert(teams.deep_view().take(t as int + 1).drop_last() =~= teams.deep_view().take(
            t as int,
        ));
        assert(teams.deep_view()[t as int] == teams@[t as int]@);
        add_team_members(&mut members, &teams[t]);
        t = t + 1;
    }
    assert(teams.deep_view().take(teams.len() as int) =~= teams.deep_view());
    members
}

proof fn lemma_assignable_logins_prefix(members: Seq<User>, assignable: Seq<User>, i: int, j: int)
    requires
        0 <= i <= j <= members.len(),
    ensures
        assignable_logins(members.take(i), assignable).len() <= assignable_logins(
            members.take(j),
            assignable,
        ).len(),
        assignable_logins(members.take(j), assignable).take(
            assignable_logins(members.take(i), assignable).len() as int,
        ) == assignable_logins(members.take(i), assignable),
    decreases j - i,
{
    if i < j {
        lemma_assignable_logins_prefix(members, assignable, i, j - 1);
        assert(members.take(j).drop_last() =~= members.take(j - 1));
        let a = assignable_logins(members.take(i), assignable);
        let b = assignable_logins(members.take(j - 1), assignable);
        let c = assignable_logins(members.take(j), assignable);
        assert(c.take(a.len() as int) =~= b.take(a.len() as int));
    } else {
        let a = assignable_logins(members.take(i), assignable);
        assert(a.take(a.len() as int) =~= a);
    }
}

/// The logins to assign to the standup issue (see `chosen_assignees`): the
/// members, in order, whose node id is among `assignable`, at most
/// `MAX_ASSIGNEES` of them. The assignable node ids are searched in
/// `assignable` rather than collected into a `HashSet`: vstd gives `HashSet` a model of its contents only for key types that it knows to obey its hash-table key model, and `String` is not one of them.
pub fn select_assignees(members: &Vec<User>, assignable: &Vec<User>) -> (res: Vec<String>)
    ensures
        res.deep_view() == chosen_assignees(members@, assignable@),
{
    let mut res: Vec<String> = Vec::new();
    let mut i: usize = 0;
    while i < members.len() && res.len() < MAX_ASSIGNEES
        invariant
            i <= members.len(),
            res@.len() <= MAX_ASSIGNEES,
            res.deep_view() == assignable_logins(members@.take(i as int), assignable@),
        decreases members.len() - i,
    {
        assert(members@.take(i as int + 1).drop_last() =~= members@.take(i as int));
        if has_node_exec(assignable, &members[i].node_id) {
            let ghost before = res.deep_view();
            let ghost old_res = res@;
            let login = members[i].login.clone();
            res.push(login);
            assert(res.deep_view() =~= before.push(members@[i as int].login@)) by {
                assert forall|k: int| 0 <= k < res@.len() implies #[trigger] res.deep_view()[k]
                    == before.push(members@[i as int].login@)[k] by {
                    if k < before.len() {
                        assert(res@[k] == old_res[k]);
                    }
                }
            }
        }
        i = i + 1;
    }
    proof {
        lemma_assignable_logins_prefix(members@, assignable@, i as int, members@.len() as int);
        assert(members@.take(members@.len() as int) =~= members@);
    }
    res
}

/// The body of the standup issue (see `issue_body`): the template, then the
/// mentions of all `members` inside a `<details>` block.
pub fn build_body(template: &str, members: &Vec<User>) -> (res: String)
    ensures
        res@ == issue_body(template@, members@),
{
    let mut mention_text = String::new();
    let mut i: usize = 0;
    while i < members.len()
        invariant
            i <= members.len(),
            mention_text@ == mentions(members@.take(i as int)),
        decreases members.len() - i,
    {
        assert(members@.take(i as int + 1).drop_last() =~= members@.take(i as int));
        if i == 0 {
            mention_text.append("@");
            assert(members@.take(1)[0] == members@[0]);
        } else {
            mention_text.append(" @");
        }
        mention_text.append(members[i].login.as_str());
        i = i + 1;
    }
    assert(members@.take(members.len() as int) =~= members@);
    let mut body = String::from_str(template);
    body.append("\n<details>\n");
    body.append(mention_text.as_str());
    body.append("\n</details>");
    body
}

/// A copy of `strings`.
pub fn copy_strings(strings: &Vec<String>) -> (res: Vec<String>)
    ensures
        res@ == strings@,
{
    let mut res: Vec<String> = Vec::new();
    let mut i: usize = 0;
    while i < strings.len()
        invariant
            i <= strings.len(),
            res@ == strings@.take(i as int),
        decreases strings.len() - i,
    {
        res.push(strings[i].clone());
        assert(strings@.take(i as int + 1) =~= strings@.take(i as int).push(strings@[i as int]));
        i = i + 1;
    }
    assert(strings@.take(strings.len() as int) =~= strings@);
    res
}

/// Why a standup run failed.
#[derive(Debug)]
pub enum DsmError {
    /// The repository has no issue type of the requested name.
    IssueTypeNotFound(String),
    /// GitHub created the issue otherwise than requested; it was closed again.
    InvalidCreatedIssue(CreatedIssueError),
}

impl DsmError {
    /// The text that reports this error.
    pub open spec fn spec_message(&self) -> Seq<char> {
        match self {
            DsmError::IssueTypeNotFound(name) => "repository issue type `"@ + name@
                + "` was not found"@,
            DsmError::InvalidCreatedIssue(problem) => problem.spec_message(),
        }
    }

    /// The text that reports this error.
    pub fn message(&self) -> (res: String)
        ensures
            res@ == self.spec_message(),
    {
        match self {
            DsmError::IssueTypeNotFound(name) => {
                let mut text = String::from_str("repository issue type `");
                text.append(name.as_str());
                text.append("` was not found");
                text
            },
            DsmError::InvalidCreatedIssue(problem) => problem.message(),
        }
    }
}

/// Why a standup run failed, as a value.
pub enum DsmFailure {
    IssueTypeNotFound(Seq<char>),
    InvalidCreatedIssue(CreatedIssueError),
}

impl View for DsmError {
    type V = DsmFailure;

    open spec fn view(&self) -> DsmFailure {
        match self {
            DsmError::IssueTypeNotFound(name) => DsmFailure::IssueTypeNotFound(name@),
            DsmError::InvalidCreatedIssue(problem) => DsmFailure::InvalidCreatedIssue(*problem),
        }
    }
}

/// What the run asks of GitHub next, or how it ends.
#[derive(Debug)]
pub enum DsmAction {
    /// List the repository's issue types.
    ListIssueTypes,
    /// List the newest open issue of the type `issue_type`.
    FindLatestOpenIssue { issue_type: String },
    /// List all members of the team `team_slug`.
    ListTeamMembers { team_slug: String },
    /// List all users who can be assigned in the repository.
    ListAssignableUsers,
    /// Close the stale standup issue `number`.
    CloseIssue { number: u64 },
    /// Create the standup issue.
    CreateIssue { title: String, body: String, issue_type: String, assignees: Vec<String> },
    /// Close the issue `number` that GitHub created otherwise than requested.
    CloseInvalidIssue { number: u64 },
    /// The run is over and succeeded.
    Finish,
    /// The run is over and failed.
    Fail(DsmError),
}

/// What the run asks of GitHub next, as a value.
pub enum ActionModel {
    ListIssueTypes,
    FindLatestOpenIssue { issue_type: Seq<char> },
    ListTeamMembers { team_slug: Seq<char> },
    ListAssignableUsers,
    CloseIssue { number: u64 },
    CreateIssue {
        title: Seq<char>,
        body: Seq<char>,
        issue_type: Seq<char>,
        assignees: Seq<Seq<char>>,
    },
    CloseInvalidIssue { number: u64 },
    Finish,
    Fail(DsmFailure),
}

impl View for DsmAction {
    type V = ActionModel;

    open spec fn view(&self) -> ActionModel {
        match self {
            DsmAction::ListIssueTypes => ActionModel::ListIssueTypes,
            DsmAction::FindLatestOpenIssue { issue_type } => ActionModel::FindLatestOpenIssue {
                issue_type: issue_type@,
            },
            DsmAction::ListTeamMembers { team_slug } => ActionModel::ListTeamMembers {
                team_slug: team_slug@,
            },
            DsmAction::ListAssignableUsers => ActionModel::ListAssignableUsers,
            DsmAction::CloseIssue { number } => ActionModel::CloseIssue { number: *number },
            DsmAction::CreateIssue { title, body, issue_type, assignees } => ActionModel::CreateIssue {
                title: title@,
                body: body@,
                issue_type: issue_type@,
                assignees: assignees.deep_view(),
            },
            DsmAction::CloseInvalidIssue { number } => ActionModel::CloseInvalidIssue {
                number: *number,
            },
            DsmAction::Finish => ActionModel::Finish,
            DsmAction::Fail(error) => ActionModel::Fail(error@),
        }
    }
}

/// What GitHub answered to the last action.
pub enum DsmEvent {
    /// The names of the repository's issue types.
    IssueTypes(Vec<String>),
    /// The newest open issues of the type, newest first.
    OpenIssues(Vec<ApiIssue>),
    /// The members of the team last asked for.
    TeamMembers(Vec<User>),
    /// The users who can be assigned in the repository.
    AssignableUsers(Vec<User>),
    /// The issue was closed.
    IssueClosed,
    /// The issue that GitHub created.
    IssueCreated(ApiIssue),
}

/// Where the run stands: which answer it awaits, and what it has learnt.
pub enum DsmStage {
    AwaitIssueTypes,
    AwaitOpenIssue { issue_type: String },
    AwaitTeamMembers {
        issue_type: String,
        current: Option<OpenIssue>,
        next_team: usize,
        members: Vec<User>,
    },
    AwaitAssignableUsers { issue_type: String, current: Option<OpenIssue>, members: Vec<User> },
    AwaitStaleClosed { issue_type: String, body: String, assignees: Vec<String> },
    AwaitCreated { issue_type: String, assignees: Vec<String> },
    AwaitInvalidClosed { problem: CreatedIssueError },
    Done,
}

/// Where the run stands, as a value; an open issue is its number and title.
pub enum StageModel {
    AwaitIssueTypes,
    AwaitOpenIssue { issue_type: Seq<char> },
    AwaitTeamMembers {
        issue_type: Seq<char>,
        current: Option<(u64, Seq<char>)>,
        next_team: nat,
        members: Seq<User>,
    },
    AwaitAssignableUsers {
        issue_type: Seq<char>,
        current: Option<(u64, Seq<char>)>,
        members: Seq<User>,
    },
    AwaitStaleClosed { issue_type: Seq<char>, body: Seq<char>, assignees: Seq<Seq<char>> },
    AwaitCreated { issue_type: Seq<char>, assignees: Seq<Seq<char>> },
    AwaitInvalidClosed { problem: CreatedIssueError },
    Done,
}

/// The number and title of an optional open issue.
pub open spec fn open_issue_view(issue: Option<OpenIssue>) -> Option<(u64, Seq<char>)> {
    match issue {
        Some(issue) => Some((issue.number, issue.title@)),
        None => None,
    }
}

/// The number and title of an optional listed issue.
pub open spec fn api_issue_view(issue: Option<ApiIssue>) -> Option<(u64, Seq<char>)> {
    match issue {
        Some(issue) => Some((issue.number, issue.title@)),
        None => None,
    }
}

impl View for DsmStage {
    type V = StageModel;

    open spec fn view(&self) -> StageModel {
        match self {
            DsmStage::AwaitIssueTypes => StageModel::AwaitIssueTypes,
            DsmStage::AwaitOpenIssue { issue_type } => StageModel::AwaitOpenIssue {
                issue_type: issue_type@,
            },
            DsmStage::AwaitTeamMembers { issue_type, current, next_team, members } =>
                StageModel::AwaitTeamMembers {
                issue_type: issue_type@,
                current: open_issue_view(*current),
                next_team: *next_team as nat,
                members: members@,
            },
            DsmStage::AwaitAssignableUsers { issue_type, current, members } =>
                StageModel::AwaitAssignableUsers {
                issue_type: issue_type@,
                current: open_issue_view(*current),
                members: members@,
            },
            DsmStage::AwaitStaleClosed { issue_type, body, assignees } =>
                StageModel::AwaitStaleClosed {
                issue_type: issue_type@,
                body: body@,
                assignees: assignees.deep_view(),
            },
            DsmStage::AwaitCreated { issue_type, assignees } => StageModel::AwaitCreated {
                issue_type: issue_type@,
                assignees: assignees.deep_view(),
            },
            DsmStage::AwaitInvalidClosed { problem } => StageModel::AwaitInvalidClosed {
                problem: *problem,
            },
            DsmStage::Done => StageModel::Done,
        }
    }
}

/// A standup run: what it was asked to do, and where it stands.
pub struct DsmRun {
    /// The teams whose members the issue mentions, in order.
    pub team_slugs: Vec<String>,
    /// The issue type as the action's input names it.
    pub issue_type: String,
    /// The title of today's standup issue.
    pub title: String,
    /// The template of the issue body.
    pub template: String,
    pub stage: DsmStage,
}

/// A standup run, as a value.
pub struct RunModel {
    pub team_slugs: Seq<Seq<char>>,
    pub issue_type: Seq<char>,
    pub title: Seq<char>,
    pub template: Seq<char>,
    pub stage: StageModel,
}

impl View for DsmRun {
    type V = RunModel;

    open spec fn view(&self) -> RunModel {
        RunModel {
            team_slugs: self.team_slugs.deep_view(),
            issue_type: self.issue_type@,
            title: self.title@,
            template: self.template@,
            stage: self.stage@,
        }
    }
}

/// `run` moved to the stage `stage`.
pub open spec fn at_stage(run: RunModel, stage: StageModel) -> RunModel {
    RunModel { stage, ..run }
}

/// Whether the stage of `run` is consistent with its teams, and the open
/// issue it remembers is a stale one, not titled as today's.
pub open spec fn run_wf(run: RunModel) -> bool {
    match run.stage {
        StageModel::AwaitTeamMembers { next_team, current, .. } => {
            &&& next_team < run.team_slugs.len()
            &&& current matches Some(c) ==> c.1 != run.title
        },
        StageModel::AwaitAssignableUsers { current, .. } => current matches Some(c) ==> c.1
            != run.title,
        _ => true,
    }
}

/// Whether the stage `stage` awaits the answer `event`.
pub open spec fn awaits(stage: StageModel, event: DsmEvent) -> bool {
    match (stage, event) {
        (StageModel::AwaitIssueTypes, DsmEvent::IssueTypes(_)) => true,
        (StageModel::AwaitOpenIssue { .. }, DsmEvent::OpenIssues(_)) => true,
        (StageModel::AwaitTeamMembers { .. }, DsmEvent::TeamMembers(_)) => true,
        (StageModel::AwaitAssignableUsers { .. }, DsmEvent::AssignableUsers(_)) => true,
        (StageModel::AwaitStaleClosed { .. }, DsmEvent::IssueClosed) => true,
        (StageModel::AwaitCreated { .. }, DsmEvent::IssueCreated(_)) => true,
        (StageModel::AwaitInvalidClosed { .. }, DsmEvent::IssueClosed) => true,
        _ => false,
    }
}

/// The request that creates the standup issue.
pub open spec fn create_action(
    run: RunModel,
    body: Seq<char>,
    issue_type: Seq<char>,
    assignees: Seq<Seq<char>>,
) -> ActionModel {
    ActionModel::CreateIssue { title: run.title, body, issue_type, assignees }
}

/// Where the run goes, and what it does, on the answer `event`.
///
/// The issue type is resolved first; a missing one ends the run. The newest
/// open issue of that type is looked up; if it carries today's title the run
/// ends and changes nothing. Otherwise the members of each team are
/// gathered in order, each node id once, then the assignable users; the
/// stale issue, if there is one, is closed before today's issue is created
/// with the body mentioning every member and at most `MAX_ASSIGNEES`
/// assignable members assigned. An issue that GitHub creates otherwise than
/// requested is closed again and the run fails.
pub open spec fn dsm_next(run: RunModel, event: DsmEvent) -> (RunModel, ActionModel) {
    match (run.stage, event) {
        (StageModel::AwaitIssueTypes, DsmEvent::IssueTypes(names)) => match find_issue_type(
            names@,
            run.issue_type,
        ) {
            None => (
                at_stage(run, StageModel::Done),
                ActionModel::Fail(DsmFailure::IssueTypeNotFound(run.issue_type)),
            ),
            Some(name) => (
                at_stage(run, StageModel::AwaitOpenIssue { issue_type: name }),
                ActionModel::FindLatestOpenIssue { issue_type: name },
            ),
        },
        (StageModel::AwaitOpenIssue { issue_type }, DsmEvent::OpenIssues(issues)) => {
            let current = api_issue_view(find_standup_issue(issues@, issue_type));
            if current matches Some(c) && c.1 == run.title {
                (at_stage(run, StageModel::Done), ActionModel::Finish)
            } else if run.team_slugs.len() > 0 {
                (
                    at_stage(
                        run,
                        StageModel::AwaitTeamMembers {
                            issue_type,
                            current,
                            next_team: 0,
                            members: Seq::empty(),
                        },
                    ),
                    ActionModel::ListTeamMembers { team_slug: run.team_slugs[0] },
                )
            } else {
                (
                    at_stage(
                        run,
                        StageModel::AwaitAssignableUsers {
                            issue_type,
                            current,
                            members: Seq::empty(),
                        },
                    ),
                    ActionModel::ListAssignableUsers,
                )
            }
        },
        (
            StageModel::AwaitTeamMembers { issue_type, current, next_team, members },
            DsmEvent::TeamMembers(page),
        ) => {
            let merged = add_members(members, page@);
            if next_team + 1 < run.team_slugs.len() {
                (
                    at_stage(
                        run,
                        StageModel::AwaitTeamMembers {
                            issue_type,
                            current,
                            next_team: next_team + 1,
                            members: merged,
                        },
                    ),
                    ActionModel::ListTeamMembers { team_slug: run.team_slugs[next_team + 1int] },
                )
            } else {
                (
                    at_stage(
                        run,
                        StageModel::AwaitAssignableUsers { issue_type, current, members: merged },
                    ),
                    ActionModel::ListAssignableUsers,
                )
            }
        },
        (
            StageModel::AwaitAssignableUsers { issue_type, current, members },
            DsmEvent::AssignableUsers(users),
        ) => {
            let assignees = chosen_assignees(members, users@);
            let body = issue_body(run.template, members);
            match current {
                Some(c) => (
                    at_stage(run, StageModel::AwaitStaleClosed { issue_type, body, assignees }),
                    ActionModel::CloseIssue { number: c.0 },
                ),
                None => (
                    at_stage(run, StageModel::AwaitCreated { issue_type, assignees }),
                    create_action(run, body, issue_type, assignees),
                ),
            }
        },
        (
            StageModel::AwaitStaleClosed { issue_type, body, assignees },
            DsmEvent::IssueClosed,
        ) => (
            at_stage(run, StageModel::AwaitCreated { issue_type, assignees }),
            create_action(run, body, issue_type, assignees),
        ),
        (StageModel::AwaitCreated { issue_type, assignees }, DsmEvent::IssueCreated(created)) => {
            match created_issue_problem(created, run.title, issue_type, assignees) {
                None => (at_stage(run, StageModel::Done), ActionModel::Finish),
                Some(problem) => (
                    at_stage(run, StageModel::AwaitInvalidClosed { problem }),
                    ActionModel::CloseInvalidIssue { number: created.number },
                ),
            }
        },
        (StageModel::AwaitInvalidClosed { problem }, DsmEvent::IssueClosed) => (
            at_stage(run, StageModel::Done),
            ActionModel::Fail(DsmFailure::InvalidCreatedIssue(problem)),
        ),
        _ => (run, ActionModel::Finish),
    }
}

/// On the issue that GitHub created, the run finishes exactly when the issue
/// has today's title, a type that names the resolved type, and every chosen
/// assignee; otherwise it asks to close that very issue and, once it is
/// closed, fails with the first difference: the title, else the type, else
/// the assignees.
pub proof fn lemma_created_issue_decides_the_end(run: RunModel, created: ApiIssue)
    requires
        run.stage is AwaitCreated,
    ensures
        ({
            let (issue_type, assignees) = match run.stage {
                StageModel::AwaitCreated { issue_type, assignees } => (issue_type, assignees),
                _ => arbitrary(),
            };
            let (next, action) = dsm_next(run, DsmEvent::IssueCreated(created));
            let as_requested = created.title@ == run.title && created_with_type(created, issue_type)
                && assigned_to_all(created, assignees);
            let problem = if created.title@ != run.title {
                CreatedIssueError::UnexpectedTitle
            } else if !created_with_type(created, issue_type) {
                CreatedIssueError::MissingIssueType
            } else {
                CreatedIssueError::MissingAssignees
            };
            &&& (action == ActionModel::Finish) == as_requested
            &&& as_requested ==> next.stage == StageModel::Done
            &&& !as_requested ==> {
                &&& action == (ActionModel::CloseInvalidIssue { number: created.number })
                &&& awaits(next.stage, DsmEvent::IssueClosed)
                &&& dsm_next(next, DsmEvent::IssueClosed).1 == ActionModel::Fail(
                    DsmFailure::InvalidCreatedIssue(problem),
                )
            }
        }),
{
    let (issue_type, assignees) = match run.stage {
        StageModel::AwaitCreated { issue_type, assignees } => (issue_type, assignees),
        _ => arbitrary(),
    };
    lemma_created_issue_check(created, run.title, issue_type, assignees);
}

/// A run whose newest open standup issue already carries today's title
/// ends there, successfully, closing and creating nothing, whatever that
/// issue's assignees are.
pub proof fn lemma_current_issue_is_kept(run: RunModel, issues: Vec<ApiIssue>)
    requires
        run.stage matches StageModel::AwaitOpenIssue { issue_type } && api_issue_view(
            find_standup_issue(issues@, issue_type),
        ) matches Some(current) && current.1 == run.title,
    ensures
        dsm_next(run, DsmEvent::OpenIssues(issues)) == (
            at_stage(run, StageModel::Done),
            ActionModel::Finish,
        ),
{
}

/// A stale standup issue is closed before today's issue is created: a run
/// that found an open issue under another title asks to close it once it
/// knows the assignable users, awaits nothing but the confirmation, and only
/// then asks to create today's issue, with today's title, the resolved type,
/// the body that mentions every member, and the chosen assignees.
pub proof fn lemma_stale_issue_closed_before_creation(run: RunModel, users: Vec<User>)
    requires
        run.stage matches StageModel::AwaitAssignableUsers { current, .. } && current is Some,
    ensures
        ({
            let (issue_type, current, members) = match run.stage {
                StageModel::AwaitAssignableUsers { issue_type, current, members } => (
                    issue_type,
                    current,
                    members,
                ),
                _ => arbitrary(),
            };
            let (waiting, first) = dsm_next(run, DsmEvent::AssignableUsers(users));
            &&& first == ActionModel::CloseIssue { number: (current->0).0 }
            &&& forall|event: DsmEvent| #[trigger] awaits(waiting.stage, event) ==> event is IssueClosed
            &&& awaits(waiting.stage, DsmEvent::IssueClosed)
            &&& dsm_next(waiting, DsmEvent::IssueClosed).1 == create_action(
                run,
                issue_body(run.template, members),
                issue_type,
                chosen_assignees(members, users@),
            )
            &&& dsm_next(waiting, DsmEvent::IssueClosed).0.stage == (StageModel::AwaitCreated {
                issue_type,
                assignees: chosen_assignees(members, users@),
            })
        }),
{
}

/// A run that found no open standup issue creates today's issue at once,
/// closing nothing.
pub proof fn lemma_no_stale_issue_creates_directly(run: RunModel, users: Vec<User>)
    requires
        run.stage matches StageModel::AwaitAssignableUsers { current, .. } && current is None,
    ensures
        ({
            let (issue_type, members) = match run.stage {
                StageModel::AwaitAssignableUsers { issue_type, members, .. } => (issue_type, members),
                _ => arbitrary(),
            };
            dsm_next(run, DsmEvent::AssignableUsers(users)).1 == create_action(
                run,
                issue_body(run.template, members),
                issue_type,
                chosen_assignees(members, users@),
            )
        }),
{
}

/// A step changes only where the run stands, never what it was asked to do;
/// and a finished run awaits no answer.
pub proof fn lemma_step_keeps_the_plan(run: RunModel, event: DsmEvent)
    ensures
        dsm_next(run, event).0 == at_stage(run, dsm_next(run, event).0.stage),
        !awaits(StageModel::Done, event),
{
}

/// The run only ever closes a stale standup issue: the one it found open
/// under another title than today's.
pub proof fn lemma_only_stale_issues_are_closed(run: RunModel, event: DsmEvent)
    requires
        run_wf(run),
        awaits(run.stage, event),
        (dsm_next(run, event).1 is CloseIssue),
    ensures
        (run.stage matches StageModel::AwaitAssignableUsers { current, .. } && current matches Some(
            stale,
        ) && dsm_next(run, event).1 == (ActionModel::CloseIssue { number: stale.0 }) && stale.1
            != run.title),
{
}

/// Whether the remembered open issue `current`, if any, is titled otherwise
/// than `title`.
fn is_stale(current: &Option<OpenIssue>, title: &String) -> (res: bool)
    ensures
        res == (open_issue_view(*current) matches Some(c) ==> c.1 != title@),
{
    match current {
        Some(c) => !(c.title == *title),
        None => true,
    }
}

/// The digit character of `d`, below ten.
pub open spec fn digit_char(d: nat) -> char {
    ((48 + d) as u8) as char
}

/// The decimal digits of `n`, as `u64::to_string` writes them.
pub open spec fn decimal(n: nat) -> Seq<char>
    decreases n,
{
    if n < 10 {
        seq![digit_char(n)]
    } else {
        decimal(n / 10).push(digit_char(n % 10))
    }
}

/// The decimal digits of `n` (see `decimal`).
pub fn decimal_digits(n: u64) -> (res: Vec<char>)
    ensures
        res@ == decimal(n as nat),
    decreases n,
{
    let d: u8 = (n % 10) as u8;
    let c = (48 + d) as char;
    if n < 10 {
        let mut res: Vec<char> = Vec::new();
        res.push(c);
        assert(res@ =~= seq![digit_char(n as nat)]);
        res
    } else {
        let mut res = decimal_digits(n / 10);
        res.push(c);
        res
    }
}

/// The methods of GitHub's API that the run uses.
#[derive(Clone, Copy, Debug, PartialEq, Eq)]
pub enum HttpMethod {
    Get,
    Post,
    Patch,
}

/// The method, path segments and query pairs of the request that `action`
/// asks for, in the repository `repo` of `owner`; `None` where the action
/// ends the run.
pub open spec fn request_target(action: ActionModel, owner: Seq<char>, repo: Seq<char>) -> Option<
    (HttpMethod, Seq<Seq<char>>, Seq<(Seq<char>, Seq<char>)>),
> {
    match action {
        ActionModel::ListIssueTypes => Some(
            (HttpMethod::Get, seq!["repos"@, owner, repo, "issue-types"@], Seq::empty()),
        ),
        ActionModel::FindLatestOpenIssue { issue_type } => Some(
            (
                HttpMethod::Get,
                seq!["repos"@, owner, repo, "issues"@],
                seq![
                    ("state"@, "open"@),
                    ("type"@, issue_type),
                    ("sort"@, "created"@),
                    ("direction"@, "desc"@),
                    ("per_page"@, "1"@),
                ],
            ),
        ),
        ActionModel::ListTeamMembers { team_slug } => Some(
            (
                HttpMethod::Get,
                seq!["orgs"@, owner, "teams"@, team_slug, "members"@],
                seq![("role"@, "all"@), ("per_page"@, "100"@)],
            ),
        ),
        ActionModel::ListAssignableUsers => Some(
            (
                HttpMethod::Get,
                seq!["repos"@, owner, repo, "assignees"@],
                seq![("per_page"@, "100"@)],
            ),
        ),
        ActionModel::CloseIssue { number } => Some(
            (HttpMethod::Patch, seq!["repos"@, owner, repo, "issues"@, decimal(number as nat)], Seq::empty()),
        ),
        ActionModel::CloseInvalidIssue { number } => Some(
            (HttpMethod::Patch, seq!["repos"@, owner, repo, "issues"@, decimal(number as nat)], Seq::empty()),
        ),
        ActionModel::CreateIssue { .. } => Some(
            (HttpMethod::Post, seq!["repos"@, owner, repo, "issues"@], Seq::empty()),
        ),
        ActionModel::Finish => None,
        ActionModel::Fail(_) => None,
    }
}

/// The strings `a`, `b`, `c`, `d`, in order.
fn four_strings(a: &str, b: &str, c: &str, d: &str) -> (res: Vec<String>)
    ensures
        res.deep_view() == seq![a@, b@, c@, d@],
{
    let mut res: Vec<String> = Vec::new();
    res.push(String::from_str(a));
    res.push(String::from_str(b));
    res.push(String::from_str(c));
    res.push(String::from_str(d));
    assert(res.deep_view() =~= seq![a@, b@, c@, d@]);
    res
}

/// The strings `a`, `b`, `c`, `d`, `e`, in order.
fn five_strings(a: &str, b: &str, c: &str, d: &str, e: &str) -> (res: Vec<String>)
    ensures
        res.deep_view() == seq![a@, b@, c@, d@, e@],
{
    let mut res = four_strings(a, b, c, d);
    let ghost before = res.deep_view();
    res.push(String::from_str(e));
    assert(res.deep_view() =~= before.push(e@));
    res
}

/// The pair of `key` and `value`.
fn query_pair(key: &str, value: &str) -> (res: (String, String))
    ensures
        res.deep_view() == (key@, value@),
{
    (String::from_str(key), String::from_str(value))
}

/// The method and URL of the request that `action` asks for, below the API
/// root `api_root`, in the repository `repo` of `owner` (see
/// `request_target` and `request_url`); `None` where the action ends the run
/// or no URL can be made.
pub fn request_for(action: &DsmAction, api_root: &str, owner: &str, repo: &str) -> (res: Option<
    (HttpMethod, String),
>)
    ensures
        match request_target(action@, owner@, repo@) {
            None => res is None,
            Some(target) => match request_url(api_root@, target.1, target.2) {
                Some(url) => res matches Some(request) && request.0 == target.0 && request.1@ == url,
                None => res is None,
            },
        },
{
    let (method, segments, query): (HttpMethod, Vec<String>, Vec<(String, String)>) = match action {
        DsmAction::ListIssueTypes => (
            HttpMethod::Get,
            four_strings("repos", owner, repo, "issue-types"),
            Vec::new(),
        ),
        DsmAction::FindLatestOpenIssue { issue_type } => {
            let mut query: Vec<(String, String)> = Vec::new();
            query.push(query_pair("state", "open"));
            query.push(query_pair("type", issue_type.as_str()));
            query.push(query_pair("sort", "created"));
            query.push(query_pair("direction", "desc"));
            query.push(query_pair("per_page", "1"));
            assert(query.deep_view() =~= seq![
                ("state"@, "open"@),
                ("type"@, issue_type@),
                ("sort"@, "created"@),
                ("direction"@, "desc"@),
                ("per_page"@, "1"@),
            ]);
            (HttpMethod::Get, four_strings("repos", owner, repo, "issues"), query)
        },
        DsmAction::ListTeamMembers { team_slug } => {
            let mut query: Vec<(String, String)> = Vec::new();
            query.push(query_pair("role", "all"));
            query.push(query_pair("per_page", "100"));
            assert(query.deep_view() =~= seq![("role"@, "all"@), ("per_page"@, "100"@)]);
            (
                HttpMethod::Get,
                five_strings("orgs", owner, "teams", team_slug.as_str(), "members"),
                query,
            )
        },
        DsmAction::ListAssignableUsers => {
            let mut query: Vec<(String, String)> = Vec::new();
            query.push(query_pair("per_page", "100"));
            assert(query.deep_view() =~= seq![("per_page"@, "100"@)]);
            (HttpMethod::Get, four_strings("repos", owner, repo, "assignees"), query)
        },
        DsmAction::CloseIssue { number } | DsmAction::CloseInvalidIssue { number } => {
            let digits = string_from_chars(&decimal_digits(*number));
            (
                HttpMethod::Patch,
                five_strings("repos", owner, repo, "issues", digits.as_str()),
                Vec::new(),
            )
        },
        DsmAction::CreateIssue { .. } => (
            HttpMethod::Post,
            four_strings("repos", owner, repo, "issues"),
            Vec::new(),
        ),
        DsmAction::Finish | DsmAction::Fail(_) => return None,
    };
    assert(query.deep_view().len() == query@.len());
    match build_request_url(api_root, &segments, &query) {
        Some(url) => Some((method, url)),
        None => None,
    }
}

/// The run after the answers `events`, in order, and the actions it takes
/// on them.
pub open spec fn run_through(run: RunModel, events: Seq<DsmEvent>) -> (RunModel, Seq<ActionModel>)
    decreases events.len(),
{
    if events.len() == 0 {
        (run, Seq::empty())
    } else {
        let first = dsm_next(run, events[0]);
        let rest = run_through(first.0, events.drop_first());
        (rest.0, seq![first.1] + rest.1)
    }
}

/// The requests for the members of each of `team_slugs`, in order, then for
/// the assignable users.
pub open spec fn member_requests(team_slugs: Seq<Seq<char>>) -> Seq<ActionModel> {
    Seq::new(team_slugs.len(), |i: int| ActionModel::ListTeamMembers { team_slug: team_slugs[i] }).push(
        ActionModel::ListAssignableUsers,
    )
}

/// The answers that carry the member lists `pages`, in order.
pub open spec fn page_events(pages: Seq<Vec<User>>) -> Seq<DsmEvent> {
    pages.map_values(|page: Vec<User>| DsmEvent::TeamMembers(page))
}

/// The members that the lists `pages` hold.
pub open spec fn page_contents(pages: Seq<Vec<User>>) -> Seq<Seq<User>> {
    pages.map_values(|page: Vec<User>| page@)
}

/// GitHub's answers over a whole run that succeeds: the issue types `names`,
/// the open issues `issues`, the member lists `pages` of the teams in order,
/// the assignable users `users`, the confirmation of the stale issue's
/// closing where there is one (`closes`), and the created issue `created`.
pub open spec fn run_answers(
    names: Vec<String>,
    issues: Vec<ApiIssue>,
    pages: Seq<Vec<User>>,
    users: Vec<User>,
    closes: bool,
    created: ApiIssue,
) -> Seq<DsmEvent> {
    seq![DsmEvent::IssueTypes(names), DsmEvent::OpenIssues(issues)] + page_events(pages) + seq![
        DsmEvent::AssignableUsers(users),
    ] + (if closes {
        seq![DsmEvent::IssueClosed]
    } else {
        Seq::empty()
    }) + seq![DsmEvent::IssueCreated(created)]
}

proof fn lemma_run_through_append(run: RunModel, a: Seq<DsmEvent>, b: Seq<DsmEvent>)
    ensures
        run_through(run, a + b) == (
            run_through(run_through(run, a).0, b).0,
            run_through(run, a).1 + run_through(run_through(run, a).0, b).1,
        ),
    decreases a.len(),
{
    if a.len() == 0 {
        assert(a + b =~= b);
        assert(Seq::<ActionModel>::empty() + run_through(run, b).1 =~= run_through(run, b).1);
    } else {
        let first = dsm_next(run, a[0]);
        assert((a + b).drop_first() =~= a.drop_first() + b);
        assert((a + b)[0] == a[0]);
        lemma_run_through_append(first.0, a.drop_first(), b);
        let x = run_through(first.0, a.drop_first()).1;
        let y = run_through(run_through(first.0, a.drop_first()).0, b).1;
        assert(seq![first.1] + (x + y) =~= (seq![first.1] + x) + y);
    }
}

proof fn lemma_run_through_one(run: RunModel, event: DsmEvent)
    ensures
        run_through(run, seq![event]) == (dsm_next(run, event).0, seq![dsm_next(run, event).1]),
{
    let next = dsm_next(run, event);
    assert(seq![event].drop_first() =~= Seq::<DsmEvent>::empty());
    assert(run_through(next.0, seq![event].drop_first()) == (next.0, Seq::<ActionModel>::empty()));
    assert(seq![next.1] + Seq::<ActionModel>::empty() =~= seq![next.1]);
}

proof fn lemma_team_phase(
    run: RunModel,
    pages: Seq<Vec<User>>,
    issue_type: Seq<char>,
    current: Option<(u64, Seq<char>)>,
    k: int,
)
    requires
        0 <= k < pages.len(),
        pages.len() == run.team_slugs.len(),
        run.stage == (StageModel::AwaitTeamMembers {
            issue_type,
            current,
            next_team: k as nat,
            members: merge_teams(page_contents(pages).take(k)),
        }),
    ensures
        run_through(run, page_events(pages).subrange(k, pages.len() as int)) == (
            at_stage(
                run,
                StageModel::AwaitAssignableUsers {
                    issue_type,
                    current,
                    members: merge_teams(page_contents(pages)),
                },
            ),
            member_requests(run.team_slugs).subrange(k + 1, pages.len() as int + 1),
        ),
    decreases pages.len() - k,
{
    let n = pages.len() as int;
    let contents = page_contents(pages);
    let events = page_events(pages).subrange(k, n);
    let requests = member_requests(run.team_slugs);
    assert(events[0] == DsmEvent::TeamMembers(pages[k]));
    assert(contents.take(k + 1).drop_last() =~= contents.take(k));
    assert(contents.take(k + 1).last() == pages[k]@);
    let merged = merge_teams(contents.take(k + 1));
    assert(merged == add_members(merge_teams(contents.take(k)), pages[k]@));
    let next = dsm_next(run, events[0]);
    assert(events.drop_first() =~= page_events(pages).subrange(k + 1, n));
    let goal_stage = at_stage(
        run,
        StageModel::AwaitAssignableUsers { issue_type, current, members: merge_teams(contents) },
    );
    if k + 1 < n {
        assert(next.1 == requests[k + 1]);
        assert(next.0 == at_stage(
            run,
            StageModel::AwaitTeamMembers {
                issue_type,
                current,
                next_team: (k + 1) as nat,
                members: merged,
            },
        ));
        lemma_team_phase(next.0, pages, issue_type, current, k + 1);
        let rest = run_through(next.0, events.drop_first());
        assert(rest.0 == goal_stage);
        assert(rest.1 == requests.subrange(k + 2, n + 1));
        assert(seq![next.1] + requests.subrange(k + 2, n + 1) =~= requests.subrange(k + 1, n + 1));
        assert(run_through(run, events) == (rest.0, seq![next.1] + rest.1));
    } else {
        assert(contents.take(n) =~= contents);
        assert(next.1 == requests[n]);
        assert(next.0 == goal_stage);
        assert(events.drop_first() =~= Seq::<DsmEvent>::empty());
        assert(run_through(next.0, Seq::<DsmEvent>::empty()) == (next.0, Seq::<ActionModel>::empty()));
        assert(run_through(next.0, events.drop_first()) == (next.0, Seq::<ActionModel>::empty()));
        assert(seq![next.1] + Seq::<ActionModel>::empty() =~= requests.subrange(k + 1, n + 1));
        assert(run_through(run, events) == (next.0, seq![next.1] + Seq::<ActionModel>::empty()));
    }
}

/// The answers after the member lists: the assignable users `users`, the
/// confirmation of the stale issue's closing where there is one (`closes`),
/// and the created issue `created`.
pub open spec fn closing_answers(users: Vec<User>, closes: bool, created: ApiIssue) -> Seq<DsmEvent> {
    seq![DsmEvent::AssignableUsers(users)] + (if closes {
        seq![DsmEvent::IssueClosed]
    } else {
        Seq::empty()
    }) + seq![DsmEvent::IssueCreated(created)]
}

/// The closing of the open issue `current`, where there is one.
pub open spec fn stale_closing(current: Option<(u64, Seq<char>)>) -> Seq<ActionModel> {
    match current {
        Some(c) => seq![ActionModel::CloseIssue { number: c.0 }],
        None => Seq::empty(),
    }
}

proof fn lemma_open_issue_and_members(
    run: RunModel,
    issues: Vec<ApiIssue>,
    pages: Seq<Vec<User>>,
    issue_type: Seq<char>,
)
    requires
        run.stage == (StageModel::AwaitOpenIssue { issue_type }),
        pages.len() == run.team_slugs.len(),
        !(api_issue_view(find_standup_issue(issues@, issue_type)) matches Some(c) && c.1
            == run.title),
    ensures
        run_through(run, seq![DsmEvent::OpenIssues(issues)] + page_events(pages)) == (
            at_stage(
                run,
                StageModel::AwaitAssignableUsers {
                    issue_type,
                    current: api_issue_view(find_standup_issue(issues@, issue_type)),
                    members: merge_teams(page_contents(pages)),
                },
            ),
            member_requests(run.team_slugs),
        ),
{
    let current = api_issue_view(find_standup_issue(issues@, issue_type));
    let contents = page_contents(pages);
    let n = pages.len() as int;
    let e1 = DsmEvent::OpenIssues(issues);
    let pe = page_events(pages);
    let r2 = dsm_next(run, e1);
    let requests = member_requests(run.team_slugs);
    lemma_run_through_one(run, e1);
    lemma_run_through_append(run, seq![e1], pe);
    if n > 0 {
        assert(contents.take(0) =~= Seq::<Seq<User>>::empty());
        lemma_team_phase(r2.0, pages, issue_type, current, 0);
        assert(pe.subrange(0, n) =~= pe);
        assert(r2.1 == requests[0]);
        assert(seq![r2.1] + requests.subrange(1, n + 1) =~= requests);
    } else {
        assert(pe =~= Seq::<DsmEvent>::empty());
        assert(contents =~= Seq::<Seq<User>>::empty());
        assert(run_through(r2.0, pe) == (r2.0, Seq::<ActionModel>::empty()));
        assert(r2.1 == requests[0]);
        assert(seq![r2.1] + Seq::<ActionModel>::empty() =~= requests);
    }
}

proof fn lemma_closing_and_creation(
    run: RunModel,
    users: Vec<User>,
    created: ApiIssue,
    issue_type: Seq<char>,
    current: Option<(u64, Seq<char>)>,
    members: Seq<User>,
)
    requires
        run.stage == (StageModel::AwaitAssignableUsers { issue_type, current, members }),
        created_issue_problem(created, run.title, issue_type, chosen_assignees(members, users@)) is None,
    ensures
        run_through(run, closing_answers(users, current is Some, created)) == (
            at_stage(run, StageModel::Done),
            stale_closing(current) + seq![
                create_action(
                    run,
                    issue_body(run.template, members),
                    issue_type,
                    chosen_assignees(members, users@),
                ),
                ActionModel::Finish,
            ],
        ),
{
    let assignees = chosen_assignees(members, users@);
    let e2 = DsmEvent::AssignableUsers(users);
    let closing: Seq<DsmEvent> = if current is Some {
        seq![DsmEvent::IssueClosed]
    } else {
        Seq::empty()
    };
    let ending = seq![DsmEvent::IssueCreated(created)];
    assert(closing_answers(users, current is Some, created) =~= seq![e2] + (closing + ending));
    let r4 = dsm_next(run, e2);
    let create = create_action(run, issue_body(run.template, members), issue_type, assignees);
    let created_stage = at_stage(run, StageModel::AwaitCreated { issue_type, assignees });
    let done = at_stage(run, StageModel::Done);
    lemma_run_through_one(run, e2);
    lemma_run_through_append(run, seq![e2], closing + ending);
    lemma_run_through_one(created_stage, DsmEvent::IssueCreated(created));
    assert(run_through(created_stage, ending) == (done, seq![ActionModel::Finish]));
    match current {
        Some(c) => {
            assert(r4 == (r4.0, ActionModel::CloseIssue { number: c.0 }));
            lemma_run_through_one(r4.0, DsmEvent::IssueClosed);
            assert(dsm_next(r4.0, DsmEvent::IssueClosed) == (created_stage, create));
            lemma_run_through_append(r4.0, closing, ending);
            assert(seq![r4.1] + (seq![create] + seq![ActionModel::Finish]) =~= stale_closing(
                current,
            ) + seq![create, ActionModel::Finish]);
        },
        None => {
            assert(r4 == (created_stage, create));
            assert(closing + ending =~= ending);
            assert(seq![r4.1] + seq![ActionModel::Finish] =~= stale_closing(current) + seq![
                create,
                ActionModel::Finish,
            ]);
        },
    }
}

/// A whole run that succeeds: from the start, with one member list for each
/// team and an open issue, if any, under another title than today's, the
/// run asks, in this order, for the newest open issue of the resolved type,
/// for the members of each team in order, for the assignable users; closes
/// the stale issue exactly once where there is one; then creates today's
/// issue once, with today's title, the resolved type, the body that mentions
/// every merged member and the chosen assignees; and, GitHub having created
/// it as asked, finishes.
pub proof fn lemma_whole_run(
    run: RunModel,
    names: Vec<String>,
    issues: Vec<ApiIssue>,
    pages: Seq<Vec<User>>,
    users: Vec<User>,
    created: ApiIssue,
)
    requires
        run.stage == StageModel::AwaitIssueTypes,
        pages.len() == run.team_slugs.len(),
        find_issue_type(names@, run.issue_type) is Some,
        !(api_issue_view(find_standup_issue(issues@, find_issue_type(names@, run.issue_type)->0))
            matches Some(c) && c.1 == run.title),
        created_issue_problem(
            created,
            run.title,
            find_issue_type(names@, run.issue_type)->0,
            chosen_assignees(merge_teams(page_contents(pages)), users@),
        ) is None,
    ensures
        ({
            let issue_type = find_issue_type(names@, run.issue_type)->0;
            let current = api_issue_view(find_standup_issue(issues@, issue_type));
            let members = merge_teams(page_contents(pages));
            let assignees = chosen_assignees(members, users@);
            let outcome = run_through(
                run,
                run_answers(names, issues, pages, users, current is Some, created),
            );
            &&& outcome.1 == seq![ActionModel::FindLatestOpenIssue { issue_type }] + member_requests(
                run.team_slugs,
            ) + (match current {
                Some(c) => seq![ActionModel::CloseIssue { number: c.0 }],
                None => Seq::empty(),
            }) + seq![
                create_action(run, issue_body(run.template, members), issue_type, assignees),
                ActionModel::Finish,
            ]
            &&& outcome.0 == at_stage(run, StageModel::Done)
        }),
{
    let issue_type = find_issue_type(names@, run.issue_type)->0;
    let current = api_issue_view(find_standup_issue(issues@, issue_type));
    let members = merge_teams(page_contents(pages));
    let assignees = chosen_assignees(members, users@);
    let e0 = DsmEvent::IssueTypes(names);
    let middle = seq![DsmEvent::OpenIssues(issues)] + page_events(pages);
    let tail = closing_answers(users, current is Some, created);
    assert(run_answers(names, issues, pages, users, current is Some, created) =~= seq![e0] + (
    middle + tail));

    let r1 = dsm_next(run, e0);
    lemma_run_through_one(run, e0);
    lemma_run_through_append(run, seq![e0], middle + tail);
    lemma_open_issue_and_members(r1.0, issues, pages, issue_type);
    lemma_run_through_append(r1.0, middle, tail);
    let r3 = at_stage(run, StageModel::AwaitAssignableUsers { issue_type, current, members });
    lemma_closing_and_creation(r3, users, created, issue_type, current, members);
    let ending = seq![
        create_action(run, issue_body(run.template, members), issue_type, assignees),
        ActionModel::Finish,
    ];
    assert(seq![r1.1] + (member_requests(run.team_slugs) + (stale_closing(current) + ending))
        =~= seq![ActionModel::FindLatestOpenIssue { issue_type }] + member_requests(run.team_slugs)
        + stale_closing(current) + ending);
}

impl DsmRun {
    /// A run that will create today's standup issue titled `title` with the
    /// body `template`, of the type `issue_type`, for the teams
    /// `team_slugs`; and its first request, for the repository's issue types.
    pub fn start(team_slugs: Vec<String>, issue_type: String, title: String, template: String) -> (res: (
        DsmRun,
        DsmAction,
    ))
        ensures
            res.0@ == (RunModel {
                team_slugs: team_slugs.deep_view(),
                issue_type: issue_type@,
                title: title@,
                template: template@,
                stage: StageModel::AwaitIssueTypes,
            }),
            res.1@ == ActionModel::ListIssueTypes,
            run_wf(res.0@),
    {
        (
            DsmRun { team_slugs, issue_type, title, template, stage: DsmStage::AwaitIssueTypes },
            DsmAction::ListIssueTypes,
        )
    }

    /// Whether the run is consistent and awaits the answer `event`.
    pub fn accepts(&self, event: &DsmEvent) -> (res: bool)
        ensures
            res == (run_wf(self@) && awaits(self@.stage, *event)),
    {
        match (&self.stage, event) {
            (DsmStage::AwaitIssueTypes, DsmEvent::IssueTypes(_)) => true,
            (DsmStage::AwaitOpenIssue { .. }, DsmEvent::OpenIssues(_)) => true,
            (DsmStage::AwaitTeamMembers { next_team, current, .. }, DsmEvent::TeamMembers(_)) => {
                *next_team < self.team_slugs.len() && is_stale(current, &self.title)
            },
            (DsmStage::AwaitAssignableUsers { current, .. }, DsmEvent::AssignableUsers(_)) => {
                is_stale(current, &self.title)
            },
            (DsmStage::AwaitStaleClosed { .. }, DsmEvent::IssueClosed) => true,
            (DsmStage::AwaitCreated { .. }, DsmEvent::IssueCreated(_)) => true,
            (DsmStage::AwaitInvalidClosed { .. }, DsmEvent::IssueClosed) => true,
            _ => false,
        }
    }

    /// The run after the answer `event`, and what it does next (see
    /// `dsm_next`).
    pub fn step(self, event: DsmEvent) -> (res: (DsmRun, DsmAction))
        requires
            run_wf(self@),
            awaits(self@.stage, event),
        ensures
            res.0@ == dsm_next(self@, event).0,
            res.1@ == dsm_next(self@, event).1,
            run_wf(res.0@),
    {
        let ghost before = self@;
        let DsmRun { team_slugs, issue_type, title, template, stage } = self;
        match (stage, event) {
            (DsmStage::AwaitIssueTypes, DsmEvent::IssueTypes(names)) => {
                match select_issue_type(&names, issue_type.as_str()) {
                    None => {
                        let missing = issue_type.clone();
                        (
                            DsmRun { team_slugs, issue_type, title, template, stage: DsmStage::Done },
                            DsmAction::Fail(DsmError::IssueTypeNotFound(missing)),
                        )
                    },
                    Some(name) => {
                        let wanted = name.clone();
                        (
                            DsmRun {
                                team_slugs,
                                issue_type,
                                title,
                                template,
                                stage: DsmStage::AwaitOpenIssue { issue_type: name },
                            },
                            DsmAction::FindLatestOpenIssue { issue_type: wanted },
                        )
                    },
                }
            },
            (DsmStage::AwaitOpenIssue { issue_type: resolved }, DsmEvent::OpenIssues(issues)) => {
                let current = select_latest_open_issue(&issues, resolved.as_str());
                let is_today = match &current {
                    Some(c) => c.title == title,
                    None => false,
                };
                if is_today {
                    (
                        DsmRun { team_slugs, issue_type, title, template, stage: DsmStage::Done },
                        DsmAction::Finish,
                    )
                } else if team_slugs.len() > 0 {
                    let first = team_slugs[0].clone();
                    (
                        DsmRun {
                            team_slugs,
                            issue_type,
                            title,
                            template,
                            stage: DsmStage::AwaitTeamMembers {
                                issue_type: resolved,
                                current,
                                next_team: 0,
                                members: Vec::new(),
                            },
                        },
                        DsmAction::ListTeamMembers { team_slug: first },
                    )
                } else {
                    (
                        DsmRun {
                            team_slugs,
                            issue_type,
                            title,
                            template,
                            stage: DsmStage::AwaitAssignableUsers {
                                issue_type: resolved,
                                current,
                                members: Vec::new(),
                            },
                        },
                        DsmAction::ListAssignableUsers,
                    )
                }
            },
            (
                DsmStage::AwaitTeamMembers { issue_type: resolved, current, next_team, members },
                DsmEvent::TeamMembers(page),
            ) => {
                assert(before.team_slugs.len() == team_slugs@.len());
                assert(next_team < team_slugs.len());
                let mut merged = members;
                add_team_members(&mut merged, &page);
                if next_team + 1 < team_slugs.len() {
                    let slug = team_slugs[next_team + 1].clone();
                    (
                        DsmRun {
                            team_slugs,
                            issue_type,
                            title,
                            template,
                            stage: DsmStage::AwaitTeamMembers {
                                issue_type: resolved,
                                current,
                                next_team: next_team + 1,
                                members: merged,
                            },
                        },
                        DsmAction::ListTeamMembers { team_slug: slug },
                    )
                } else {
                    (
                        DsmRun {
                            team_slugs,
                            issue_type,
                            title,
                            template,
                            stage: DsmStage::AwaitAssignableUsers {
                                issue_type: resolved,
                                current,
                                members: merged,
                            },
                        },
                        DsmAction::ListAssignableUsers,
                    )
                }
            },
            (
                DsmStage::AwaitAssignableUsers { issue_type: resolved, current, members },
                DsmEvent::AssignableUsers(users),
            ) => {
                let assignees = select_assignees(&members, &users);
                let body = build_body(template.as_str(), &members);
                match current {
                    Some(c) => (
                        DsmRun {
                            team_slugs,
                            issue_type,
                            title,
                            template,
                            stage: DsmStage::AwaitStaleClosed { issue_type: resolved, body, assignees },
                        },
                        DsmAction::CloseIssue { number: c.number },
                    ),
                    None => {
                        let requested = copy_strings(&assignees);
                        let wanted_type = resolved.clone();
                        let wanted_title = title.clone();
                        (
                            DsmRun {
                                team_slugs,
                                issue_type,
                                title,
                                template,
                                stage: DsmStage::AwaitCreated { issue_type: resolved, assignees },
                            },
                            DsmAction::CreateIssue {
                                title: wanted_title,
                                body,
                                issue_type: wanted_type,
                                assignees: requested,
                            },
                        )
                    },
                }
            },
            (
                DsmStage::AwaitStaleClosed { issue_type: resolved, body, assignees },
                DsmEvent::IssueClosed,
            ) => {
                let requested = copy_strings(&assignees);
                let wanted_type = resolved.clone();
                let wanted_title = title.clone();
                (
                    DsmRun {
                        team_slugs,
                        issue_type,
                        title,
                        template,
                        stage: DsmStage::AwaitCreated { issue_type: resolved, assignees },
                    },
                    DsmAction::CreateIssue {
                        title: wanted_title,
                        body,
                        issue_type: wanted_type,
                        assignees: requested,
                    },
                )
            },
            (
                DsmStage::AwaitCreated { issue_type: resolved, assignees },
                DsmEvent::IssueCreated(created),
            ) => {
                match verify_created_issue(&created, title.as_str(), resolved.as_str(), &assignees) {
                    Ok(()) => (
                        DsmRun { team_slugs, issue_type, title, template, stage: DsmStage::Done },
                        DsmAction::Finish,
                    ),
                    Err(problem) => (
                        DsmRun {
                            team_slugs,
                            issue_type,
                            title,
                            template,
                            stage: DsmStage::AwaitInvalidClosed { problem },
                        },
                        DsmAction::CloseInvalidIssue { number: created.number },
                    ),
                }
            },
            (DsmStage::AwaitInvalidClosed { problem }, DsmEvent::IssueClosed) => (
                DsmRun { team_slugs, issue_type, title, template, stage: DsmStage::Done },
                DsmAction::Fail(DsmError::InvalidCreatedIssue(problem)),
            ),
            (stage, _) => (DsmRun { team_slugs, issue_type, title, template, stage }, DsmAction::Finish),
        }
    }
}

} // verus!
