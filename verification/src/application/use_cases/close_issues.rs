//! Which open standup issues to close: all but one that carries today's title.
use vstd::prelude::*;

use crate::domain::issue::{IssueId, OpenIssue};
use crate::text::{chars_equal, chars_of};

verus! {

/// Whether an issue with the title `current_title` is among `issues`, and
/// the ids of the others to close, in order: the first issue with that title
/// stays open, every other issue (stale or duplicate) is closed.
pub open spec fn issues_to_close(issues: Seq<OpenIssue>, current_title: Seq<char>) -> (
    bool,
    Seq<Seq<char>>,
)
    decreases issues.len(),
{
    if issues.len() == 0 {
        (false, Seq::empty())
    } else {
        let (found, to_close) = issues_to_close(issues.drop_last(), current_title);
        let last = issues.last();
        if last.title@ == current_title && !found {
            (true, to_close)
        } else {
            (found, to_close.push(last.id.0@))
        }
    }
}

/// Whether one of `issues` has the title `title`.
pub open spec fn has_title(issues: Seq<OpenIssue>, title: Seq<char>) -> bool {
    exists|i: int| 0 <= i < issues.len() && #[trigger] issues[i].title@ == title
}

/// One issue with today's title stays open and every other is closed: an
/// issue with that title is reported exactly when there is one, all issues
/// but that one are closed, and where there is none all of them are closed,
/// in order.
pub proof fn lemma_one_current_issue_is_kept(issues: Seq<OpenIssue>, current_title: Seq<char>)
    ensures
        issues_to_close(issues, current_title).0 == has_title(issues, current_title),
        issues_to_close(issues, current_title).1.len() == if issues_to_close(issues, current_title).0 {
            issues.len() - 1
        } else {
            issues.len() as int
        },
        !issues_to_close(issues, current_title).0 ==> issues_to_close(issues, current_title).1
            == issues.map_values(|issue: OpenIssue| issue.id.0@),
    decreases issues.len(),
{
    if issues.len() > 0 {
        let prev = issues.drop_last();
        lemma_one_current_issue_is_kept(prev, current_title);
        if has_title(prev, current_title) {
            let i = choose|i: int| 0 <= i < prev.len() && #[trigger] prev[i].title@ == current_title;
            assert(issues[i] == prev[i]);
        }
        if has_title(issues, current_title) && !has_title(prev, current_title) {
            let i = choose|i: int| 0 <= i < issues.len() && #[trigger] issues[i].title@ == current_title;
            if i < prev.len() {
                assert(prev[i] == issues[i]);
            }
        }
        if !issues_to_close(issues, current_title).0 {
            assert(issues.map_values(|issue: OpenIssue| issue.id.0@) =~= prev.map_values(
                |issue: OpenIssue| issue.id.0@,
            ).push(issues.last().id.0@));
        }
    }
}

/// The ids of `issues`, as text, in order.
pub open spec fn ids_of(issues: Seq<OpenIssue>) -> Seq<Seq<char>> {
    issues.map_values(|issue: OpenIssue| issue.id.0@)
}

/// Whether the issue at `k` is the first of `issues` with the title `title`.
pub open spec fn is_first_titled(issues: Seq<OpenIssue>, title: Seq<char>, k: int) -> bool {
    &&& 0 <= k < issues.len()
    &&& issues[k].title@ == title
    &&& forall|j: int| 0 <= j < k ==> #[trigger] issues[j].title@ != title
}

/// Where an issue carries today's title, exactly the first such issue stays
/// open: the issues to close are all others, later duplicates too, in input
/// order.
pub proof fn lemma_only_the_first_current_issue_stays(issues: Seq<OpenIssue>, current_title: Seq<char>)
    ensures
        has_title(issues, current_title) ==> exists|k: int|
            #[trigger] is_first_titled(issues, current_title, k) && issues_to_close(
                issues,
                current_title,
            ).1 == ids_of(issues.take(k)) + ids_of(issues.skip(k + 1)),
    decreases issues.len(),
{
    if issues.len() > 0 && has_title(issues, current_title) {
        let prev = issues.drop_last();
        let last = issues.last();
        lemma_only_the_first_current_issue_stays(prev, current_title);
        lemma_one_current_issue_is_kept(prev, current_title);
        lemma_one_current_issue_is_kept(issues, current_title);
        if has_title(prev, current_title) {
            let k = choose|k: int|
                #[trigger] is_first_titled(prev, current_title, k) && issues_to_close(
                    prev,
                    current_title,
                ).1 == ids_of(prev.take(k)) + ids_of(prev.skip(k + 1));
            assert(issues.take(k) =~= prev.take(k));
            assert(issues.skip(k + 1) =~= prev.skip(k + 1).push(last));
            assert(ids_of(prev.skip(k + 1).push(last)) =~= ids_of(prev.skip(k + 1)).push(last.id.0@));
            assert(ids_of(issues.take(k)) + ids_of(issues.skip(k + 1)) =~= (ids_of(prev.take(k))
                + ids_of(prev.skip(k + 1))).push(last.id.0@));
            assert forall|j: int| 0 <= j < k implies #[trigger] issues[j].title@ != current_title by {
                assert(issues[j] == prev[j]);
            }
            assert(is_first_titled(issues, current_title, k));
        } else {
            let k = issues.len() - 1;
            assert forall|j: int| 0 <= j < k implies #[trigger] issues[j].title@ != current_title by {
                assert(issues[j] == prev[j]);
                if issues[j].title@ == current_title {
                    assert(prev[j].title@ == current_title);
                }
            }
            let i = choose|i: int| 0 <= i < issues.len() && #[trigger] issues[i].title@ == current_title;
            assert(i == k);
            assert(is_first_titled(issues, current_title, k));
            assert(issues.take(k) =~= prev);
            assert(issues.skip(k + 1) =~= Seq::<OpenIssue>::empty());
            assert(ids_of(issues.take(k)) + ids_of(issues.skip(k + 1)) =~= ids_of(prev));
        }
    }
}

/// The ids of `ids`, as text.
pub open spec fn issue_ids_view(ids: Seq<IssueId>) -> Seq<Seq<char>> {
    ids.map_values(|id: IssueId| id.0@)
}

/// Whether an issue with the title `current_title` is among `issues`, and
/// the ids of the issues to close (see `issues_to_close`).
pub fn select_issues_to_close(issues: Vec<OpenIssue>, current_title: &str) -> (res: (
    bool,
    Vec<IssueId>,
))
    ensures
        res.0 == issues_to_close(issues@, current_title@).0,
        issue_ids_view(res.1@) == issues_to_close(issues@, current_title@).1,
{
    let wanted = chars_of(current_title);
    let mut current_issue_exists = false;
    let mut to_close: Vec<IssueId> = Vec::new();
    let mut i: usize = 0;
    while i < issues.len()
        invariant
            i <= issues.len(),
            wanted@ == current_title@,
            current_issue_exists == issues_to_close(issues@.take(i as int), current_title@).0,
            issue_ids_view(to_close@) == issues_to_close(issues@.take(i as int), current_title@).1,
        decreases issues.len() - i,
    {
        assert(issues@.take(i as int + 1).drop_last() =~= issues@.take(i as int));
        let title = chars_of(issues[i].title.as_str());
        if chars_equal(&title, &wanted) && !current_issue_exists {
            current_issue_exists = true;
        } else {
            let ghost before = to_close@;
            to_close.push(IssueId(issues[i].id.0.clone()));
            assert(issue_ids_view(to_close@) =~= issue_ids_view(before).push(
                issues@[i as int].id.0@,
            ));
        }
        i = i + 1;
    }
    assert(issues@.take(issues.len() as int) =~= issues@);
    (current_issue_exists, to_close)
}

} // verus!
