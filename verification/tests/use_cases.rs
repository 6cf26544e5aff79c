use daily_standup::application::use_cases::close_issues::select_issues_to_close;
use daily_standup::application::use_cases::create_issue::{
    filter_assignable_members, issue_to_create,
};
use daily_standup::domain::errors::issue_types::IssueTypesError;
use daily_standup::domain::errors::member::MemberError;
use daily_standup::domain::issue::{IssueId, IssueType, OpenIssue};
use daily_standup::domain::member::{Member, MemberId};

#[test]
fn preserves_one_current_issue_and_closes_stale_or_duplicate_issues() {
    let issues = vec![
        OpenIssue::new(IssueId::new("old".to_string()), "[DSM] Sunday".to_string()),
        OpenIssue::new(
            IssueId::new("current".to_string()),
            "[DSM] Monday".to_string(),
        ),
        OpenIssue::new(
            IssueId::new("duplicate".to_string()),
            "[DSM] Monday".to_string(),
        ),
    ];

    let (current_issue_exists, issues_to_close) = select_issues_to_close(issues, "[DSM] Monday");

    assert!(current_issue_exists);
    assert_eq!(issues_to_close.len(), 2);
    assert_eq!(&*issues_to_close[0], "old");
    assert_eq!(&*issues_to_close[1], "duplicate");
}

#[test]
fn requests_creation_when_no_current_issue_exists() {
    let issues = vec![OpenIssue::new(
        IssueId::new("old".to_string()),
        "[DSM] Sunday".to_string(),
    )];

    let (current_issue_exists, issues_to_close) = select_issues_to_close(issues, "[DSM] Monday");

    assert!(!current_issue_exists);
    assert_eq!(issues_to_close.len(), 1);
}

#[test]
fn keeps_only_repository_assignable_team_members() {
    let members = vec![
        Member::new(
            MemberId::new("not-assignable".to_string()),
            "first".to_string(),
        ),
        Member::new(
            MemberId::new("assignable".to_string()),
            "second".to_string(),
        ),
    ];
    let assignable_member_ids = vec!["assignable".to_string()];

    let filtered = filter_assignable_members(members, &assignable_member_ids);

    assert_eq!(filtered.len(), 1);
    assert_eq!(filtered[0].login, "second");
}

#[test]
fn composes_the_issue_with_every_member_mentioned() {
    let members = vec![
        Member::new(MemberId::new("m1".to_string()), "ann".to_string()),
        Member::new(MemberId::new("m2".to_string()), "bob".to_string()),
    ];
    let issue_types = vec![
        IssueType { id: "t1".to_string(), name: "Bug".to_string() },
        IssueType { id: "t2".to_string(), name: " dsm ".to_string() },
        IssueType { id: "t3".to_string(), name: "DSM".to_string() },
    ];

    let issue = issue_to_create(
        "repo".to_string(),
        "[DSM] Monday",
        "Template",
        "DSM",
        members,
        &vec!["m2".to_string()],
        &issue_types,
    )
    .ok()
    .unwrap();

    assert!(issue.id.is_none());
    assert_eq!(issue.repo_id, "repo");
    assert_eq!(issue.title, "[DSM] Monday");
    assert_eq!(issue.body, "Template\n<details>\n@ann @bob \n</details>");
    assert_eq!(issue.issue_type_id, "t2");
    assert_eq!(issue.assignees.len(), 1);
    assert_eq!(issue.assignees[0].login, "bob");
}

#[test]
fn refuses_an_issue_type_the_repository_lacks() {
    let result = issue_to_create(
        "repo".to_string(),
        "[DSM] Monday",
        "Template",
        "DSM",
        Vec::new(),
        &Vec::new(),
        &vec![IssueType { id: "t1".to_string(), name: "Bug".to_string() }],
    );

    assert_eq!(result.err(), Some(IssueTypesError::IssueTypeNotFound));
}

#[test]
fn reports_member_errors() {
    assert_eq!(
        MemberError::TeamMembersCursorNotFound.message(),
        "Team members response requested another page without an end cursor"
    );
    assert_eq!(
        MemberError::EmptyAssignableUsersResponse.message(),
        "get_assignable_users returned an empty response"
    );
}
