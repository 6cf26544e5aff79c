use daily_standup::dsm::decimal_digits;
use daily_standup::dsm::{request_for, HttpMethod};
use daily_standup::dsm::{
    build_body, collect_team_members, select_assignees, DsmAction, DsmError, DsmEvent, DsmRun,
    MAX_ASSIGNEES,
};
use daily_standup::github::{ApiIssue, CreatedIssueError, User};

fn user(index: usize) -> User {
    User {
        login: format!("member-{index}"),
        node_id: format!("node-{index}"),
    }
}

fn named(login: &str, node_id: &str) -> User {
    User {
        login: login.to_string(),
        node_id: node_id.to_string(),
    }
}

fn team_slugs(slugs: &[&str]) -> Vec<String> {
    slugs.iter().map(|slug| (*slug).to_string()).collect()
}

fn issue(number: u64, title: &str, issue_type: Option<&str>, assignees: Vec<User>) -> ApiIssue {
    ApiIssue {
        number,
        title: title.to_string(),
        issue_type: issue_type.map(str::to_string),
        assignees,
        is_pull_request: false,
    }
}

#[test]
fn assigns_only_repository_assignable_members_in_team_order() {
    let members = (0..12).map(user).collect::<Vec<_>>();
    let assignable = (1..12).rev().map(user).collect::<Vec<_>>();

    let assignees = select_assignees(&members, &assignable);

    assert_eq!(assignees.len(), MAX_ASSIGNEES);
    assert_eq!(assignees.first().map(String::as_str), Some("member-1"));
    assert_eq!(assignees.last().map(String::as_str), Some("member-10"));
}

#[test]
fn mentions_every_team_member_even_when_only_some_are_assignable() {
    let members = vec![user(0), user(1), user(2)];

    assert_eq!(
        build_body("Template", &members),
        "Template\n<details>\n@member-0 @member-1 @member-2\n</details>"
    );
}

#[test]
fn builds_an_empty_mention_block_without_members() {
    assert_eq!(build_body("T", &Vec::new()), "T\n<details>\n\n</details>");
}

#[test]
fn merges_members_from_multiple_teams_in_input_order_once_each() {
    let teams = vec![
        vec![named("first", "node-1"), named("shared", "node-2")],
        vec![named("shared-again", "node-2"), named("last", "node-3")],
    ];

    let members = collect_team_members(&teams);

    assert_eq!(
        members
            .iter()
            .map(|member| member.login.as_str())
            .collect::<Vec<_>>(),
        vec!["first", "shared", "last"]
    );
}

#[test]
fn assigns_nobody_when_nobody_is_assignable() {
    let members = vec![user(0), user(1)];
    assert!(select_assignees(&members, &vec![user(7)]).is_empty());
}

fn start_monday(slugs: &[&str]) -> (DsmRun, DsmAction) {
    DsmRun::start(
        team_slugs(slugs),
        "dsm".to_string(),
        "[DSM] Monday".to_string(),
        "Template".to_string(),
    )
}

fn feed(run: DsmRun, event: DsmEvent) -> (DsmRun, DsmAction) {
    assert!(run.accepts(&event));
    run.step(event)
}

#[test]
fn run_closes_the_latest_stale_dsm_before_creating_the_current_one() {
    let (run, action) = start_monday(&["engineering"]);
    assert!(matches!(action, DsmAction::ListIssueTypes));

    let (run, action) = feed(run, DsmEvent::IssueTypes(vec!["Bug".to_string(), "DSM".to_string()]));
    assert!(matches!(action, DsmAction::FindLatestOpenIssue { ref issue_type } if issue_type == "DSM"));

    let (run, action) = feed(
        run,
        DsmEvent::OpenIssues(vec![issue(1, "[DSM] Sunday", Some("DSM"), Vec::new())]),
    );
    assert!(matches!(action, DsmAction::ListTeamMembers { ref team_slug } if team_slug == "engineering"));

    let (run, action) = feed(run, DsmEvent::TeamMembers(vec![named("member", "node-1")]));
    assert!(matches!(action, DsmAction::ListAssignableUsers));

    let (run, action) = feed(run, DsmEvent::AssignableUsers(vec![named("member", "node-1")]));
    assert!(matches!(action, DsmAction::CloseIssue { number: 1 }));
    assert!(!run.accepts(&DsmEvent::AssignableUsers(Vec::new())));

    let (run, action) = feed(run, DsmEvent::IssueClosed);
    match &action {
        DsmAction::CreateIssue {
            title,
            body,
            issue_type,
            assignees,
        } => {
            assert_eq!(title, "[DSM] Monday");
            assert_eq!(body, "Template\n<details>\n@member\n</details>");
            assert_eq!(issue_type, "DSM");
            assert_eq!(assignees, &vec!["member".to_string()]);
        }
        other => panic!("unexpected action {other:?}"),
    }

    let (run, action) = feed(
        run,
        DsmEvent::IssueCreated(issue(
            2,
            "[DSM] Monday",
            Some("DSM"),
            vec![named("Member", "node-1")],
        )),
    );
    assert!(matches!(action, DsmAction::Finish));
    assert!(!run.accepts(&DsmEvent::IssueClosed));
}

#[test]
fn run_creates_the_current_dsm_when_the_repository_has_no_open_issue() {
    let (run, _) = start_monday(&["engineering"]);
    let (run, _) = feed(run, DsmEvent::IssueTypes(vec!["DSM".to_string()]));
    let (run, action) = feed(run, DsmEvent::OpenIssues(Vec::new()));
    assert!(matches!(action, DsmAction::ListTeamMembers { .. }));
    let (run, _) = feed(run, DsmEvent::TeamMembers(vec![named("member", "node-1")]));
    let (_, action) = feed(run, DsmEvent::AssignableUsers(vec![named("member", "node-1")]));
    assert!(matches!(action, DsmAction::CreateIssue { .. }));
}

#[test]
fn run_keeps_the_current_dsm_even_when_its_assignees_changed() {
    let (run, _) = start_monday(&["engineering"]);
    let (run, _) = feed(run, DsmEvent::IssueTypes(vec!["DSM".to_string()]));
    let (run, action) = feed(
        run,
        DsmEvent::OpenIssues(vec![issue(1, "[DSM] Monday", Some("DSM"), Vec::new())]),
    );
    assert!(matches!(action, DsmAction::Finish));
    assert!(!run.accepts(&DsmEvent::TeamMembers(Vec::new())));
}

#[test]
fn run_asks_for_each_team_in_order_and_merges_their_members() {
    let (run, _) = start_monday(&["engineering", "operations"]);
    let (run, _) = feed(run, DsmEvent::IssueTypes(vec!["DSM".to_string()]));
    let (run, action) = feed(run, DsmEvent::OpenIssues(Vec::new()));
    assert!(matches!(action, DsmAction::ListTeamMembers { ref team_slug } if team_slug == "engineering"));
    let (run, action) = feed(
        run,
        DsmEvent::TeamMembers(vec![named("first", "node-1"), named("shared", "node-2")]),
    );
    assert!(matches!(action, DsmAction::ListTeamMembers { ref team_slug } if team_slug == "operations"));
    let (run, action) = feed(
        run,
        DsmEvent::TeamMembers(vec![named("shared", "node-2"), named("last", "node-3")]),
    );
    assert!(matches!(action, DsmAction::ListAssignableUsers));
    let (_, action) = feed(run, DsmEvent::AssignableUsers(vec![named("last", "node-3")]));
    match action {
        DsmAction::CreateIssue { body, assignees, .. } => {
            assert_eq!(body, "Template\n<details>\n@first @shared @last\n</details>");
            assert_eq!(assignees, vec!["last".to_string()]);
        }
        other => panic!("unexpected action {other:?}"),
    }
}

#[test]
fn run_fails_when_the_issue_type_is_missing() {
    let (run, _) = start_monday(&["engineering"]);
    let (_, action) = feed(run, DsmEvent::IssueTypes(vec!["Bug".to_string()]));
    match action {
        DsmAction::Fail(error) => {
            assert_eq!(error.message(), "repository issue type `dsm` was not found");
            assert!(matches!(error, DsmError::IssueTypeNotFound(_)));
        }
        other => panic!("unexpected action {other:?}"),
    }
}

#[test]
fn run_closes_an_issue_created_otherwise_than_requested_and_fails() {
    let (run, _) = start_monday(&[]);
    let (run, _) = feed(run, DsmEvent::IssueTypes(vec!["DSM".to_string()]));
    let (run, action) = feed(run, DsmEvent::OpenIssues(Vec::new()));
    assert!(matches!(action, DsmAction::ListAssignableUsers));
    let (run, _) = feed(run, DsmEvent::AssignableUsers(Vec::new()));
    let (run, action) = feed(
        run,
        DsmEvent::IssueCreated(issue(5, "[DSM] Monday", None, Vec::new())),
    );
    assert!(matches!(action, DsmAction::CloseInvalidIssue { number: 5 }));
    let (_, action) = feed(run, DsmEvent::IssueClosed);
    match action {
        DsmAction::Fail(error) => {
            assert!(matches!(
                error,
                DsmError::InvalidCreatedIssue(CreatedIssueError::MissingIssueType)
            ));
            assert_eq!(error.message(), "GitHub did not apply the requested issue type");
        }
        other => panic!("unexpected action {other:?}"),
    }
}

#[test]
fn builds_the_request_of_each_action() {
    let root = "https://api.github.com/";
    let get = |action: DsmAction| request_for(&action, root, "org", "repo");

    assert_eq!(
        get(DsmAction::ListIssueTypes),
        Some((HttpMethod::Get, "https://api.github.com/repos/org/repo/issue-types".to_string()))
    );
    assert_eq!(
        get(DsmAction::FindLatestOpenIssue { issue_type: "DSM".to_string() }),
        Some((
            HttpMethod::Get,
            "https://api.github.com/repos/org/repo/issues?state=open&type=DSM&sort=created&direction=desc&per_page=1"
                .to_string()
        ))
    );
    assert_eq!(
        get(DsmAction::ListTeamMembers { team_slug: "engineering".to_string() }),
        Some((
            HttpMethod::Get,
            "https://api.github.com/orgs/org/teams/engineering/members?role=all&per_page=100"
                .to_string()
        ))
    );
    assert_eq!(
        get(DsmAction::ListAssignableUsers),
        Some((HttpMethod::Get, "https://api.github.com/repos/org/repo/assignees?per_page=100".to_string()))
    );
    assert_eq!(
        get(DsmAction::CloseIssue { number: 1207 }),
        Some((HttpMethod::Patch, "https://api.github.com/repos/org/repo/issues/1207".to_string()))
    );
    assert_eq!(
        get(DsmAction::CloseInvalidIssue { number: 0 }),
        Some((HttpMethod::Patch, "https://api.github.com/repos/org/repo/issues/0".to_string()))
    );
    assert_eq!(
        get(DsmAction::CreateIssue {
            title: String::new(),
            body: String::new(),
            issue_type: String::new(),
            assignees: Vec::new(),
        }),
        Some((HttpMethod::Post, "https://api.github.com/repos/org/repo/issues".to_string()))
    );
    assert_eq!(get(DsmAction::Finish), None);
    assert_eq!(
        request_for(&DsmAction::ListTeamMembers { team_slug: "a/b c".to_string() }, root, "o", "r")
            .map(|request| request.1),
        Some("https://api.github.com/orgs/o/teams/a%2Fb%20c/members?role=all&per_page=100".to_string())
    );
}

#[test]
fn writes_issue_numbers_in_decimal() {
    assert_eq!(decimal_digits(0), vec!['0']);
    assert_eq!(decimal_digits(u64::MAX).iter().collect::<String>(), u64::MAX.to_string());
}
