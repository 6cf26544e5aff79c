use daily_standup::github::bearer_header_is_valid;
use daily_standup::github::{
    next_page, select_issue_type, select_latest_open_issue, verify_created_issue, ApiIssue,
    CreatedIssueError, OpenIssue, PageLinkError, User,
};
use daily_standup::infrastructure::github_adapter::GitHubAdapter;

const API_ROOT: &str = "https://api.github.com/";

fn issue(number: u64, title: &str, issue_type: Option<&str>) -> ApiIssue {
    ApiIssue {
        number,
        title: title.to_string(),
        issue_type: issue_type.map(str::to_string),
        assignees: Vec::new(),
        is_pull_request: false,
    }
}

#[test]
fn finds_the_issue_type_ignoring_case_and_surrounding_space() {
    let names = vec!["Bug".to_string(), " Daily Standup ".to_string()];
    assert_eq!(
        select_issue_type(&names, "daily standup").as_deref(),
        Some(" Daily Standup ")
    );
    assert_eq!(select_issue_type(&names, "Feature"), None);
}

#[test]
fn skips_pull_requests_and_other_types_when_finding_the_open_issue() {
    let mut pull_request = issue(3, "[DSM] Monday", Some("DSM"));
    pull_request.is_pull_request = true;
    let issues = vec![
        pull_request,
        issue(4, "Other", Some("Bug")),
        issue(5, "Untyped", None),
        issue(6, "[DSM] Sunday", Some("dsm")),
        issue(7, "[DSM] Saturday", Some("DSM")),
    ];

    assert_eq!(
        select_latest_open_issue(&issues, "DSM"),
        Some(OpenIssue {
            number: 6,
            title: "[DSM] Sunday".to_string()
        })
    );
    assert_eq!(select_latest_open_issue(&Vec::new(), "DSM"), None);
}

#[test]
fn checks_the_created_issue_against_the_request() {
    let mut created = issue(1, "[DSM] Monday", Some("DSM"));
    created.assignees = vec![User {
        login: "Ann".to_string(),
        node_id: "n1".to_string(),
    }];
    let requested = vec!["ann".to_string()];

    assert!(verify_created_issue(&created, "[DSM] Monday", " dsm", &requested).is_ok());
    assert_eq!(
        verify_created_issue(&created, "[DSM] Tuesday", "DSM", &requested).err(),
        Some(CreatedIssueError::UnexpectedTitle)
    );
    assert_eq!(
        verify_created_issue(&created, "[DSM] Monday", "Bug", &requested).err(),
        Some(CreatedIssueError::MissingIssueType)
    );
    assert_eq!(
        verify_created_issue(&created, "[DSM] Monday", "DSM", &vec!["bob".to_string()]).err(),
        Some(CreatedIssueError::MissingAssignees)
    );
    assert_eq!(
        CreatedIssueError::MissingAssignees.message(),
        "GitHub did not apply all requested assignees"
    );
}

fn link(text: &str) -> Option<Vec<u8>> {
    Some(text.as_bytes().to_vec())
}

#[test]
fn follows_the_next_link_of_a_listing() {
    let header = "<https://api.github.com/repositories/1/assignees?page=1>; rel=\"prev\", \
                  <https://api.github.com/repositories/1/assignees?page=3>; rel=\"next\", \
                  <https://api.github.com/repositories/1/assignees?page=9>; rel=\"last\"";
    assert_eq!(
        next_page(link(header), API_ROOT),
        Ok(Some(
            "https://api.github.com/repositories/1/assignees?page=3".to_string()
        ))
    );
    assert_eq!(next_page(None, API_ROOT), Ok(None));
    assert_eq!(
        next_page(link("<https://api.github.com/x?page=2>; rel=\"last\""), API_ROOT),
        Ok(None)
    );
}

#[test]
fn refuses_broken_or_foreign_next_links() {
    assert_eq!(
        next_page(link("https://api.github.com/x?page=2; rel=\"next\""), API_ROOT),
        Err(PageLinkError::Malformed)
    );
    assert_eq!(
        next_page(link("<not a url>; rel=\"next\""), API_ROOT),
        Err(PageLinkError::Invalid)
    );
    assert_eq!(
        next_page(link("<https://evil.example/x?page=2>; rel=\"next\""), API_ROOT),
        Err(PageLinkError::ChangedOrigin)
    );
    assert_eq!(
        next_page(Some(vec![b'<', 0x7f, b'>']), API_ROOT),
        Err(PageLinkError::NotText)
    );
    assert_eq!(
        PageLinkError::ChangedOrigin.message(),
        "GitHub pagination next link changed API origin"
    );
}

#[test]
fn the_adapter_keeps_its_client() {
    let adapter = GitHubAdapter::new("client");
    assert_eq!(adapter.client, "client");
}

#[test]
fn checks_the_token_for_header_characters() {
    assert!(bearer_header_is_valid("ghs_abc\tdéf"));
    assert!(!bearer_header_is_valid("line\nbreak"));
    assert!(!bearer_header_is_valid("del\u{7f}"));
    for token in ["ghs_abc\tdéf", "line\nbreak", "del\u{7f}", ""] {
        assert_eq!(
            bearer_header_is_valid(token),
            reqwest::header::HeaderValue::from_str(&format!("Bearer {token}")).is_ok()
        );
    }
}
