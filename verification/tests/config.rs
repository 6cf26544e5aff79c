use daily_standup::config::path_join;
use chrono::{TimeZone, Utc};
use daily_standup::config::{Config, ConfigError};
use std::collections::HashMap;

fn required_values() -> HashMap<&'static str, String> {
    HashMap::from([
        ("GITHUB_TOKEN", "token".to_string()),
        ("GITHUB_REPO_OWNER", "example".to_string()),
        ("GITHUB_REPO_NAME", "service".to_string()),
        ("DSM_TEAM_SLUGS", "engineering".to_string()),
        ("DSM_ISSUE_TYPE", "DSM".to_string()),
    ])
}

fn lookup_of(values: &HashMap<&'static str, String>) -> Vec<(String, String)> {
    values
        .iter()
        .map(|(name, value)| (name.to_string(), value.clone()))
        .collect()
}

fn september_tenth_evening() -> i64 {
    Utc.with_ymd_and_hms(2026, 9, 10, 21, 30, 0).unwrap().timestamp()
}

#[test]
fn loads_action_inputs_and_formats_the_title_in_the_requested_timezone() {
    let mut values = required_values();
    values.insert(
        "DSM_TEAM_SLUGS",
        "platform\nproduct,Platform\noperations".to_string(),
    );
    values.insert("DSM_ISSUE_TYPE", "Standup".to_string());
    values.insert("DSM_TEMPLATE_PATH", "templates/standup.md".to_string());
    values.insert("DSM_TIMEZONE", "Europe/Moscow".to_string());

    let config = Config::from_lookup(&lookup_of(&values)).unwrap();
    let now = september_tenth_evening();

    assert_eq!(config.team_slugs, vec!["platform", "product", "operations"]);
    assert_eq!(config.issue_type, "Standup");
    assert_eq!(config.template_path.as_deref(), Some("templates/standup.md"));
    assert_eq!(config.title(now).as_deref(), Some("[DSM] Fri Sep 11 2026"));
}

#[test]
fn maps_a_runner_workspace_path_to_the_container_workspace() {
    let mut values = required_values();
    values.insert(
        "DSM_TEMPLATE_PATH",
        "/home/runner/work/service/service/.github/ISSUE_TEMPLATE/dsm.md".to_string(),
    );
    values.insert(
        "DSM_HOST_WORKSPACE",
        "/home/runner/work/service/service".to_string(),
    );
    values.insert("GITHUB_WORKSPACE", "/github/workspace".to_string());

    let config = Config::from_lookup(&lookup_of(&values)).unwrap();

    assert_eq!(
        config.template_path.as_deref(),
        Some("/github/workspace/.github/ISSUE_TEMPLATE/dsm.md")
    );
}

#[test]
fn uses_the_built_in_template_when_no_override_is_set() {
    let values = required_values();

    let config = Config::from_lookup(&lookup_of(&values)).unwrap();
    let now = september_tenth_evening();

    assert_eq!(config.team_slugs, vec!["engineering"]);
    assert_eq!(config.issue_type, "DSM");
    assert_eq!(config.template_path, None);
    assert_eq!(config.title(now).as_deref(), Some("[DSM] Thu Sep 10 2026"));
}

#[test]
fn rejects_an_empty_team_list_before_github_is_called() {
    let mut values = required_values();
    values.insert("DSM_TEAM_SLUGS", " , \n".to_string());

    let error = Config::from_lookup(&lookup_of(&values)).err().unwrap();

    assert_eq!(
        error.message(),
        "DSM_TEAM_SLUGS must contain at least one team slug"
    );
}

#[test]
fn rejects_an_empty_issue_type_before_github_is_called() {
    let mut values = required_values();
    values.insert("DSM_ISSUE_TYPE", "  ".to_string());

    let error = Config::from_lookup(&lookup_of(&values)).err().unwrap();

    assert_eq!(error.message(), "DSM_ISSUE_TYPE is required");
}

#[test]
fn uses_the_built_in_template_when_action_passes_an_empty_override() {
    let mut values = required_values();
    values.insert("DSM_TEMPLATE_PATH", String::new());

    let config = Config::from_lookup(&lookup_of(&values)).unwrap();

    assert_eq!(config.template_path, None);
}

#[test]
fn rejects_an_unknown_timezone_before_github_is_called() {
    let mut values = required_values();
    values.insert("DSM_TIMEZONE", "Mars/Olympus_Mons".to_string());

    let error = Config::from_lookup(&lookup_of(&values)).err().unwrap();

    assert_eq!(
        error.message(),
        "invalid DSM_TIMEZONE `Mars/Olympus_Mons`"
    );
}

#[test]
fn reports_each_missing_input_in_order() {
    let cases = [
        ("GITHUB_TOKEN", "GITHUB_TOKEN is required"),
        ("GITHUB_REPO_OWNER", "GITHUB_REPO_OWNER is required"),
        ("GITHUB_REPO_NAME", "GITHUB_REPO_NAME is required"),
        ("DSM_TEAM_SLUGS", "DSM_TEAM_SLUGS is required"),
        ("DSM_ISSUE_TYPE", "DSM_ISSUE_TYPE is required"),
    ];
    for (missing, message) in cases {
        let mut values = required_values();
        values.remove(missing);
        let error = Config::from_lookup(&lookup_of(&values)).err().unwrap();
        assert_eq!(error.message(), message);
    }

    let mut values = required_values();
    values.remove("GITHUB_TOKEN");
    values.insert("DSM_TIMEZONE", "Nowhere".to_string());
    let error = Config::from_lookup(&lookup_of(&values)).err().unwrap();
    assert!(matches!(error, ConfigError::InvalidTimezone(ref name) if name == "Nowhere"));
}

#[test]
fn trims_the_issue_type_and_keeps_paths_outside_the_workspace() {
    let mut values = required_values();
    values.insert("DSM_ISSUE_TYPE", "  Daily \t".to_string());
    values.insert("DSM_TEMPLATE_PATH", "/opt/templates/dsm.md".to_string());
    values.insert("DSM_HOST_WORKSPACE", "/home/runner/work".to_string());
    values.insert("GITHUB_WORKSPACE", "/github/workspace".to_string());

    let config = Config::from_lookup(&lookup_of(&values)).unwrap();

    assert_eq!(config.issue_type, "Daily");
    assert_eq!(config.template_path.as_deref(), Some("/opt/templates/dsm.md"));
    assert_eq!(config.timezone, "UTC");
}

#[test]
fn the_first_binding_of_an_input_wins() {
    let mut vars = lookup_of(&required_values());
    vars.insert(0, ("DSM_ISSUE_TYPE".to_string(), "First".to_string()));
    vars.push(("DSM_ISSUE_TYPE".to_string(), "Last".to_string()));

    let config = Config::from_lookup(&vars).unwrap();

    assert_eq!(config.issue_type, "First");
}

#[test]
fn splits_team_slugs_on_commas_and_line_breaks_and_drops_case_duplicates() {
    let slugs = Config::team_slugs(" Ops ,\u{3000}ops\u{a0}\n\tQA,,qa\r\nDev".to_string()).unwrap();
    assert_eq!(slugs, vec!["Ops", "QA", "Dev"]);

    assert!(matches!(
        Config::team_slugs("\n,\t".to_string()),
        Err(ConfigError::EmptyTeamSlugs)
    ));
}

#[test]
fn dates_the_title_in_the_configured_timezone() {
    let mut values = required_values();
    values.insert("DSM_TIMEZONE", "America/Los_Angeles".to_string());
    let config = Config::from_lookup(&lookup_of(&values)).unwrap();

    let early_utc_morning = Utc.with_ymd_and_hms(2026, 1, 1, 3, 0, 0).unwrap().timestamp();

    assert_eq!(
        config.title(early_utc_morning).as_deref(),
        Some("[DSM] Wed Dec 31 2025")
    );
    assert_eq!(config.title(i64::MAX), None);
}

#[test]
fn joins_paths_as_unix_paths_do() {
    for (base, tail) in [
        ("/github/workspace", ".github/dsm.md"),
        ("/github/workspace/", "dsm.md"),
        ("a", "/b"),
        ("", "b"),
        ("a", ""),
    ] {
        assert_eq!(
            path_join(base, tail),
            std::path::Path::new(base).join(tail).to_string_lossy()
        );
    }
}

#[test]
fn dates_titles_up_to_the_edge_of_the_calendar() {
    let mut values = required_values();
    values.insert("DSM_TIMEZONE", "Europe/Moscow".to_string());
    let config = Config::from_lookup(&lookup_of(&values)).unwrap();

    assert!(config.title(8_210_266_790_399).is_some());
    assert!(config.title(-8_334_601_142_400).is_some());
    assert_eq!(config.title(8_210_266_876_799), None);
}
