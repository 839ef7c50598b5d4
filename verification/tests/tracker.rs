use snitch::config::Config;
use snitch::trackers::github::{check_create_status, check_fetch_status, init_instance, TrackerError};
use snitch::trackers::tracker::{HttpMethod, IssueTracker};

fn config() -> Config {
    let mut c = Config::default();
    c.base_tracker_url = "https://api.github.com".to_string();
    c.owner = "Kjoedicker".to_string();
    c.repo = "snitch-lab".to_string();
    c.token = "token abc".to_string();
    c.issues_per_request = "10".to_string();
    c
}

#[test]
fn builds_the_issues_url() {
    let g = init_instance(config());
    assert_eq!(g.build_request_url(), "https://api.github.com/repos/Kjoedicker/snitch-lab/issues");
}

#[test]
fn builds_the_fetch_request() {
    let g = init_instance(config());
    let req = g.fetch_issues_request();
    assert_eq!(req.method, HttpMethod::Get);
    assert_eq!(
        req.url,
        "https://api.github.com/repos/Kjoedicker/snitch-lab/issues?per_page=10&"
    );
    assert_eq!(req.user_agent, "SnitchRs");
    assert_eq!(req.authorization, "token abc");
    assert!(req.body.is_none());
    let one = g.fetch_issue_request("650");
    assert_eq!(one.url, "https://api.github.com/repos/Kjoedicker/snitch-lab/issues/650");
}

#[test]
fn builds_the_create_request() {
    let g = init_instance(config());
    let req = g.create_issue_request("test-title");
    assert_eq!(req.method, HttpMethod::Post);
    assert_eq!(req.url, "https://api.github.com/repos/Kjoedicker/snitch-lab/issues");
    assert_eq!(req.body.as_deref(), Some("{\"body\":\"\",\"title\":\"test-title\"}"));
    let quoted = g.create_issue_request("say \"hi\"\n");
    assert_eq!(quoted.body.as_deref(), Some("{\"body\":\"\",\"title\":\"say \\\"hi\\\"\\n\"}"));
    let expected: serde_json::Value = serde_json::from_str(quoted.body.as_deref().unwrap()).unwrap();
    assert_eq!(expected["title"], "say \"hi\"\n");
    assert_eq!(expected["body"], "");
}

#[test]
fn escapes_titles_as_serde_json_does() {
    let g = init_instance(config());
    let title = "a\\b\t\r\u{8}\u{c}\u{1}\u{1f}\u{7f}é/";
    let req = g.create_issue_request(title);
    assert_eq!(
        req.body.as_deref(),
        Some("{\"body\":\"\",\"title\":\"a\\\\b\\t\\r\\b\\f\\u0001\\u001f\u{7f}é/\"}")
    );
    let mut map = serde_json::Map::new();
    map.insert("title".to_string(), serde_json::Value::String(title.to_string()));
    map.insert("body".to_string(), serde_json::Value::String(String::new()));
    let expected = serde_json::Value::Object(map).to_string();
    assert_eq!(req.body.as_deref(), Some(expected.as_str()));
}

#[test]
fn frames_a_ready_title_literal() {
    let g = init_instance(config());
    let req = g.create_issue_request_for_literal("\"t\"");
    assert_eq!(req.method, HttpMethod::Post);
    assert_eq!(req.body.as_deref(), Some("{\"body\":\"\",\"title\":\"t\"}"));
    assert_eq!(req.url, "https://api.github.com/repos/Kjoedicker/snitch-lab/issues");
}

#[test]
fn should_handle_404() {
    let e = check_fetch_status(404).unwrap_err();
    assert_eq!(e, TrackerError::RepoNotFound);
    assert!(e.message().starts_with("Repo not found"));
}

#[test]
fn should_handle_401() {
    let e = check_fetch_status(401).unwrap_err();
    assert_eq!(e, TrackerError::Unauthorized);
    assert_eq!(e.message(), "Request unauthorized, check access token");
}

#[test]
fn should_handle_unexpected_error() {
    let e = check_fetch_status(451).unwrap_err();
    assert_eq!(e, TrackerError::UnexpectedStatus(451));
    assert_eq!(e.message(), "Received error reaching out to github API: 451");
}

#[test]
fn accepts_the_success_statuses() {
    assert!(check_fetch_status(200).is_ok());
    assert!(check_fetch_status(201).is_err());
    assert!(check_create_status(201).is_ok());
    assert!(check_create_status(200).is_ok());
    assert_eq!(check_create_status(404), Err(TrackerError::UnexpectedStatus(404)));
}
