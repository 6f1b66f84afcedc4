use mcp_dap::config::Config;
use mcp_dap::error::AppError;
use mcp_dap::json::{JsonNumber, JsonValue};
use mcp_dap::tools::feedback::{api_error_from_text, issue_created, issue_payload, issues_url, validate_issue, CreateIssueParams};

fn s(t: &str) -> JsonValue {
    JsonValue::String(t.to_string())
}

fn obj(members: Vec<(&str, JsonValue)>) -> JsonValue {
    JsonValue::Object(members.into_iter().map(|(k, v)| (k.to_string(), v)).collect())
}

fn params(title: &str, labels: &[&str]) -> CreateIssueParams {
    CreateIssueParams { title: title.into(), body: "steps".into(), labels: labels.iter().map(|l| l.to_string()).collect() }
}

#[test]
fn issue_accepted_with_trimmed_title() {
    let c = Config::default();
    assert_eq!(validate_issue(&c, &params("  Crash on step \n", &["bug"])).unwrap(), "Crash on step");
}

#[test]
fn issue_creation_disabled_without_repo() {
    let mut c = Config::default();
    c.github_repo = String::new();
    assert!(matches!(validate_issue(&c, &params("t", &[])), Err(AppError::IssueCreationDisabled)));
}

#[test]
fn issue_title_limits() {
    let c = Config::default();
    let e = validate_issue(&c, &params("   ", &[])).unwrap_err();
    assert!(matches!(e, AppError::InvalidIssueTitle));
    assert_eq!(e.to_string(), "title must be 1-256 characters");
    assert!(e.is_invalid_params());
    let long = "a".repeat(257);
    assert!(matches!(validate_issue(&c, &params(&long, &[])), Err(AppError::InvalidIssueTitle)));
    let fits = "é".repeat(256);
    assert_eq!(validate_issue(&c, &params(&fits, &[])).unwrap(), fits);
}

#[test]
fn issue_label_not_allowed() {
    let c = Config::default();
    match validate_issue(&c, &params("t", &["bug", "wontfix", "spam"])) {
        Err(AppError::LabelNotAllowed { label, allowed }) => {
            assert_eq!(label, "wontfix");
            assert_eq!(allowed, "bug, enhancement, question");
        }
        other => panic!("unexpected {other:?}"),
    }
    let mut open = Config::default();
    open.github_allowed_labels = vec![];
    assert!(validate_issue(&open, &params("t", &["anything"])).is_ok());
}

#[test]
fn issue_request_pieces() {
    assert_eq!(issues_url("angalato08/mcp-dap"), "https://api.github.com/repos/angalato08/mcp-dap/issues");
    assert_eq!(
        issue_payload("T", "B", &vec!["bug".to_string()]),
        obj(vec![("body", s("B")), ("labels", JsonValue::Array(vec![s("bug")])), ("title", s("T"))])
    );
}

#[test]
fn api_error_messages() {
    match api_error_from_text(401, "{\"documentation_url\":\"x\",\"message\":\"Bad credentials\"}") {
        AppError::GitHubApi { status, message } => {
            assert_eq!(status, 401);
            assert_eq!(message, "Bad credentials");
        }
        other => panic!("unexpected {other:?}"),
    }
    for body in ["gateway down", "{\"error\":\"x\"}", "{\"message\":7}", "[1,2]", ""] {
        match api_error_from_text(502, body) {
            AppError::GitHubApi { status, message } => {
                assert_eq!(status, 502);
                assert_eq!(message, body);
            }
            other => panic!("unexpected {other:?}"),
        }
    }
}

#[test]
fn issue_created_reply() {
    let resp = obj(vec![
        ("html_url", s("https://github.com/o/r/issues/7")),
        ("number", JsonValue::Number(JsonNumber::PosInt(7))),
    ]);
    assert_eq!(issue_created(&resp), "Issue #7 created: https://github.com/o/r/issues/7");
    assert_eq!(issue_created(&obj(vec![])), "Issue #0 created: (unknown)");
}
