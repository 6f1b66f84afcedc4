//! Filing GitHub issues from the agent: request checks and replies.

use vstd::prelude::*;

use vstd::utf8::encode_utf8;

use crate::config::{Config, texts};
use crate::dap::codec::{json_accepts, json_parse, parse_json};
use crate::dap::header::{trim, trimmed};
use crate::error::AppError;
use crate::json::{JsonValue, JsonView};
use crate::services::event_loop::or_else;
use crate::state::{contains_string, join_strings};
use crate::text::{chars_of, joined, push_str, push_signed_decimal, signed_decimal_text, string_of};
use crate::tools::launch::{string_array, string_array_value};

verus! {

/// Parameters of the create-issue tool.
#[derive(Debug)]
pub struct CreateIssueParams {
    /// Issue title (max 256 characters).
    pub title: String,
    /// Issue body in Markdown. Include reproduction steps for bugs.
    pub body: String,
    /// Labels to apply (e.g. "bug", "enhancement"). Subject to allowed-labels config.
    pub labels: Vec<String>,
}

/// Index of the first of `labels` that `allowed` does not hold.
pub open spec fn first_unlisted(labels: Seq<Seq<char>>, allowed: Seq<Seq<char>>) -> Option<int>
    decreases labels.len(),
{
    if labels.len() == 0 {
        None
    } else {
        match first_unlisted(labels.drop_last(), allowed) {
            Some(i) => Some(i),
            None => if allowed.contains(labels.last()) {
                None
            } else {
                Some(labels.len() - 1)
            },
        }
    }
}

/// Whether a trimmed title is acceptable: 1 to 256 characters.
pub open spec fn title_ok(title: Seq<char>) -> bool {
    title.len() > 0 && title.len() <= 256
}

/// The label that the allow-list refuses, if any: none when the list is empty.
pub open spec fn refused_label(labels: Seq<Seq<char>>, allowed: Seq<Seq<char>>) -> Option<int> {
    if allowed.len() == 0 {
        None
    } else {
        first_unlisted(labels, allowed)
    }
}

/// Check an issue request against the configuration. Issue creation must be
/// enabled (a repository configured), the trimmed title must be 1-256 characters,
/// and every label must be on the allow-list when there is one. Returns the
/// trimmed title.
pub fn validate_issue(config: &Config, params: &CreateIssueParams) -> (r: Result<String, AppError>)
    ensures
        config.github_repo@.len() == 0 ==> r matches Err(AppError::IssueCreationDisabled),
        config.github_repo@.len() > 0 && !title_ok(trimmed(params.title@)) ==> r matches Err(
            AppError::InvalidIssueTitle,
        ),
        config.github_repo@.len() > 0 && title_ok(trimmed(params.title@)) ==> match refused_label(
            texts(params.labels@),
            texts(config.github_allowed_labels@),
        ) {
            Some(i) => r matches Err(AppError::LabelNotAllowed { label, allowed }) && label@ == params.labels@[i]@
                && allowed@ == joined(texts(config.github_allowed_labels@), ", "@),
            None => r matches Ok(t) && t@ == trimmed(params.title@),
        },
{
    if config.github_repo.as_str().is_empty() {
        return Err(AppError::IssueCreationDisabled);
    }
    let trimmed_chars = trim(&chars_of(params.title.as_str()));
    if trimmed_chars.len() == 0 || trimmed_chars.len() > 256 {
        return Err(AppError::InvalidIssueTitle);
    }
    let title = string_of(&trimmed_chars);
    let allowed = &config.github_allowed_labels;
    if allowed.len() == 0 {
        return Ok(title);
    }
    let ghost ls = texts(params.labels@);
    let ghost al = texts(allowed@);
    for i in 0..params.labels.len()
        invariant
            config.github_repo@.len() > 0,
            title_ok(trimmed(params.title@)),
            title@ == trimmed(params.title@),
            allowed == &config.github_allowed_labels,
            allowed@.len() > 0,
            ls == texts(params.labels@),
            al == texts(allowed@),
            first_unlisted(ls.take(i as int), al) is None,
    {
        let name = chars_of(params.labels[i].as_str());
        let listed = contains_string(allowed, &name);
        proof {
            assert(ls.take(i + 1).drop_last() =~= ls.take(i as int));
            assert(ls.take(i + 1).last() == params.labels@[i as int]@);
        }
        if !listed {
            proof {
                assert(first_unlisted(ls.take(i + 1), al) == Some(i as int));
                lemma_first_unlisted_prefix(ls, al, i + 1);
            }
            return Err(AppError::LabelNotAllowed {
                label: params.labels[i].clone(),
                allowed: join_strings(allowed, ", "),
            });
        }
    }
    assert(ls.take(params.labels@.len() as int) =~= ls);
    Ok(title)
}

/// A label refused within a prefix is the first refused label of the whole list.
proof fn lemma_first_unlisted_prefix(labels: Seq<Seq<char>>, allowed: Seq<Seq<char>>, n: int)
    requires
        0 <= n <= labels.len(),
        first_unlisted(labels.take(n), allowed) is Some,
    ensures
        first_unlisted(labels, allowed) == first_unlisted(labels.take(n), allowed),
    decreases labels.len() - n,
{
    if n < labels.len() {
        assert(labels.take(n + 1).drop_last() =~= labels.take(n));
        lemma_first_unlisted_prefix(labels, allowed, n + 1);
    } else {
        assert(labels.take(n) =~= labels);
    }
}

/// The GitHub API endpoint for creating issues in `repo` (`owner/name`).
pub open spec fn issues_url_text(repo: Seq<char>) -> Seq<char> {
    "https://api.github.com/repos/"@ + repo + "/issues"@
}

/// The GitHub API endpoint for creating issues (see [`issues_url_text`]).
pub fn issues_url(repo: &str) -> (r: String)
    ensures
        r@ == issues_url_text(repo@),
{
    let mut out: Vec<char> = Vec::new();
    push_str(&mut out, "https://api.github.com/repos/");
    push_str(&mut out, repo);
    push_str(&mut out, "/issues");
    string_of(&out)
}

/// The JSON payload of an issue: its body, labels and title.
pub open spec fn issue_payload_view(title: Seq<char>, body: Seq<char>, labels: Seq<Seq<char>>) -> JsonView {
    JsonView::Object(
        seq![
            ("body"@, JsonView::Str(body)),
            ("labels"@, string_array(labels)),
            ("title"@, JsonView::Str(title)),
        ],
    )
}

/// The JSON payload of an issue (see [`issue_payload_view`]).
pub fn issue_payload(title: &str, body: &str, labels: &Vec<String>) -> (r: JsonValue)
    ensures
        r@ == issue_payload_view(title@, body@, texts(labels@)),
{
    let mut members: Vec<(String, JsonValue)> = Vec::new();
    members.push(("body".to_owned(), JsonValue::String(body.to_owned())));
    members.push(("labels".to_owned(), string_array_value(labels)));
    members.push(("title".to_owned(), JsonValue::String(title.to_owned())));
    let r = JsonValue::Object(members);
    proof {
        let mv = r@->Object_0;
        assert forall|k: int| 0 <= k < members@.len() implies mv[k] == (
        members@[k].0@, members@[k].1@) by {}
        assert(mv =~= issue_payload_view(title@, body@, texts(labels@))->Object_0);
    }
    r
}

/// The member `key` of a JSON object (`serde_json::Value::get`; `None` for
/// other values or absent keys).
pub uninterp spec fn json_member(v: serde_json::Value, key: Seq<char>) -> Option<serde_json::Value>;

/// The text of a JSON string (`serde_json::Value::as_str`; `None` for other values).
pub uninterp spec fn json_as_str(v: serde_json::Value) -> Option<Seq<char>>;

/// The member `key` of a parsed value (`serde_json::Value::get`).
#[verifier::external_body]
fn value_member<'a>(v: &'a serde_json::Value, key: &str) -> (r: Option<&'a serde_json::Value>)
    ensures
        match r {
            Some(m) => json_member(*v, key@) == Some(*m),
            None => json_member(*v, key@) is None,
        },
{
    v.get(key)
}

/// The text of a parsed string value (`serde_json::Value::as_str`).
#[verifier::external_body]
fn value_str(v: &serde_json::Value) -> (r: Option<&str>)
    ensures
        match r {
            Some(t) => json_as_str(*v) == Some(t@),
            None => json_as_str(*v) is None,
        },
{
    v.as_str()
}

/// The message of a failed GitHub request with response body `body_text`:
/// the `message` string of the body read as JSON, when it is JSON and has
/// one, else the body text itself.
pub open spec fn api_error_message(body_text: Seq<char>) -> Seq<char> {
    let b = encode_utf8(body_text);
    if json_accepts(b) {
        match json_member(json_parse(b), "message"@) {
            Some(m) => or_else(json_as_str(m), body_text),
            None => body_text,
        }
    } else {
        body_text
    }
}

/// The error for a GitHub request answered with a failure `status` and the
/// response body `body_text` (see [`api_error_message`]).
pub fn api_error_from_text(status: u16, body_text: &str) -> (e: AppError)
    ensures
        e matches AppError::GitHubApi { status: s, message } && s == status && message@
            == api_error_message(body_text@),
{
    let message: String = match parse_json(body_text.as_bytes()) {
        Ok(v) => match value_member(&v, "message") {
            Some(m) => match value_str(m) {
                Some(t) => t.to_owned(),
                None => body_text.to_owned(),
            },
            None => body_text.to_owned(),
        },
        Err(_) => body_text.to_owned(),
    };
    AppError::GitHubApi { status, message }
}

/// The reply after GitHub created an issue: its number (0 when missing) and
/// its page (`(unknown)` when missing).
pub open spec fn issue_created_text(response: JsonView) -> Seq<char> {
    "Issue #"@ + signed_decimal_text(or_else(response.get_i64("number"@), 0) as int) + " created: "@
        + or_else(response.get_str("html_url"@), "(unknown)"@)
}

/// The reply after GitHub created an issue (see [`issue_created_text`]).
pub fn issue_created(response: &JsonValue) -> (r: String)
    ensures
        r@ == issue_created_text(response@),
{
    let number = match response.get_i64("number") {
        Some(n) => n,
        None => 0,
    };
    let url = match response.get_str("html_url") {
        Some(u) => u,
        None => "(unknown)",
    };
    let mut out: Vec<char> = Vec::new();
    push_str(&mut out, "Issue #");
    push_signed_decimal(&mut out, number);
    push_str(&mut out, " created: ");
    push_str(&mut out, url);
    string_of(&out)
}

/// The label refused is the first one the allow-list does not hold: every
/// label before it is allowed; when none is refused, every label is allowed.
pub proof fn lemma_first_unlisted(labels: Seq<Seq<char>>, allowed: Seq<Seq<char>>)
    ensures
        first_unlisted(labels, allowed) matches Some(i) ==> 0 <= i < labels.len() && !allowed.contains(
            labels[i],
        ) && forall|j: int| 0 <= j < i ==> allowed.contains(labels[j]),
        first_unlisted(labels, allowed) is None ==> forall|j: int|
            0 <= j < labels.len() ==> allowed.contains(labels[j]),
    decreases labels.len(),
{
    if labels.len() > 0 {
        lemma_first_unlisted(labels.drop_last(), allowed);
        assert forall|j: int| 0 <= j < labels.len() - 1 implies labels.drop_last()[j] == labels[j] by {}
    }
}

} // verus!
