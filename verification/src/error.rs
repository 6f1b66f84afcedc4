//! The library's error type.

use vstd::prelude::*;

use crate::text::{decimal_text, push_decimal, push_str, string_of};

verus! {

/// Central error type. Outside error values (I/O, JSON, spawn failures)
/// are carried as their rendered message.
#[derive(Debug)]
pub enum AppError {
    NoSession,
    SessionActive,
    DapTimeout(u64),
    DapError(String),
    InvalidState { from: String, to: String },
    UnauthorizedAdapter(String, String),
    SpawnFailed(String),
    Codec(String),
    Io(String),
    Json(String),
    Other(String),
    PaginationTokenNotFound(String),
    IssueCreationDisabled,
    LabelNotAllowed { label: String, allowed: String },
    GitHubTokenMissing,
    GitHubApi { status: u16, message: String },
    /// An issue title that is empty after trimming or longer than 256 characters.
    InvalidIssueTitle,
}

impl AppError {
    /// The human-readable message of the error.
    pub open spec fn message_text(&self) -> Seq<char> {
        match self {
            AppError::NoSession => "no active debug session"@,
            AppError::SessionActive => "a debug session is already active"@,
            AppError::DapTimeout(secs) => "DAP request timed out after "@ + decimal_text(
                *secs as nat,
            ) + "s"@,
            AppError::DapError(m) => "DAP error: "@ + m@,
            AppError::InvalidState { from, to } => "invalid session state transition: "@ + from@
                + " → "@ + to@,
            AppError::UnauthorizedAdapter(path, allowed) => "adapter not allowed: "@ + path@
                + " (allowed: "@ + allowed@ + ")"@,
            AppError::SpawnFailed(m) => "failed to spawn debug adapter: "@ + m@,
            AppError::Codec(m) => "codec error: "@ + m@,
            AppError::Io(m) => m@,
            AppError::Json(m) => m@,
            AppError::Other(m) => m@,
            AppError::PaginationTokenNotFound(t) => "pagination token not found or expired: "@
                + t@,
            AppError::IssueCreationDisabled => "issue creation is disabled (no github_repo configured)"@,
            AppError::LabelNotAllowed { label, allowed } => "label not allowed: "@ + label@
                + " (allowed: "@ + allowed@ + ")"@,
            AppError::GitHubTokenMissing => "GITHUB_TOKEN environment variable is not set"@,
            AppError::GitHubApi { status, message } => "GitHub API error ("@ + decimal_text(
                *status as nat,
            ) + "): "@ + message@,
            AppError::InvalidIssueTitle => "title must be 1-256 characters"@,
        }
    }

    /// Whether the error is the caller's fault (reported to MCP clients as
    /// invalid parameters) rather than an internal failure.
    pub open spec fn spec_is_invalid_params(&self) -> bool {
        match self {
            AppError::NoSession => true,
            AppError::SessionActive => true,
            AppError::InvalidState { .. } => true,
            AppError::UnauthorizedAdapter(..) => true,
            AppError::InvalidIssueTitle => true,
            _ => false,
        }
    }

    /// Whether the error is the caller's fault rather than an internal failure.
    pub fn is_invalid_params(&self) -> (b: bool)
        ensures
            b == self.spec_is_invalid_params(),
    {
        match self {
            AppError::NoSession => true,
            AppError::SessionActive => true,
            AppError::InvalidState { .. } => true,
            AppError::UnauthorizedAdapter(..) => true,
            AppError::InvalidIssueTitle => true,
            _ => false,
        }
    }

    /// The human-readable message of the error.
    pub fn to_string(&self) -> (s: String)
        ensures
            s@ == self.message_text(),
    {
        let mut out: Vec<char> = Vec::new();
        match self {
            AppError::NoSession => push_str(&mut out, "no active debug session"),
            AppError::SessionActive => push_str(&mut out, "a debug session is already active"),
            AppError::DapTimeout(secs) => {
                push_str(&mut out, "DAP request timed out after ");
                push_decimal(&mut out, *secs);
                push_str(&mut out, "s");
            },
            AppError::DapError(m) => {
                push_str(&mut out, "DAP error: ");
                push_str(&mut out, m.as_str());
            },
            AppError::InvalidState { from, to } => {
                push_str(&mut out, "invalid session state transition: ");
                push_str(&mut out, from.as_str());
                push_str(&mut out, " → ");
                push_str(&mut out, to.as_str());
            },
            AppError::UnauthorizedAdapter(path, allowed) => {
                push_str(&mut out, "adapter not allowed: ");
                push_str(&mut out, path.as_str());
                push_str(&mut out, " (allowed: ");
                push_str(&mut out, allowed.as_str());
                push_str(&mut out, ")");
            },
            AppError::SpawnFailed(m) => {
                push_str(&mut out, "failed to spawn debug adapter: ");
                push_str(&mut out, m.as_str());
            },
            AppError::Codec(m) => {
                push_str(&mut out, "codec error: ");
                push_str(&mut out, m.as_str());
            },
            AppError::Io(m) => push_str(&mut out, m.as_str()),
            AppError::Json(m) => push_str(&mut out, m.as_str()),
            AppError::Other(m) => push_str(&mut out, m.as_str()),
            AppError::PaginationTokenNotFound(t) => {
                push_str(&mut out, "pagination token not found or expired: ");
                push_str(&mut out, t.as_str());
            },
            AppError::IssueCreationDisabled => push_str(
                &mut out,
                "issue creation is disabled (no github_repo configured)",
            ),
            AppError::LabelNotAllowed { label, allowed } => {
                push_str(&mut out, "label not allowed: ");
                push_str(&mut out, label.as_str());
                push_str(&mut out, " (allowed: ");
                push_str(&mut out, allowed.as_str());
                push_str(&mut out, ")");
            },
            AppError::GitHubTokenMissing => push_str(
                &mut out,
                "GITHUB_TOKEN environment variable is not set",
            ),
            AppError::GitHubApi { status, message } => {
                push_str(&mut out, "GitHub API error (");
                push_decimal(&mut out, *status as u64);
                push_str(&mut out, "): ");
                push_str(&mut out, message.as_str());
            },
            AppError::InvalidIssueTitle => push_str(&mut out, "title must be 1-256 characters"),
        }
        string_of(&out)
    }
}

} // verus!
