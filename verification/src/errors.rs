//! Error taxonomy: subprocess failures, remote-service failures, and the
//! application-level errors that navigation and submission report.

use vstd::prelude::*;

verus! {

/// Errors from the version-control executor.
#[derive(Debug)]
pub enum GitError {
    /// The underlying command ran and failed; carries its captured output.
    CommandFailed(String),
    /// The underlying command is not installed.
    CommandNotFound,
    /// The working directory is not inside a version-controlled tree.
    NotGitRepository,
    /// The command succeeded but printed something unexpected.
    InvalidOutput(String),
    /// An I/O failure while running the command, as text.
    Io(String),
    /// Command output that was not valid UTF-8, as text.
    Utf8(String),
}

/// Errors from the remote pull-request service, mapped from transport status.
#[derive(Debug)]
pub enum GitHubError {
    /// The request was rejected for lack of credentials.
    AuthenticationError,
    /// Any other failed request; carries the service's message.
    RequestError(String),
    /// The named resource does not exist on the remote.
    NotFound(String),
    /// The service refused the request because of rate limiting.
    RateLimitExceeded,
}

/// Application-level errors surfaced by the engines.
#[derive(Debug)]
pub enum AppError {
    /// A failure reported by the version-control executor.
    Git(GitError),
    /// An I/O failure, as text.
    Io(String),
    /// `prev` was asked for at a stack root or at the start of the list.
    NoPreviousBranch,
    /// `next` was asked for at a childless branch or at the end of the list.
    NoNextBranch,
    /// The working tree's branch belongs to no known stack.
    BranchNotPartOfStack,
    /// Any other error, as text.
    Other(String),
}

} // verus!
