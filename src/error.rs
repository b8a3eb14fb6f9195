//! Errors of the shell core and their messages.
use vstd::prelude::*;

verus! {

/// Errors returned by the shell core.
#[derive(Debug)]
pub enum ShellError {
    Io(String),
    CommandExecution(String),
    Parse(String),
    SecurityViolation(String),
    Security(SecurityError),
    Config(String),
    FileSystem(String),
    Process(String),
}

/// Rejections raised by the security policy.
#[derive(Debug)]
pub enum SecurityError {
    PathTraversal(String),
    DangerousCommand(String),
    InvalidInput(String),
    PermissionDenied(String),
    ResourceLimitExceeded(String),
}

/// The kind of a [`ShellError`], with the kind of a [`SecurityError`] spelled out.
#[derive(Debug, Clone, Copy, PartialEq, Eq, Structural)]
pub enum ErrorKind {
    Io,
    CommandExecution,
    Parse,
    SecurityViolation,
    PathTraversal,
    DangerousCommand,
    InvalidInput,
    PermissionDenied,
    ResourceLimitExceeded,
    Config,
    FileSystem,
    Process,
}

/// What an error says: its kind and the text it carries.
pub struct ErrorView {
    pub kind: ErrorKind,
    pub text: Seq<char>,
}

pub open spec fn err_of(kind: ErrorKind, text: Seq<char>) -> ErrorView {
    ErrorView { kind, text }
}

impl View for SecurityError {
    type V = ErrorView;

    open spec fn view(&self) -> ErrorView {
        match self {
            SecurityError::PathTraversal(s) => err_of(ErrorKind::PathTraversal, s@),
            SecurityError::DangerousCommand(s) => err_of(ErrorKind::DangerousCommand, s@),
            SecurityError::InvalidInput(s) => err_of(ErrorKind::InvalidInput, s@),
            SecurityError::PermissionDenied(s) => err_of(ErrorKind::PermissionDenied, s@),
            SecurityError::ResourceLimitExceeded(s) => err_of(ErrorKind::ResourceLimitExceeded, s@),
        }
    }
}

impl View for ShellError {
    type V = ErrorView;

    open spec fn view(&self) -> ErrorView {
        match self {
            ShellError::Io(s) => err_of(ErrorKind::Io, s@),
            ShellError::CommandExecution(s) => err_of(ErrorKind::CommandExecution, s@),
            ShellError::Parse(s) => err_of(ErrorKind::Parse, s@),
            ShellError::SecurityViolation(s) => err_of(ErrorKind::SecurityViolation, s@),
            ShellError::Security(e) => e@,
            ShellError::Config(s) => err_of(ErrorKind::Config, s@),
            ShellError::FileSystem(s) => err_of(ErrorKind::FileSystem, s@),
            ShellError::Process(s) => err_of(ErrorKind::Process, s@),
        }
    }
}

/// `r` failed with the error `e`.
pub open spec fn fails_with<T>(r: Result<T, ShellError>, e: ErrorView) -> bool {
    match r {
        Ok(_) => false,
        Err(x) => x@ == e,
    }
}

/// Result type of the shell core.
pub type ShellResult<T> = Result<T, ShellError>;

/// Text `prefix` followed by `tail`.
fn joined(prefix: &str, tail: &str) -> (r: String)
    ensures
        r@ == prefix@ + tail@,
{
    let mut r = prefix.to_owned();
    r.append(tail);
    r
}

impl SecurityError {
    /// The human-readable text of this rejection.
    pub fn message(&self) -> (r: String)
        ensures
            r@ == self.spec_message(),
    {
        match self {
            SecurityError::PathTraversal(p) => joined("Path traversal attempt detected: ", p.as_str()),
            SecurityError::DangerousCommand(c) => joined("Dangerous command blocked: ", c.as_str()),
            SecurityError::InvalidInput(i) => joined("Invalid input: ", i.as_str()),
            SecurityError::PermissionDenied(r) => joined("Permission denied: ", r.as_str()),
            SecurityError::ResourceLimitExceeded(l) => joined("Resource limit exceeded: ", l.as_str()),
        }
    }

    pub open spec fn spec_message(&self) -> Seq<char> {
        match self {
            SecurityError::PathTraversal(p) => "Path traversal attempt detected: "@ + p@,
            SecurityError::DangerousCommand(c) => "Dangerous command blocked: "@ + c@,
            SecurityError::InvalidInput(i) => "Invalid input: "@ + i@,
            SecurityError::PermissionDenied(r) => "Permission denied: "@ + r@,
            SecurityError::ResourceLimitExceeded(l) => "Resource limit exceeded: "@ + l@,
        }
    }
}

impl ShellError {
    /// The human-readable text of this error.
    pub fn message(&self) -> (r: String)
        ensures
            r@ == self.spec_message(),
    {
        match self {
            ShellError::Io(e) => joined("I/O error: ", e.as_str()),
            ShellError::CommandExecution(m) => joined("Command execution failed: ", m.as_str()),
            ShellError::Parse(m) => joined("Parse error: ", m.as_str()),
            ShellError::SecurityViolation(m) => joined("Security violation: ", m.as_str()),
            ShellError::Security(e) => {
                let inner = e.message();
                joined("Security error: ", inner.as_str())
            },
            ShellError::Config(m) => joined("Configuration error: ", m.as_str()),
            ShellError::FileSystem(m) => joined("File system error: ", m.as_str()),
            ShellError::Process(m) => joined("Process error: ", m.as_str()),
        }
    }

    pub open spec fn spec_message(&self) -> Seq<char> {
        match self {
            ShellError::Io(e) => "I/O error: "@ + e@,
            ShellError::CommandExecution(m) => "Command execution failed: "@ + m@,
            ShellError::Parse(m) => "Parse error: "@ + m@,
            ShellError::SecurityViolation(m) => "Security violation: "@ + m@,
            ShellError::Security(e) => "Security error: "@ + e.spec_message(),
            ShellError::Config(m) => "Configuration error: "@ + m@,
            ShellError::FileSystem(m) => "File system error: "@ + m@,
            ShellError::Process(m) => "Process error: "@ + m@,
        }
    }
}

impl From<SecurityError> for ShellError {
    fn from(e: SecurityError) -> (r: ShellError)
        ensures
            r == ShellError::Security(e),
    {
        ShellError::Security(e)
    }
}

impl vstd::std_specs::convert::FromSpecImpl<SecurityError> for ShellError {
    open spec fn obeys_from_spec() -> bool {
        true
    }

    open spec fn from_spec(e: SecurityError) -> ShellError {
        ShellError::Security(e)
    }
}

} // verus!
