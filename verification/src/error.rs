//! Error codes, the library's error value, and its serializable snapshot.

use vstd::prelude::*;

verus! {

/// Stable machine-readable category for an error.
#[derive(Debug, Clone, Copy, PartialEq, Eq, Structural)]
pub enum ErrorCode {
    Io,
    Json,
    Metadata,
    Http,
    Rustsec,
    Semver,
    Utf8,
    ExternalCommand,
    MissingTool,
    InvalidData,
    TaskFailed,
    Config,
    Concurrency,
    Internal,
}

impl ErrorCode {
    /// The snake_case label for this code.
    pub open spec fn spec_label(self) -> Seq<char> {
        match self {
            ErrorCode::Io => "io"@,
            ErrorCode::Json => "json"@,
            ErrorCode::Metadata => "metadata"@,
            ErrorCode::Http => "http"@,
            ErrorCode::Rustsec => "rustsec"@,
            ErrorCode::Semver => "semver"@,
            ErrorCode::Utf8 => "utf8"@,
            ErrorCode::ExternalCommand => "external_command"@,
            ErrorCode::MissingTool => "missing_tool"@,
            ErrorCode::InvalidData => "invalid_data"@,
            ErrorCode::TaskFailed => "task_failed"@,
            ErrorCode::Config => "config"@,
            ErrorCode::Concurrency => "concurrency"@,
            ErrorCode::Internal => "internal"@,
        }
    }

    /// Snake_case label, as shown in text and JSON output.
    pub fn label(&self) -> (r: &'static str)
        ensures
            r@ == self.spec_label(),
    {
        match self {
            ErrorCode::Io => "io",
            ErrorCode::Json => "json",
            ErrorCode::Metadata => "metadata",
            ErrorCode::Http => "http",
            ErrorCode::Rustsec => "rustsec",
            ErrorCode::Semver => "semver",
            ErrorCode::Utf8 => "utf8",
            ErrorCode::ExternalCommand => "external_command",
            ErrorCode::MissingTool => "missing_tool",
            ErrorCode::InvalidData => "invalid_data",
            ErrorCode::TaskFailed => "task_failed",
            ErrorCode::Config => "config",
            ErrorCode::Concurrency => "concurrency",
            ErrorCode::Internal => "internal",
        }
    }
}

/// An error of this library: a code, a human-readable message, and the
/// messages of any underlying causes, outermost first.
#[derive(Debug)]
pub struct UpkeepError {
    pub code: ErrorCode,
    pub msg: String,
    pub causes: Vec<String>,
}

impl UpkeepError {
    /// An error with no underlying cause.
    pub fn message(code: ErrorCode, message: String) -> (r: UpkeepError)
        ensures
            r.code == code,
            r.msg == message,
            r.causes@.len() == 0,
    {
        UpkeepError { code, msg: message, causes: Vec::new() }
    }

    /// An error wrapping the message of an underlying cause.
    pub fn context(code: ErrorCode, message: String, cause: String) -> (r: UpkeepError)
        ensures
            r.code == code,
            r.msg == message,
            r.causes@ =~= seq![cause],
    {
        let mut causes = Vec::new();
        causes.push(cause);
        UpkeepError { code, msg: message, causes }
    }

    /// The code of this error.
    pub fn code(&self) -> (r: ErrorCode)
        ensures
            r == self.code,
    {
        self.code
    }
}

/// A serializable snapshot of an error.
#[derive(Debug)]
pub struct ErrorResponse {
    pub code: ErrorCode,
    pub message: String,
    /// The chain of underlying causes, if any.
    pub causes: Vec<String>,
}

impl ErrorResponse {
    /// Snapshot of an error's code, message and cause chain.
    pub fn of_error(error: &UpkeepError) -> (r: ErrorResponse)
        ensures
            r.code == error.code,
            r.message@ == error.msg@,
            r.causes@.len() == error.causes@.len(),
            forall|i: int|
                0 <= i < r.causes@.len() ==> r.causes@[i]@ == error.causes@[i]@,
    {
        let mut causes: Vec<String> = Vec::new();
        let mut i: usize = 0;
        while i < error.causes.len()
            invariant
                i <= error.causes@.len(),
                causes@.len() == i,
                forall|k: int| 0 <= k < i ==> causes@[k]@ == error.causes@[k]@,
            decreases error.causes@.len() - i,
        {
            causes.push(error.causes[i].clone());
            i += 1;
        }
        ErrorResponse { code: error.code, message: error.msg.clone(), causes }
    }
}

} // verus!
