//! Stable error categories shared by the CLI and future adapters.
use vstd::prelude::*;

verus! {

/// The standard library's I/O error, carried opaquely as the cause of an `Io` error.
#[verifier::external_type_specification]
#[verifier::external_body]
pub struct ExIoError(std::io::Error);

/// Koru's stable machine-readable failure categories.
#[derive(Debug, Clone, Copy, PartialEq, Eq, Structural)]
pub enum ErrorCode {
    /// A user-supplied value or source violates a contract.
    Validation,
    /// An input or operation exceeded a configured limit.
    BudgetExhausted,
    /// Access was denied by host-owned policy.
    PermissionDenied,
    /// A requested feature is not yet supported.
    UnsupportedCapability,
    /// State changed after a snapshot or authorization.
    StateConflict,
    /// The execution context can no longer accept effects.
    Cancelled,
    /// The execution deadline expired.
    Timeout,
    /// A filesystem or other I/O operation failed.
    Io,
}

/// The stable text of each error category.
pub open spec fn code_text(code: ErrorCode) -> Seq<char> {
    match code {
        ErrorCode::Validation => "validation"@,
        ErrorCode::BudgetExhausted => "budget_exhausted"@,
        ErrorCode::PermissionDenied => "permission_denied"@,
        ErrorCode::UnsupportedCapability => "unsupported_capability"@,
        ErrorCode::StateConflict => "state_conflict"@,
        ErrorCode::Cancelled => "cancelled"@,
        ErrorCode::Timeout => "timeout"@,
        ErrorCode::Io => "io"@,
    }
}

impl ErrorCode {
    /// Stable code for diagnostics and automation.
    pub fn as_str(self) -> (text: &'static str)
        ensures
            text@ == code_text(self),
    {
        match self {
            ErrorCode::Validation => "validation",
            ErrorCode::BudgetExhausted => "budget_exhausted",
            ErrorCode::PermissionDenied => "permission_denied",
            ErrorCode::UnsupportedCapability => "unsupported_capability",
            ErrorCode::StateConflict => "state_conflict",
            ErrorCode::Cancelled => "cancelled",
            ErrorCode::Timeout => "timeout",
            ErrorCode::Io => "io",
        }
    }
}

/// A contextual error with an optional original I/O cause.
#[derive(Debug)]
pub struct KoruError {
    code: ErrorCode,
    message: String,
    source: Option<std::io::Error>,
}

impl KoruError {
    /// The category of this error.
    pub closed spec fn spec_code(&self) -> ErrorCode {
        self.code
    }

    /// The human-readable message of this error.
    pub closed spec fn spec_message(&self) -> Seq<char> {
        self.message@
    }

    /// Whether this error retains an I/O cause.
    pub closed spec fn has_source(&self) -> bool {
        self.source is Some
    }

    /// Build an error without an underlying I/O cause.
    pub fn new(code: ErrorCode, message: &str) -> (error: Self)
        ensures
            error.spec_code() == code,
            error.spec_message() == message@,
            !error.has_source(),
    {
        KoruError { code, message: message.to_owned(), source: None }
    }

    /// Build an error retaining its filesystem cause.
    pub fn io(message: &str, source: std::io::Error) -> (error: Self)
        ensures
            error.spec_code() == ErrorCode::Io,
            error.spec_message() == message@,
            error.has_source(),
    {
        KoruError { code: ErrorCode::Io, message: message.to_owned(), source: Some(source) }
    }

    /// Associate a displayed path with an I/O error without discarding its cause.
    pub fn at_path(path: &str, source: std::io::Error) -> (error: Self)
        ensures
            error.spec_code() == ErrorCode::Io,
            error.spec_message() == "cannot access "@ + path@,
            error.has_source(),
    {
        let mut message = String::new();
        crate::text::push_str(&mut message, "cannot access ");
        crate::text::push_str(&mut message, path);
        proof {
            reveal_strlit("cannot access ");
        }
        KoruError::io(message.as_str(), source)
    }

    /// The stable category of this error.
    pub fn code(&self) -> (code: ErrorCode)
        ensures
            code == self.spec_code(),
    {
        self.code
    }

    /// The human-readable message, excluding its code.
    pub fn message(&self) -> (message: &str)
        ensures
            message@ == self.spec_message(),
    {
        self.message.as_str()
    }

    /// Give up the I/O cause, if any, so that adapters can report it.
    pub fn into_parts(self) -> (parts: (ErrorCode, String, Option<std::io::Error>))
        ensures
            parts.0 == self.spec_code(),
            parts.1@ == self.spec_message(),
            parts.2 is Some <==> self.has_source(),
    {
        (self.code, self.message, self.source)
    }
}

} // verus!
