//! Error definitions.

use vstd::prelude::*;
use crate::text::push_str;

verus! {

/// Errors that can occur during dupfinder operations.
#[derive(Debug, Clone, PartialEq, Eq)]
pub enum DupfinderError {
    /// An I/O error occurred while accessing a file.
    IoError { path: String, message: String },
    /// An error occurred with the cache.
    CacheError(String),
    /// An error occurred with glob pattern compilation.
    GlobError(String),
    /// An error occurred during serialization/deserialization.
    SerdeError(String),
    /// A configuration error.
    ConfigError(String),
    /// A safety protection error preventing operations on protected/system paths.
    ProtectedPathError { path: String, reason: String },
    /// An original preservation invariant error.
    OriginalPreservationError(String),
    /// A TOCTOU / file-state-changed error.
    StateChangedError { path: String, reason: String },
    /// A general remediation or cleanup error.
    RemediationError(String),
}

/// An error with its texts taken by their characters.
pub enum ErrorView {
    Io { path: Seq<char>, message: Seq<char> },
    Cache(Seq<char>),
    Glob(Seq<char>),
    Serde(Seq<char>),
    Config(Seq<char>),
    ProtectedPath { path: Seq<char>, reason: Seq<char> },
    OriginalPreservation(Seq<char>),
    StateChanged { path: Seq<char>, reason: Seq<char> },
    Remediation(Seq<char>),
}

impl View for DupfinderError {
    type V = ErrorView;

    open spec fn view(&self) -> ErrorView {
        match *self {
            DupfinderError::IoError { path, message } => ErrorView::Io { path: path@, message: message@ },
            DupfinderError::CacheError(m) => ErrorView::Cache(m@),
            DupfinderError::GlobError(m) => ErrorView::Glob(m@),
            DupfinderError::SerdeError(m) => ErrorView::Serde(m@),
            DupfinderError::ConfigError(m) => ErrorView::Config(m@),
            DupfinderError::ProtectedPathError { path, reason } => ErrorView::ProtectedPath {
                path: path@,
                reason: reason@,
            },
            DupfinderError::OriginalPreservationError(m) => ErrorView::OriginalPreservation(m@),
            DupfinderError::StateChangedError { path, reason } => ErrorView::StateChanged {
                path: path@,
                reason: reason@,
            },
            DupfinderError::RemediationError(m) => ErrorView::Remediation(m@),
        }
    }
}

/// A result with its error taken by its view.
pub open spec fn res_view<T>(r: Result<T, DupfinderError>) -> Result<T, ErrorView> {
    match r {
        Ok(v) => Ok(v),
        Err(e) => Err(e@),
    }
}

/// The text an error is displayed with.
pub open spec fn view_message(e: ErrorView) -> Seq<char> {
    match e {
        ErrorView::Io { path, message } => "I/O error at "@ + path + ": "@ + message,
        ErrorView::Cache(m) => "Cache error: "@ + m,
        ErrorView::Glob(m) => "Invalid glob pattern: "@ + m,
        ErrorView::Serde(m) => "Serialization error: "@ + m,
        ErrorView::Config(m) => "Configuration error: "@ + m,
        ErrorView::ProtectedPath { path, reason } => "Safety protection error at '"@ + path + "': "@ + reason,
        ErrorView::OriginalPreservation(m) => "Original preservation violation: "@ + m,
        ErrorView::StateChanged { path, reason } => "File state changed since scan at '"@ + path + "': "@ + reason,
        ErrorView::Remediation(m) => "Remediation error: "@ + m,
    }
}

/// The text the error `e` is displayed with.
pub open spec fn error_message(e: DupfinderError) -> Seq<char> {
    view_message(e@)
}

impl DupfinderError {
    /// The text this error is displayed with.
    pub fn message(&self) -> (r: String)
        ensures
            r@ == error_message(*self),
    {
        let mut s = String::new();
        match self {
            DupfinderError::IoError { path, message } => {
                push_str(&mut s, "I/O error at ");
                push_str(&mut s, path.as_str());
                push_str(&mut s, ": ");
                push_str(&mut s, message.as_str());
            },
            DupfinderError::CacheError(m) => {
                push_str(&mut s, "Cache error: ");
                push_str(&mut s, m.as_str());
            },
            DupfinderError::GlobError(m) => {
                push_str(&mut s, "Invalid glob pattern: ");
                push_str(&mut s, m.as_str());
            },
            DupfinderError::SerdeError(m) => {
                push_str(&mut s, "Serialization error: ");
                push_str(&mut s, m.as_str());
            },
            DupfinderError::ConfigError(m) => {
                push_str(&mut s, "Configuration error: ");
                push_str(&mut s, m.as_str());
            },
            DupfinderError::ProtectedPathError { path, reason } => {
                push_str(&mut s, "Safety protection error at '");
                push_str(&mut s, path.as_str());
                push_str(&mut s, "': ");
                push_str(&mut s, reason.as_str());
            },
            DupfinderError::OriginalPreservationError(m) => {
                push_str(&mut s, "Original preservation violation: ");
                push_str(&mut s, m.as_str());
            },
            DupfinderError::StateChangedError { path, reason } => {
                push_str(&mut s, "File state changed since scan at '");
                push_str(&mut s, path.as_str());
                push_str(&mut s, "': ");
                push_str(&mut s, reason.as_str());
            },
            DupfinderError::RemediationError(m) => {
                push_str(&mut s, "Remediation error: ");
                push_str(&mut s, m.as_str());
            },
        }
        assert(s@ =~= error_message(*self));
        s
    }
}

} // verus!
