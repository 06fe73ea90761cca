//! The error type shared by every codec, parser and planner of the library.

use vstd::prelude::*;

verus! {

/// Stable classification of a failure.
#[derive(Clone, Copy, Debug, PartialEq, Eq, Structural)]
pub enum ErrorKind {
    /// The input violates its format.
    Malformed,
    /// The input uses a feature that the library does not implement.
    Unsupported,
    /// A configured resource budget was exceeded.
    Limit,
    /// A caller or provider broke the calling protocol.
    Protocol,
    /// A known feature is not compiled into this build.
    Capability,
    /// The caller asked for something that cannot be represented.
    InvalidInput,
}

/// A failure with its classification, the format it concerns and a sentence of
/// context.
#[derive(Debug)]
pub struct ArchiveError {
    pub kind: ErrorKind,
    pub format: Option<&'static str>,
    pub context: String,
}

/// The mathematical content of an [`ArchiveError`].
#[verifier::ext_equal]
pub struct ErrorView {
    pub kind: ErrorKind,
    pub format: Option<Seq<char>>,
    pub context: Seq<char>,
}

impl View for ArchiveError {
    type V = ErrorView;

    open spec fn view(&self) -> ErrorView {
        ErrorView {
            kind: self.kind,
            format: match self.format {
                Some(name) => Some(name@),
                None => None,
            },
            context: self.context@,
        }
    }
}

/// The error of kind `kind` that names a format.
pub open spec fn fault(kind: ErrorKind, format: &str, context: Seq<char>) -> ErrorView {
    ErrorView { kind, format: Some(format@), context }
}

/// The error of kind `kind` that names no format.
pub open spec fn plain_fault(kind: ErrorKind, context: Seq<char>) -> ErrorView {
    ErrorView { kind, format: None, context }
}

/// The error carried by a failed result, by its view.
pub open spec fn error_of<T>(result: Result<T, ArchiveError>) -> Option<ErrorView> {
    match result {
        Ok(_) => None,
        Err(error) => Some(error@),
    }
}

impl ArchiveError {
    /// An error about `format` with a fixed sentence of context.
    pub fn of_format(kind: ErrorKind, format: &'static str, context: &str) -> (error: Self)
        ensures
            error@ == fault(kind, format, context@),
    {
        ArchiveError { kind, format: Some(format), context: context.to_string() }
    }

    /// An error about `format` with a computed sentence of context.
    pub fn of_format_text(kind: ErrorKind, format: &'static str, context: String) -> (error: Self)
        ensures
            error@ == fault(kind, format, context@),
    {
        ArchiveError { kind, format: Some(format), context }
    }

    /// An error that names no format.
    pub fn plain(kind: ErrorKind, context: &str) -> (error: Self)
        ensures
            error@ == plain_fault(kind, context@),
    {
        ArchiveError { kind, format: None, context: context.to_string() }
    }

    /// An error that names no format, with a computed sentence of context.
    pub fn plain_text(kind: ErrorKind, context: String) -> (error: Self)
        ensures
            error@ == plain_fault(kind, context@),
    {
        ArchiveError { kind, format: None, context }
    }

    /// The failure's classification.
    pub fn kind(&self) -> (kind: ErrorKind)
        ensures
            kind == self@.kind,
    {
        self.kind
    }

    /// A copy of this error.
    pub fn duplicate(&self) -> (copy: Self)
        ensures
            copy@ == self@,
    {
        ArchiveError { kind: self.kind, format: self.format, context: self.context.clone() }
    }
}

} // verus!
