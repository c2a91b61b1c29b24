use vstd::prelude::*;

verus! {

/// The ways pattern compilation or a scan can fail.
#[derive(Clone, Copy, PartialEq, Eq, Structural, Debug)]
pub enum ErrorKind {
    /// A pattern token was neither `?` nor one or two hex digits.
    InvalidPatternToken,
    /// The pattern has no tokens; scanning with it is rejected.
    EmptyPattern,
    /// Twice the pattern length exceeds the window capacity.
    PatternTooLong,
    /// The byte source reported a failure while being read.
    SourceReadFailure,
    /// An error built directly through [`Error::new`].
    Other,
}

/// Represents an error which occurred while scanning for a pattern.
#[derive(Debug)]
pub struct Error {
    /// Which failure occurred.
    pub kind: ErrorKind,
    /// String detailing the error.
    pub message: String,
}

impl Error {
    /// Build an error carrying an arbitrary message.
    pub fn new(e: String) -> (r: Self)
        ensures
            r.kind == ErrorKind::Other,
            r.message == e,
    {
        Error { kind: ErrorKind::Other, message: e }
    }

    /// The error for a malformed pattern token.
    pub(crate) fn invalid_token() -> (r: Self)
        ensures
            r.kind == ErrorKind::InvalidPatternToken,
    {
        Error {
            kind: ErrorKind::InvalidPatternToken,
            message: "invalid pattern token: expected `?` or one or two hex digits".to_owned(),
        }
    }

    /// The error for a pattern with no tokens.
    pub(crate) fn empty_pattern() -> (r: Self)
        ensures
            r.kind == ErrorKind::EmptyPattern,
    {
        Error {
            kind: ErrorKind::EmptyPattern,
            message: "empty pattern: at least one token is required".to_owned(),
        }
    }

    /// The error for a pattern longer than half the window capacity.
    pub(crate) fn pattern_too_long() -> (r: Self)
        ensures
            r.kind == ErrorKind::PatternTooLong,
    {
        Error {
            kind: ErrorKind::PatternTooLong,
            message: "pattern too long: it can be at most half the chunk size".to_owned(),
        }
    }

    /// Re-tag an error reported by a byte source, keeping its message: the
    /// reported failure wraps the underlying read error.
    pub(crate) fn into_read_failure(self) -> (r: Self)
        ensures
            r.kind == ErrorKind::SourceReadFailure,
            r.message == self.message,
    {
        Error { kind: ErrorKind::SourceReadFailure, message: self.message }
    }
}

} // verus!
