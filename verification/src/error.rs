//! The one error that every codec of this crate reports.

use vstd::prelude::*;

verus! {

/// The kinds of error: a tag line is either read whole or refused as
/// invalid input.
#[derive(Debug, Clone, Copy, PartialEq, Eq, Hash, Structural)]
pub enum ErrorKind {
    InvalidInput,
}

/// What was wrong with the text that a codec refused.
#[derive(Debug, Clone, Copy, PartialEq, Eq, Hash, Structural)]
pub enum Reason {
    /// The line does not begin with the tag's prefix.
    PrefixMismatch,
    /// The attribute list is malformed: a bad name, a missing `=`,
    /// or a quote that is never closed.
    MalformedAttribute,
    /// A value does not follow the grammar of its type.
    InvalidValue,
    /// A required attribute is absent.
    MissingField,
    /// Attributes are present that exclude each other, or one is present
    /// without the attribute that it depends on.
    ForbiddenCombination,
}

/// An error: its kind and the reason for it.
#[derive(Debug, Clone, Copy, PartialEq, Eq, Hash, Structural)]
pub struct Error {
    pub kind: ErrorKind,
    pub reason: Reason,
}

impl Error {
    /// An `InvalidInput` error with the given reason.
    pub fn invalid_input(reason: Reason) -> (e: Error)
        ensures
            e == (Error { kind: ErrorKind::InvalidInput, reason }),
    {
        Error { kind: ErrorKind::InvalidInput, reason }
    }

    /// The kind of this error.
    pub fn kind(&self) -> (k: ErrorKind)
        ensures
            k == self.kind,
    {
        self.kind
    }

    /// The reason for this error.
    pub fn reason(&self) -> (r: Reason)
        ensures
            r == self.reason,
    {
        self.reason
    }
}

/// The error with the given reason, as contracts name it.
pub open spec fn invalid(reason: Reason) -> Error {
    Error { kind: ErrorKind::InvalidInput, reason }
}

} // verus!
