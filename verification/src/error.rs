//! Errors reported while building a schema from input.
use vstd::prelude::*;

verus! {

/// A fragment identifier did not start with `#`.
#[derive(Debug, Clone, Copy, PartialEq, Eq, Structural)]
pub struct InvalidFragment;

/// A bare path identifier contained whitespace.
#[derive(Debug, Clone, Copy, PartialEq, Eq, Structural)]
pub struct InvalidPath;

/// What went wrong while building a schema.
#[derive(Debug, Clone, Copy, PartialEq, Eq, Structural)]
pub enum ErrorKind {
    /// The input text is not JSON.
    MalformedJson,
    /// A `$id` string matches none of the recognized identifier shapes.
    InvalidIdentifier,
    /// A node's shape matches no variant of the schema grammar.
    InvalidShape,
}

/// The error produced when a schema cannot be built from its input.
#[derive(Debug, Clone, Copy, PartialEq, Eq, Structural)]
pub struct Error {
    pub kind: ErrorKind,
}

impl Error {
    /// Wraps an error kind.
    pub fn new(kind: ErrorKind) -> (r: Error)
        ensures
            r.kind == kind,
    {
        Error { kind }
    }

    /// The kind of this error.
    pub fn kind(&self) -> (r: ErrorKind)
        ensures
            r == self.kind,
    {
        self.kind
    }

    /// A short description of the error.
    pub fn message(&self) -> (r: &'static str)
        ensures
            self.kind is MalformedJson ==> r@ == "the input is not valid JSON"@,
            self.kind is InvalidIdentifier ==> r@ == "invalid identifier"@,
            self.kind is InvalidShape ==> r@ == "the document does not fit the schema grammar"@,
    {
        match self.kind {
            ErrorKind::MalformedJson => "the input is not valid JSON",
            ErrorKind::InvalidIdentifier => "invalid identifier",
            ErrorKind::InvalidShape => "the document does not fit the schema grammar",
        }
    }
}

} // verus!
