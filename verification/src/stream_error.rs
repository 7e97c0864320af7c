//! Raw stream failures: what a read, write or decode reports before the line
//! processor annotates it with a line number.

use vstd::prelude::*;

verus! {

/// The category of a raw stream failure, mirroring the operating-system
/// error classes that stream operations surface.
#[derive(Clone, Copy, Debug, PartialEq, Eq, Structural)]
pub enum StreamErrorKind {
    /// The named resource does not exist.
    NotFound,
    /// The resource exists but may not be opened.
    PermissionDenied,
    /// The other end of the stream went away.
    BrokenPipe,
    /// Bytes that were expected to be text are not a valid encoding.
    InvalidData,
    /// The operation is not meaningful for the stream's active variant.
    Unsupported,
    /// Any other failure.
    Other,
}

/// A raw stream failure: a category plus the human-readable message that
/// rendering interpolates.
#[derive(Debug)]
pub struct StreamError {
    kind: StreamErrorKind,
    message: String,
}

impl StreamError {
    /// The failure's category.
    pub closed spec fn spec_kind(&self) -> StreamErrorKind {
        self.kind
    }

    /// The failure's message, exactly as rendering shows it.
    pub closed spec fn spec_message(&self) -> Seq<char> {
        self.message@
    }

    pub fn new(kind: StreamErrorKind, message: String) -> (r: Self)
        ensures
            r.spec_kind() == kind,
            r.spec_message() == message@,
    {
        StreamError { kind, message }
    }

    pub fn kind(&self) -> (r: StreamErrorKind)
        ensures
            r == self.spec_kind(),
    {
        self.kind
    }

    pub fn message(&self) -> (r: &str)
        ensures
            r@ == self.spec_message(),
    {
        self.message.as_str()
    }
}

} // verus!
