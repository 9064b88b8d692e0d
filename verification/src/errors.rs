//! Errors of the storage server.

use crate::text;
use crate::text::decimal_string;
use vstd::prelude::*;
use vstd::string::*;

verus! {

/// The classes of input and output failures that callers tell apart.
#[derive(Debug, Clone, Copy, PartialEq, Eq, Structural)]
pub enum IoKind {
    /// The requested thing does not exist.
    NotFound,
    /// An argument was malformed.
    InvalidInput,
    /// The address is taken by another socket.
    AddrInUse,
    /// No usable address is left.
    AddrNotAvailable,
    /// Anything else.
    Other,
}

/// What went wrong.
#[derive(Debug)]
pub enum ErrorKind {
    /// An input or output operation failed.
    Io(IoKind, String),
    /// A path does not lie below the directory it was expected in.
    StripPrefix(String),
    /// A key tried to leave the serve directory.
    PathTraversal,
    /// A `Range` header is malformed or cannot be satisfied.
    InvalidRange(String),
    /// There is no multipart upload with this identifier.
    UploadNotFound(String),
    /// The upload has no part with this number.
    PartNotFound(String, u32),
}

/// An error of the storage server.
#[derive(Debug)]
pub struct Error {
    pub kind: ErrorKind,
}

/// The result of an operation that can fail with an [`Error`].
pub type Result<T> = std::result::Result<T, Error>;

impl ErrorKind {
    /// The text that describes an error of this kind to a user.
    pub open spec fn text(self) -> Seq<char> {
        match self {
            ErrorKind::Io(_, message) => message@,
            ErrorKind::StripPrefix(message) => message@,
            ErrorKind::PathTraversal => "path traversal attempt detected"@,
            ErrorKind::InvalidRange(message) => "invalid range: "@ + message@,
            ErrorKind::UploadNotFound(id) => "upload not found: "@ + id@,
            ErrorKind::PartNotFound(id, number) => "part "@ + text::decimal(number as nat)
                + " not found for upload "@ + id@,
        }
    }
}

impl Error {
    /// An error of the given kind.
    pub fn new(kind: ErrorKind) -> (r: Error)
        ensures
            r.kind == kind,
    {
        Error { kind }
    }

    /// The text that describes this error to a user.
    pub fn message(&self) -> (r: String)
        ensures
            r@ == self.kind.text(),
    {
        match &self.kind {
            ErrorKind::Io(_, message) => message.clone(),
            ErrorKind::StripPrefix(message) => message.clone(),
            ErrorKind::PathTraversal => "path traversal attempt detected".to_owned(),
            ErrorKind::InvalidRange(message) => {
                let mut s: String = "invalid range: ".to_owned();
                s.append(message.as_str());
                s
            },
            ErrorKind::UploadNotFound(id) => {
                let mut s: String = "upload not found: ".to_owned();
                s.append(id.as_str());
                s
            },
            ErrorKind::PartNotFound(id, number) => {
                let mut s: String = "part ".to_owned();
                s.append(decimal_string(*number as u64).as_str());
                s.append(" not found for upload ");
                s.append(id.as_str());
                s
            },
        }
    }
}

} // verus!
