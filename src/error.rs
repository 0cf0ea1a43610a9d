//! The kinds of failure that the store and the service report.

use vstd::prelude::*;

verus! {

/// What went wrong; each kind has its own stable code.
#[derive(Debug, Clone, Copy, PartialEq, Eq, Structural)]
pub enum ErrorKind {
    /// No poll has the given id.
    NotFound,
    /// A record already exists under the id.
    AlreadyExists,
    /// The id generator gave ids that were already taken.
    IdCollision,
    /// Malformed options, or a vote for an option the poll does not have.
    InvalidInput,
    /// The stored bytes are not the encoding of a record.
    Corrupt,
    /// The storage layer could not complete the operation.
    StorageUnavailable,
}

impl ErrorKind {
    /// The stable code of this kind of failure.
    pub fn code(&self) -> (r: i64)
        ensures
            r == error_code(*self),
    {
        match self {
            ErrorKind::NotFound => 1,
            ErrorKind::AlreadyExists => 2,
            ErrorKind::IdCollision => 3,
            ErrorKind::InvalidInput => 4,
            ErrorKind::Corrupt => 5,
            ErrorKind::StorageUnavailable => 6,
        }
    }
}

pub open spec fn error_code(k: ErrorKind) -> i64 {
    match k {
        ErrorKind::NotFound => 1,
        ErrorKind::AlreadyExists => 2,
        ErrorKind::IdCollision => 3,
        ErrorKind::InvalidInput => 4,
        ErrorKind::Corrupt => 5,
        ErrorKind::StorageUnavailable => 6,
    }
}

/// The error that the poll service returns.
#[derive(Debug, Clone, Copy, PartialEq, Eq, Structural)]
pub struct OurError {
    pub kind: ErrorKind,
}

impl OurError {
    pub fn new(kind: ErrorKind) -> (r: OurError)
        ensures
            r.kind == kind,
    {
        OurError { kind }
    }
}

/// `r` is a failure of kind `k`.
pub open spec fn fails_with<T>(r: Result<T, OurError>, k: ErrorKind) -> bool {
    match r {
        Ok(_) => false,
        Err(e) => e.kind == k,
    }
}

} // verus!
