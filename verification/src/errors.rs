//! Error taxonomy of the query path and of storage configuration.

use vstd::prelude::*;

verus! {

/// Wire-level status codes, mirroring the classification the service
/// boundary reports to callers.
#[derive(Clone, Copy, Debug, PartialEq, Eq, Structural)]
pub enum ErrorCodes {
    InvalidArgument,
    NotFound,
    Unavailable,
    DeadlineExceeded,
    Internal,
}

/// A query fails with exactly one of these; partial results are never
/// returned alongside an error.
#[derive(Clone, Debug, PartialEq, Eq)]
pub enum QueryError {
    /// The request shape is invalid; reported synchronously, before any
    /// task is dispatched.
    ValidationError,
    /// The segment identifier is unknown to the catalog.
    SegmentNotFound,
    /// Segment metadata was loaded but is structurally invalid.
    SegmentCorrupt,
    /// The mutation log could not be read.
    LogUnavailable,
    /// The approximate-index provider failed.
    IndexUnavailable,
    /// A computation inside an operator failed, carrying its cause.
    OperatorError(String),
    /// The caller's deadline fired before the query resolved.
    DeadlineExceeded,
    /// No dispatcher or runtime is attached: a wiring error.
    DispatcherUnavailable,
}

impl QueryError {
    /// The status code a failed query reports, distinguishing bad input
    /// from transient backend failure from a fired deadline.
    pub fn code(&self) -> (r: ErrorCodes)
        ensures
            r == (match self {
                QueryError::ValidationError => ErrorCodes::InvalidArgument,
                QueryError::SegmentNotFound => ErrorCodes::NotFound,
                QueryError::SegmentCorrupt => ErrorCodes::Internal,
                QueryError::LogUnavailable => ErrorCodes::Unavailable,
                QueryError::IndexUnavailable => ErrorCodes::Unavailable,
                QueryError::OperatorError(_) => ErrorCodes::Internal,
                QueryError::DeadlineExceeded => ErrorCodes::DeadlineExceeded,
                QueryError::DispatcherUnavailable => ErrorCodes::Internal,
            }),
    {
        match self {
            QueryError::ValidationError => ErrorCodes::InvalidArgument,
            QueryError::SegmentNotFound => ErrorCodes::NotFound,
            QueryError::SegmentCorrupt => ErrorCodes::Internal,
            QueryError::LogUnavailable => ErrorCodes::Unavailable,
            QueryError::IndexUnavailable => ErrorCodes::Unavailable,
            QueryError::OperatorError(_) => ErrorCodes::Internal,
            QueryError::DeadlineExceeded => ErrorCodes::DeadlineExceeded,
            QueryError::DispatcherUnavailable => ErrorCodes::Internal,
        }
    }
}

} // verus!
