//! Error kinds for the preference store and snapshot log.
//!
//! Every kind reflects a violated precondition of one of the public
//! operations; none is a transient fault, so none is retryable by the core
//! itself.

use vstd::prelude::*;

verus! {

/// The reason an operation was rejected. Each operation aborts with no
/// partial effect when it returns one of these.
#[derive(Clone, Copy, Debug, PartialEq, Eq, Structural)]
pub enum ErrorCode {
    /// A threshold argument was outside `[0, 100]`.
    InvalidThreshold,
    /// A risk-score argument was outside `[0, 100]`.
    InvalidRiskScore,
    /// The requester identity does not match the record's owner.
    Unauthorized,
    /// The referenced preference record does not exist.
    NotFound,
    /// Initialization was attempted for an owner that already has a record.
    AlreadyExists,
    /// A snapshot already occupies the given `(owner, timestamp)` slot.
    DuplicateSnapshot,
}

} // verus!
