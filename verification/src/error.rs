//! Error taxonomy for the upload client. Each error is final for its task:
//! the core performs no automatic retries.

use vstd::prelude::*;

verus! {

/// Everything that can go wrong while assembling, submitting or tracking an
/// upload. Precondition failures (`UnsignedTransaction`, `MissingFilePath`)
/// are raised before any side effect takes place.
#[derive(Debug, PartialEq, Eq, Structural, Clone, Copy)]
pub enum ArweaveError {
    /// A filesystem operation failed.
    IOFailure,
    /// An HTTP request failed before yielding a status code.
    NetworkFailure,
    /// A remote response could not be understood.
    MalformedResponse,
    /// The transaction has an empty `id`, i.e. it was never signed.
    UnsignedTransaction,
    /// A status record without a source path cannot be persisted.
    MissingFilePath,
    /// No status file exists for the requested path.
    StatusNotFound,
    /// A status file exists but does not hold a valid status record.
    StatusCorrupt,
    /// The status endpoint answered with an HTTP code outside the mapping.
    UnexpectedStatus(u16),
    /// The Merkle engine was handed an empty node list.
    MerkleInvariantViolated,
    /// Text that is not URL-safe base64 without padding.
    InvalidBase64,
    /// The signing capability failed to produce a signature.
    SigningFailure,
    /// The gateway rejected a posted transaction with this HTTP code.
    PostFailed(u16),
}

} // verus!
