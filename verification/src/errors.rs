//! Error taxonomy and priority ordinals for the synchronization protocol.

use vstd::prelude::*;

verus! {

/// A 64-bit ordinal used to break the symmetry between two peers holding
/// divergent copies of one logical value. Priorities are totally ordered by
/// the underlying integer; two cooperating peers must not present equal
/// priorities in one handshake.
#[derive(Debug, Clone, Copy, PartialEq, Eq, Structural)]
pub struct SyncPriority(pub u64);

/// Everything that can abort a synchronization exchange.
///
/// Every error is surfaced immediately to the caller of the failing
/// operation; nothing is retried or swallowed.
#[derive(Debug, Clone, Copy, PartialEq, Eq, Structural)]
pub enum SyncError {
    /// The channel held fewer bytes than the decoder required (a short read).
    ReadError,
    /// The channel failed while writing.
    WriteError,
    /// Both peers presented the same priority: the handshake is ambiguous
    /// and there is no safe default direction. Carries that priority.
    EquPrior(SyncPriority),
    /// A decode failure: a string payload was not valid UTF-8 (the field
    /// carries the number of leading payload bytes that were valid, as
    /// reported by the validator), or an enum discriminant read from the
    /// wire matched no variant (the field is then zero).
    Utf8Error(usize),
}

/// The result of every fallible protocol operation.
pub type SyncResult<T> = Result<T, SyncError>;

/// Two errors are the same failure when they are the same variant with the
/// same payload, except that the position carried by a decode failure is
/// ignored: that position comes from the UTF-8 validator and is not part of
/// the wire contract.
pub open spec fn same_failure(a: SyncError, b: SyncError) -> bool {
    match (a, b) {
        (SyncError::ReadError, SyncError::ReadError) => true,
        (SyncError::WriteError, SyncError::WriteError) => true,
        (SyncError::EquPrior(p), SyncError::EquPrior(q)) => p == q,
        (SyncError::Utf8Error(_), SyncError::Utf8Error(_)) => true,
        _ => false,
    }
}

} // verus!
