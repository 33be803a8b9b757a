//! The priority handshake: each peer writes its own 8-byte priority, reads
//! the peer's, and derives the synchronization direction.
//!
//! The write must come before the read on both ends, or a bounded unbuffered
//! transport could deadlock with both sides blocked on read; the model
//! channel keeps that order.

use vstd::bytes::spec_u64_from_le_bytes;
use vstd::bytes::spec_u64_to_le_bytes;
use vstd::prelude::*;

use crate::channel::Channel;
use crate::codec::pull_u64;
use crate::codec::push_u64;
use crate::errors::SyncError;
use crate::errors::SyncPriority;
use crate::errors::SyncResult;

verus! {

/// Which role this peer plays for one synchronization round.
#[derive(Debug, Clone, Copy, PartialEq, Eq, Structural)]
pub enum SyncDirection {
    /// Receive the peer's serialized value and overwrite mine.
    Pull,
    /// Serialize my value and send it to the peer.
    Push,
}

/// The direction a peer derives from its own priority and the peer's, or the
/// ambiguity error when they are equal: strictly greater peer priority means
/// this peer pulls, strictly smaller means it pushes.
pub open spec fn negotiated(own: u64, peer: u64) -> SyncResult<SyncDirection> {
    if peer == own {
        Err(SyncError::EquPrior(SyncPriority(own)))
    } else if peer > own {
        Ok(SyncDirection::Pull)
    } else {
        Ok(SyncDirection::Push)
    }
}

/// Perform the handshake on this peer's end: write `priority`'s 8-byte
/// little-endian encoding, read 8 bytes as the peer's priority, and compare.
/// The own priority is written even when the read then comes up short.
pub fn sync_direction(channel: &mut Channel, priority: SyncPriority) -> (r: SyncResult<
    SyncDirection,
>)
    ensures
        final(channel).sent() == old(channel).sent() + spec_u64_to_le_bytes(priority.0),
        old(channel).recv().len() >= 8 ==> (r == negotiated(
            priority.0,
            spec_u64_from_le_bytes(old(channel).recv().take(8)),
        ) && final(channel).recv() == old(channel).recv().skip(8)),
        old(channel).recv().len() < 8 ==> (r == SyncResult::<SyncDirection>::Err(
            SyncError::ReadError,
        ) && final(channel).recv() == old(channel).recv()),
{
    let written = push_u64(channel, priority.0);
    if let Err(e) = written {
        return Err(e);
    }
    let peer = match pull_u64(channel) {
        Ok(peer) => peer,
        Err(e) => {
            return Err(e);
        },
    };
    if peer == priority.0 {
        Err(SyncError::EquPrior(priority))
    } else if peer > priority.0 {
        Ok(SyncDirection::Pull)
    } else {
        Ok(SyncDirection::Push)
    }
}

/// Handshake totality: for distinct priorities the negotiation succeeds on
/// both ends, each end gets exactly one of the two directions, and the
/// outcome is antisymmetric — one end pulls exactly when the other pushes.
pub proof fn lemma_negotiation_totality(a: u64, b: u64)
    requires
        a != b,
    ensures
        negotiated(a, b) is Ok && negotiated(b, a) is Ok,
        negotiated(a, b)->Ok_0 is Pull <==> !(negotiated(a, b)->Ok_0 is Push),
        negotiated(a, b)->Ok_0 is Pull <==> negotiated(b, a)->Ok_0 is Push,
{
}

/// Handshake ambiguity: when both sides present identical priorities the
/// negotiation fails with exactly the equal-priority error carrying that
/// priority.
pub proof fn lemma_negotiation_ambiguity(a: u64)
    ensures
        negotiated(a, a) == SyncResult::<SyncDirection>::Err(SyncError::EquPrior(SyncPriority(a))),
{
}

} // verus!
