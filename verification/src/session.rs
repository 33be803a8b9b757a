//! A complete synchronization round between two in-memory peers.
//!
//! Each peer first writes everything its side of the round sends (its
//! priority, then its value when it wins the handshake), then reads what the
//! other sent — the order both ends must follow on a real transport. Running
//! the round sequentially on two model channels proves winner propagation:
//! with distinct priorities both ends finish holding the value the
//! higher-priority side held before the round.

use vstd::bytes::lemma_auto_spec_u64_to_from_le_bytes;
use vstd::bytes::spec_u64_to_le_bytes;
use vstd::prelude::*;

use crate::channel::Channel;
use crate::codec::push_u64;
use crate::codec::RemoteObject;
use crate::errors::SyncError;
use crate::errors::SyncPriority;
use crate::errors::SyncResult;

verus! {

/// Run one synchronization round between two peers holding `v1` and `v2`
/// with priorities `p1` and `p2`, over a pair of in-memory channels wired
/// back to back.
///
/// Winner propagation: with distinct priorities both calls succeed and both
/// ends finish holding (the mathematical contents of) the value that the
/// higher-priority side held before the round. With equal priorities both
/// ends fail with the equal-priority error and neither value changes.
pub fn sync_pair<T: RemoteObject>(
    v1: &mut T,
    p1: SyncPriority,
    v2: &mut T,
    p2: SyncPriority,
) -> (r: (SyncResult<()>, SyncResult<()>))
    ensures
        p1.0 == p2.0 ==> (r.0 == SyncResult::<()>::Err(SyncError::EquPrior(p1)) && r.1
            == SyncResult::<()>::Err(SyncError::EquPrior(p2)) && *final(v1) == *old(v1)
            && *final(v2) == *old(v2)),
        p1.0 != p2.0 ==> (r.0 is Ok && r.1 is Ok),
        p1.0 != p2.0 ==> final(v1).deep_view() == (if p1.0 > p2.0 {
            old(v1).deep_view()
        } else {
            old(v2).deep_view()
        }),
        p1.0 != p2.0 ==> final(v2).deep_view() == (if p1.0 > p2.0 {
            old(v1).deep_view()
        } else {
            old(v2).deep_view()
        }),
{
    proof {
        lemma_auto_spec_u64_to_from_le_bytes();
    }
    // Everything peer 2 sends in this round: its priority, then its value
    // when its priority wins.
    let mut to_peer1 = Channel::empty();
    let _written = push_u64(&mut to_peer1, p2.0);
    if p2.0 > p1.0 {
        let _pushed = v2.push(&mut to_peer1);
    }
    let mut ch1 = Channel::with_incoming(to_peer1.outgoing);
    proof {
        assert(ch1.recv().take(8) =~= spec_u64_to_le_bytes(p2.0));
        if p2.0 > p1.0 {
            assert(ch1.recv().skip(8) =~= v2.wire());
            assert(v2.wire() + Seq::<u8>::empty() =~= v2.wire());
            v2.lemma_round_trip(Seq::<u8>::empty());
        } else {
            assert(ch1.recv().skip(8) =~= Seq::<u8>::empty());
        }
    }
    let r1 = v1.sync(&mut ch1, p1);
    // Peer 1 has now written its own side of the round; hand it to peer 2.
    let ghost v1_start = *old(v1);
    let mut ch2 = Channel::with_incoming(ch1.outgoing);
    proof {
        assert(ch2.recv().take(8) =~= spec_u64_to_le_bytes(p1.0));
        if p1.0 > p2.0 {
            assert(ch2.recv().skip(8) =~= v1_start.wire());
            assert(v1_start.wire() + Seq::<u8>::empty() =~= v1_start.wire());
            v1_start.lemma_round_trip(Seq::<u8>::empty());
        } else {
            assert(ch2.recv().skip(8) =~= Seq::<u8>::empty());
        }
    }
    let r2 = v2.sync(&mut ch2, p2);
    (r1, r2)
}

} // verus!

