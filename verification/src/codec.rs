//! The per-type codec contract: `push` serializes a value onto the channel,
//! `pull` overwrites a value in place with the bytes read from the channel.
//!
//! Every supported type gives its encoding as a specification function
//! ([`RemoteObject::wire`]) and its decoder as a total specification function
//! over byte sequences ([`RemoteObject::decoded`]); the executable `push` and
//! `pull` are proved to follow them exactly. Decoding is the strict left
//! inverse of encoding ([`RemoteObject::lemma_round_trip`]).

use vstd::bytes::lemma_auto_spec_u64_to_from_le_bytes;
use vstd::bytes::spec_u64_from_le_bytes;
use vstd::bytes::spec_u64_to_le_bytes;
use vstd::bytes::u64_from_le_bytes;
use vstd::bytes::u64_to_le_bytes;
use vstd::prelude::*;

use crate::channel::Channel;
use crate::errors::same_failure;
use crate::errors::SyncError;
use crate::errors::SyncPriority;
use crate::errors::SyncResult;
use crate::handshake::sync_direction;
use crate::handshake::SyncDirection;

verus! {

/// A value that can be serialized to and overwritten from a byte channel.
///
/// Contracts speak of the deep view of a value (`Seq<char>` for a string,
/// `Seq` of element views for a sequence), so that two values are "the same"
/// exactly when their mathematical contents are.
pub trait RemoteObject: Sized + DeepView {
    /// The encoding of this value: little-endian scalars, 8-byte length
    /// prefixes for strings and sequences, fields in declaration order for
    /// composites, a signed discriminant first for enums.
    spec fn wire(&self) -> Seq<u8>;

    /// True when every length prefix inside the encoding of this value fits
    /// in 64 bits. Every value built by executable code satisfies it; it is
    /// the hypothesis of the round-trip law.
    spec fn wire_fits(&self) -> bool;

    /// The decoder, as a total function on byte sequences: the view of the
    /// decoded value and the remaining bytes, or the error. A short input
    /// gives `ReadError`; malformed content gives `Utf8Error` (whose
    /// position field is not specified, see
    /// [`same_failure`](crate::errors::same_failure)).
    spec fn decoded(bytes: Seq<u8>) -> Result<(Self::V, Seq<u8>), SyncError>;

    /// Round trip: decoding is the strict left inverse of encoding. The
    /// encoding of a value, followed by anything, decodes to exactly that
    /// value and leaves exactly the rest.
    proof fn lemma_round_trip(&self, rest: Seq<u8>)
        requires
            self.wire_fits(),
        ensures
            Self::decoded(self.wire() + rest) == Result::<(Self::V, Seq<u8>), SyncError>::Ok(
                (self.deep_view(), rest),
            ),
    ;

    /// Decoding never lengthens the input: what a successful decode leaves
    /// over is at most what it was given.
    proof fn lemma_decoded_no_growth(bytes: Seq<u8>)
        ensures
            Self::decoded(bytes) matches Ok((v, rest)) ==> rest.len() <= bytes.len(),
    ;

    /// Serialize `self` and write its encoding to the channel. The model
    /// channel never fails a write, so `push` is total.
    fn push(&self, channel: &mut Channel) -> (r: SyncResult<()>)
        ensures
            r is Ok,
            final(channel).recv() == old(channel).recv(),
            final(channel).sent() == old(channel).sent() + self.wire(),
            self.wire_fits(),
    ;

    /// Read exactly one encoding from the channel and overwrite `self` in
    /// place. On failure the value must be treated as undefined (fields
    /// already pulled are changed, the rest are not); the error is exactly
    /// the one `decoded` gives, up to the position carried by a decode
    /// failure.
    fn pull(&mut self, channel: &mut Channel) -> (r: SyncResult<()>)
        ensures
            final(channel).sent() == old(channel).sent(),
            r is Ok <==> Self::decoded(old(channel).recv()) is Ok,
            r is Ok ==> Self::decoded(old(channel).recv()) == Result::<
                (Self::V, Seq<u8>),
                SyncError,
            >::Ok((final(self).deep_view(), final(channel).recv())),
            r is Ok ==> final(self).wire_fits(),
            r matches Err(e) ==> (Self::decoded(old(channel).recv()) matches Err(f)
                && same_failure(e, f)),
    ;

    /// One complete synchronization exchange on this peer's end: negotiate
    /// the direction, then pull the peer's value or push this one. The own
    /// priority is always written; a failed handshake aborts without pulling
    /// or pushing, and a push leaves the value untouched.
    fn sync(&mut self, channel: &mut Channel, priority: SyncPriority) -> (r: SyncResult<()>)
        ensures
            old(channel).recv().len() < 8 ==> (r == SyncResult::<()>::Err(SyncError::ReadError)
                && *final(self) == *old(self) && final(channel).sent() == old(channel).sent()
                + spec_u64_to_le_bytes(priority.0) && final(channel).recv() == old(
                channel,
            ).recv()),
            (old(channel).recv().len() >= 8 && spec_u64_from_le_bytes(
                old(channel).recv().take(8),
            ) == priority.0) ==> (r == SyncResult::<()>::Err(SyncError::EquPrior(priority))
                && *final(self) == *old(self) && final(channel).sent() == old(channel).sent()
                + spec_u64_to_le_bytes(priority.0) && final(channel).recv() == old(
                channel,
            ).recv().skip(8)),
            (old(channel).recv().len() >= 8 && spec_u64_from_le_bytes(
                old(channel).recv().take(8),
            ) < priority.0) ==> (r is Ok && *final(self) == *old(self) && old(self).wire_fits()
                && final(channel).sent() == old(channel).sent() + spec_u64_to_le_bytes(priority.0)
                + old(self).wire() && final(channel).recv() == old(channel).recv().skip(8)),
            (old(channel).recv().len() >= 8 && spec_u64_from_le_bytes(
                old(channel).recv().take(8),
            ) > priority.0) ==> (final(channel).sent() == old(channel).sent()
                + spec_u64_to_le_bytes(priority.0) && (r is Ok <==> Self::decoded(
                old(channel).recv().skip(8),
            ) is Ok) && (r is Ok ==> Self::decoded(old(channel).recv().skip(8)) == Result::<
                (Self::V, Seq<u8>),
                SyncError,
            >::Ok((final(self).deep_view(), final(channel).recv())) && final(self).wire_fits())
                && (r matches Err(e) ==> (Self::decoded(old(channel).recv().skip(8)) matches Err(f)
                && same_failure(e, f)))),
    {
        let dir = match sync_direction(channel, priority) {
            Ok(dir) => dir,
            Err(e) => {
                return Err(e);
            },
        };
        match dir {
            SyncDirection::Pull => self.pull(channel),
            SyncDirection::Push => {
                let r = self.push(channel);
                proof {
                    assert(channel.sent() =~= old(channel).sent() + spec_u64_to_le_bytes(
                        priority.0,
                    ) + old(self).wire());
                }
                r
            },
        }
    }
}

/// Round trip, stated for a whole message: for every supported type and
/// every value whose length prefixes fit the wire, decoding the value's
/// encoding yields exactly that value and consumes every byte.
pub proof fn lemma_codec_round_trip<T: RemoteObject>(v: T)
    requires
        v.wire_fits(),
    ensures
        T::decoded(v.wire()) == Result::<(T::V, Seq<u8>), SyncError>::Ok(
            (v.deep_view(), Seq::<u8>::empty()),
        ),
{
    assert(v.wire() + Seq::<u8>::empty() =~= v.wire());
    v.lemma_round_trip(Seq::<u8>::empty());
}

/// Write the 8-byte little-endian encoding of `v` to the channel.
pub fn push_u64(channel: &mut Channel, v: u64) -> (r: SyncResult<()>)
    ensures
        r is Ok,
        final(channel).recv() == old(channel).recv(),
        final(channel).sent() == old(channel).sent() + spec_u64_to_le_bytes(v),
{
    let bytes = u64_to_le_bytes(v);
    channel.write_all(bytes.as_slice())
}

/// Read 8 bytes from the channel and decode them as a little-endian `u64`.
/// Fails with `ReadError`, consuming nothing, when fewer than 8 bytes are
/// available.
pub fn pull_u64(channel: &mut Channel) -> (r: SyncResult<u64>)
    ensures
        final(channel).sent() == old(channel).sent(),
        old(channel).recv().len() >= 8 ==> (r matches Ok(v)
            && v == spec_u64_from_le_bytes(old(channel).recv().take(8))
            && final(channel).recv() == old(channel).recv().skip(8)),
        old(channel).recv().len() < 8 ==> (r == SyncResult::<u64>::Err(SyncError::ReadError)
            && final(channel).recv() == old(channel).recv()),
{
    let bytes = match channel.read_exact(8) {
        Ok(bytes) => bytes,
        Err(e) => {
            return Err(e);
        },
    };
    Ok(u64_from_le_bytes(bytes.as_slice()))
}

} // verus!
