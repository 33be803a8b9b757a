//! Codec implementation for dynamically-sized sequences.
//!
//! A sequence travels as an 8-byte unsigned element count followed by each
//! element's own encoding in order. Pulling resizes the destination to the
//! decoded count — growing or shrinking, discarding any truncated tail —
//! so the receiver never keeps stale trailing elements. Element types must
//! be default-constructible so the decoder can materialize placeholder
//! elements to pull into.

use vstd::bytes::lemma_auto_spec_u64_to_from_le_bytes;
use vstd::bytes::spec_u64_from_le_bytes;
use vstd::bytes::spec_u64_to_le_bytes;
use vstd::prelude::*;

use crate::channel::Channel;
use crate::codec::pull_u64;
use crate::codec::push_u64;
use crate::codec::RemoteObject;
use crate::errors::same_failure;
use crate::errors::SyncError;
use crate::errors::SyncResult;

verus! {

/// The concatenation of the encodings of the elements of `s`, in order.
pub open spec fn wire_elems<T: RemoteObject>(s: Seq<T>) -> Seq<u8>
    decreases s.len(),
{
    if s.len() == 0 {
        Seq::empty()
    } else {
        s[0].wire() + wire_elems(s.drop_first())
    }
}

/// Decode exactly `count` consecutive element encodings from `bytes`,
/// propagating the first element's failure.
pub open spec fn decoded_elems<T: RemoteObject>(bytes: Seq<u8>, count: nat) -> Result<
    (Seq<T::V>, Seq<u8>),
    SyncError,
>
    decreases count,
{
    if count == 0 {
        Ok((Seq::empty(), bytes))
    } else {
        match T::decoded(bytes) {
            Ok((v, rest)) => match decoded_elems::<T>(rest, (count - 1) as nat) {
                Ok((vs, tail)) => Ok((seq![v] + vs, tail)),
                Err(e) => Err(e),
            },
            Err(e) => Err(e),
        }
    }
}

/// Encoding distributes over concatenation of element sequences.
pub proof fn lemma_wire_elems_concat<T: RemoteObject>(a: Seq<T>, b: Seq<T>)
    ensures
        wire_elems(a + b) == wire_elems(a) + wire_elems(b),
    decreases a.len(),
{
    if a.len() == 0 {
        assert(a + b =~= b);
        assert(wire_elems(a) + wire_elems(b) =~= wire_elems(b));
    } else {
        assert((a + b).drop_first() =~= a.drop_first() + b);
        lemma_wire_elems_concat(a.drop_first(), b);
        assert(wire_elems(a + b) =~= wire_elems(a) + wire_elems(b));
    }
}

/// The encoding of a one-element sequence is that element's encoding.
pub proof fn lemma_wire_elems_singleton<T: RemoteObject>(t: T)
    ensures
        wire_elems(seq![t]) == t.wire(),
{
    assert(seq![t].drop_first() =~= Seq::<T>::empty());
    assert(wire_elems(Seq::<T>::empty()) =~= Seq::<u8>::empty());
    assert(wire_elems(seq![t]) =~= t.wire());
}

/// Decoding `count` elements never lengthens the remainder, and yields
/// exactly `count` element views.
pub proof fn lemma_decoded_elems_no_growth<T: RemoteObject>(bytes: Seq<u8>, count: nat)
    ensures
        decoded_elems::<T>(bytes, count) matches Ok((vs, rest)) ==> (rest.len() <= bytes.len()
            && vs.len() == count),
    decreases count,
{
    if count != 0 {
        match T::decoded(bytes) {
            Ok((v, rest)) => {
                T::lemma_decoded_no_growth(bytes);
                lemma_decoded_elems_no_growth::<T>(rest, (count - 1) as nat);
            },
            Err(_) => {},
        }
    }
}

/// Round trip for the element portion: the concatenated encodings of `s`,
/// followed by anything, decode to exactly the views of `s`.
pub proof fn lemma_elems_round_trip<T: RemoteObject>(s: Seq<T>, rest: Seq<u8>)
    requires
        forall|i: int| 0 <= i < s.len() ==> s[i].wire_fits(),
    ensures
        decoded_elems::<T>(wire_elems(s) + rest, s.len()) == Result::<
            (Seq<T::V>, Seq<u8>),
            SyncError,
        >::Ok((s.map_values(|t: T| t.deep_view()), rest)),
    decreases s.len(),
{
    if s.len() == 0 {
        assert(wire_elems(s) + rest =~= rest);
        assert(s.map_values(|t: T| t.deep_view()) =~= Seq::<T::V>::empty());
    } else {
        let head = s[0];
        let tail = s.drop_first();
        assert(wire_elems(s) + rest =~= head.wire() + (wire_elems(tail) + rest));
        head.lemma_round_trip(wire_elems(tail) + rest);
        lemma_elems_round_trip(tail, rest);
        assert(s.map_values(|t: T| t.deep_view()) =~= seq![head.deep_view()] + tail.map_values(
            |t: T| t.deep_view(),
        ));
    }
}

impl<T: RemoteObject + Default> RemoteObject for Vec<T> {
    open spec fn wire(&self) -> Seq<u8> {
        spec_u64_to_le_bytes(self@.len() as u64) + wire_elems(self@)
    }

    open spec fn wire_fits(&self) -> bool {
        self@.len() <= u64::MAX && forall|i: int| 0 <= i < self@.len() ==> self@[i].wire_fits()
    }

    open spec fn decoded(bytes: Seq<u8>) -> Result<(Seq<T::V>, Seq<u8>), SyncError> {
        if bytes.len() < 8 {
            Err(SyncError::ReadError)
        } else {
            decoded_elems::<T>(bytes.skip(8), spec_u64_from_le_bytes(bytes.take(8)) as nat)
        }
    }

    proof fn lemma_round_trip(&self, rest: Seq<u8>) {
        lemma_auto_spec_u64_to_from_le_bytes();
        let bytes = self.wire() + rest;
        assert(bytes.take(8) =~= spec_u64_to_le_bytes(self@.len() as u64));
        assert(bytes.skip(8) =~= wire_elems(self@) + rest);
        lemma_elems_round_trip(self@, rest);
        assert(self.deep_view() =~= self@.map_values(|t: T| t.deep_view()));
    }

    proof fn lemma_decoded_no_growth(bytes: Seq<u8>) {
        if bytes.len() >= 8 {
            lemma_decoded_elems_no_growth::<T>(
                bytes.skip(8),
                spec_u64_from_le_bytes(bytes.take(8)) as nat,
            );
        }
    }

    fn push(&self, channel: &mut Channel) -> (r: SyncResult<()>) {
        let written = push_u64(channel, self.len() as u64);
        if let Err(e) = written {
            return Err(e);
        }
        let mut i: usize = 0;
        while i < self.len()
            invariant
                i <= self@.len(),
                channel.recv() == old(channel).recv(),
                channel.sent() == old(channel).sent() + spec_u64_to_le_bytes(self@.len() as u64)
                    + wire_elems(self@.take(i as int)),
                forall|j: int| 0 <= j < i ==> self@[j].wire_fits(),
            decreases self@.len() - i,
        {
            let pushed = self[i].push(channel);
            if let Err(e) = pushed {
                return Err(e);
            }
            proof {
                assert(self@.take(i + 1) =~= self@.take(i as int) + seq![self@[i as int]]);
                lemma_wire_elems_concat(self@.take(i as int), seq![self@[i as int]]);
                lemma_wire_elems_singleton(self@[i as int]);
                assert(channel.sent() =~= old(channel).sent() + spec_u64_to_le_bytes(
                    self@.len() as u64,
                ) + wire_elems(self@.take(i + 1)));
            }
            i = i + 1;
        }
        proof {
            assert(self@.take(self@.len() as int) =~= self@);
            assert(channel.sent() =~= old(channel).sent() + self.wire());
        }
        Ok(())
    }

    #[verifier::loop_isolation(false)]
    fn pull(&mut self, channel: &mut Channel) -> (r: SyncResult<()>) {
        let count = match pull_u64(channel) {
            Ok(count) => count,
            Err(e) => {
                return Err(e);
            },
        };
        self.clear();
        let ghost body = old(channel).recv().skip(8);
        let mut pulled: u64 = 0;
        while pulled < count
            invariant
                pulled <= count,
                channel.sent() == old(channel).sent(),
                self.deep_view().len() == pulled,
                forall|j: int| 0 <= j < self@.len() ==> self@[j].wire_fits(),
                decoded_elems::<T>(body, count as nat) == (match decoded_elems::<T>(
                    channel.recv(),
                    (count - pulled) as nat,
                ) {
                    Ok((vs, tail)) => Ok((self.deep_view() + vs, tail)),
                    Err(e) => Err::<(Seq<T::V>, Seq<u8>), SyncError>(e),
                }),
            decreases count - pulled,
        {
            let ghost dv = self.deep_view();
            let ghost before = channel.recv();
            let ghost left = (count - pulled) as nat;
            let mut item: T = T::default();
            let got = item.pull(channel);
            proof {
                assert(left != 0);
                assert(decoded_elems::<T>(before, left) == (match T::decoded(before) {
                    Ok((v, rest)) => match decoded_elems::<T>(rest, (left - 1) as nat) {
                        Ok((vs, tail)) => Ok((seq![v] + vs, tail)),
                        Err(e2) => Err::<(Seq<T::V>, Seq<u8>), SyncError>(e2),
                    },
                    Err(e2) => Err::<(Seq<T::V>, Seq<u8>), SyncError>(e2),
                }));
            }
            if let Err(e) = got {
                proof {
                    assert(decoded_elems::<T>(before, left) matches Err(f) && same_failure(e, f));
                }
                return Err(e);
            }
            Vec::push(self, item);
            proof {
                assert(self.deep_view() =~= dv + seq![item.deep_view()]);
                let de = decoded_elems::<T>(channel.recv(), (left - 1) as nat);
                if de is Ok {
                    let vs2 = de->Ok_0.0;
                    assert(dv + (seq![item.deep_view()] + vs2) =~= (dv + seq![
                        item.deep_view(),
                    ]) + vs2);
                }
            }
            pulled = pulled + 1;
        }
        proof {
            assert(self.deep_view() + Seq::<T::V>::empty() =~= self.deep_view());
        }
        Ok(())
    }
}

} // verus!
