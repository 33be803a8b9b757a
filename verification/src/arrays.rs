//! Codec implementation for fixed-size arrays.
//!
//! An array whose length is known at compile time travels as its elements'
//! encodings back to back, with no length prefix: both ends already know the
//! count from the type.

use vstd::prelude::*;

use crate::channel::Channel;
use crate::codec::RemoteObject;
use crate::errors::SyncError;
use crate::errors::SyncResult;
use crate::sequences::decoded_elems;
use crate::sequences::lemma_elems_round_trip;
use crate::sequences::wire_elems;

verus! {

impl<T: RemoteObject + Default, const N: usize> RemoteObject for [T; N] {
    open spec fn wire(&self) -> Seq<u8> {
        wire_elems(self@)
    }

    open spec fn wire_fits(&self) -> bool {
        forall|i: int| 0 <= i < N ==> self@[i].wire_fits()
    }

    open spec fn decoded(bytes: Seq<u8>) -> Result<(Seq<T::V>, Seq<u8>), SyncError> {
        decoded_elems::<T>(bytes, N as nat)
    }

    proof fn lemma_round_trip(&self, rest: Seq<u8>) {
        lemma_elems_round_trip(self@, rest);
        assert(self.deep_view() =~= self@.map_values(|t: T| t.deep_view()));
    }

    proof fn lemma_decoded_no_growth(bytes: Seq<u8>) {
        crate::sequences::lemma_decoded_elems_no_growth::<T>(bytes, N as nat);
    }

    fn push(&self, channel: &mut Channel) -> (r: SyncResult<()>) {
        let mut i: usize = 0;
        while i < N
            invariant
                i <= N,
                channel.recv() == old(channel).recv(),
                channel.sent() == old(channel).sent() + wire_elems(self@.take(i as int)),
                forall|j: int| 0 <= j < i ==> self@[j].wire_fits(),
            decreases N - i,
        {
            let pushed = self[i].push(channel);
            if let Err(e) = pushed {
                return Err(e);
            }
            proof {
                assert(self@.take(i + 1) =~= self@.take(i as int) + seq![self@[i as int]]);
                crate::sequences::lemma_wire_elems_concat(
                    self@.take(i as int),
                    seq![self@[i as int]],
                );
                crate::sequences::lemma_wire_elems_singleton(self@[i as int]);
                assert(channel.sent() =~= old(channel).sent() + wire_elems(self@.take(i + 1)));
            }
            i = i + 1;
        }
        proof {
            assert(self@.take(N as int) =~= self@);
        }
        Ok(())
    }

    #[verifier::loop_isolation(false)]
    fn pull(&mut self, channel: &mut Channel) -> (r: SyncResult<()>) {
        let ghost body = old(channel).recv();
        let mut i: usize = 0;
        while i < N
            invariant
                i <= N,
                channel.sent() == old(channel).sent(),
                self@.len() == N,
                forall|j: int| 0 <= j < i ==> self@[j].wire_fits(),
                decoded_elems::<T>(body, N as nat) == (match decoded_elems::<T>(
                    channel.recv(),
                    (N - i) as nat,
                ) {
                    Ok((vs, tail)) => Ok((self.deep_view().take(i as int) + vs, tail)),
                    Err(e) => Err::<(Seq<T::V>, Seq<u8>), SyncError>(e),
                }),
            decreases N - i,
        {
            let ghost dv = self.deep_view();
            let ghost before = channel.recv();
            let ghost left = (N - i) as nat;
            let mut item: T = T::default();
            let got = item.pull(channel);
            proof {
                assert(left != 0);
                assert(decoded_elems::<T>(before, left) == (match T::decoded(before) {
                    Ok((v, rest)) => match decoded_elems::<T>(rest, (left - 1) as nat) {
                        Ok((vs, tail)) => Ok((seq![v] + vs, tail)),
                        Err(e2) => Err::<(Seq<T::V>, Seq<u8>), SyncError>(e2),
                    },
                    Err(e2) => Err::<(Seq<T::V>, Seq<u8>), SyncError>(e2),
                }));
            }
            if let Err(e) = got {
                return Err(e);
            }
            self[i] = item;
            proof {
                assert(self.deep_view().take(i + 1) =~= dv.take(i as int) + seq![
                    item.deep_view(),
                ]);
                let de = decoded_elems::<T>(channel.recv(), (left - 1) as nat);
                if de is Ok {
                    let vs2 = de->Ok_0.0;
                    assert(dv.take(i as int) + (seq![item.deep_view()] + vs2) =~= (dv.take(
                        i as int,
                    ) + seq![item.deep_view()]) + vs2);
                }
            }
            i = i + 1;
        }
        proof {
            assert(self.deep_view().take(N as int) =~= self.deep_view());
            assert(self.deep_view() + Seq::<T::V>::empty() =~= self.deep_view());
        }
        Ok(())
    }
}

} // verus!
