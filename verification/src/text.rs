//! Codec implementation for strings.
//!
//! A string travels as an 8-byte unsigned length prefix (the byte count of
//! its UTF-8 encoding) followed by that many UTF-8 bytes. A payload that is
//! not valid UTF-8 is a decode failure carrying the validator's position.

use vstd::bytes::lemma_auto_spec_u64_to_from_le_bytes;
use vstd::bytes::spec_u64_from_le_bytes;
use vstd::bytes::spec_u64_to_le_bytes;
use vstd::prelude::*;
use vstd::utf8::decode_utf8;
use vstd::utf8::decode_utf8_encode_utf8;
use vstd::utf8::encode_utf8;
use vstd::utf8::encode_utf8_decode_utf8;
use vstd::utf8::encode_utf8_valid_utf8;
use vstd::utf8::valid_utf8;

use crate::channel::Channel;
use crate::codec::pull_u64;
use crate::codec::push_u64;
use crate::codec::RemoteObject;
use crate::errors::SyncError;
use crate::errors::SyncResult;

verus! {

/// Relies on `String::from_utf8`: it returns `Ok` exactly when the bytes are
/// a valid UTF-8 encoding, and the returned string holds exactly the
/// characters those bytes encode; on failure, the error's `valid_up_to`
/// gives how many leading bytes were valid, which is at most the input
/// length.
#[verifier::external_body]
fn string_from_utf8(bytes: Vec<u8>) -> (r: Result<String, usize>)
    ensures
        r is Ok <==> valid_utf8(bytes@),
        r matches Ok(s) ==> s@ == decode_utf8(bytes@),
        r matches Err(pos) ==> pos <= bytes@.len(),
{
    match String::from_utf8(bytes) {
        Ok(s) => Ok(s),
        Err(e) => Err(e.utf8_error().valid_up_to()),
    }
}

impl RemoteObject for String {
    open spec fn wire(&self) -> Seq<u8> {
        spec_u64_to_le_bytes(encode_utf8(self@).len() as u64) + encode_utf8(self@)
    }

    open spec fn wire_fits(&self) -> bool {
        encode_utf8(self@).len() <= u64::MAX
    }

    open spec fn decoded(bytes: Seq<u8>) -> Result<(Seq<char>, Seq<u8>), SyncError> {
        if bytes.len() < 8 {
            Err(SyncError::ReadError)
        } else {
            let count = spec_u64_from_le_bytes(bytes.take(8)) as int;
            let body = bytes.skip(8);
            if count > body.len() {
                Err(SyncError::ReadError)
            } else if valid_utf8(body.take(count)) {
                Ok((decode_utf8(body.take(count)), body.skip(count)))
            } else {
                Err(SyncError::Utf8Error(0))
            }
        }
    }

    proof fn lemma_round_trip(&self, rest: Seq<u8>) {
        lemma_auto_spec_u64_to_from_le_bytes();
        let payload = encode_utf8(self@);
        let prefix = spec_u64_to_le_bytes(payload.len() as u64);
        let bytes = self.wire() + rest;
        assert(bytes.take(8) =~= prefix);
        let body = bytes.skip(8);
        assert(body =~= payload + rest);
        assert(body.take(payload.len() as int) =~= payload);
        assert(body.skip(payload.len() as int) =~= rest);
        encode_utf8_valid_utf8(self@);
        encode_utf8_decode_utf8(self@);
    }

    proof fn lemma_decoded_no_growth(bytes: Seq<u8>) {
    }

    fn push(&self, channel: &mut Channel) -> (r: SyncResult<()>) {
        let payload = self.as_str().as_bytes();
        let written = push_u64(channel, payload.len() as u64);
        if let Err(e) = written {
            return Err(e);
        }
        let r = channel.write_all(payload);
        proof {
            assert(channel.sent() =~= old(channel).sent() + self.wire());
        }
        r
    }

    fn pull(&mut self, channel: &mut Channel) -> (r: SyncResult<()>) {
        let count = match pull_u64(channel) {
            Ok(count) => count,
            Err(e) => {
                return Err(e);
            },
        };
        let available: usize = channel.incoming.len();
        if count > available as u64 {
            return Err(SyncError::ReadError);
        }
        let payload = match channel.read_exact(count as usize) {
            Ok(payload) => payload,
            Err(e) => {
                return Err(e);
            },
        };
        match string_from_utf8(payload) {
            Ok(s) => {
                proof {
                    decode_utf8_encode_utf8(old(channel).recv().skip(8).take(count as int));
                }
                *self = s;
                Ok(())
            },
            Err(pos) => Err(SyncError::Utf8Error(pos)),
        }
    }
}

} // verus!
