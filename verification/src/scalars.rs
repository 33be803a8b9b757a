//! Codec implementations for the fixed-width integer scalars.
//!
//! A scalar is encoded as exactly its width in bytes, little-endian, through
//! an explicit byte-order conversion (never a reinterpretation of native
//! memory). A signed scalar travels as the two's-complement bit pattern of
//! its width. `usize` and `isize` travel as 8 bytes so the format does not
//! depend on the host's pointer width; a decoded value that does not fit the
//! host's `usize`/`isize` is a read failure.

use vstd::bytes::lemma_auto_spec_u16_to_from_le_bytes;
use vstd::bytes::lemma_auto_spec_u32_to_from_le_bytes;
use vstd::bytes::lemma_auto_spec_u64_to_from_le_bytes;
use vstd::bytes::spec_u16_from_le_bytes;
use vstd::bytes::spec_u16_to_le_bytes;
use vstd::bytes::spec_u32_from_le_bytes;
use vstd::bytes::spec_u32_to_le_bytes;
use vstd::bytes::spec_u64_from_le_bytes;
use vstd::bytes::spec_u64_to_le_bytes;
use vstd::bytes::u16_from_le_bytes;
use vstd::bytes::u16_to_le_bytes;
use vstd::bytes::u32_from_le_bytes;
use vstd::bytes::u32_to_le_bytes;
use vstd::bytes::u64_from_le_bytes;
use vstd::bytes::u64_to_le_bytes;
use vstd::prelude::*;

use crate::channel::Channel;
use crate::codec::RemoteObject;
use crate::errors::SyncError;
use crate::errors::SyncResult;

verus! {

impl RemoteObject for u8 {
    open spec fn wire(&self) -> Seq<u8> {
        seq![*self]
    }

    open spec fn wire_fits(&self) -> bool {
        true
    }

    open spec fn decoded(bytes: Seq<u8>) -> Result<(u8, Seq<u8>), SyncError> {
        if bytes.len() >= 1 {
            Ok((bytes[0], bytes.skip(1)))
        } else {
            Err(SyncError::ReadError)
        }
    }

    proof fn lemma_round_trip(&self, rest: Seq<u8>) {
        let bytes = self.wire() + rest;
        assert(bytes[0] == *self);
        assert(bytes.skip(1) =~= rest);
    }

    proof fn lemma_decoded_no_growth(bytes: Seq<u8>) {
    }

    fn push(&self, channel: &mut Channel) -> (r: SyncResult<()>) {
        let mut bytes: Vec<u8> = Vec::new();
        Vec::push(&mut bytes, *self);
        channel.write_all(bytes.as_slice())
    }

    fn pull(&mut self, channel: &mut Channel) -> (r: SyncResult<()>) {
        let bytes = match channel.read_exact(1) {
            Ok(bytes) => bytes,
            Err(e) => {
                return Err(e);
            },
        };
        *self = bytes[0];
        Ok(())
    }
}

impl RemoteObject for u16 {
    open spec fn wire(&self) -> Seq<u8> {
        spec_u16_to_le_bytes(*self)
    }

    open spec fn wire_fits(&self) -> bool {
        true
    }

    open spec fn decoded(bytes: Seq<u8>) -> Result<(u16, Seq<u8>), SyncError> {
        if bytes.len() >= 2 {
            Ok((spec_u16_from_le_bytes(bytes.take(2)), bytes.skip(2)))
        } else {
            Err(SyncError::ReadError)
        }
    }

    proof fn lemma_round_trip(&self, rest: Seq<u8>) {
        lemma_auto_spec_u16_to_from_le_bytes();
        let bytes = self.wire() + rest;
        assert(bytes.take(2) =~= self.wire());
        assert(bytes.skip(2) =~= rest);
    }

    proof fn lemma_decoded_no_growth(bytes: Seq<u8>) {
    }

    fn push(&self, channel: &mut Channel) -> (r: SyncResult<()>) {
        let bytes = u16_to_le_bytes(*self);
        channel.write_all(bytes.as_slice())
    }

    fn pull(&mut self, channel: &mut Channel) -> (r: SyncResult<()>) {
        let bytes = match channel.read_exact(2) {
            Ok(bytes) => bytes,
            Err(e) => {
                return Err(e);
            },
        };
        *self = u16_from_le_bytes(bytes.as_slice());
        Ok(())
    }
}

impl RemoteObject for u32 {
    open spec fn wire(&self) -> Seq<u8> {
        spec_u32_to_le_bytes(*self)
    }

    open spec fn wire_fits(&self) -> bool {
        true
    }

    open spec fn decoded(bytes: Seq<u8>) -> Result<(u32, Seq<u8>), SyncError> {
        if bytes.len() >= 4 {
            Ok((spec_u32_from_le_bytes(bytes.take(4)), bytes.skip(4)))
        } else {
            Err(SyncError::ReadError)
        }
    }

    proof fn lemma_round_trip(&self, rest: Seq<u8>) {
        lemma_auto_spec_u32_to_from_le_bytes();
        let bytes = self.wire() + rest;
        assert(bytes.take(4) =~= self.wire());
        assert(bytes.skip(4) =~= rest);
    }

    proof fn lemma_decoded_no_growth(bytes: Seq<u8>) {
    }

    fn push(&self, channel: &mut Channel) -> (r: SyncResult<()>) {
        let bytes = u32_to_le_bytes(*self);
        channel.write_all(bytes.as_slice())
    }

    fn pull(&mut self, channel: &mut Channel) -> (r: SyncResult<()>) {
        let bytes = match channel.read_exact(4) {
            Ok(bytes) => bytes,
            Err(e) => {
                return Err(e);
            },
        };
        *self = u32_from_le_bytes(bytes.as_slice());
        Ok(())
    }
}

impl RemoteObject for u64 {
    open spec fn wire(&self) -> Seq<u8> {
        spec_u64_to_le_bytes(*self)
    }

    open spec fn wire_fits(&self) -> bool {
        true
    }

    open spec fn decoded(bytes: Seq<u8>) -> Result<(u64, Seq<u8>), SyncError> {
        if bytes.len() >= 8 {
            Ok((spec_u64_from_le_bytes(bytes.take(8)), bytes.skip(8)))
        } else {
            Err(SyncError::ReadError)
        }
    }

    proof fn lemma_round_trip(&self, rest: Seq<u8>) {
        lemma_auto_spec_u64_to_from_le_bytes();
        let bytes = self.wire() + rest;
        assert(bytes.take(8) =~= self.wire());
        assert(bytes.skip(8) =~= rest);
    }

    proof fn lemma_decoded_no_growth(bytes: Seq<u8>) {
    }

    fn push(&self, channel: &mut Channel) -> (r: SyncResult<()>) {
        let bytes = u64_to_le_bytes(*self);
        channel.write_all(bytes.as_slice())
    }

    fn pull(&mut self, channel: &mut Channel) -> (r: SyncResult<()>) {
        let bytes = match channel.read_exact(8) {
            Ok(bytes) => bytes,
            Err(e) => {
                return Err(e);
            },
        };
        *self = u64_from_le_bytes(bytes.as_slice());
        Ok(())
    }
}

impl RemoteObject for i8 {
    open spec fn wire(&self) -> Seq<u8> {
        seq![*self as u8]
    }

    open spec fn wire_fits(&self) -> bool {
        true
    }

    open spec fn decoded(bytes: Seq<u8>) -> Result<(i8, Seq<u8>), SyncError> {
        if bytes.len() >= 1 {
            Ok((bytes[0] as i8, bytes.skip(1)))
        } else {
            Err(SyncError::ReadError)
        }
    }

    proof fn lemma_round_trip(&self, rest: Seq<u8>) {
        let bytes = self.wire() + rest;
        assert(bytes[0] == *self as u8);
        assert((*self as u8) as i8 == *self) by (bit_vector);
        assert(bytes.skip(1) =~= rest);
    }

    proof fn lemma_decoded_no_growth(bytes: Seq<u8>) {
    }

    fn push(&self, channel: &mut Channel) -> (r: SyncResult<()>) {
        let mut bytes: Vec<u8> = Vec::new();
        Vec::push(&mut bytes, *self as u8);
        channel.write_all(bytes.as_slice())
    }

    fn pull(&mut self, channel: &mut Channel) -> (r: SyncResult<()>) {
        let bytes = match channel.read_exact(1) {
            Ok(bytes) => bytes,
            Err(e) => {
                return Err(e);
            },
        };
        *self = bytes[0] as i8;
        Ok(())
    }
}

impl RemoteObject for i16 {
    open spec fn wire(&self) -> Seq<u8> {
        spec_u16_to_le_bytes(*self as u16)
    }

    open spec fn wire_fits(&self) -> bool {
        true
    }

    open spec fn decoded(bytes: Seq<u8>) -> Result<(i16, Seq<u8>), SyncError> {
        if bytes.len() >= 2 {
            Ok((spec_u16_from_le_bytes(bytes.take(2)) as i16, bytes.skip(2)))
        } else {
            Err(SyncError::ReadError)
        }
    }

    proof fn lemma_round_trip(&self, rest: Seq<u8>) {
        lemma_auto_spec_u16_to_from_le_bytes();
        let bytes = self.wire() + rest;
        assert(bytes.take(2) =~= self.wire());
        let v = *self;
        assert((v as u16) as i16 == v) by (bit_vector);
        assert(bytes.skip(2) =~= rest);
    }

    proof fn lemma_decoded_no_growth(bytes: Seq<u8>) {
    }

    fn push(&self, channel: &mut Channel) -> (r: SyncResult<()>) {
        let bytes = u16_to_le_bytes(*self as u16);
        channel.write_all(bytes.as_slice())
    }

    fn pull(&mut self, channel: &mut Channel) -> (r: SyncResult<()>) {
        let bytes = match channel.read_exact(2) {
            Ok(bytes) => bytes,
            Err(e) => {
                return Err(e);
            },
        };
        *self = u16_from_le_bytes(bytes.as_slice()) as i16;
        Ok(())
    }
}

impl RemoteObject for i32 {
    open spec fn wire(&self) -> Seq<u8> {
        spec_u32_to_le_bytes(*self as u32)
    }

    open spec fn wire_fits(&self) -> bool {
        true
    }

    open spec fn decoded(bytes: Seq<u8>) -> Result<(i32, Seq<u8>), SyncError> {
        if bytes.len() >= 4 {
            Ok((spec_u32_from_le_bytes(bytes.take(4)) as i32, bytes.skip(4)))
        } else {
            Err(SyncError::ReadError)
        }
    }

    proof fn lemma_round_trip(&self, rest: Seq<u8>) {
        lemma_auto_spec_u32_to_from_le_bytes();
        let bytes = self.wire() + rest;
        assert(bytes.take(4) =~= self.wire());
        let v = *self;
        assert((v as u32) as i32 == v) by (bit_vector);
        assert(bytes.skip(4) =~= rest);
    }

    proof fn lemma_decoded_no_growth(bytes: Seq<u8>) {
    }

    fn push(&self, channel: &mut Channel) -> (r: SyncResult<()>) {
        let bytes = u32_to_le_bytes(*self as u32);
        channel.write_all(bytes.as_slice())
    }

    fn pull(&mut self, channel: &mut Channel) -> (r: SyncResult<()>) {
        let bytes = match channel.read_exact(4) {
            Ok(bytes) => bytes,
            Err(e) => {
                return Err(e);
            },
        };
        *self = u32_from_le_bytes(bytes.as_slice()) as i32;
        Ok(())
    }
}

impl RemoteObject for usize {
    open spec fn wire(&self) -> Seq<u8> {
        spec_u64_to_le_bytes(*self as u64)
    }

    open spec fn wire_fits(&self) -> bool {
        true
    }

    open spec fn decoded(bytes: Seq<u8>) -> Result<(usize, Seq<u8>), SyncError> {
        if bytes.len() < 8 {
            Err(SyncError::ReadError)
        } else if spec_u64_from_le_bytes(bytes.take(8)) > usize::MAX as u64 {
            Err(SyncError::ReadError)
        } else {
            Ok(((spec_u64_from_le_bytes(bytes.take(8))) as usize, bytes.skip(8)))
        }
    }

    proof fn lemma_round_trip(&self, rest: Seq<u8>) {
        lemma_auto_spec_u64_to_from_le_bytes();
        let bytes = self.wire() + rest;
        assert(bytes.take(8) =~= self.wire());
        assert(bytes.skip(8) =~= rest);
    }

    proof fn lemma_decoded_no_growth(bytes: Seq<u8>) {
    }

    fn push(&self, channel: &mut Channel) -> (r: SyncResult<()>) {
        let bytes = u64_to_le_bytes(*self as u64);
        channel.write_all(bytes.as_slice())
    }

    fn pull(&mut self, channel: &mut Channel) -> (r: SyncResult<()>) {
        let bytes = match channel.read_exact(8) {
            Ok(bytes) => bytes,
            Err(e) => {
                return Err(e);
            },
        };
        let v = u64_from_le_bytes(bytes.as_slice());
        if v > usize::MAX as u64 {
            return Err(SyncError::ReadError);
        }
        *self = v as usize;
        Ok(())
    }
}

impl RemoteObject for isize {
    open spec fn wire(&self) -> Seq<u8> {
        spec_u64_to_le_bytes((*self as i64) as u64)
    }

    open spec fn wire_fits(&self) -> bool {
        true
    }

    open spec fn decoded(bytes: Seq<u8>) -> Result<(isize, Seq<u8>), SyncError> {
        if bytes.len() < 8 {
            Err(SyncError::ReadError)
        } else if (spec_u64_from_le_bytes(bytes.take(8)) as i64) < isize::MIN as i64
            || (spec_u64_from_le_bytes(bytes.take(8)) as i64) > isize::MAX as i64 {
            Err(SyncError::ReadError)
        } else {
            Ok(((spec_u64_from_le_bytes(bytes.take(8)) as i64) as isize, bytes.skip(8)))
        }
    }

    proof fn lemma_round_trip(&self, rest: Seq<u8>) {
        lemma_auto_spec_u64_to_from_le_bytes();
        let bytes = self.wire() + rest;
        assert(bytes.take(8) =~= self.wire());
        let v = *self as i64;
        assert((v as u64) as i64 == v) by (bit_vector);
        assert(bytes.skip(8) =~= rest);
    }

    proof fn lemma_decoded_no_growth(bytes: Seq<u8>) {
    }

    fn push(&self, channel: &mut Channel) -> (r: SyncResult<()>) {
        let bytes = u64_to_le_bytes((*self as i64) as u64);
        channel.write_all(bytes.as_slice())
    }

    fn pull(&mut self, channel: &mut Channel) -> (r: SyncResult<()>) {
        let bytes = match channel.read_exact(8) {
            Ok(bytes) => bytes,
            Err(e) => {
                return Err(e);
            },
        };
        let v = u64_from_le_bytes(bytes.as_slice()) as i64;
        if v < isize::MIN as i64 || v > isize::MAX as i64 {
            return Err(SyncError::ReadError);
        }
        *self = v as isize;
        Ok(())
    }
}

impl RemoteObject for i64 {
    open spec fn wire(&self) -> Seq<u8> {
        spec_u64_to_le_bytes(*self as u64)
    }

    open spec fn wire_fits(&self) -> bool {
        true
    }

    open spec fn decoded(bytes: Seq<u8>) -> Result<(i64, Seq<u8>), SyncError> {
        if bytes.len() >= 8 {
            Ok((spec_u64_from_le_bytes(bytes.take(8)) as i64, bytes.skip(8)))
        } else {
            Err(SyncError::ReadError)
        }
    }

    proof fn lemma_round_trip(&self, rest: Seq<u8>) {
        lemma_auto_spec_u64_to_from_le_bytes();
        let bytes = self.wire() + rest;
        assert(bytes.take(8) =~= self.wire());
        let v = *self;
        assert((v as u64) as i64 == v) by (bit_vector);
        assert(bytes.skip(8) =~= rest);
    }

    proof fn lemma_decoded_no_growth(bytes: Seq<u8>) {
    }

    fn push(&self, channel: &mut Channel) -> (r: SyncResult<()>) {
        let bytes = u64_to_le_bytes(*self as u64);
        channel.write_all(bytes.as_slice())
    }

    fn pull(&mut self, channel: &mut Channel) -> (r: SyncResult<()>) {
        let bytes = match channel.read_exact(8) {
            Ok(bytes) => bytes,
            Err(e) => {
                return Err(e);
            },
        };
        *self = u64_from_le_bytes(bytes.as_slice()) as i64;
        Ok(())
    }
}

} // verus!
