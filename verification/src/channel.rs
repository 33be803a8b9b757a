//! An in-memory model of one end of a duplex byte channel.
//!
//! The protocol core is synchronous, blocking I/O against a caller-supplied
//! channel: "read exactly N bytes" and "write all N bytes". This type models
//! one peer's view of such a channel as two byte buffers: `incoming` holds
//! the bytes the peer may still read, `outgoing` accumulates every byte the
//! peer has written. A transport adapter moves bytes between a real stream
//! and these buffers; the codec and the handshake are verified against this
//! model alone.

use vstd::prelude::*;

use crate::errors::SyncError;
use crate::errors::SyncResult;

verus! {

/// One peer's end of a duplex byte channel.
pub struct Channel {
    /// Bytes available to be read, in arrival order; reading consumes from
    /// the front.
    pub incoming: Vec<u8>,
    /// Every byte written so far, oldest first.
    pub outgoing: Vec<u8>,
}

impl Channel {
    /// The bytes still unread.
    pub open spec fn recv(&self) -> Seq<u8> {
        self.incoming@
    }

    /// The bytes written so far.
    pub open spec fn sent(&self) -> Seq<u8> {
        self.outgoing@
    }

    /// A channel with nothing to read and nothing written.
    pub fn empty() -> (c: Channel)
        ensures
            c.recv() == Seq::<u8>::empty(),
            c.sent() == Seq::<u8>::empty(),
    {
        Channel { incoming: Vec::new(), outgoing: Vec::new() }
    }

    /// A channel whose read side holds exactly `bytes`.
    pub fn with_incoming(bytes: Vec<u8>) -> (c: Channel)
        ensures
            c.recv() == bytes@,
            c.sent() == Seq::<u8>::empty(),
    {
        Channel { incoming: bytes, outgoing: Vec::new() }
    }

    /// Read exactly `n` bytes, or fail with [`SyncError::ReadError`] when
    /// fewer are available; a short read consumes nothing.
    pub fn read_exact(&mut self, n: usize) -> (r: SyncResult<Vec<u8>>)
        ensures
            final(self).sent() == old(self).sent(),
            n <= old(self).recv().len() ==> (r matches Ok(taken)
                && taken@ == old(self).recv().take(n as int)
                && final(self).recv() == old(self).recv().skip(n as int)),
            n > old(self).recv().len() ==> (r == SyncResult::<Vec<u8>>::Err(SyncError::ReadError)
                && final(self).recv() == old(self).recv()),
    {
        if n > self.incoming.len() {
            return Err(SyncError::ReadError);
        }
        let tail = self.incoming.split_off(n);
        let mut head = tail;
        core::mem::swap(&mut self.incoming, &mut head);
        Ok(head)
    }

    /// Write all of `bytes`; the model channel never fails a write.
    pub fn write_all(&mut self, bytes: &[u8]) -> (r: SyncResult<()>)
        ensures
            r is Ok,
            final(self).recv() == old(self).recv(),
            final(self).sent() == old(self).sent() + bytes@,
    {
        self.outgoing.extend_from_slice(bytes);
        Ok(())
    }
}

} // verus!
