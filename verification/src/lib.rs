//! Point-to-point synchronization of shared state over a duplex byte channel.
//!
//! Two peers each hold a copy of one logical value. A handshake exchanges
//! 64-bit priorities to decide which copy wins; the winner serializes its
//! value (little-endian wire codec) and the loser overwrites its own copy
//! with the decoded bytes. See [`RemoteObject`] for the codec contract and
//! [`sync_direction`] for the handshake.


pub mod arrays;
pub mod channel;
pub mod codec;
pub mod composite;
pub mod errors;
pub mod handshake;
pub mod scalars;
pub mod sequences;
pub mod session;
pub mod text;

pub use channel::Channel;
pub use codec::RemoteObject;
pub use errors::SyncError;
pub use errors::SyncPriority;
pub use errors::SyncResult;
pub use handshake::sync_direction;
pub use handshake::SyncDirection;
