//! Buffered, message-oriented socket state for stream and datagram transports.
//!
//! The library keeps everything a socket decides on its own: the priority queue of outgoing
//! messages with expiration, length-delimited framing of a byte stream, the encryption contexts
//! that choose how a frame is sealed, and the read and write state machines of the TCP and UDP
//! sockets. The transports themselves (the system sockets, the event loop) drive these state
//! machines from outside and hand them plain events.

use vstd::prelude::*;

pub mod buf;
pub mod clock;
pub mod crypto;
pub mod error;
pub mod framing;
pub mod out_queue;
pub mod serialisation;
pub mod tcp;
pub mod udp;

pub use crate::crypto::{DecryptContext, EncryptContext, PublicEncryptKey, SecretEncryptKey, SharedSecretKey};
pub use crate::error::{CryptoError, IoError, IoErrorKind, SocketError, UdtError};


verus! {

/// Priority of a message to be sent. A lower value means a higher priority, so priority 0 is the
/// highest one. Messages with a value `>= msg_drop_priority` may be dropped when they wait too
/// long.
pub type Priority = u8;

/// Don't allow packets bigger than this value.
pub const DEFAULT_MAX_PAYLOAD_SIZE: usize = 2097152;

/// Minimum priority for droppable messages. Messages with lower values will never be dropped.
pub const DEFAULT_MSG_DROP_PRIORITY: u8 = 2;

/// Maximum age of a message waiting to be sent. If a message is older, the queue is dropped.
pub const DEFAULT_MAX_MSG_AGE_SECS: u64 = 60;

/// Configures socket behavior.
#[derive(Clone, Copy, Debug)]
pub struct SocketConfig {
    /// Maximum data size that the socket will send or accept in one frame.
    pub max_payload_size: usize,
    /// Minimum priority for droppable messages. Messages with lower values will never be dropped.
    pub msg_drop_priority: u8,
    /// Maximum age of a message waiting to be sent. If a message is older, the queue is dropped.
    pub max_msg_age_secs: u64,
    /// How outgoing data is encrypted.
    pub enc_ctx: EncryptContext,
    /// How incoming data is decrypted.
    pub dec_ctx: DecryptContext,
}

impl SocketConfig {
    /// The configuration every socket starts with unless told otherwise.
    pub open spec fn spec_default() -> SocketConfig {
        SocketConfig {
            max_payload_size: DEFAULT_MAX_PAYLOAD_SIZE,
            msg_drop_priority: DEFAULT_MSG_DROP_PRIORITY,
            max_msg_age_secs: DEFAULT_MAX_MSG_AGE_SECS,
            enc_ctx: EncryptContext::Null,
            dec_ctx: DecryptContext::Null,
        }
    }
}

impl Default for SocketConfig {
    fn default() -> (r: Self)
        ensures
            r == SocketConfig::spec_default(),
    {
        SocketConfig {
            max_payload_size: DEFAULT_MAX_PAYLOAD_SIZE,
            msg_drop_priority: DEFAULT_MSG_DROP_PRIORITY,
            max_msg_age_secs: DEFAULT_MAX_MSG_AGE_SECS,
            enc_ctx: EncryptContext::null(),
            dec_ctx: DecryptContext::null(),
        }
    }
}

/// `Result` type specialised for this crate.
pub type Res<T> = Result<T, SocketError>;

} // verus!
