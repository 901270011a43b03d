//! An anonymity-preserving overlay for delivering opaque byte payloads
//! across a mesh of nodes.
//!
//! A sender builds a [`Packet`]: a main block of chunks, each encrypted to
//! the public key of the one node meant to act on it, plus up to 255 reply
//! blocks a recipient can use to answer along a sender-chosen path.  A
//! [`Mesher`] owns a node's keys and transports: it serializes and launches
//! packets, and on receive decrypts what is addressed to it, emits
//! [`Message`]s to the caller, and forwards the unchanged packet bytes
//! wherever a transport chunk directs.
//!
//! Transports (TCP, in-memory queues, ...) are external collaborators behind
//! the [`Transport`] trait; [`debug_transports`] holds in-process ones.

use vstd::prelude::*;

pub use crate::chunk::Chunk;
pub use crate::mesher::{Mesher, Message};
pub use crate::packet::{Packet, ReplyPathHandle};
pub use crate::transport::Transport;

pub mod chunk;
pub mod debug_transports;
pub mod crypto;
pub mod fail;
pub mod laws;
pub mod mesher;
pub mod packet;
pub mod transport;
pub mod wire;

verus! {

/// Reply blocks per packet are capped so that a one-byte reference
/// (offset by one, with zero meaning "no reply") can always name one.
pub const MAX_REPLY_BLOCKS: usize = 255;

} // verus!
