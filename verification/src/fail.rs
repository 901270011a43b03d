//! The error type shared by packet parsing, the mesher, and transports.

use vstd::prelude::*;

verus! {

/// Every way a mesher or one of its transports can fail.
///
/// Per-chunk problems (a chunk that does not verify, decrypt, or decode) are
/// never reported through this type: every node sees chunks that are not
/// meant for it, and reporting them would leak which chunks failed.
#[derive(Debug)]
pub enum MesherFail {
    /// At least one secret key was needed but none is configured.
    NoKeys,
    /// Incoming bytes could not be decoded as a packet at all.
    InvalidPacket,
    /// The URL has no scheme: nothing before the first colon, or no colon.
    InvalidURL(String),
    /// The URL names a scheme no transport was registered for.
    UnregisteredScheme(String),
    /// A transport could not be constructed.
    SetupFailure(String),
    /// A transport could not send a packet.
    SendFailure(String),
    /// A transport could not start listening on a path.
    ListenFailure(String),
    /// A transport could not collect its pending packets.
    ReceiveFailure(String),
    /// A reply was requested for a message that carries no reply path.
    NoReplyRoute,
    /// Any other failure, described in words.
    Other(String),
}

} // verus!
