//! The one extension point: how packets move between nodes.
//!
//! The mesher does not care how bytes travel, and a transport does not care
//! which bytes it carries.  Implementations are external collaborators; the
//! mesher promises nothing about their outcomes and treats every call's
//! result as the transport's own answer.

use crate::fail::MesherFail;
use vstd::prelude::*;

verus! {

/// A way to move raw packet bytes between nodes, registered with a
/// [`Mesher`](crate::mesher::Mesher) under a URL scheme.
///
/// Paths handed to `send` and `listen` always include the `scheme:` prefix.
pub trait Transport {
    /// Creates an instance of this transport for the given scheme.  It
    /// should do as little error-prone work as possible.
    fn new(scheme: &str) -> Result<Self, MesherFail> where Self: Sized;

    /// Delivers bytes to the given path.  The transport must not interpret
    /// the bytes.
    fn send(&mut self, path: String, blob: Vec<u8>) -> Result<(), MesherFail>;

    /// Starts collecting packets addressed to the given path.
    fn listen(&mut self, path: String) -> Result<(), MesherFail>;

    /// Returns and removes every packet collected since the last call,
    /// without blocking.
    fn receive(&mut self) -> Result<Vec<Vec<u8>>, MesherFail>;
}

} // verus!
