//! Key material and the cryptographic primitives the packet format is built
//! on: authenticated public-key encryption with anonymous senders
//! ([`encrypt`]) and attached signatures ([`sign`]).
//!
//! Each primitive is performed by libsodium (through the sodiumoxide crate)
//! behind a small trusted boundary; everything layered on top of the
//! primitives is verified against the contracts stated there.

pub mod encrypt;
pub mod sign;
