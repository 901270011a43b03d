//! Attached signatures over chunk ciphertexts.
//!
//! In signed mode every chunk on the wire is `signature ++ ciphertext`, and a
//! receiver verifies the signature against its accepted signer keys before it
//! even tries to decrypt.
//!
//! [`sign_public_of`], [`seed_secret_of`] and [`verify_of`] name what
//! libsodium computes deterministically: the public key read off a signing
//! secret key, the key pair derived from a seed, and the outcome of
//! verifying a signed message against a public key.  The trusted signing
//! wrapper states, of each signed message it returns, that it verifies
//! under the signer's public key and under no other: that is the
//! unforgeability of the signature scheme.
//!
//! A signing secret key holds the seed it was derived from in its first
//! half and the matching public key in its second; signing uses the first
//! half, while [`sign_public_of`] reads the second.  The signing wrapper's
//! contract is therefore true only of keys whose halves agree — which is
//! every key libsodium derives, and the only kind this module constructs:
//! keys are generated, or derived from a seed, never assembled from loose
//! bytes ([`derived_key`]).

use crate::crypto::encrypt::sodium_init;
use vstd::prelude::*;

verus! {

/// Length in bytes of a signing public key.
pub const PUBLIC_KEY_BYTES: usize = 32;

/// Length in bytes of a signing secret key.
pub const SECRET_KEY_BYTES: usize = 64;

/// Length in bytes of the seed a signing key pair is derived from.
pub const SEED_BYTES: usize = 32;

/// The public key that libsodium derives from the given signing secret key
/// bytes (`sign::SecretKey::public_key`, deterministic).
pub uninterp spec fn sign_public_of(sk: Seq<u8>) -> Seq<u8>;

/// The outcome of verifying signed message `sm` against public key `pk`
/// (`sign::verify`, deterministic in its arguments): the embedded message on
/// success, nothing on failure.
pub uninterp spec fn verify_of(sm: Seq<u8>, pk: Seq<u8>) -> Option<Seq<u8>>;

/// The signing secret key that libsodium derives from a 32-byte seed
/// (`sign::keypair_from_seed`, deterministic).
pub uninterp spec fn seed_secret_of(seed: Seq<u8>) -> Seq<u8>;

/// A signing secret key in the form libsodium constructs them: derived from
/// some seed, so that the public key embedded in its second half matches
/// the signing scalar expanded from its first.  Only for such keys does a
/// signature verify under [`sign_public_of`] the key.
pub open spec fn derived_key(sk: Seq<u8>) -> bool {
    exists|seed: Seq<u8>| seed.len() == SEED_BYTES && sk == #[trigger] seed_secret_of(seed)
}

/// Signed message `sm` carries `inner` under the signing secret key `sk`:
/// verification against the matching public key recovers exactly `inner`,
/// and verification against every other key fails.
pub open spec fn signed_by(sm: Seq<u8>, inner: Seq<u8>, sk: Seq<u8>) -> bool {
    &&& verify_of(sm, sign_public_of(sk)) == Some(inner)
    &&& forall|pk: Seq<u8>| pk != sign_public_of(sk) ==> verify_of(sm, pk) is None
}

/// A public key against which chunk signatures are verified.
pub struct PublicKey {
    bytes: Vec<u8>,
}

/// A secret key with which a packet's chunks are signed.  The matching
/// public key travels with it.
pub struct SecretKey {
    bytes: Vec<u8>,
    public: Vec<u8>,
}

impl View for PublicKey {
    type V = Seq<u8>;

    closed spec fn view(&self) -> Seq<u8> {
        self.bytes@
    }
}

impl View for SecretKey {
    type V = Seq<u8>;

    closed spec fn view(&self) -> Seq<u8> {
        self.bytes@
    }
}

/// Relies on sodiumoxide's sign::gen_keypair: libsodium draws a random
/// seed and derives the pair from it, so the secret half is the derivation
/// of some seed and the public half is `sign_public_of` the secret half.
#[verifier::external_body]
fn gen_keypair_bytes() -> (r: (Vec<u8>, Vec<u8>))
    ensures
        r.0@ == sign_public_of(r.1@),
        derived_key(r.1@),
        r.0@.len() == PUBLIC_KEY_BYTES,
        r.1@.len() == SECRET_KEY_BYTES,
{
    let (pk, sk) = sodiumoxide::crypto::sign::gen_keypair();
    (pk.0.to_vec(), sk.0.to_vec())
}

/// Relies on sodiumoxide's sign::keypair_from_seed: the pair derived from
/// a seed is deterministic — its secret half is named by `seed_secret_of` —
/// and its public half is `sign_public_of` the secret half.
#[verifier::external_body]
fn keypair_from_seed_bytes(seed: &Vec<u8>) -> (r: (Vec<u8>, Vec<u8>))
    requires
        seed@.len() == SEED_BYTES,
    ensures
        r.1@ == seed_secret_of(seed@),
        r.0@ == sign_public_of(r.1@),
        r.0@.len() == PUBLIC_KEY_BYTES,
        r.1@.len() == SECRET_KEY_BYTES,
{
    let s = sodiumoxide::crypto::sign::Seed::from_slice(seed).unwrap();
    let (pk, sk) = sodiumoxide::crypto::sign::keypair_from_seed(&s);
    (pk.0.to_vec(), sk.0.to_vec())
}

/// Relies on sodiumoxide's sign::sign: signing uses the scalar expanded
/// from the key's first half and embeds its second half, so for a key with
/// agreeing halves — a seed derivation, which `requires` demands — the
/// signed message verifies under the signer's public key, recovering the
/// message, and under no other key (the signature scheme is unforgeable).
#[verifier::external_body]
fn sign_bytes(m: &[u8], sk_bytes: &Vec<u8>) -> (sm: Vec<u8>)
    requires
        sk_bytes@.len() == SECRET_KEY_BYTES,
        derived_key(sk_bytes@),
    ensures
        signed_by(sm@, m@, sk_bytes@),
{
    let sk = sodiumoxide::crypto::sign::SecretKey::from_slice(sk_bytes).unwrap();
    sodiumoxide::crypto::sign::sign(m, &sk)
}

/// Relies on sodiumoxide's sign::verify: verification is deterministic in
/// the signed message and the public key, so its outcome is named by
/// `verify_of`.
#[verifier::external_body]
fn verify_bytes(sm: &[u8], pk_bytes: &Vec<u8>) -> (r: Option<Vec<u8>>)
    requires
        pk_bytes@.len() == PUBLIC_KEY_BYTES,
    ensures
        match r {
            Some(m) => verify_of(sm@, pk_bytes@) == Some(m@),
            None => verify_of(sm@, pk_bytes@) is None,
        },
{
    let pk = sodiumoxide::crypto::sign::PublicKey::from_slice(pk_bytes).unwrap();
    sodiumoxide::crypto::sign::verify(sm, &pk).ok()
}

/// Generates a fresh signing key pair.
pub fn gen_keypair() -> (r: (PublicKey, SecretKey))
    ensures
        r.0.wf(),
        r.1.wf(),
        r.0@ == sign_public_of(r.1@),
        r.1.public_view() == r.0@,
{
    sodium_init();
    let (pk_bytes, sk_bytes) = gen_keypair_bytes();
    let public = PublicKey { bytes: pk_bytes };
    let pk_copy = public.clone();
    (public, SecretKey { bytes: sk_bytes, public: pk_copy.bytes })
}

impl Clone for PublicKey {
    /// The copy holds the same key bytes.
    fn clone(&self) -> (r: Self)
        ensures
            r@ == self@,
    {
        PublicKey { bytes: self.bytes.clone() }
    }
}

impl Clone for SecretKey {
    /// The copy holds the same key bytes.
    fn clone(&self) -> (r: Self)
        ensures
            r@ == self@,
            r.public_view() == self.public_view(),
    {
        SecretKey { bytes: self.bytes.clone(), public: self.public.clone() }
    }
}

impl PublicKey {
    /// A signing public key holds exactly `PUBLIC_KEY_BYTES` bytes.
    pub open spec fn wf(&self) -> bool {
        self@.len() == PUBLIC_KEY_BYTES
    }

    /// Builds a signing public key from its serialized bytes; `None` when
    /// the length is wrong.
    pub fn of(bytes: Vec<u8>) -> (r: Option<PublicKey>)
        ensures
            match r {
                Some(k) => k.wf() && k@ == bytes@,
                None => bytes@.len() != PUBLIC_KEY_BYTES,
            },
    {
        if bytes.len() == PUBLIC_KEY_BYTES {
            Some(PublicKey { bytes })
        } else {
            None
        }
    }

    /// Verifies an attached signature; on success returns the signed
    /// message, stripped of its signature.
    pub fn verify(&self, sm: &[u8]) -> (r: Option<Vec<u8>>)
        requires
            self.wf(),
        ensures
            match r {
                Some(m) => verify_of(sm@, self@) == Some(m@),
                None => verify_of(sm@, self@) is None,
            },
    {
        verify_bytes(sm, &self.bytes)
    }
}

impl SecretKey {
    /// A signing secret key holds exactly `SECRET_KEY_BYTES` bytes derived
    /// from a seed, together with the public key read off them.
    pub open spec fn wf(&self) -> bool {
        &&& self@.len() == SECRET_KEY_BYTES
        &&& derived_key(self@)
        &&& self.public_view() == sign_public_of(self@)
        &&& self.public_view().len() == PUBLIC_KEY_BYTES
    }

    /// The bytes of the matching public key.
    pub closed spec fn public_view(&self) -> Seq<u8> {
        self.public@
    }

    /// Derives a signing secret key from a 32-byte seed; `None` when the
    /// length is wrong.  A key is only ever generated or derived, never
    /// assembled from loose bytes, so the public key embedded in it always
    /// matches its signing half.
    pub fn of(seed: Vec<u8>) -> (r: Option<SecretKey>)
        ensures
            match r {
                Some(k) => k.wf() && k@ == seed_secret_of(seed@),
                None => seed@.len() != SEED_BYTES,
            },
    {
        if seed.len() == SEED_BYTES {
            sodium_init();
            let (public, bytes) = keypair_from_seed_bytes(&seed);
            proof {
                assert(bytes@ == seed_secret_of(seed@));
                assert(derived_key(bytes@));
            }
            Some(SecretKey { bytes, public })
        } else {
            None
        }
    }

    /// The public key matching this signing secret key.
    pub fn pkey(&self) -> (r: PublicKey)
        requires
            self.wf(),
        ensures
            r.wf(),
            r@ == sign_public_of(self@),
    {
        PublicKey { bytes: self.public.clone() }
    }

    /// Signs a message, producing `signature ++ message`.
    pub fn sign(&self, m: &[u8]) -> (sm: Vec<u8>)
        requires
            self.wf(),
        ensures
            signed_by(sm@, m@, self@),
    {
        sign_bytes(m, &self.bytes)
    }
}

} // verus!
