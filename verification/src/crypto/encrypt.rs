//! Asymmetric authenticated encryption with anonymous senders.
//!
//! A chunk is encrypted to the public key of the one node meant to read it,
//! with a fresh ephemeral sender keypair per chunk, so the ciphertext reveals
//! neither the sender nor anything the holder of another key could use.
//!
//! The two uninterpreted names [`public_of`] and [`open_of`] stand for what
//! libsodium computes deterministically: the public key derived from a secret
//! key, and the outcome of opening a given ciphertext with a given key.
//! Sealing is randomized, so no name is given to a ciphertext; the trusted
//! items state only what holds of every ciphertext they hand back.

use vstd::prelude::*;

verus! {

/// Length in bytes of an encryption public key.
pub const PUBLIC_KEY_BYTES: usize = 32;

/// Length in bytes of an encryption secret key.
pub const SECRET_KEY_BYTES: usize = 32;

/// The public key that libsodium derives from the given secret key bytes
/// (`box_::SecretKey::public_key`, a deterministic scalar multiplication).
pub uninterp spec fn public_of(sk: Seq<u8>) -> Seq<u8>;

/// The outcome of opening ciphertext `c` with the key pair of secret key
/// `sk` (`sealedbox::open`, deterministic in its arguments).
pub uninterp spec fn open_of(c: Seq<u8>, sk: Seq<u8>) -> Option<Seq<u8>>;

/// Ciphertext `c` is a sealed box carrying `plain` for the holder of the
/// secret key matching `target`: that holder recovers exactly `plain`, and
/// every other key fails to open `c`.
pub open spec fn sealed_to(c: Seq<u8>, target: Seq<u8>, plain: Seq<u8>) -> bool {
    &&& forall|sk: Seq<u8>| public_of(sk) == target ==> open_of(c, sk) == Some(plain)
    &&& forall|sk: Seq<u8>| public_of(sk) != target ==> open_of(c, sk) is None
}

/// A public key for authenticated encryption; chunks are encrypted to one.
pub struct PublicKey {
    bytes: Vec<u8>,
}

/// A secret key for authenticated encryption, kept by a node to read the
/// chunks addressed to it.  The matching public key travels with it.
pub struct SecretKey {
    bytes: Vec<u8>,
    public: Vec<u8>,
}

impl View for PublicKey {
    type V = Seq<u8>;

    closed spec fn view(&self) -> Seq<u8> {
        self.bytes@
    }
}

impl View for SecretKey {
    type V = Seq<u8>;

    closed spec fn view(&self) -> Seq<u8> {
        self.bytes@
    }
}

/// Relies on sodiumoxide's init: sets libsodium up; safe to call repeatedly.
#[verifier::external_body]
pub(crate) fn sodium_init() {
    let _ = sodiumoxide::init();
}

/// Relies on sodiumoxide's box_::gen_keypair: the two byte strings returned
/// are a fresh key pair, so the public half is `public_of` the secret half.
#[verifier::external_body]
fn gen_keypair_bytes() -> (r: (Vec<u8>, Vec<u8>))
    ensures
        r.0@ == public_of(r.1@),
        r.0@.len() == PUBLIC_KEY_BYTES,
        r.1@.len() == SECRET_KEY_BYTES,
{
    let (pk, sk) = sodiumoxide::crypto::box_::gen_keypair();
    (pk.0.to_vec(), sk.0.to_vec())
}

/// Relies on sodiumoxide's box_::SecretKey::public_key: the public key is a
/// deterministic function of the secret key, named by `public_of`.
#[verifier::external_body]
fn derive_public(sk_bytes: &Vec<u8>) -> (r: Vec<u8>)
    requires
        sk_bytes@.len() == SECRET_KEY_BYTES,
    ensures
        r@ == public_of(sk_bytes@),
        r@.len() == PUBLIC_KEY_BYTES,
{
    let sk = sodiumoxide::crypto::box_::SecretKey::from_slice(sk_bytes).unwrap();
    sk.public_key().0.to_vec()
}

/// Relies on sodiumoxide's sealedbox::seal: the ciphertext is a sealed box
/// that the holder of the secret key matching `pk` opens to exactly `m`, and
/// that no other secret key opens (the box is authenticated encryption).
#[verifier::external_body]
fn seal(m: &[u8], pk: &Vec<u8>) -> (c: Vec<u8>)
    requires
        pk@.len() == PUBLIC_KEY_BYTES,
    ensures
        sealed_to(c@, pk@, m@),
{
    let k = sodiumoxide::crypto::box_::PublicKey::from_slice(pk).unwrap();
    sodiumoxide::crypto::sealedbox::seal(m, &k)
}

/// Relies on sodiumoxide's sealedbox::open: opening is deterministic in the
/// ciphertext and the key pair, so its outcome is named by `open_of`.
#[verifier::external_body]
fn open(c: &[u8], sk_bytes: &Vec<u8>, pk_bytes: &Vec<u8>) -> (r: Option<Vec<u8>>)
    requires
        sk_bytes@.len() == SECRET_KEY_BYTES,
        pk_bytes@.len() == PUBLIC_KEY_BYTES,
        pk_bytes@ == public_of(sk_bytes@),
    ensures
        match r {
            Some(m) => open_of(c@, sk_bytes@) == Some(m@),
            None => open_of(c@, sk_bytes@) is None,
        },
{
    let sk = sodiumoxide::crypto::box_::SecretKey::from_slice(sk_bytes).unwrap();
    let pk = sodiumoxide::crypto::box_::PublicKey::from_slice(pk_bytes).unwrap();
    sodiumoxide::crypto::sealedbox::open(c, &pk, &sk).ok()
}

/// Generates a fresh encryption key pair.
pub fn gen_keypair() -> (r: (PublicKey, SecretKey))
    ensures
        r.0.wf(),
        r.1.wf(),
        r.0@ == public_of(r.1@),
        r.1.public_view() == r.0@,
{
    sodium_init();
    let (pk_bytes, sk_bytes) = gen_keypair_bytes();
    let public = PublicKey { bytes: pk_bytes };
    let pk_copy = public.clone();
    (public, SecretKey { bytes: sk_bytes, public: pk_copy.bytes })
}

impl Clone for PublicKey {
    /// The copy holds the same key bytes.
    fn clone(&self) -> (r: Self)
        ensures
            r@ == self@,
    {
        PublicKey { bytes: self.bytes.clone() }
    }
}

impl Clone for SecretKey {
    /// The copy holds the same key bytes.
    fn clone(&self) -> (r: Self)
        ensures
            r@ == self@,
            r.public_view() == self.public_view(),
    {
        SecretKey { bytes: self.bytes.clone(), public: self.public.clone() }
    }
}

impl PublicKey {
    /// A public key holds exactly `PUBLIC_KEY_BYTES` bytes.
    pub open spec fn wf(&self) -> bool {
        self@.len() == PUBLIC_KEY_BYTES
    }

    /// Builds a public key from its serialized bytes; `None` when the length
    /// is wrong.
    pub fn of(bytes: Vec<u8>) -> (r: Option<PublicKey>)
        ensures
            match r {
                Some(k) => k.wf() && k@ == bytes@,
                None => bytes@.len() != PUBLIC_KEY_BYTES,
            },
    {
        if bytes.len() == PUBLIC_KEY_BYTES {
            Some(PublicKey { bytes })
        } else {
            None
        }
    }

    /// The serialized form of the key.
    pub fn as_bytes(&self) -> (r: &Vec<u8>)
        ensures
            r@ == self@,
    {
        &self.bytes
    }

    /// Encrypts `data` so that only the holder of the matching secret key
    /// can read it, without identifying the sender.
    pub fn encrypt(&self, data: &[u8]) -> (c: Vec<u8>)
        requires
            self.wf(),
        ensures
            sealed_to(c@, self@, data@),
    {
        seal(data, &self.bytes)
    }
}

impl SecretKey {
    /// A secret key holds exactly `SECRET_KEY_BYTES` bytes, together with
    /// the public key derived from them.
    pub open spec fn wf(&self) -> bool {
        &&& self@.len() == SECRET_KEY_BYTES
        &&& self.public_view() == public_of(self@)
        &&& self.public_view().len() == PUBLIC_KEY_BYTES
    }

    /// The bytes of the matching public key.
    pub closed spec fn public_view(&self) -> Seq<u8> {
        self.public@
    }

    /// Builds a secret key from its serialized bytes; `None` when the length
    /// is wrong.
    pub fn of(bytes: Vec<u8>) -> (r: Option<SecretKey>)
        ensures
            match r {
                Some(k) => k.wf() && k@ == bytes@,
                None => bytes@.len() != SECRET_KEY_BYTES,
            },
    {
        if bytes.len() == SECRET_KEY_BYTES {
            sodium_init();
            let public = derive_public(&bytes);
            Some(SecretKey { bytes, public })
        } else {
            None
        }
    }

    /// The public key matching this secret key.
    pub fn pkey(&self) -> (r: PublicKey)
        requires
            self.wf(),
        ensures
            r.wf(),
            r@ == public_of(self@),
    {
        PublicKey { bytes: self.public.clone() }
    }

    /// Tries to open a sealed ciphertext; `None` when it was not encrypted
    /// to this key.
    pub fn decrypt(&self, c: &[u8]) -> (r: Option<Vec<u8>>)
        requires
            self.wf(),
        ensures
            match r {
                Some(m) => open_of(c@, self@) == Some(m@),
                None => open_of(c@, self@) is None,
            },
    {
        open(c, &self.bytes, &self.public)
    }
}

} // verus!
