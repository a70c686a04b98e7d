//! Hashes of byte strings.

use ed25519_dalek::{Signer, Verifier};
use rand::TryRng;
use sha2::Digest;
use vstd::prelude::*;

verus! {

/// Number of bytes in a hash.
pub const HASH_SIZE: usize = 32;

/// The SHA-256 digest of a byte string, as a byte string.
pub uninterp spec fn sha256(data: Seq<u8>) -> Seq<u8>;

/// A 256-bit digest.
#[derive(Clone, Debug, PartialEq, Eq)]
pub struct Hash {
    pub bytes: Vec<u8>,
}

impl View for Hash {
    type V = Seq<u8>;

    open spec fn view(&self) -> Seq<u8> {
        self.bytes@
    }
}

/// Calls `sha2::Sha256::digest` on `data` and copies the output into a
/// vector. The digest is a function of the message alone and is 32 bytes long.
#[verifier::external_body]
fn sha256_digest(data: &[u8]) -> (out: Vec<u8>)
    ensures
        out@ == sha256(data@),
        out@.len() == 32,
{
    sha2::Sha256::digest(data).to_vec()
}

/// The digest of `data`.
pub fn hash(data: &[u8]) -> (h: Hash)
    ensures
        h@ == sha256(data@),
        h@.len() == HASH_SIZE,
{
    Hash { bytes: sha256_digest(data) }
}

/// An Ed25519 public key.
#[derive(Clone, Copy, Debug, PartialEq, Eq)]
pub struct PublicKey {
    pub bytes: [u8; 32],
}

/// An Ed25519 secret key: the 32-byte seed that the key pair comes from.
#[derive(Clone, Copy, Debug, PartialEq, Eq)]
pub struct SecretKey {
    pub bytes: [u8; 32],
}

/// An Ed25519 signature.
#[derive(Clone, Copy, Debug, PartialEq, Eq)]
pub struct Signature {
    pub bytes: [u8; 64],
}

impl View for PublicKey {
    type V = Seq<u8>;

    open spec fn view(&self) -> Seq<u8> {
        self.bytes@
    }
}

impl View for SecretKey {
    type V = Seq<u8>;

    open spec fn view(&self) -> Seq<u8> {
        self.bytes@
    }
}

impl View for Signature {
    type V = Seq<u8>;

    open spec fn view(&self) -> Seq<u8> {
        self.bytes@
    }
}

/// The Ed25519 public key that belongs to a 32-byte seed.
pub uninterp spec fn ed25519_public_key(seed: Seq<u8>) -> Seq<u8>;

/// The Ed25519 signature of a message under the key of a 32-byte seed.
pub uninterp spec fn ed25519_signature(seed: Seq<u8>, message: Seq<u8>) -> Seq<u8>;

/// Whether Ed25519 verification accepts a signature of a message under a
/// public key.
pub uninterp spec fn ed25519_accepts(public_key: Seq<u8>, message: Seq<u8>, signature: Seq<u8>)
    -> bool;

/// Builds an `ed25519_dalek::SigningKey` from the seed and returns the bytes
/// of its verifying key. The key is a function of the seed alone.
#[verifier::external_body]
fn derive_public_key(seed: &[u8; 32]) -> (key: [u8; 32])
    ensures
        key@ == ed25519_public_key(seed@),
{
    ed25519_dalek::SigningKey::from_bytes(seed).verifying_key().to_bytes()
}

/// Signs the message with the `ed25519_dalek::SigningKey` of the seed.
/// Ed25519 signing uses no randomness: the signature is a function of seed
/// and message.
#[verifier::external_body]
fn sign_bytes(seed: &[u8; 32], message: &[u8]) -> (signature: [u8; 64])
    ensures
        signature@ == ed25519_signature(seed@, message@),
{
    ed25519_dalek::SigningKey::from_bytes(seed).sign(message).to_bytes()
}

/// Calls `ed25519_dalek::VerifyingKey::verify` on message and signature;
/// bytes that are no public key accept nothing.
#[verifier::external_body]
fn signature_accepted(key: &[u8; 32], message: &[u8], signature: &[u8; 64]) -> (ok: bool)
    ensures
        ok == ed25519_accepts(key@, message@, signature@),
{
    match ed25519_dalek::VerifyingKey::from_bytes(key) {
        Ok(k) => k.verify(message, &ed25519_dalek::Signature::from_bytes(signature)).is_ok(),
        Err(_) => false,
    }
}

/// Asks `rand::rngs::SysRng` for 32 bytes of the operating system's
/// randomness; `None` when the system gives none. Nothing is claimed of the
/// bytes.
#[verifier::external_body]
fn system_seed() -> (seed: Option<[u8; 32]>) {
    let mut seed = [0u8; 32];
    match rand::rngs::SysRng.try_fill_bytes(&mut seed) {
        Ok(()) => Some(seed),
        Err(_) => None,
    }
}

/// A fresh key pair from the operating system's randomness; `None` when
/// the system gives none.
pub fn gen_keypair() -> (keypair: Option<(PublicKey, SecretKey)>)
    ensures
        keypair matches Some(k) ==> k.0@ == ed25519_public_key(k.1@),
{
    match system_seed() {
        Some(seed) => Some(gen_keypair_from_seed(seed)),
        None => None,
    }
}

/// The key pair that belongs to `seed`.
pub fn gen_keypair_from_seed(seed: [u8; 32]) -> (keypair: (PublicKey, SecretKey))
    ensures
        keypair.0@ == ed25519_public_key(seed@),
        keypair.1@ == seed@,
{
    let public = derive_public_key(&seed);
    (PublicKey { bytes: public }, SecretKey { bytes: seed })
}

/// The signature of `message` under `secret_key`.
pub fn sign(message: &[u8], secret_key: &SecretKey) -> (signature: Signature)
    ensures
        signature@ == ed25519_signature(secret_key@, message@),
{
    Signature { bytes: sign_bytes(&secret_key.bytes, message) }
}

/// Whether `signature` is accepted as a signature of `message` under
/// `public_key`.
pub fn verify(signature: &Signature, message: &[u8], public_key: &PublicKey) -> (ok: bool)
    ensures
        ok == ed25519_accepts(public_key@, message@, signature@),
{
    signature_accepted(&public_key.bytes, message, &signature.bytes)
}

impl Hash {
    /// The hash whose 32 bytes all equal `byte`.
    pub fn filled(byte: u8) -> (h: Hash)
        ensures
            h@ == Seq::new(HASH_SIZE as nat, |i: int| byte),
    {
        let mut bytes: Vec<u8> = Vec::new();
        let mut i: usize = 0;
        while i < HASH_SIZE
            invariant
                i <= HASH_SIZE,
                bytes@ == Seq::new(i as nat, |j: int| byte),
            decreases HASH_SIZE - i,
        {
            bytes.push(byte);
            i += 1;
            assert(bytes@ =~= Seq::new(i as nat, |j: int| byte));
        }
        Hash { bytes }
    }

    /// The hash of 32 zero bytes.
    pub fn zero() -> (h: Hash)
        ensures
            h@ == Seq::new(HASH_SIZE as nat, |i: int| 0u8),
    {
        Hash::filled(0)
    }

    /// A copy of the digest's bytes.
    pub fn to_bytes(&self) -> (out: Vec<u8>)
        ensures
            out@ == self@,
    {
        self.bytes.clone()
    }
}

} // verus!
