//! Ed25519 signatures over bytes. Keys and signatures are plain byte arrays, so
//! that callers never touch the types of the signature crate.

use ed25519_dalek::{Signature, Signer, SigningKey, Verifier, VerifyingKey};
use vstd::prelude::*;

verus! {

/// The public key of the Ed25519 secret key `secret`.
pub uninterp spec fn ed25519_public(secret: Seq<u8>) -> Seq<u8>;

/// The Ed25519 signature of `msg` by `secret`.
pub uninterp spec fn ed25519_signature(secret: Seq<u8>, msg: Seq<u8>) -> Seq<u8>;

/// Whether `public` is an Ed25519 public key and `sig` is valid under it for
/// `msg`.
pub uninterp spec fn ed25519_verifies(public: Seq<u8>, msg: Seq<u8>, sig: Seq<u8>) -> bool;

/// Derive the 32-byte public key from a 32-byte secret key.
///
/// Calls `ed25519_dalek::SigningKey::from_bytes` and takes its verifying key,
/// which depends on the secret alone.
#[verifier::external_body]
pub fn public_key(secret: &[u8; 32]) -> (r: [u8; 32])
    ensures
        r@ == ed25519_public(secret@),
{
    SigningKey::from_bytes(secret).verifying_key().to_bytes()
}

/// Sign a message, returning the 64-byte signature.
///
/// Calls `sign` of `ed25519_dalek::SigningKey`. The signature depends on the
/// secret and the message alone, and the public key of the secret accepts it.
#[verifier::external_body]
pub fn sign_bytes(secret: &[u8; 32], msg: &[u8]) -> (r: [u8; 64])
    ensures
        r@ == ed25519_signature(secret@, msg@),
        ed25519_verifies(ed25519_public(secret@), msg@, r@),
{
    SigningKey::from_bytes(secret).sign(msg).to_bytes()
}

/// Verify a 64-byte signature over a message.
///
/// Calls `ed25519_dalek::VerifyingKey::from_bytes` and the key's `verify`. The
/// answer depends on the three arguments alone; it is `false` where the bytes
/// are no public key.
#[verifier::external_body]
pub fn verify_bytes(public: &[u8; 32], msg: &[u8], sig: &[u8; 64]) -> (r: bool)
    ensures
        r == ed25519_verifies(public@, msg@, sig@),
{
    match VerifyingKey::from_bytes(public) {
        Ok(key) => key.verify(msg, &Signature::from_bytes(sig)).is_ok(),
        Err(_) => false,
    }
}

} // verus!
