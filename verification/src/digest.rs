//! SHA-256 content hashes.

use crate::encoding::{hex_bytes, hex_encode, hex_text, law_hex_is_injective, law_hex_round_trip};
use sha2::{Digest, Sha256};
use vstd::prelude::*;

verus! {

/// The SHA-256 digest of `data`.
pub uninterp spec fn sha256_of(data: Seq<u8>) -> Seq<u8>;

/// Calls `sha2::Sha256::digest`: the digest of `data`, which depends on the
/// bytes of `data` alone.
#[verifier::external_body]
fn sha256(data: &[u8]) -> (r: [u8; 32])
    ensures
        r@ == sha256_of(data@),
{
    Sha256::digest(data).into()
}

/// The content hash of `data`: its SHA-256 digest in lowercase hexadecimal.
pub open spec fn content_hash(data: Seq<u8>) -> Seq<char> {
    hex_text(sha256_of(data))
}

/// sha256 of data as a lowercase hex string.
pub fn hash_hex(data: &[u8]) -> (r: String)
    ensures
        r@ == hex_text(sha256_of(data@)),
        r@ == content_hash(data@),
        r@.len() == 64,
{
    hex_encode(&sha256(data))
}

/// Read back from hexadecimal, a content hash is the SHA-256 digest of the data,
/// all of it.
pub proof fn law_content_hash_is_the_digest(data: Seq<u8>)
    ensures
        hex_bytes(content_hash(data)) == Some(sha256_of(data)),
        content_hash(data) == hex_text(sha256_of(data)),
{
    law_hex_round_trip(sha256_of(data));
}

/// Two content hashes are the same exactly if the digests of the data are.
pub proof fn law_content_hash_tells_digests_apart(a: Seq<u8>, b: Seq<u8>)
    ensures
        content_hash(a) == content_hash(b) <==> sha256_of(a) == sha256_of(b),
{
    if content_hash(a) == content_hash(b) {
        law_hex_is_injective(sha256_of(a), sha256_of(b));
    }
}

} // verus!
