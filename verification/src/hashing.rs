//! Content hashes of files: SHA-256 in lowercase hexadecimal.
use sha2::Digest;
use vstd::prelude::*;

use crate::text::{lemma_lower_hex_len, lower_hex, lower_hex_string};

verus! {

/// The SHA-256 digest of a byte sequence.
pub uninterp spec fn sha256_digest_of(data: Seq<u8>) -> Seq<u8>;

/// `sha2::Sha256::digest`: the SHA-256 digest of the bytes, 32 bytes long
/// (the hash's output size is 32 in the crate's source). The digest itself is
/// named, not stated.
#[verifier::external_body]
fn sha256_digest(data: &[u8]) -> (r: Vec<u8>)
    ensures
        r@ == sha256_digest_of(data@),
        r@.len() == 32,
{
    sha2::Sha256::digest(data).to_vec()
}

/// The content hash of a file's bytes: SHA-256 as 64 lowercase hex digits.
pub fn content_hash(data: &[u8]) -> (r: String)
    ensures
        r@ == lower_hex(sha256_digest_of(data@)),
        r@.len() == 64,
{
    let digest = sha256_digest(data);
    proof {
        lemma_lower_hex_len(digest@);
    }
    lower_hex_string(digest.as_slice())
}

} // verus!
