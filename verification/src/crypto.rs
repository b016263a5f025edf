//! Trusted bindings for the cryptographic primitives the crate leans
//! on: SHA-256 digests, URL-safe base64, and operating-system
//! randomness.

use vstd::prelude::*;

use base64::Engine;
use rand::RngCore;
use sha2::Digest;

verus! {

/// The SHA-256 digest of `data`. The algorithm is far too long to
/// state here; callers reason about digests only through this name.
pub uninterp spec fn sha256_of(data: Seq<u8>) -> Seq<u8>;

/// Relies on `sha2::Sha256::digest`: a deterministic function of the
/// input bytes whose output is always 32 bytes long.
#[verifier::external_body]
pub fn sha256(data: &[u8]) -> (r: Vec<u8>)
    ensures
        r@ == sha256_of(data@),
        r@.len() == 32,
{
    sha2::Sha256::digest(data).to_vec()
}

/// The unpadded URL-safe base64 text of `data`.
pub uninterp spec fn base64url_of(data: Seq<u8>) -> Seq<char>;

/// Relies on `base64::engine::Engine::encode` with the
/// `URL_SAFE_NO_PAD` alphabet: a deterministic encoding whose output
/// holds four characters for every three input bytes, rounded up.
#[verifier::external_body]
pub fn base64url(data: &[u8]) -> (r: String)
    ensures
        r@ == base64url_of(data@),
        r@.len() == (data@.len() * 4 + 2) / 3,
{
    base64::engine::general_purpose::URL_SAFE_NO_PAD.encode(data)
}

/// Relies on `rand_core::OsRng::fill_bytes`: fills a buffer from the
/// operating system's random source. Nothing can be promised about
/// the bytes themselves.
#[verifier::external_body]
pub fn random_bytes(n: usize) -> (r: Vec<u8>)
    ensures
        r@.len() == n,
{
    let mut buf = vec![0u8; n];
    rand::rngs::OsRng.fill_bytes(&mut buf);
    buf
}

} // verus!
