//! The digest capability: a pluggable fixed-output cryptographic hash,
//! consumed from the `sha2` and `blake2` crates through trusted wrappers.
//! The digests themselves are only named, never restated: `sha256_of` and
//! `blake2b_of` stand for whatever the algorithms return, which depends on
//! the input bytes alone.

use vstd::prelude::*;
use sha2::Digest;

verus! {

/// The choice of digest algorithm used to expand a seed.
#[derive(Clone, Copy, PartialEq, Eq, Structural, Debug)]
pub enum DigestKind {
    Sha256,
    Blake2b,
}

/// The SHA-256 digest of a byte string.
pub uninterp spec fn sha256_of(data: Seq<u8>) -> Seq<u8>;

/// The BLAKE2b-512 digest of a byte string.
pub uninterp spec fn blake2b_of(data: Seq<u8>) -> Seq<u8>;

/// The digest of a byte string under the chosen algorithm.
pub open spec fn digest_of(kind: DigestKind, data: Seq<u8>) -> Seq<u8> {
    match kind {
        DigestKind::Sha256 => sha256_of(data),
        DigestKind::Blake2b => blake2b_of(data),
    }
}

/// The fixed output length of the chosen algorithm, in bytes.
pub open spec fn digest_len(kind: DigestKind) -> nat {
    match kind {
        DigestKind::Sha256 => 32,
        DigestKind::Blake2b => 64,
    }
}

/// Relies on `sha2::Sha256` (through `Digest::digest`): a 32-byte output
/// determined by the input bytes alone.
#[verifier::external_body]
fn sha256_digest(data: &Vec<u8>) -> (r: Vec<u8>)
    ensures
        r@ == sha256_of(data@),
        r@.len() == 32,
{
    sha2::Sha256::digest(data.as_slice()).to_vec()
}

/// Relies on `blake2::Blake2b512` (through `Digest::digest`): a 64-byte
/// output determined by the input bytes alone.
#[verifier::external_body]
fn blake2b_digest(data: &Vec<u8>) -> (r: Vec<u8>)
    ensures
        r@ == blake2b_of(data@),
        r@.len() == 64,
{
    blake2::Blake2b512::digest(data.as_slice()).to_vec()
}

/// One digest invocation under the chosen algorithm.
pub fn digest_bytes(kind: DigestKind, data: &Vec<u8>) -> (r: Vec<u8>)
    ensures
        r@ == digest_of(kind, data@),
        r@.len() == digest_len(kind),
{
    match kind {
        DigestKind::Sha256 => sha256_digest(data),
        DigestKind::Blake2b => blake2b_digest(data),
    }
}

} // verus!
