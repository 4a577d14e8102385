//! Digest functions.

use sha2::Digest;
use vstd::prelude::*;

verus! {

/// The SHA3-384 digest of `msg`.
pub uninterp spec fn sha3_384_of(msg: Seq<u8>) -> [u8; 48];

/// The SHA3-256 digest of `msg`.
pub uninterp spec fn sha3_256_of(msg: Seq<u8>) -> [u8; 32];

/// The SHA-384 digest of `msg`.
pub uninterp spec fn sha384_of(msg: Seq<u8>) -> [u8; 48];

/// The SHA-256 digest of `msg`.
pub uninterp spec fn sha256_of(msg: Seq<u8>) -> [u8; 32];

/// `sha3::Sha3_384::digest`: the SHA3-384 digest of the whole input, a
/// function of the input bytes alone.
#[verifier::external_body]
pub(crate) fn sha3_384(msg: &[u8]) -> (r: [u8; 48])
    ensures
        r@ == sha3_384_of(msg@)@,
{
    sha3::Sha3_384::digest(msg).into()
}

/// `sha3::Sha3_256::digest`: the SHA3-256 digest of the whole input, a
/// function of the input bytes alone.
#[verifier::external_body]
pub(crate) fn sha3_256(msg: &[u8]) -> (r: [u8; 32])
    ensures
        r@ == sha3_256_of(msg@)@,
{
    sha3::Sha3_256::digest(msg).into()
}

/// `sha2::Sha384::digest`: the SHA-384 digest of the whole input, a function
/// of the input bytes alone.
#[verifier::external_body]
pub(crate) fn sha384(msg: &[u8]) -> (r: [u8; 48])
    ensures
        r@ == sha384_of(msg@)@,
{
    sha2::Sha384::digest(msg).into()
}

/// `sha2::Sha256::digest`: the SHA-256 digest of the whole input, a function
/// of the input bytes alone.
#[verifier::external_body]
pub(crate) fn sha256(msg: &[u8]) -> (r: [u8; 32])
    ensures
        r@ == sha256_of(msg@)@,
{
    sha2::Sha256::digest(msg).into()
}

} // verus!
