//! Signature schemes and the operating system's random numbers.

use ed25519_dalek::Signer as EdSigner;
use fips204::ml_dsa_65;
use fips204::traits::{KeyGen, SerDes, Signer, Verifier};
use p256::ecdsa::signature::hazmat::PrehashVerifier;
use rand_core::{OsRng, RngCore};
use vstd::prelude::*;

verus! {

/// Why 32 bytes are no Ed25519 public key; `None` if they are one.
pub uninterp spec fn ed25519_key_fault(key: Seq<u8>) -> Option<Seq<char>>;

/// Whether strict Ed25519 verification accepts `sig` on `msg` under `key`.
pub uninterp spec fn ed25519_accepts(key: Seq<u8>, msg: Seq<u8>, sig: Seq<u8>) -> bool;

/// The Ed25519 public key that belongs to a 32-byte secret key.
pub uninterp spec fn ed25519_public_of(secret: Seq<u8>) -> [u8; 32];

/// The Ed25519 signature on `msg` under a 32-byte secret key.
pub uninterp spec fn ed25519_signature_of(secret: Seq<u8>, msg: Seq<u8>) -> [u8; 64];

/// Why 1952 bytes are no ML-DSA-65 public key; `None` if they are one.
pub uninterp spec fn mldsa65_key_fault(key: Seq<u8>) -> Option<Seq<char>>;

/// Whether ML-DSA-65 verification with context `ctx` accepts `sig` on `msg`
/// under `key`.
pub uninterp spec fn mldsa65_accepts(
    key: Seq<u8>,
    msg: Seq<u8>,
    sig: Seq<u8>,
    ctx: Seq<u8>,
) -> bool;

/// The ML-DSA-65 public key that key generation derives from a 32-byte seed.
pub uninterp spec fn mldsa65_public_of(seed: Seq<u8>) -> [u8; 1952];

/// Whether ECDSA over P-256 accepts the signature `(r, s)` on the message
/// digest `prehash` under the public point `(x, y)`.
pub uninterp spec fn p256_accepts(
    x: Seq<u8>,
    y: Seq<u8>,
    prehash: Seq<u8>,
    r: Seq<u8>,
    s: Seq<u8>,
) -> bool;

/// The encoding of the neutral point of the curve, as it would stand in the
/// first half of an Ed25519 signature.
pub open spec fn ed25519_neutral_point() -> Seq<u8> {
    seq![1u8] + Seq::new(31, |i: int| 0u8)
}

/// `ed25519_dalek::VerifyingKey::from_bytes`: whether the bytes decode to a
/// curve point, and the error's text if they do not. A function of the bytes.
#[verifier::external_body]
pub(crate) fn ed25519_check_key(key: &[u8; 32]) -> (r: Result<(), String>)
    ensures
        r is Ok <==> ed25519_key_fault(key@) is None,
        r matches Err(e) ==> ed25519_key_fault(key@) == Some(e@),
{
    match ed25519_dalek::VerifyingKey::from_bytes(key) {
        Ok(_) => Ok(()),
        Err(e) => Err(e.to_string()),
    }
}

/// `ed25519_dalek::VerifyingKey::verify_strict`, on a key that is decoded
/// first; a key that does not decode accepts nothing. A function of the three
/// arguments.
#[verifier::external_body]
pub(crate) fn ed25519_verify_strict(key: &[u8; 32], msg: &[u8], sig: &[u8; 64]) -> (r: bool)
    ensures
        r == ed25519_accepts(key@, msg@, sig@),
{
    match ed25519_dalek::VerifyingKey::from_bytes(key) {
        Ok(k) => k.verify_strict(msg, &ed25519_dalek::Signature::from_bytes(sig)).is_ok(),
        Err(_) => false,
    }
}

/// `ed25519_dalek::SigningKey::verifying_key`: the public key of a secret key,
/// a function of the secret key. Its encoding decodes again.
#[verifier::external_body]
pub(crate) fn ed25519_public(secret: &[u8; 32]) -> (r: [u8; 32])
    ensures
        r@ == ed25519_public_of(secret@)@,
        ed25519_key_fault(r@) is None,
{
    ed25519_dalek::SigningKey::from_bytes(secret).verifying_key().to_bytes()
}

/// `ed25519_dalek::SigningKey::sign`: the deterministic signature of RFC 8032.
/// Strict verification under the matching public key accepts it, unless its
/// first half is the neutral point, which strict verification always refuses.
#[verifier::external_body]
pub(crate) fn ed25519_sign(secret: &[u8; 32], msg: &[u8]) -> (r: [u8; 64])
    ensures
        r@ == ed25519_signature_of(secret@, msg@)@,
        r@.subrange(0, 32) != ed25519_neutral_point() ==> ed25519_accepts(
            ed25519_public_of(secret@)@,
            msg@,
            r@,
        ),
{
    EdSigner::sign(&ed25519_dalek::SigningKey::from_bytes(secret), msg).to_bytes()
}

/// `fips204::ml_dsa_65::PublicKey::try_from_bytes`: whether the bytes decode
/// to a public key, and the error's text if they do not. A function of the
/// bytes.
#[verifier::external_body]
pub(crate) fn mldsa65_check_key(key: &[u8; 1952]) -> (r: Result<(), String>)
    ensures
        r is Ok <==> mldsa65_key_fault(key@) is None,
        r matches Err(e) ==> mldsa65_key_fault(key@) == Some(e@),
{
    match ml_dsa_65::PublicKey::try_from_bytes(*key) {
        Ok(_) => Ok(()),
        Err(e) => Err(e.to_string()),
    }
}

/// `fips204::ml_dsa_65::PublicKey::verify`, on a key that is decoded first; a
/// key that does not decode accepts nothing. A function of the four arguments.
#[verifier::external_body]
pub(crate) fn mldsa65_verify(
    key: &[u8; 1952],
    msg: &[u8],
    sig: &[u8; 3309],
    ctx: &[u8],
) -> (r: bool)
    ensures
        r == mldsa65_accepts(key@, msg@, sig@, ctx@),
{
    match ml_dsa_65::PublicKey::try_from_bytes(*key) {
        Ok(k) => k.verify(msg, sig, ctx),
        Err(_) => false,
    }
}

/// `fips204::ml_dsa_65::KG::keygen_from_seed`: the public key that the seed
/// derives, a function of the seed. Its encoding decodes again.
#[verifier::external_body]
pub(crate) fn mldsa65_public(seed: &[u8; 32]) -> (r: [u8; 1952])
    ensures
        r@ == mldsa65_public_of(seed@)@,
        mldsa65_key_fault(r@) is None,
{
    ml_dsa_65::KG::keygen_from_seed(seed).0.into_bytes()
}

/// `fips204::ml_dsa_65::PrivateKey::try_sign` with the private key of `seed`.
/// Signing draws fresh randomness, so two calls differ; every signature that
/// comes back is accepted by verification under the seed's public key.
#[verifier::external_body]
pub(crate) fn mldsa65_sign(seed: &[u8; 32], msg: &[u8], ctx: &[u8]) -> (r: Result<
    [u8; 3309],
    &'static str,
>)
    ensures
        r matches Ok(sig) ==> mldsa65_accepts(
            mldsa65_public_of(seed@)@,
            msg@,
            sig@,
            ctx@,
        ),
{
    ml_dsa_65::KG::keygen_from_seed(seed).1.try_sign(msg, ctx)
}

/// `rand_core::OsRng::try_fill_bytes`: 32 bytes from the operating system's
/// random number generator, or the generator's failure. Nothing is promised
/// of the bytes.
#[verifier::external_body]
fn os_random_32() -> (r: Result<[u8; 32], String>)
{
    let mut out = [0u8; 32];
    match OsRng.try_fill_bytes(&mut out) {
        Ok(()) => Ok(out),
        Err(e) => Err(e.to_string()),
    }
}

/// Whether a draw from the operating system's random number generator gave a
/// result.
pub closed spec fn drawn(r: Result<[u8; 32], String>) -> bool {
    call_ensures(os_random_32, (), r)
}

/// Draw 32 bytes from the operating system's random number generator.
pub fn random_32() -> (r: Result<[u8; 32], String>)
    ensures
        drawn(r),
{
    os_random_32()
}

/// `p256::ecdsa::VerifyingKey::verify_prehash`, on the key and the signature
/// that the coordinates and the scalars give; a point off the curve or a scalar
/// out of range accepts nothing. A function of the five arguments.
#[verifier::external_body]
pub(crate) fn p256_verify_prehash(
    x: &[u8; 32],
    y: &[u8; 32],
    prehash: &[u8],
    r: &[u8; 32],
    s: &[u8; 32],
) -> (ok: bool)
    ensures
        ok == p256_accepts(x@, y@, prehash@, r@, s@),
{
    let point = p256::EncodedPoint::from_affine_coordinates(x.into(), y.into(), false);
    let key = p256::ecdsa::VerifyingKey::from_encoded_point(&point);
    let sig = p256::ecdsa::Signature::from_scalars(*r, *s);
    match (key, sig) {
        (Ok(k), Ok(g)) => k.verify_prehash(prehash, &g).is_ok(),
        _ => false,
    }
}

} // verus!
