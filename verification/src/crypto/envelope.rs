//! Detached composite signatures in unpadded URL-safe Base64, as they stand
//! beside signed documents.

use vstd::prelude::*;
use crate::crypto::composite;
use crate::crypto::composite::{
    CompositeError, CompositePublicKey, CompositeSecretKey, CompositeSignature, PublicKeyModel,
    SecretKeyModel, SignatureModel,
};
use crate::primitives::{encoding, text};

verus! {

/// The signature that a text stands for, or what is said of the text instead.
pub open spec fn opened(text: Seq<char>) -> Result<SignatureModel, Seq<char>> {
    match encoding::base64url_value(vstd::utf8::encode_utf8(text)) {
        Err(fault) => Err("base64url: "@ + fault),
        Ok(b) => if b.len() != composite::COMPOSITE_SIG_LEN {
            Err(
                "malformed encoded form: "@ + composite::length_fault(
                    "composite signature"@,
                    composite::COMPOSITE_SIG_LEN as nat,
                    b.len(),
                ),
            )
        } else {
            Ok(composite::signature_from(b))
        },
    }
}

/// What the check of a detached signature says.
pub open spec fn checked(
    key: PublicKeyModel,
    ctx: Seq<u8>,
    payload: Seq<u8>,
    text: Seq<char>,
) -> Result<(), Seq<char>> {
    match opened(text) {
        Err(e) => Err(e),
        Ok(sig) => if composite::accepts(key, ctx, payload, sig) {
            Ok(())
        } else {
            Err(composite::refusal(key, ctx, payload, sig).text())
        },
    }
}

/// Decode a detached signature.
pub fn open_signature(s: &str) -> (r: Result<CompositeSignature, String>)
    ensures
        match r {
            Ok(sig) => opened(s@) == Ok::<_, Seq<char>>(sig@),
            Err(e) => opened(s@) == Err::<SignatureModel, _>(e@),
        },
{
    let b = match encoding::base64url_decode(s.as_bytes()) {
        Ok(b) => b,
        Err(e) => return Err(text::joined("base64url: ", e.as_str())),
    };
    match CompositeSignature::from_concat_bytes(b.as_slice()) {
        Ok(sig) => Ok(sig),
        Err(e) => Err(e.message()),
    }
}

/// Check a detached signature on `payload`.
pub fn check_signature(key: &CompositePublicKey, ctx: &[u8], payload: &[u8], s: &str) -> (r: Result<
    (),
    String,
>)
    ensures
        match r {
            Ok(_) => checked(key@, ctx@, payload@, s@) is Ok,
            Err(e) => checked(key@, ctx@, payload@, s@) == Err::<(), _>(e@),
        },
{
    let sig = open_signature(s)?;
    match key.verify(ctx, payload, &sig) {
        Ok(()) => Ok(()),
        Err(e) => Err(e.message()),
    }
}

/// Whether a text is a detached signature that signing `payload` with `secret`
/// can give.
pub open spec fn sealed_by(
    secret: SecretKeyModel,
    ctx: Seq<u8>,
    payload: Seq<u8>,
    text: Seq<char>,
) -> bool {
    opened(text) matches Ok(sig) && composite::made_by(secret, ctx, payload, sig)
}

/// Sign `payload` and encode the signature.
pub fn seal(secret: &CompositeSecretKey, ctx: &[u8], payload: &[u8]) -> (r: Result<
    String,
    CompositeError,
>)
    ensures
        match r {
            Ok(s) => sealed_by(secret@, ctx@, payload@, s@),
            Err(e) => composite::sign_failed(secret@, ctx@, payload@, e),
        },
{
    let sig = secret.sign(ctx, payload)?;
    let out = sig.to_jws_base64url();
    proof {
        composite::law_concat_roundtrip(sig@);
    }
    Ok(out)
}

/// A sealed payload passes the check under the public key that belongs to the
/// secret key, unless the classical half is degenerate.
pub proof fn law_sealed_checks(
    secret: SecretKeyModel,
    ctx: Seq<u8>,
    payload: Seq<u8>,
    text: Seq<char>,
)
    requires
        sealed_by(secret, ctx, payload, text),
        !composite::degenerate(opened(text)->Ok_0),
    ensures
        checked(composite::public_of(secret), ctx, payload, text) is Ok,
{
}

/// A detached signature passes just where the text is the Base64 of a signature
/// of the right length and both of its halves verify.
pub proof fn law_checked_means_both(
    key: PublicKeyModel,
    ctx: Seq<u8>,
    payload: Seq<u8>,
    text: Seq<char>,
)
    ensures
        checked(key, ctx, payload, text) is Ok <==> (encoding::base64url_value(
            vstd::utf8::encode_utf8(text),
        ) matches Ok(b) && b.len() == composite::COMPOSITE_SIG_LEN && composite::classical_accepts(
            key,
            ctx,
            payload,
            composite::signature_from(b),
        ) && composite::pqc_accepts(key, ctx, payload, composite::signature_from(b))),
{
}

} // verus!
