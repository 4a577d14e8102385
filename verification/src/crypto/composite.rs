//! Composite Ed25519 + ML-DSA-65 signatures.
//!
//! A composite signature is an Ed25519 signature and an ML-DSA-65 (FIPS 204)
//! signature on the same 48-byte transcript hash:
//!
//! ```text
//! H = SHA3-384( "FERROGATE-COMPOSITE-v1" || len_be64(ctx) || ctx || msg )
//! ```
//!
//! Verification requires both halves. The context `ctx` separates the kinds of
//! artefact that one key signs. On the wire a signature is the 3373 bytes
//! `classical(64) || pqc(3309)`, the same in unpadded URL-safe Base64, or the
//! DER form `SEQUENCE { OID, OCTET STRING classical, OCTET STRING pqc }`.

use vstd::prelude::*;
use vstd::slice::{slice_subrange, slice_to_vec};
use vstd::string::StringExecFns;
use crate::crypto::der;
use crate::primitives::bytes::{bytes_equal, take_array, u64_to_be};
use crate::primitives::{bytes, encoding, hash, signature, text};

verus! {

/// JOSE `alg` value of the composite signature.
pub const COMPOSITE_JOSE_ALG: &'static str = "MLDSA65+Ed25519";

/// ASN.1 object identifier `id-composite-MLDSA65-Ed25519`.
pub const COMPOSITE_OID: &'static str = "2.16.840.1.114027.80.8.1.7";

/// The contents octets of [`COMPOSITE_OID`].
pub const COMPOSITE_OID_OCTETS: [u8; 11] = [
    0x60,
    0x86,
    0x48,
    0x01,
    0x86,
    0xFA,
    0x6B,
    0x50,
    0x08,
    0x01,
    0x07,
];

/// Tag mixed into the transcript hash.
pub const DOMAIN_TAG: &'static str = "FERROGATE-COMPOSITE-v1";

/// Length of an Ed25519 public key.
pub const ED25519_PK_LEN: usize = 32;

/// Length of an Ed25519 signature.
pub const ED25519_SIG_LEN: usize = 64;

/// Length of an ML-DSA-65 public key.
pub const MLDSA65_PK_LEN: usize = 1952;

/// Length of an ML-DSA-65 signature.
pub const MLDSA65_SIG_LEN: usize = 3309;

/// Length of the concatenated composite public key.
pub const COMPOSITE_PK_LEN: usize = 1984;

/// Length of the concatenated composite signature.
pub const COMPOSITE_SIG_LEN: usize = 3373;

/// Failure modes of composite-signature operations.
#[derive(Debug)]
pub enum CompositeError {
    /// The Ed25519 half did not verify.
    ClassicalFailed,
    /// The ML-DSA-65 half did not verify.
    PqcFailed,
    /// Key generation failed.
    KeyGen(&'static str),
    /// Signing failed.
    Sign(&'static str),
    /// An encoded form did not decode.
    Decode(String),
    /// A value could not be encoded.
    Encode(String),
}

impl CompositeError {
    /// What the error says.
    pub open spec fn text(&self) -> Seq<char> {
        match self {
            CompositeError::ClassicalFailed => "classical signature did not verify"@,
            CompositeError::PqcFailed => "pqc signature did not verify"@,
            CompositeError::KeyGen(e) => "ML-DSA keygen failed: "@ + e@,
            CompositeError::Sign(e) => "ML-DSA sign failed: "@ + e@,
            CompositeError::Decode(e) => "malformed encoded form: "@ + e@,
            CompositeError::Encode(e) => "encoder failed: "@ + e@,
        }
    }

    /// The error in words.
    pub fn message(&self) -> (r: String)
        ensures
            r@ == self.text(),
    {
        match self {
            CompositeError::ClassicalFailed => "classical signature did not verify".to_owned(),
            CompositeError::PqcFailed => "pqc signature did not verify".to_owned(),
            CompositeError::KeyGen(e) => text::joined("ML-DSA keygen failed: ", e),
            CompositeError::Sign(e) => text::joined("ML-DSA sign failed: ", e),
            CompositeError::Decode(e) => text::joined("malformed encoded form: ", e.as_str()),
            CompositeError::Encode(e) => text::joined("encoder failed: ", e.as_str()),
        }
    }
}

/// The hash input of a transcript.
pub open spec fn transcript_input(ctx: Seq<u8>, msg: Seq<u8>) -> Seq<u8> {
    vstd::utf8::encode_utf8(DOMAIN_TAG@) + bytes::be64(ctx.len() as u64) + ctx + msg
}

/// The digest that both halves sign.
pub open spec fn transcript_digest(ctx: Seq<u8>, msg: Seq<u8>) -> [u8; 48] {
    hash::sha3_384_of(transcript_input(ctx, msg))
}

/// The hash of `ctx` and `msg` that both halves sign.
pub fn transcript_hash(ctx: &[u8], msg: &[u8]) -> (r: [u8; 48])
    ensures
        r == transcript_digest(ctx@, msg@),
{
    let mut input: Vec<u8> = Vec::new();
    input.extend_from_slice(DOMAIN_TAG.as_bytes());
    let len: u64 = ctx.len() as u64;
    input.extend_from_slice(u64_to_be(len).as_slice());
    input.extend_from_slice(ctx);
    input.extend_from_slice(msg);
    assert(input@ =~= transcript_input(ctx@, msg@));
    let r = hash::sha3_384(input.as_slice());
    assert(r =~= transcript_digest(ctx@, msg@));
    r
}

/// Different pairs of context and message have different hash inputs: the
/// length prefix keeps bytes from moving between the two.
pub proof fn law_transcript_injective(
    ctx1: Seq<u8>,
    msg1: Seq<u8>,
    ctx2: Seq<u8>,
    msg2: Seq<u8>,
)
    requires
        ctx1.len() <= u64::MAX,
        ctx2.len() <= u64::MAX,
        transcript_input(ctx1, msg1) == transcript_input(ctx2, msg2),
    ensures
        ctx1 == ctx2,
        msg1 == msg2,
{
    let tag = vstd::utf8::encode_utf8(DOMAIN_TAG@);
    let a = transcript_input(ctx1, msg1);
    let b = transcript_input(ctx2, msg2);
    let n = tag.len() as int;
    assert(bytes::be64(ctx1.len() as u64) =~= a.subrange(n, n + 8));
    assert(bytes::be64(ctx2.len() as u64) =~= b.subrange(n, n + 8));
    bytes::lemma_be64_injective(ctx1.len() as u64, ctx2.len() as u64);
    let m = ctx1.len() as int;
    assert(ctx1 =~= a.subrange(n + 8, n + 8 + m));
    assert(ctx2 =~= b.subrange(n + 8, n + 8 + m));
    assert(msg1 =~= a.skip(n + 8 + m));
    assert(msg2 =~= b.skip(n + 8 + m));
}

/// Composite signature value.
#[derive(Debug, Clone, PartialEq, Eq)]
pub struct CompositeSignature {
    /// Ed25519 signature.
    pub classical: [u8; 64],
    /// ML-DSA-65 signature.
    pub pqc: Vec<u8>,
}

/// The contents of a [`CompositeSignature`].
pub struct SignatureModel {
    pub classical: Seq<u8>,
    pub pqc: Seq<u8>,
}

impl View for CompositeSignature {
    type V = SignatureModel;

    open spec fn view(&self) -> SignatureModel {
        SignatureModel { classical: self.classical@, pqc: self.pqc@ }
    }
}

/// The concatenated form of a signature.
pub open spec fn signature_bytes(sig: SignatureModel) -> Seq<u8> {
    sig.classical + sig.pqc
}

/// The signature that 3373 bytes stand for.
pub open spec fn signature_from(b: Seq<u8>) -> SignatureModel {
    SignatureModel { classical: b.subrange(0, 64), pqc: b.skip(64) }
}

/// What is said of a byte string of the wrong length.
pub open spec fn length_fault(what: Seq<char>, want: nat, got: nat) -> Seq<char> {
    what + " must be "@ + text::decimal(want) + " bytes, got "@ + text::decimal(got)
}

fn length_message(what: &str, want: u64, got: u64) -> (r: String)
    ensures
        r@ == length_fault(what@, want as nat, got as nat),
{
    let mut r = text::joined(what, " must be ");
    r.append(text::decimal_text(want).as_str());
    r.append(" bytes, got ");
    r.append(text::decimal_text(got).as_str());
    assert(r@ =~= length_fault(what@, want as nat, got as nat));
    r
}

/// The DER form of a signature with algorithm identifier `oid`.
pub open spec fn der_form(oid: Seq<u8>, sig: SignatureModel) -> Seq<u8> {
    der::element(
        der::TAG_SEQUENCE,
        der::element(der::TAG_OID, oid) + (der::element(der::TAG_OCTET_STRING, sig.classical)
            + der::element(der::TAG_OCTET_STRING, sig.pqc)),
    )
}

/// The algorithm identifier and the two octet strings of a DER form, if `b` is
/// one in whole.
pub open spec fn der_parts(b: Seq<u8>) -> Option<(Seq<u8>, SignatureModel)> {
    match der::read_element(b, der::TAG_SEQUENCE) {
        None => None,
        Some((body, after)) => match der::read_element(body, der::TAG_OID) {
            None => None,
            Some((oid, body)) => match der::read_element(body, der::TAG_OCTET_STRING) {
                None => None,
                Some((classical, body)) => match der::read_element(body, der::TAG_OCTET_STRING) {
                    None => None,
                    Some((pqc, body)) => if after.len() == 0 && body.len() == 0 {
                        Some((oid, SignatureModel { classical, pqc }))
                    } else {
                        None
                    },
                },
            },
        },
    }
}

/// The signature that a DER form stands for, or what is said of `b` instead.
pub open spec fn signature_from_der(b: Seq<u8>) -> Result<SignatureModel, Seq<char>> {
    match der_parts(b) {
        None => Err("der: not a composite signature"@),
        Some((oid, sig)) => if oid != COMPOSITE_OID_OCTETS@ {
            match der::oid_notation(oid) {
                Some(t) => Err("unexpected algorithm OID: "@ + t),
                None => Err("der: not a composite signature"@),
            }
        } else if sig.classical.len() != ED25519_SIG_LEN {
            Err("classical OCTET STRING must be 64 bytes"@)
        } else if sig.pqc.len() != MLDSA65_SIG_LEN {
            Err("pqc OCTET STRING must be 3309 bytes"@)
        } else {
            Ok(sig)
        },
    }
}

impl CompositeSignature {
    /// A copy of this signature.
    pub fn duplicate(&self) -> (r: Self)
        ensures
            r@ == self@,
    {
        CompositeSignature { classical: self.classical, pqc: slice_to_vec(self.pqc.as_slice()) }
    }

    /// Encode as `classical(64) || pqc`.
    pub fn to_concat_bytes(&self) -> (r: Vec<u8>)
        ensures
            r@ == signature_bytes(self@),
    {
        let mut out: Vec<u8> = Vec::new();
        out.extend_from_slice(self.classical.as_slice());
        out.extend_from_slice(self.pqc.as_slice());
        assert(out@ =~= signature_bytes(self@));
        out
    }

    /// Decode `classical(64) || pqc(3309)`.
    pub fn from_concat_bytes(bytes: &[u8]) -> (r: Result<Self, CompositeError>)
        ensures
            r is Ok <==> bytes@.len() == COMPOSITE_SIG_LEN,
            r matches Ok(sig) ==> sig@ == signature_from(bytes@) && signature_bytes(sig@) == bytes@,
            r matches Err(e) ==> e matches CompositeError::Decode(m) && m@ == length_fault(
                "composite signature"@,
                COMPOSITE_SIG_LEN as nat,
                bytes@.len(),
            ),
    {
        let n: usize = bytes.len();
        if n != COMPOSITE_SIG_LEN {
            return Err(
                CompositeError::Decode(
                    length_message("composite signature", COMPOSITE_SIG_LEN as u64, n as u64),
                ),
            );
        }
        let classical: [u8; 64] = take_array::<64>(bytes, 0);
        let pqc = slice_to_vec(slice_subrange(bytes, 64, n));
        let sig = CompositeSignature { classical, pqc };
        assert(sig@.pqc =~= bytes@.skip(64));
        assert(signature_bytes(sig@) =~= bytes@);
        Ok(sig)
    }

    /// Encode as DER. Only a signature too long for a DER length is refused.
    pub fn to_der(&self) -> (r: Result<Vec<u8>, CompositeError>)
        ensures
            r is Ok <==> der_form(COMPOSITE_OID_OCTETS@, self@).len() <= der::MAX_LENGTH,
            r matches Ok(b) ==> b@ == der_form(COMPOSITE_OID_OCTETS@, self@),
            r matches Err(e) ==> e matches CompositeError::Encode(m) && m@
                == "signature exceeds the DER length limit"@,
    {
        let oid = COMPOSITE_OID_OCTETS;
        let ghost form = der_form(oid@, self@);
        proof {
            lemma_element_len(der::TAG_OCTET_STRING, self.pqc@);
            lemma_element_len(der::TAG_OCTET_STRING, self.classical@);
            lemma_element_len(der::TAG_OID, oid@);
        }
        if self.pqc.len() > der::MAX_LENGTH {
            proof {
                lemma_form_len(oid@, self@);
            }
            return Err(
                CompositeError::Encode("signature exceeds the DER length limit".to_owned()),
            );
        }
        let mut body: Vec<u8> = Vec::new();
        der::push_element(&mut body, der::TAG_OID, oid.as_slice());
        der::push_element(&mut body, der::TAG_OCTET_STRING, self.classical.as_slice());
        der::push_element(&mut body, der::TAG_OCTET_STRING, self.pqc.as_slice());
        let ghost inner = der::element(der::TAG_OID, oid@) + (der::element(
            der::TAG_OCTET_STRING,
            self.classical@,
        ) + der::element(der::TAG_OCTET_STRING, self.pqc@));
        assert(body@ =~= inner);
        proof {
            lemma_element_len(der::TAG_SEQUENCE, inner);
        }
        if body.len() > der::MAX_LENGTH {
            return Err(
                CompositeError::Encode("signature exceeds the DER length limit".to_owned()),
            );
        }
        let mut out: Vec<u8> = Vec::new();
        der::push_element(&mut out, der::TAG_SEQUENCE, body.as_slice());
        assert(out@ =~= form);
        if out.len() > der::MAX_LENGTH {
            return Err(
                CompositeError::Encode("signature exceeds the DER length limit".to_owned()),
            );
        }
        Ok(out)
    }

    /// Decode from DER. The algorithm identifier, both lengths and the end of
    /// the input are checked.
    pub fn from_der(b: &[u8]) -> (r: Result<Self, CompositeError>)
        ensures
            match r {
                Ok(sig) => signature_from_der(b@) == Ok::<_, Seq<char>>(sig@),
                Err(e) => e matches CompositeError::Decode(m) && signature_from_der(b@) == Err::<
                    SignatureModel,
                    _,
                >(m@),
            },
    {
        let malformed = "der: not a composite signature";
        let (body, after) = match der::take_element(b, der::TAG_SEQUENCE) {
            Some(x) => x,
            None => return Err(CompositeError::Decode(malformed.to_owned())),
        };
        let (oid, body) = match der::take_element(body, der::TAG_OID) {
            Some(x) => x,
            None => return Err(CompositeError::Decode(malformed.to_owned())),
        };
        let (classical, body) = match der::take_element(body, der::TAG_OCTET_STRING) {
            Some(x) => x,
            None => return Err(CompositeError::Decode(malformed.to_owned())),
        };
        let (pqc, body) = match der::take_element(body, der::TAG_OCTET_STRING) {
            Some(x) => x,
            None => return Err(CompositeError::Decode(malformed.to_owned())),
        };
        if after.len() != 0 || body.len() != 0 {
            return Err(CompositeError::Decode(malformed.to_owned()));
        }
        let expected = COMPOSITE_OID_OCTETS;
        if !bytes_equal(oid, expected.as_slice()) {
            return match der::oid_text(oid) {
                Some(t) => Err(
                    CompositeError::Decode(text::joined("unexpected algorithm OID: ", t.as_str())),
                ),
                None => Err(CompositeError::Decode(malformed.to_owned())),
            };
        }
        if classical.len() != ED25519_SIG_LEN {
            return Err(
                CompositeError::Decode("classical OCTET STRING must be 64 bytes".to_owned()),
            );
        }
        if pqc.len() != MLDSA65_SIG_LEN {
            return Err(CompositeError::Decode("pqc OCTET STRING must be 3309 bytes".to_owned()));
        }
        let sig = CompositeSignature {
            classical: take_array::<64>(classical, 0),
            pqc: slice_to_vec(pqc),
        };
        assert(sig@.classical =~= classical@);
        Ok(sig)
    }

    /// Encode as unpadded URL-safe Base64 of the concatenated form.
    pub fn to_jws_base64url(&self) -> (r: String)
        ensures
            r@ == encoding::base64url_text(signature_bytes(self@)),
            encoding::base64url_value(vstd::utf8::encode_utf8(r@)) == Ok::<_, Seq<char>>(
                signature_bytes(self@),
            ),
    {
        encoding::base64url_encode(self.to_concat_bytes().as_slice())
    }

    /// Decode from unpadded URL-safe Base64.
    pub fn from_jws_base64url(s: &str) -> (r: Result<Self, CompositeError>)
        ensures
            match r {
                Ok(sig) => encoding::base64url_value(vstd::utf8::encode_utf8(s@)) == Ok::<
                    _,
                    Seq<char>,
                >(signature_bytes(sig@)) && sig@.pqc.len() == MLDSA65_SIG_LEN,
                Err(e) => e matches CompositeError::Decode(m) && match encoding::base64url_value(
                    vstd::utf8::encode_utf8(s@),
                ) {
                    Err(fault) => m@ == "base64url: "@ + fault,
                    Ok(b) => b.len() != COMPOSITE_SIG_LEN && m@ == length_fault(
                        "composite signature"@,
                        COMPOSITE_SIG_LEN as nat,
                        b.len(),
                    ),
                },
            },
    {
        match encoding::base64url_decode(s.as_bytes()) {
            Ok(b) => CompositeSignature::from_concat_bytes(b.as_slice()),
            Err(e) => Err(CompositeError::Decode(text::joined("base64url: ", e.as_str()))),
        }
    }
}

proof fn lemma_element_len(tag: u8, contents: Seq<u8>)
    ensures
        der::element(tag, contents).len() == 1 + der::length_octets(contents.len()).len()
            + contents.len(),
        1 <= der::length_octets(contents.len()).len() <= 5,
{
}

proof fn lemma_form_len(oid: Seq<u8>, sig: SignatureModel)
    ensures
        der_form(oid, sig).len() > sig.pqc.len(),
{
    lemma_element_len(der::TAG_OID, oid);
    lemma_element_len(der::TAG_OCTET_STRING, sig.classical);
    lemma_element_len(der::TAG_OCTET_STRING, sig.pqc);
    lemma_element_len(
        der::TAG_SEQUENCE,
        der::element(der::TAG_OID, oid) + (der::element(der::TAG_OCTET_STRING, sig.classical)
            + der::element(der::TAG_OCTET_STRING, sig.pqc)),
    );
}

/// The concatenated form is read back as the signature it was made from.
pub proof fn law_concat_roundtrip(sig: SignatureModel)
    requires
        sig.classical.len() == ED25519_SIG_LEN,
        sig.pqc.len() == MLDSA65_SIG_LEN,
    ensures
        signature_bytes(sig).len() == COMPOSITE_SIG_LEN,
        signature_from(signature_bytes(sig)) == sig,
{
    let b = signature_bytes(sig);
    assert(b.subrange(0, 64) =~= sig.classical);
    assert(b.skip(64) =~= sig.pqc);
}

/// DER decoding accepts the DER form of a signature with halves of the right
/// lengths, as that signature, and nothing else.
pub proof fn law_der_roundtrip(b: Seq<u8>, sig: SignatureModel)
    ensures
        signature_from_der(b) == Ok::<_, Seq<char>>(sig) <==> b == der_form(
            COMPOSITE_OID_OCTETS@,
            sig,
        ) && sig.classical.len() == ED25519_SIG_LEN && sig.pqc.len() == MLDSA65_SIG_LEN,
{
    let none = Seq::<u8>::empty();
    let oid = COMPOSITE_OID_OCTETS@;
    let e_pqc = der::element(der::TAG_OCTET_STRING, sig.pqc);
    let e_classical = der::element(der::TAG_OCTET_STRING, sig.classical);
    let e_oid = der::element(der::TAG_OID, oid);
    let body = e_oid + (e_classical + e_pqc);
    let form = der_form(oid, sig);
    assert(e_pqc + none =~= e_pqc);
    assert(form + none =~= form);
    if sig.classical.len() == ED25519_SIG_LEN && sig.pqc.len() == MLDSA65_SIG_LEN {
        lemma_element_len(der::TAG_OID, oid);
        lemma_element_len(der::TAG_OCTET_STRING, sig.classical);
        lemma_element_len(der::TAG_OCTET_STRING, sig.pqc);
        der::lemma_element(none, der::TAG_OCTET_STRING, sig.pqc, none);
        der::lemma_element(none, der::TAG_OCTET_STRING, sig.classical, e_pqc);
        der::lemma_element(none, der::TAG_OID, oid, e_classical + e_pqc);
        der::lemma_element(none, der::TAG_SEQUENCE, body, none);
        assert(der_parts(form) == Some((oid, sig)));
    }
    if signature_from_der(b) == Ok::<_, Seq<char>>(sig) {
        let r1 = der::read_element(b, der::TAG_SEQUENCE)->0;
        let r2 = der::read_element(r1.0, der::TAG_OID)->0;
        let r3 = der::read_element(r2.1, der::TAG_OCTET_STRING)->0;
        let r4 = der::read_element(r3.1, der::TAG_OCTET_STRING)->0;
        der::lemma_element(b, der::TAG_SEQUENCE, r1.0, r1.1);
        der::lemma_element(r1.0, der::TAG_OID, r2.0, r2.1);
        der::lemma_element(r2.1, der::TAG_OCTET_STRING, r3.0, r3.1);
        der::lemma_element(r3.1, der::TAG_OCTET_STRING, r4.0, r4.1);
        assert(r1.1 =~= none);
        assert(r4.1 =~= none);
        assert(r3.1 =~= e_pqc);
        assert(b =~= form);
    }
}

/// Composite public key.
#[derive(Debug, Clone, Copy)]
pub struct CompositePublicKey {
    ed25519: [u8; 32],
    mldsa65: [u8; 1952],
}

/// The contents of a [`CompositePublicKey`].
pub struct PublicKeyModel {
    pub ed25519: Seq<u8>,
    pub mldsa65: Seq<u8>,
}

/// Whether both halves of a key decode.
pub open spec fn key_decodes(key: PublicKeyModel) -> bool {
    &&& key.ed25519.len() == ED25519_PK_LEN
    &&& key.mldsa65.len() == MLDSA65_PK_LEN
    &&& signature::ed25519_key_fault(key.ed25519) is None
    &&& signature::mldsa65_key_fault(key.mldsa65) is None
}

/// The concatenated form of a public key.
pub open spec fn key_bytes(key: PublicKeyModel) -> Seq<u8> {
    key.ed25519 + key.mldsa65
}

/// The halves of 1984 bytes.
pub open spec fn key_halves(b: Seq<u8>) -> PublicKeyModel {
    PublicKeyModel { ed25519: b.subrange(0, 32), mldsa65: b.skip(32) }
}

/// The key that a byte string stands for, or what is said of it instead.
pub open spec fn key_from(b: Seq<u8>) -> Result<PublicKeyModel, Seq<char>> {
    let halves = key_halves(b);
    if b.len() != COMPOSITE_PK_LEN {
        Err(length_fault("composite public key"@, COMPOSITE_PK_LEN as nat, b.len()))
    } else {
        match signature::ed25519_key_fault(halves.ed25519) {
            Some(fault) => Err("ed25519 pk: "@ + fault),
            None => match signature::mldsa65_key_fault(halves.mldsa65) {
                Some(fault) => Err("ml-dsa-65 pk: "@ + fault),
                None => Ok(halves),
            },
        }
    }
}

/// Whether the classical half of `sig` verifies.
pub open spec fn classical_accepts(
    key: PublicKeyModel,
    ctx: Seq<u8>,
    msg: Seq<u8>,
    sig: SignatureModel,
) -> bool {
    signature::ed25519_accepts(key.ed25519, transcript_digest(ctx, msg)@, sig.classical)
}

/// Whether the post-quantum half of `sig` has the right length and verifies.
pub open spec fn pqc_accepts(
    key: PublicKeyModel,
    ctx: Seq<u8>,
    msg: Seq<u8>,
    sig: SignatureModel,
) -> bool {
    sig.pqc.len() == MLDSA65_SIG_LEN && signature::mldsa65_accepts(
        key.mldsa65,
        transcript_digest(ctx, msg)@,
        sig.pqc,
        Seq::empty(),
    )
}

/// Whether `sig` is a valid composite signature: both halves verify.
pub open spec fn accepts(
    key: PublicKeyModel,
    ctx: Seq<u8>,
    msg: Seq<u8>,
    sig: SignatureModel,
) -> bool {
    classical_accepts(key, ctx, msg, sig) && pqc_accepts(key, ctx, msg, sig)
}

/// Why a signature that is not valid is refused; the classical half is checked
/// first.
pub open spec fn refusal(
    key: PublicKeyModel,
    ctx: Seq<u8>,
    msg: Seq<u8>,
    sig: SignatureModel,
) -> CompositeError {
    if classical_accepts(key, ctx, msg, sig) {
        CompositeError::PqcFailed
    } else {
        CompositeError::ClassicalFailed
    }
}

impl View for CompositePublicKey {
    type V = PublicKeyModel;

    closed spec fn view(&self) -> PublicKeyModel {
        PublicKeyModel { ed25519: self.ed25519@, mldsa65: self.mldsa65@ }
    }
}

impl CompositePublicKey {
    #[verifier::type_invariant]
    spec fn inv(&self) -> bool {
        key_decodes(self@)
    }

    /// Build a key from its two encoded halves, if both decode.
    pub fn from_parts(ed25519: [u8; 32], mldsa65: [u8; 1952]) -> (r: Result<Self, CompositeError>)
        ensures
            match r {
                Ok(key) => key@ == (PublicKeyModel { ed25519: ed25519@, mldsa65: mldsa65@ })
                    && key_decodes(key@),
                Err(e) => e matches CompositeError::Decode(m)
                    && match signature::ed25519_key_fault(ed25519@) {
                    Some(fault) => m@ == "ed25519 pk: "@ + fault,
                    None => signature::mldsa65_key_fault(mldsa65@) matches Some(fault) && m@
                        == "ml-dsa-65 pk: "@ + fault,
                },
            },
    {
        if let Err(e) = signature::ed25519_check_key(&ed25519) {
            return Err(CompositeError::Decode(text::joined("ed25519 pk: ", e.as_str())));
        }
        if let Err(e) = signature::mldsa65_check_key(&mldsa65) {
            return Err(CompositeError::Decode(text::joined("ml-dsa-65 pk: ", e.as_str())));
        }
        Ok(CompositePublicKey { ed25519, mldsa65 })
    }

    /// The encoded classical half.
    pub fn ed25519(&self) -> (r: &[u8; 32])
        ensures
            r@ == self@.ed25519,
    {
        &self.ed25519
    }

    /// The encoded post-quantum half.
    pub fn mldsa65(&self) -> (r: &[u8; 1952])
        ensures
            r@ == self@.mldsa65,
    {
        &self.mldsa65
    }

    /// Encode as `ed25519(32) || mldsa65(1952)`, which decodes to this key.
    pub fn to_concat_bytes(&self) -> (r: Vec<u8>)
        ensures
            r@ == key_bytes(self@),
            r@.len() == COMPOSITE_PK_LEN,
            key_from(r@) == Ok::<_, Seq<char>>(self@),
    {
        proof {
            use_type_invariant(self);
        }
        let mut out: Vec<u8> = Vec::new();
        out.extend_from_slice(self.ed25519.as_slice());
        out.extend_from_slice(self.mldsa65.as_slice());
        assert(out@ =~= key_bytes(self@));
        assert(out@.subrange(0, 32) =~= self@.ed25519);
        assert(out@.skip(32) =~= self@.mldsa65);
        out
    }

    /// Decode `ed25519(32) || mldsa65(1952)`.
    pub fn from_concat_bytes(b: &[u8]) -> (r: Result<Self, CompositeError>)
        ensures
            match r {
                Ok(key) => key_from(b@) == Ok::<_, Seq<char>>(key@) && key_bytes(key@) == b@
                    && key_decodes(key@),
                Err(e) => e matches CompositeError::Decode(m) && key_from(b@) == Err::<
                    PublicKeyModel,
                    _,
                >(m@),
            },
    {
        let n: usize = b.len();
        if n != COMPOSITE_PK_LEN {
            return Err(
                CompositeError::Decode(
                    length_message("composite public key", COMPOSITE_PK_LEN as u64, n as u64),
                ),
            );
        }
        let ed25519: [u8; 32] = take_array::<32>(b, 0);
        let mldsa65: [u8; 1952] = take_array::<1952>(b, 32);
        assert(mldsa65@ =~= b@.skip(32));
        assert(ed25519@ + mldsa65@ =~= b@);
        CompositePublicKey::from_parts(ed25519, mldsa65)
    }

    /// Verify a composite signature. Both halves must verify; the classical
    /// one is checked first.
    pub fn verify(&self, ctx: &[u8], msg: &[u8], sig: &CompositeSignature) -> (r: Result<
        (),
        CompositeError,
    >)
        ensures
            r is Ok <==> accepts(self@, ctx@, msg@, sig@),
            r matches Err(e) ==> e == refusal(self@, ctx@, msg@, sig@),
    {
        let h = transcript_hash(ctx, msg);
        if !signature::ed25519_verify_strict(&self.ed25519, h.as_slice(), &sig.classical) {
            return Err(CompositeError::ClassicalFailed);
        }
        if sig.pqc.len() != MLDSA65_SIG_LEN {
            return Err(CompositeError::PqcFailed);
        }
        let pqc: [u8; 3309] = take_array::<3309>(sig.pqc.as_slice(), 0);
        assert(pqc@ =~= sig.pqc@);
        let no_ctx: Vec<u8> = Vec::new();
        if !signature::mldsa65_verify(&self.mldsa65, h.as_slice(), &pqc, no_ctx.as_slice()) {
            return Err(CompositeError::PqcFailed);
        }
        Ok(())
    }
}

/// Composite secret key: the seeds that the two key pairs are derived from. They
/// are wiped when the key is dropped.
pub struct CompositeSecretKey {
    ed25519: [u8; 32],
    mldsa65: [u8; 32],
}

/// The contents of a [`CompositeSecretKey`].
pub struct SecretKeyModel {
    pub ed25519: Seq<u8>,
    pub mldsa65: Seq<u8>,
}

/// The public key that belongs to a secret key.
pub open spec fn public_of(secret: SecretKeyModel) -> PublicKeyModel {
    PublicKeyModel {
        ed25519: signature::ed25519_public_of(secret.ed25519)@,
        mldsa65: signature::mldsa65_public_of(secret.mldsa65)@,
    }
}

/// The classical half that `secret` produces.
pub open spec fn classical_signature(
    secret: SecretKeyModel,
    ctx: Seq<u8>,
    msg: Seq<u8>,
) -> Seq<u8> {
    signature::ed25519_signature_of(secret.ed25519, transcript_digest(ctx, msg)@)@
}

/// Whether the classical half has the one first half, of probability `2^-252`,
/// that strict verification refuses whatever the key.
pub open spec fn degenerate(sig: SignatureModel) -> bool {
    sig.classical.subrange(0, 32) == signature::ed25519_neutral_point()
}

/// Whether `sig` can come out of signing with `secret`: its classical half is
/// the one that the key determines, its post-quantum half verifies.
pub open spec fn made_by(
    secret: SecretKeyModel,
    ctx: Seq<u8>,
    msg: Seq<u8>,
    sig: SignatureModel,
) -> bool {
    &&& sig.classical == classical_signature(secret, ctx, msg)
    &&& sig.classical.len() == ED25519_SIG_LEN
    &&& pqc_accepts(public_of(secret), ctx, msg, sig)
    &&& !degenerate(sig) ==> accepts(public_of(secret), ctx, msg, sig)
}

/// Whether the post-quantum signer failed on a digest, for a reason.
pub closed spec fn pqc_failed(secret: SecretKeyModel, digest: Seq<u8>, reason: &'static str) -> bool {
    exists|seed: &[u8; 32], d: &[u8], no_ctx: &[u8]|
        seed@ == secret.mldsa65 && d@ == digest && no_ctx@ == Seq::<u8>::empty() && #[trigger]
        call_ensures(
            signature::mldsa65_sign,
            (seed, d, no_ctx),
            Err::<[u8; 3309], _>(reason),
        )
}

/// Whether an error says that signing failed, and why: the post-quantum signer
/// gave it.
pub open spec fn sign_failed(
    secret: SecretKeyModel,
    ctx: Seq<u8>,
    msg: Seq<u8>,
    e: CompositeError,
) -> bool {
    e matches CompositeError::Sign(reason) && pqc_failed(
        secret,
        transcript_digest(ctx, msg)@,
        reason,
    )
}

/// What is said where no random numbers could be drawn.
pub open spec fn no_random_numbers() -> CompositeError {
    CompositeError::KeyGen("KeyGen: Random number generator failed")
}

/// What key generation gives for two draws, the classical seed's first.
pub open spec fn generated(
    ed25519: Result<[u8; 32], String>,
    mldsa65: Result<[u8; 32], String>,
) -> Result<SecretKeyModel, CompositeError> {
    match (ed25519, mldsa65) {
        (Ok(e), Ok(m)) => Ok(SecretKeyModel { ed25519: e@, mldsa65: m@ }),
        _ => Err(no_random_numbers()),
    }
}

impl View for CompositeSecretKey {
    type V = SecretKeyModel;

    closed spec fn view(&self) -> SecretKeyModel {
        SecretKeyModel { ed25519: self.ed25519@, mldsa65: self.mldsa65@ }
    }
}

impl Drop for CompositeSecretKey {
    /// Both seeds are overwritten with zeros.
    fn drop(&mut self)
        ensures
            final(self)@ == (SecretKeyModel {
                ed25519: bytes::zeros_32(),
                mldsa65: bytes::zeros_32(),
            }),
        opens_invariants none
        no_unwind
    {
        bytes::wipe_32(&mut self.ed25519);
        bytes::wipe_32(&mut self.mldsa65);
    }
}

impl CompositeSecretKey {
    /// A fresh key pair from the operating system's random numbers. The keys
    /// belong together; nothing else is promised of them. Fails only where the
    /// random number generator does.
    pub fn generate() -> (r: Result<(Self, CompositePublicKey), CompositeError>)
        ensures
            exists|ed25519: Result<[u8; 32], String>, mldsa65: Result<[u8; 32], String>|
                #[trigger] signature::drawn(ed25519) && #[trigger] signature::drawn(mldsa65)
                    && match r {
                    Ok((sk, pk)) => generated(ed25519, mldsa65) == Ok::<_, CompositeError>(sk@)
                        && pk@ == public_of(sk@),
                    Err(e) => generated(ed25519, mldsa65) == Err::<SecretKeyModel, _>(e),
                },
    {
        CompositeSecretKey::from_drawn(signature::random_32(), signature::random_32())
    }

    /// The key pair of two seeds that were drawn, if both could be.
    pub fn from_drawn(
        ed25519: Result<[u8; 32], String>,
        mldsa65: Result<[u8; 32], String>,
    ) -> (r: Result<(Self, CompositePublicKey), CompositeError>)
        ensures
            match r {
                Ok((sk, pk)) => generated(ed25519, mldsa65) == Ok::<_, CompositeError>(sk@) && pk@
                    == public_of(sk@),
                Err(e) => generated(ed25519, mldsa65) == Err::<SecretKeyModel, _>(e),
            },
    {
        match (ed25519, mldsa65) {
            (Ok(e), Ok(m)) => Ok(CompositeSecretKey::from_seeds(e, m)),
            _ => Err(CompositeError::KeyGen("KeyGen: Random number generator failed")),
        }
    }

    /// The key pair that one master seed determines.
    pub fn from_seed(seed: &[u8; 32]) -> (r: (Self, CompositePublicKey))
        ensures
            r.0@ == (SecretKeyModel { ed25519: seed@, mldsa65: seed@ }),
            r.1@ == public_of(r.0@),
    {
        CompositeSecretKey::from_seeds(*seed, *seed)
    }

    fn from_seeds(ed25519: [u8; 32], mldsa65: [u8; 32]) -> (r: (Self, CompositePublicKey))
        ensures
            r.0@ == (SecretKeyModel { ed25519: ed25519@, mldsa65: mldsa65@ }),
            r.1@ == public_of(r.0@),
    {
        let classical_public = signature::ed25519_public(&ed25519);
        let pqc_public = signature::mldsa65_public(&mldsa65);
        let pk = CompositePublicKey { ed25519: classical_public, mldsa65: pqc_public };
        (CompositeSecretKey { ed25519, mldsa65 }, pk)
    }

    /// Sign `msg` under context `ctx`. The classical half is determined, the
    /// post-quantum one is randomised; unless the classical half is degenerate
    /// the signature verifies under the public key that belongs to this key.
    pub fn sign(&self, ctx: &[u8], msg: &[u8]) -> (r: Result<CompositeSignature, CompositeError>)
        ensures
            match r {
                Ok(sig) => made_by(self@, ctx@, msg@, sig@),
                Err(e) => sign_failed(self@, ctx@, msg@, e),
            },
    {
        let h = transcript_hash(ctx, msg);
        let classical = signature::ed25519_sign(&self.ed25519, h.as_slice());
        let no_ctx: Vec<u8> = Vec::new();
        let (digest, empty) = (h.as_slice(), no_ctx.as_slice());
        let made = signature::mldsa65_sign(&self.mldsa65, digest, empty);
        assert(call_ensures(signature::mldsa65_sign, (&self.mldsa65, digest, empty), made));
        match made {
            Ok(pqc) => {
                let sig = CompositeSignature { classical, pqc: slice_to_vec(pqc.as_slice()) };
                Ok(sig)
            },
            Err(e) => Err(CompositeError::Sign(e)),
        }
    }

    /// What may be shown of a secret key: nothing of its value.
    pub fn redacted(&self) -> (r: String)
        ensures
            r@ == "CompositeSecretKey(<redacted>)"@,
    {
        "CompositeSecretKey(<redacted>)".to_owned()
    }
}

/// No signature is valid on the strength of one half: where either half fails,
/// the whole fails.
pub proof fn law_both_halves_needed(
    key: PublicKeyModel,
    ctx: Seq<u8>,
    msg: Seq<u8>,
    sig: SignatureModel,
)
    ensures
        !classical_accepts(key, ctx, msg, sig) ==> !accepts(key, ctx, msg, sig) && refusal(
            key,
            ctx,
            msg,
            sig,
        ) is ClassicalFailed,
        classical_accepts(key, ctx, msg, sig) && !pqc_accepts(key, ctx, msg, sig) ==> !accepts(
            key,
            ctx,
            msg,
            sig,
        ) && refusal(key, ctx, msg, sig) is PqcFailed,
{
}

/// A signature is valid just where the Ed25519 half and the ML-DSA-65 half both
/// verify, each under its own key, on the digest of context and message.
pub proof fn law_valid_means_both(
    key: PublicKeyModel,
    ctx: Seq<u8>,
    msg: Seq<u8>,
    sig: SignatureModel,
)
    ensures
        ({
            let digest = hash::sha3_384_of(transcript_input(ctx, msg))@;
            accepts(key, ctx, msg, sig) <==> signature::ed25519_accepts(
                key.ed25519,
                digest,
                sig.classical,
            ) && sig.pqc.len() == MLDSA65_SIG_LEN && signature::mldsa65_accepts(
                key.mldsa65,
                digest,
                sig.pqc,
                Seq::empty(),
            )
        }),
{
}

/// A key whose halves decode is read back from its bytes, and what is read from
/// bytes is a key with just those bytes.
pub proof fn law_key_roundtrip(key: PublicKeyModel, b: Seq<u8>)
    ensures
        key_decodes(key) ==> key_from(key_bytes(key)) == Ok::<_, Seq<char>>(key),
        key_from(b) matches Ok(k) ==> key_decodes(k) && key_bytes(k) == b,
{
    if key_decodes(key) {
        assert(key_bytes(key).subrange(0, 32) =~= key.ed25519);
        assert(key_bytes(key).skip(32) =~= key.mldsa65);
    }
    if key_from(b) is Ok {
        assert(key_bytes(key_halves(b)) =~= b);
    }
}

/// Bytes of the length of a signature are those of one signature.
pub proof fn law_concat_form_exact(b: Seq<u8>)
    requires
        b.len() == COMPOSITE_SIG_LEN,
    ensures
        signature_bytes(signature_from(b)) == b,
        signature_from(b).classical.len() == ED25519_SIG_LEN,
        signature_from(b).pqc.len() == MLDSA65_SIG_LEN,
{
    assert(signature_bytes(signature_from(b)) =~= b);
}

} // verus!
