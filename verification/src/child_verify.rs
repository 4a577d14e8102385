//! Verification of child tokens that are bound to their sender's key.
//!
//! A child token is a compact JWS under a host's composite key. Whoever
//! presents it must also present a proof under the key that the token is bound
//! to, made for the very request at hand: a captured token alone is of no use.
//!
//! The two JSON parts of a token are decoded by the caller, from the bytes that
//! [`header_json`] and [`claims_json`] give, and handed in as results.

use vstd::prelude::*;
use crate::crypto::composite;
use crate::crypto::composite::{CompositePublicKey, CompositeSignature};
use crate::primitives::bytes::take_array;
use crate::primitives::{encoding, hash, json, signature, text};

verus! {

/// Algorithm of child tokens.
pub const CHILD_ALG: &'static str = "MLDSA65+Ed25519";

/// Type of child tokens.
pub const CHILD_TYP: &'static str = "ferrogate-child+jwt";

/// Context of child token signatures.
pub const CHILD_SIGNING_CONTEXT: &'static str = "ferrogate-child-token-v1";

/// Type of composite keys.
pub const COMPOSITE_KTY: &'static str = "FERROGATE-COMPOSITE";

/// Type of proofs.
pub const DPOP_TYP: &'static str = "dpop+jwt";

/// Algorithm of proofs.
pub const DPOP_ALG: &'static str = "EdDSA";

/// Header of a child token.
#[derive(Debug, Clone)]
pub struct Header {
    /// Algorithm.
    pub alg: String,
    /// Type.
    pub typ: String,
    /// The signer's key.
    pub kid: String,
}

/// The key that a token is bound to.
#[derive(Debug, Clone)]
pub struct Cnf {
    /// Its thumbprint.
    pub jkt: String,
}

/// Where a token comes from.
#[derive(Debug, Clone)]
pub struct FerrogateClaim {
    /// Digest of the host's document, in hexadecimal.
    pub parent_svid: String,
    /// Process that asked for the token.
    pub actor_pid: u32,
    /// User that asked for the token.
    pub actor_uid: u32,
    /// Digest of the program that asked for the token, in hexadecimal.
    pub actor_bin: String,
}

/// The claims of a child token. A token is valid from the start.
#[derive(Debug, Clone)]
pub struct ChildClaims {
    /// The host.
    pub iss: String,
    /// The program on the host.
    pub sub: String,
    /// Whom the token is for.
    pub aud: String,
    /// End of validity, Unix seconds.
    pub exp: i64,
    /// When the token was made, Unix seconds.
    pub iat: i64,
    /// Identifier of the token.
    pub jti: String,
    /// The key that the token is bound to.
    pub cnf: Cnf,
    /// Where the token comes from.
    pub ferrogate: FerrogateClaim,
}

/// A published composite key.
#[derive(Debug, Clone)]
pub struct Jwk {
    /// Type.
    pub kty: String,
    /// Identifier.
    pub kid: String,
    /// The key, in unpadded URL-safe Base64.
    pub public: String,
}

/// Published keys.
#[derive(Debug, Clone)]
pub struct JwkSet {
    /// The keys.
    pub keys: Vec<Jwk>,
}

/// A child token that was verified.
#[derive(Debug, Clone)]
pub struct Verified {
    /// Its claims.
    pub claims: ChildClaims,
    /// The signer's key.
    pub kid: String,
}

/// Why a token is refused.
#[derive(Debug, Clone, PartialEq, Eq)]
pub enum VerifyError {
    /// The token has a wrong form.
    Malformed(String),
    /// The token is of another kind.
    UnexpectedHeader(String),
    /// The signer's key is not published.
    UnknownKid(String),
    /// The signature does not verify.
    BadSignature,
    /// The token has expired.
    Expired,
    /// There is no proof.
    MissingDpopProof,
    /// The proof has a wrong form, or its signature does not verify.
    DpopProofInvalid(String),
    /// The proof was made for another request.
    DpopBindingMismatch,
    /// The proof is under another key than the token is bound to.
    DpopThumbprintMismatch,
    /// The proof is too old, or from the future.
    DpopStale,
}

/// The contents of a [`VerifyError`].
pub enum VerifyFault {
    Malformed(Seq<char>),
    UnexpectedHeader(Seq<char>),
    UnknownKid(Seq<char>),
    BadSignature,
    Expired,
    MissingDpopProof,
    DpopProofInvalid(Seq<char>),
    DpopBindingMismatch,
    DpopThumbprintMismatch,
    DpopStale,
}

impl View for VerifyError {
    type V = VerifyFault;

    open spec fn view(&self) -> VerifyFault {
        match self {
            VerifyError::Malformed(m) => VerifyFault::Malformed(m@),
            VerifyError::UnexpectedHeader(m) => VerifyFault::UnexpectedHeader(m@),
            VerifyError::UnknownKid(m) => VerifyFault::UnknownKid(m@),
            VerifyError::BadSignature => VerifyFault::BadSignature,
            VerifyError::Expired => VerifyFault::Expired,
            VerifyError::MissingDpopProof => VerifyFault::MissingDpopProof,
            VerifyError::DpopProofInvalid(m) => VerifyFault::DpopProofInvalid(m@),
            VerifyError::DpopBindingMismatch => VerifyFault::DpopBindingMismatch,
            VerifyError::DpopThumbprintMismatch => VerifyFault::DpopThumbprintMismatch,
            VerifyError::DpopStale => VerifyFault::DpopStale,
        }
    }
}

impl VerifyError {
    /// The error in words.
    pub fn message(&self) -> (r: String)
        ensures
            r@ == fault_text(self@),
    {
        match self {
            VerifyError::Malformed(m) => text::joined("malformed token: ", m.as_str()),
            VerifyError::UnexpectedHeader(m) => text::joined(
                "unexpected JOSE header: ",
                m.as_str(),
            ),
            VerifyError::UnknownKid(m) => text::joined("no key for kid ", m.as_str()),
            VerifyError::BadSignature => "signature did not verify".to_owned(),
            VerifyError::Expired => "token expired".to_owned(),
            VerifyError::MissingDpopProof => "missing DPoP proof".to_owned(),
            VerifyError::DpopProofInvalid(m) => text::joined("invalid DPoP proof: ", m.as_str()),
            VerifyError::DpopBindingMismatch => "DPoP proof does not match the request".to_owned(),
            VerifyError::DpopThumbprintMismatch =>
                "DPoP key thumbprint does not match cnf.jkt".to_owned(),
            VerifyError::DpopStale => "DPoP proof is stale or future-dated".to_owned(),
        }
    }
}

/// What an error says.
pub open spec fn fault_text(f: VerifyFault) -> Seq<char> {
    match f {
        VerifyFault::Malformed(m) => "malformed token: "@ + m,
        VerifyFault::UnexpectedHeader(m) => "unexpected JOSE header: "@ + m,
        VerifyFault::UnknownKid(m) => "no key for kid "@ + m,
        VerifyFault::BadSignature => "signature did not verify"@,
        VerifyFault::Expired => "token expired"@,
        VerifyFault::MissingDpopProof => "missing DPoP proof"@,
        VerifyFault::DpopProofInvalid(m) => "invalid DPoP proof: "@ + m,
        VerifyFault::DpopBindingMismatch => "DPoP proof does not match the request"@,
        VerifyFault::DpopThumbprintMismatch => "DPoP key thumbprint does not match cnf.jkt"@,
        VerifyFault::DpopStale => "DPoP proof is stale or future-dated"@,
    }
}

/// The parts of a token: what stands between its dots.
pub open spec fn parts(token: Seq<char>) -> Seq<Seq<char>> {
    text::pieces_from(token, '.', 0)
}

/// What is said of a token that has not three parts.
pub open spec fn parts_fault(n: nat) -> Seq<char> {
    "expected 3 segments, got "@ + text::decimal(n)
}

/// The bytes of a part in Base64, or why it is none.
pub open spec fn part_bytes(part: Seq<char>) -> Result<Seq<u8>, Seq<char>> {
    encoding::base64url_value(vstd::utf8::encode_utf8(part))
}

/// What a signature covers: the first two parts, with the dot between them.
pub open spec fn signing_input(token: Seq<char>) -> Seq<u8> {
    vstd::utf8::encode_utf8(parts(token)[0] + "."@ + parts(token)[1])
}

fn parts_message(n: usize) -> (r: String)
    ensures
        r@ == parts_fault(n as nat),
{
    let d = text::decimal_text(n as u64);
    text::joined("expected 3 segments, got ", d.as_str())
}

fn covered_text(a: &str, b: &str) -> (r: String)
    ensures
        r@ == a@ + "."@ + b@,
{
    let mut s = text::joined(a, ".");
    s.append(b);
    s
}

/// The bytes of one part of a token, or why there are none.
pub open spec fn json_bytes(token: Seq<char>, i: int) -> Result<Seq<u8>, Seq<char>> {
    let p = parts(token);
    if p.len() != 3 {
        Err(parts_fault(p.len()))
    } else {
        match part_bytes(p[i]) {
            Ok(b) => Ok(b),
            Err(e) => Err("base64url: "@ + e),
        }
    }
}

fn json_part(token: &str, i: usize) -> (r: Result<Vec<u8>, String>)
    requires
        i < 3,
    ensures
        match r {
            Ok(b) => json_bytes(token@, i as int) == Ok::<_, Seq<char>>(b@),
            Err(e) => json_bytes(token@, i as int) == Err::<Seq<u8>, _>(e@),
        },
{
    let p = text::split(token, '.');
    assert(p@.len() == text::views(p@).len());
    if p.len() != 3 {
        return Err(parts_message(p.len()));
    }
    assert(text::views(p@)[i as int] == p@[i as int]@);
    match encoding::base64url_decode(p[i].as_bytes()) {
        Ok(b) => Ok(b),
        Err(e) => Err(text::joined("base64url: ", e.as_str())),
    }
}

/// The JSON of a token's header.
pub fn header_json(token: &str) -> (r: Result<Vec<u8>, String>)
    ensures
        match r {
            Ok(b) => json_bytes(token@, 0) == Ok::<_, Seq<char>>(b@),
            Err(e) => json_bytes(token@, 0) == Err::<Seq<u8>, _>(e@),
        },
{
    json_part(token, 0)
}

/// The JSON of a token's claims.
pub fn claims_json(token: &str) -> (r: Result<Vec<u8>, String>)
    ensures
        match r {
            Ok(b) => json_bytes(token@, 1) == Ok::<_, Seq<char>>(b@),
            Err(e) => json_bytes(token@, 1) == Err::<Seq<u8>, _>(e@),
        },
{
    json_part(token, 1)
}

/// The position of the first key with an identifier, at or after `i`.
pub open spec fn key_from(keys: Seq<Jwk>, kid: Seq<char>, i: int) -> Option<int>
    decreases keys.len() - i,
{
    if i < 0 || i >= keys.len() {
        None
    } else if keys[i].kid@ == kid {
        Some(i)
    } else {
        key_from(keys, kid, i + 1)
    }
}

/// Whether a key is the first with an identifier.
pub open spec fn first_with_kid(keys: Seq<Jwk>, kid: Seq<char>, i: int) -> bool {
    &&& 0 <= i < keys.len()
    &&& keys[i].kid@ == kid
    &&& forall|j: int| 0 <= j < i ==> (#[trigger] keys[j]).kid@ != kid
}

proof fn lemma_key_from(keys: Seq<Jwk>, kid: Seq<char>, from: int)
    requires
        0 <= from <= keys.len(),
    ensures
        match key_from(keys, kid, from) {
            Some(i) => from <= i < keys.len() && keys[i].kid@ == kid && forall|j: int|
                from <= j < i ==> (#[trigger] keys[j]).kid@ != kid,
            None => forall|j: int| from <= j < keys.len() ==> (#[trigger] keys[j]).kid@ != kid,
        },
    decreases keys.len() - from,
{
    if from < keys.len() && keys[from].kid@ != kid {
        lemma_key_from(keys, kid, from + 1);
    }
}

/// Finding misses nothing: a search for the identifier of any key of a set
/// gives the first key that has it, and a search gives nothing only if no key
/// has the identifier.
pub proof fn law_every_key_is_found(keys: Seq<Jwk>, kid: Seq<char>, i: int)
    ensures
        0 <= i < keys.len() && keys[i].kid@ == kid ==> (key_from(keys, kid, 0) matches Some(k)
            && first_with_kid(keys, kid, k) && k <= i),
        key_from(keys, kid, 0) is None <==> forall|j: int|
            0 <= j < keys.len() ==> (#[trigger] keys[j]).kid@ != kid,
        key_from(keys, kid, 0) matches Some(k) ==> first_with_kid(keys, kid, k),
{
    lemma_key_from(keys, kid, 0);
}

impl JwkSet {
    /// The first key with an identifier.
    pub fn find(&self, kid: &str) -> (r: Option<&Jwk>)
        ensures
            match r {
                Some(k) => key_from(self.keys@, kid@, 0) matches Some(i) && *k == self.keys@[i]
                    && first_with_kid(self.keys@, kid@, i),
                None => key_from(self.keys@, kid@, 0) is None && forall|i: int|
                    0 <= i < self.keys@.len() ==> (#[trigger] self.keys@[i]).kid@ != kid@,
            },
    {
        proof {
            lemma_key_from(self.keys@, kid@, 0);
        }
        let mut i: usize = 0;
        while i < self.keys.len()
            invariant
                i <= self.keys@.len(),
                key_from(self.keys@, kid@, 0) == key_from(self.keys@, kid@, i as int),
            decreases self.keys@.len() - i,
        {
            if text::same_text(self.keys[i].kid.as_str(), kid) {
                proof {
                    lemma_key_from(self.keys@, kid@, 0);
                }
                return Some(&self.keys[i]);
            }
            i += 1;
        }
        None
    }
}

/// The composite key that a published key holds, or why it holds none.
pub open spec fn composite_key(public: Seq<char>) -> Result<composite::PublicKeyModel, Seq<char>> {
    match part_bytes(public) {
        Err(e) => Err("jwk pub: "@ + e),
        Ok(b) => match composite::key_from(b) {
            Err(e) => Err("jwk pub: "@ + ("malformed encoded form: "@ + e)),
            Ok(k) => Ok(k),
        },
    }
}

fn decode_key(public: &str) -> (r: Result<CompositePublicKey, String>)
    ensures
        match r {
            Ok(k) => composite_key(public@) == Ok::<_, Seq<char>>(k@),
            Err(e) => composite_key(public@) == Err::<composite::PublicKeyModel, _>(e@),
        },
{
    let b = match encoding::base64url_decode(public.as_bytes()) {
        Ok(b) => b,
        Err(e) => return Err(text::joined("jwk pub: ", e.as_str())),
    };
    match CompositePublicKey::from_concat_bytes(b.as_slice()) {
        Ok(k) => Ok(k),
        Err(e) => Err(text::joined("jwk pub: ", e.message().as_str())),
    }
}

/// What is wrong with a token's signature under a key, if anything is. `sig` is
/// the token's third part.
pub open spec fn signature_fault(
    key: composite::PublicKeyModel,
    input: Seq<u8>,
    sig: Seq<char>,
) -> Option<VerifyFault> {
    match part_bytes(sig) {
        Err(e) => Some(VerifyFault::Malformed("signature b64: "@ + e)),
        Ok(b) => if b.len() == composite::COMPOSITE_SIG_LEN && composite::accepts(
            key,
            vstd::utf8::encode_utf8(CHILD_SIGNING_CONTEXT@),
            input,
            composite::signature_from(b),
        ) {
            None
        } else {
            Some(VerifyFault::BadSignature)
        },
    }
}

fn check_signature(key: &CompositePublicKey, input: &[u8], sig: &str) -> (r: Result<
    (),
    VerifyError,
>)
    ensures
        match r {
            Ok(_) => signature_fault(key@, input@, sig@) is None,
            Err(e) => signature_fault(key@, input@, sig@) == Some(e@),
        },
{
    let b = match encoding::base64url_decode(sig.as_bytes()) {
        Ok(b) => b,
        Err(e) => return Err(VerifyError::Malformed(text::joined("signature b64: ", e.as_str()))),
    };
    let s = match CompositeSignature::from_concat_bytes(b.as_slice()) {
        Ok(s) => s,
        Err(_) => return Err(VerifyError::BadSignature),
    };
    if key.verify(CHILD_SIGNING_CONTEXT.as_bytes(), input, &s).is_err() {
        return Err(VerifyError::BadSignature);
    }
    Ok(())
}

/// What is said of a token before its claims are looked at: nothing, or why it
/// is refused. The checks come in this order: form, header, key, signature.
pub open spec fn envelope_fault(
    token: Seq<char>,
    header: Result<Header, String>,
    keys: Seq<Jwk>,
) -> Option<VerifyFault> {
    let p = parts(token);
    match json_bytes(token, 0) {
        Err(e) => Some(VerifyFault::Malformed(e)),
        Ok(_) => match header {
            Err(e) => Some(VerifyFault::Malformed("json: "@ + e@)),
            Ok(h) => if h.alg@ != CHILD_ALG@ {
                Some(VerifyFault::UnexpectedHeader("alg="@ + h.alg@))
            } else if h.typ@ != CHILD_TYP@ {
                Some(VerifyFault::UnexpectedHeader("typ="@ + h.typ@))
            } else {
                match key_from(keys, h.kid@, 0) {
                    None => Some(VerifyFault::UnknownKid(h.kid@)),
                    Some(i) => if keys[i].kty@ != COMPOSITE_KTY@ {
                        Some(VerifyFault::UnexpectedHeader("kty="@ + keys[i].kty@))
                    } else {
                        match composite_key(keys[i].public@) {
                            Err(e) => Some(VerifyFault::Malformed(e)),
                            Ok(key) => signature_fault(key, signing_input(token), p[2]),
                        }
                    },
                }
            },
        },
    }
}

/// Check everything of a token but its claims.
pub fn check_envelope(token: &str, header: &Result<Header, String>, jwks: &JwkSet) -> (r: Result<
    (),
    VerifyError,
>)
    ensures
        match r {
            Ok(_) => envelope_fault(token@, *header, jwks.keys@) is None,
            Err(e) => envelope_fault(token@, *header, jwks.keys@) == Some(e@),
        },
{
    if let Err(e) = header_json(token) {
        return Err(VerifyError::Malformed(e));
    }
    let h = match header {
        Ok(h) => h,
        Err(e) => return Err(VerifyError::Malformed(text::joined("json: ", e.as_str()))),
    };
    if !text::same_text(h.alg.as_str(), CHILD_ALG) {
        return Err(VerifyError::UnexpectedHeader(text::joined("alg=", h.alg.as_str())));
    }
    if !text::same_text(h.typ.as_str(), CHILD_TYP) {
        return Err(VerifyError::UnexpectedHeader(text::joined("typ=", h.typ.as_str())));
    }
    let jwk = match jwks.find(h.kid.as_str()) {
        Some(k) => k,
        None => return Err(VerifyError::UnknownKid(h.kid.clone())),
    };
    if !text::same_text(jwk.kty.as_str(), COMPOSITE_KTY) {
        return Err(VerifyError::UnexpectedHeader(text::joined("kty=", jwk.kty.as_str())));
    }
    let key = match decode_key(jwk.public.as_str()) {
        Ok(k) => k,
        Err(e) => return Err(VerifyError::Malformed(e)),
    };
    let p = text::split(token, '.');
    assert(p@.len() == text::views(p@).len());
    assert(forall|i: int| 0 <= i < 3 ==> text::views(p@)[i] == (#[trigger] p@[i])@);
    let input = covered_text(p[0], p[1]);
    check_signature(&key, input.as_str().as_bytes(), p[2])
}

/// What is said of a token: nothing, or why it is refused.
pub open spec fn token_fault(
    token: Seq<char>,
    header: Result<Header, String>,
    claims: Result<ChildClaims, String>,
    keys: Seq<Jwk>,
    now: i64,
    leeway_secs: i64,
) -> Option<VerifyFault> {
    match envelope_fault(token, header, keys) {
        Some(f) => Some(f),
        None => match json_bytes(token, 1) {
            Err(e) => Some(VerifyFault::Malformed(e)),
            Ok(_) => match claims {
                Err(e) => Some(VerifyFault::Malformed("json: "@ + e@)),
                Ok(c) => if now - leeway_secs >= c.exp {
                    Some(VerifyFault::Expired)
                } else {
                    None
                },
            },
        },
    }
}

/// Verify a child token at a given time, with leeway for clocks that differ.
/// `header` and `claims` are what decoding the two JSON parts gave. That the
/// sender holds the key that the token is bound to is for [`verify_bound`] to
/// say.
pub fn verify(
    token: &str,
    header: Result<Header, String>,
    claims: Result<ChildClaims, String>,
    jwks: &JwkSet,
    now: i64,
    leeway_secs: i64,
) -> (r: Result<Verified, VerifyError>)
    requires
        i64::MIN <= now - leeway_secs <= i64::MAX,
    ensures
        match r {
            Ok(v) => token_fault(token@, header, claims, jwks.keys@, now, leeway_secs) is None
                && claims == Ok::<_, String>(v.claims) && header is Ok && v.kid
                == header->Ok_0.kid,
            Err(e) => token_fault(token@, header, claims, jwks.keys@, now, leeway_secs) == Some(
                e@,
            ),
        },
{
    check_envelope(token, &header, jwks)?;
    if let Err(e) = claims_json(token) {
        return Err(VerifyError::Malformed(e));
    }
    let c = match claims {
        Ok(c) => c,
        Err(e) => return Err(VerifyError::Malformed(text::joined("json: ", e.as_str()))),
    };
    if now - leeway_secs >= c.exp {
        return Err(VerifyError::Expired);
    }
    match header {
        Ok(h) => Ok(Verified { claims: c, kid: h.kid }),
        Err(e) => Err(VerifyError::Malformed(e)),
    }
}

/// The request that a proof must have been made for.
#[derive(Debug, Clone)]
pub struct DpopExpectation<'a> {
    /// Its method.
    pub htm: &'a str,
    /// Its target.
    pub htu: &'a str,
    /// How old the proof may be, in seconds.
    pub max_age_secs: i64,
}

/// A proof that was verified.
#[derive(Debug, Clone)]
pub struct DpopOk {
    /// Thumbprint of the key that it is under.
    pub jkt: String,
}

/// The key in a proof's header.
#[derive(Debug, Clone)]
pub struct DpopJwk {
    /// Type.
    pub kty: String,
    /// Curve.
    pub crv: String,
    /// The key, in unpadded URL-safe Base64.
    pub x: String,
}

/// Header of a proof.
#[derive(Debug, Clone)]
pub struct DpopHeader {
    /// Type.
    pub typ: String,
    /// Algorithm.
    pub alg: String,
    /// The key that the proof is under.
    pub jwk: DpopJwk,
}

/// The claims of a proof.
#[derive(Debug, Clone)]
pub struct DpopClaims {
    /// Method of the request.
    pub htm: String,
    /// Target of the request.
    pub htu: String,
    /// When the proof was made, Unix seconds.
    pub iat: i64,
}

/// The text of an Ed25519 key whose digest is its thumbprint (RFC 7638).
pub open spec fn thumbprint_text(x: Seq<char>) -> Seq<char> {
    "{\"crv\":\"Ed25519\",\"kty\":\"OKP\",\"x\":\""@ + x + "\"}"@
}

/// The thumbprint of an Ed25519 key (RFC 7638).
pub open spec fn thumbprint(x: Seq<char>) -> Seq<char> {
    encoding::base64url_text(hash::sha256_of(vstd::utf8::encode_utf8(thumbprint_text(x)))@)
}

/// The thumbprint of an Ed25519 key (RFC 7638), given in unpadded URL-safe
/// Base64.
pub fn jwk_thumbprint_ed25519(x_b64url: &str) -> (r: String)
    ensures
        r@ == thumbprint(x_b64url@),
{
    let mut canonical = text::joined("{\"crv\":\"Ed25519\",\"kty\":\"OKP\",\"x\":\"", x_b64url);
    canonical.append("\"}");
    let digest = hash::sha256(canonical.as_str().as_bytes());
    encoding::base64url_encode(digest.as_slice())
}

/// The Ed25519 key in a proof's header, or why it holds none.
pub open spec fn proof_key(x: Seq<char>) -> Result<Seq<u8>, Seq<char>> {
    match part_bytes(x) {
        Err(e) => Err("jwk x b64: "@ + e),
        Ok(b) => if b.len() != 32 {
            Err("jwk x length"@)
        } else {
            match signature::ed25519_key_fault(b) {
                Some(e) => Err("jwk x point: "@ + e),
                None => Ok(b),
            }
        },
    }
}

fn decode_proof_key(x: &str) -> (r: Result<[u8; 32], String>)
    ensures
        match r {
            Ok(k) => proof_key(x@) == Ok::<_, Seq<char>>(k@),
            Err(e) => proof_key(x@) == Err::<Seq<u8>, _>(e@),
        },
{
    let b = match encoding::base64url_decode(x.as_bytes()) {
        Ok(b) => b,
        Err(e) => return Err(text::joined("jwk x b64: ", e.as_str())),
    };
    if b.len() != 32 {
        return Err("jwk x length".to_owned());
    }
    let key: [u8; 32] = take_array::<32>(b.as_slice(), 0);
    assert(key@ =~= b@);
    match signature::ed25519_check_key(&key) {
        Ok(()) => Ok(key),
        Err(e) => Err(text::joined("jwk x point: ", e.as_str())),
    }
}

/// What is wrong with a proof's signature under a key, if anything is. `sig` is
/// the proof's third part.
pub open spec fn proof_signature_fault(key: Seq<u8>, input: Seq<u8>, sig: Seq<char>) -> Option<
    Seq<char>,
> {
    match part_bytes(sig) {
        Err(e) => Some("sig b64: "@ + e),
        Ok(b) => if b.len() != 64 {
            Some("sig length"@)
        } else if !signature::ed25519_accepts(key, input, b) {
            Some("bad proof signature"@)
        } else {
            None
        },
    }
}

fn check_proof_signature(key: &[u8; 32], input: &[u8], sig: &str) -> (r: Result<(), String>)
    ensures
        match r {
            Ok(_) => proof_signature_fault(key@, input@, sig@) is None,
            Err(e) => proof_signature_fault(key@, input@, sig@) == Some(e@),
        },
{
    let b = match encoding::base64url_decode(sig.as_bytes()) {
        Ok(b) => b,
        Err(e) => return Err(text::joined("sig b64: ", e.as_str())),
    };
    if b.len() != 64 {
        return Err("sig length".to_owned());
    }
    let s: [u8; 64] = take_array::<64>(b.as_slice(), 0);
    assert(s@ =~= b@);
    if !signature::ed25519_verify_strict(key, input, &s) {
        return Err("bad proof signature".to_owned());
    }
    Ok(())
}

/// What is said of a proof before its claims are looked at: nothing, or why it
/// is invalid. The checks come in this order: form, header, key, signature.
pub open spec fn proof_envelope_fault(
    proof_jws: Seq<char>,
    header: Result<DpopHeader, String>,
) -> Option<Seq<char>> {
    match json_bytes(proof_jws, 0) {
        Err(e) => Some(e),
        Ok(_) => match header {
            Err(e) => Some("json: "@ + e@),
            Ok(h) => if h.typ@ != DPOP_TYP@ {
                Some("typ="@ + h.typ@)
            } else if h.alg@ != DPOP_ALG@ {
                Some("alg="@ + h.alg@)
            } else if h.jwk.kty@ != "OKP"@ || h.jwk.crv@ != "Ed25519"@ {
                Some("jwk kty="@ + h.jwk.kty@ + " crv="@ + h.jwk.crv@)
            } else {
                match proof_key(h.jwk.x@) {
                    Err(e) => Some(e),
                    Ok(key) => proof_signature_fault(
                        key,
                        signing_input(proof_jws),
                        parts(proof_jws)[2],
                    ),
                }
            },
        },
    }
}

/// Check everything of a proof but its claims.
pub fn check_proof_envelope(proof_jws: &str, header: &Result<DpopHeader, String>) -> (r: Result<
    (),
    String,
>)
    ensures
        match r {
            Ok(_) => proof_envelope_fault(proof_jws@, *header) is None,
            Err(e) => proof_envelope_fault(proof_jws@, *header) == Some(e@),
        },
{
    if let Err(e) = header_json(proof_jws) {
        return Err(e);
    }
    let h = match header {
        Ok(h) => h,
        Err(e) => return Err(text::joined("json: ", e.as_str())),
    };
    if !text::same_text(h.typ.as_str(), DPOP_TYP) {
        return Err(text::joined("typ=", h.typ.as_str()));
    }
    if !text::same_text(h.alg.as_str(), DPOP_ALG) {
        return Err(text::joined("alg=", h.alg.as_str()));
    }
    if !text::same_text(h.jwk.kty.as_str(), "OKP") || !text::same_text(
        h.jwk.crv.as_str(),
        "Ed25519",
    ) {
        let mut m = text::joined("jwk kty=", h.jwk.kty.as_str());
        m.append(" crv=");
        m.append(h.jwk.crv.as_str());
        return Err(m);
    }
    let key = match decode_proof_key(h.jwk.x.as_str()) {
        Ok(k) => k,
        Err(e) => return Err(e),
    };
    let p = text::split(proof_jws, '.');
    assert(p@.len() == text::views(p@).len());
    assert(forall|i: int| 0 <= i < 3 ==> text::views(p@)[i] == (#[trigger] p@[i])@);
    let input = covered_text(p[0], p[1]);
    check_proof_signature(&key, input.as_str().as_bytes(), p[2])
}

/// What is said of a proof: nothing, or why it is refused. `request` is the
/// request's method and target.
pub open spec fn proof_fault(
    proof_jws: Seq<char>,
    header: Result<DpopHeader, String>,
    claims: Result<DpopClaims, String>,
    request: (Seq<char>, Seq<char>),
    max_age_secs: i64,
    now: i64,
    leeway_secs: i64,
) -> Option<VerifyFault> {
    match proof_envelope_fault(proof_jws, header) {
        Some(e) => Some(VerifyFault::DpopProofInvalid(e)),
        None => match json_bytes(proof_jws, 1) {
            Err(e) => Some(VerifyFault::DpopProofInvalid(e)),
            Ok(_) => match claims {
                Err(e) => Some(VerifyFault::DpopProofInvalid("json: "@ + e@)),
                Ok(c) => if c.htm@ != request.0 || c.htu@ != request.1 {
                    Some(VerifyFault::DpopBindingMismatch)
                } else if c.iat > now + leeway_secs || c.iat < now - max_age_secs {
                    Some(VerifyFault::DpopStale)
                } else {
                    None
                },
            },
        },
    }
}

/// Verify a proof (RFC 9449) for a request. `header` and `claims` are what
/// decoding the two JSON parts gave.
pub fn verify_dpop_proof(
    proof_jws: &str,
    header: &Result<DpopHeader, String>,
    claims: &Result<DpopClaims, String>,
    expect: &DpopExpectation<'_>,
    now: i64,
    leeway_secs: i64,
) -> (r: Result<DpopOk, VerifyError>)
    requires
        i64::MIN <= now + leeway_secs <= i64::MAX,
        i64::MIN <= now - expect.max_age_secs <= i64::MAX,
    ensures
        match r {
            Ok(ok) => proof_fault(
                proof_jws@,
                *header,
                *claims,
                (expect.htm@, expect.htu@),
                expect.max_age_secs,
                now,
                leeway_secs,
            ) is None && header is Ok && ok.jkt@ == thumbprint(header->Ok_0.jwk.x@),
            Err(e) => proof_fault(
                proof_jws@,
                *header,
                *claims,
                (expect.htm@, expect.htu@),
                expect.max_age_secs,
                now,
                leeway_secs,
            ) == Some(e@),
        },
{
    if let Err(e) = check_proof_envelope(proof_jws, header) {
        return Err(VerifyError::DpopProofInvalid(e));
    }
    if let Err(e) = claims_json(proof_jws) {
        return Err(VerifyError::DpopProofInvalid(e));
    }
    let c = match claims {
        Ok(c) => c,
        Err(e) => return Err(VerifyError::DpopProofInvalid(text::joined("json: ", e.as_str()))),
    };
    if !text::same_text(c.htm.as_str(), expect.htm) || !text::same_text(
        c.htu.as_str(),
        expect.htu,
    ) {
        return Err(VerifyError::DpopBindingMismatch);
    }
    if c.iat > now + leeway_secs || c.iat < now - expect.max_age_secs {
        return Err(VerifyError::DpopStale);
    }
    match header {
        Ok(h) => Ok(DpopOk { jkt: jwk_thumbprint_ed25519(h.jwk.x.as_str()) }),
        Err(e) => Err(VerifyError::DpopProofInvalid(text::joined("json: ", e.as_str()))),
    }
}

/// A proof as it was presented, and what decoding its two JSON parts gave.
#[derive(Debug)]
pub struct PresentedProof {
    /// The proof.
    pub jws: String,
    /// Its header.
    pub header: Result<DpopHeader, String>,
    /// Its claims.
    pub claims: Result<DpopClaims, String>,
}

/// What is said of a token and the proof that came with it: nothing, or why
/// they are refused.
pub open spec fn bound_fault(
    token: Seq<char>,
    header: Result<Header, String>,
    claims: Result<ChildClaims, String>,
    keys: Seq<Jwk>,
    dpop: Option<PresentedProof>,
    request: (Seq<char>, Seq<char>),
    max_age_secs: i64,
    now: i64,
    leeway_secs: i64,
) -> Option<VerifyFault> {
    match token_fault(token, header, claims, keys, now, leeway_secs) {
        Some(f) => Some(f),
        None => match dpop {
            None => Some(VerifyFault::MissingDpopProof),
            Some(p) => match proof_fault(
                p.jws@,
                p.header,
                p.claims,
                request,
                max_age_secs,
                now,
                leeway_secs,
            ) {
                Some(f) => Some(f),
                None => if thumbprint(p.header->Ok_0.jwk.x@) != claims->Ok_0.cnf.jkt@ {
                    Some(VerifyFault::DpopThumbprintMismatch)
                } else {
                    None
                },
            },
        },
    }
}

/// Verify a child token and that its sender holds the key that it is bound to.
pub fn verify_bound(
    token: &str,
    header: Result<Header, String>,
    claims: Result<ChildClaims, String>,
    jwks: &JwkSet,
    dpop: &Option<PresentedProof>,
    expect: &DpopExpectation<'_>,
    now: i64,
    leeway_secs: i64,
) -> (r: Result<Verified, VerifyError>)
    requires
        i64::MIN <= now - leeway_secs <= i64::MAX,
        i64::MIN <= now + leeway_secs <= i64::MAX,
        i64::MIN <= now - expect.max_age_secs <= i64::MAX,
    ensures
        match r {
            Ok(v) => bound_fault(
                token@,
                header,
                claims,
                jwks.keys@,
                *dpop,
                (expect.htm@, expect.htu@),
                expect.max_age_secs,
                now,
                leeway_secs,
            ) is None && claims == Ok::<_, String>(v.claims) && header is Ok && v.kid
                == header->Ok_0.kid,
            Err(e) => bound_fault(
                token@,
                header,
                claims,
                jwks.keys@,
                *dpop,
                (expect.htm@, expect.htu@),
                expect.max_age_secs,
                now,
                leeway_secs,
            ) == Some(e@),
        },
{
    let verified = verify(token, header, claims, jwks, now, leeway_secs)?;
    let p = match dpop {
        Some(p) => p,
        None => return Err(VerifyError::MissingDpopProof),
    };
    let ok = verify_dpop_proof(p.jws.as_str(), &p.header, &p.claims, expect, now, leeway_secs)?;
    if !text::same_text(ok.jkt.as_str(), verified.claims.cnf.jkt.as_str()) {
        return Err(VerifyError::DpopThumbprintMismatch);
    }
    Ok(verified)
}

/// A captured token alone is of no use: without a proof nothing is accepted,
/// and with one only if the proof is for this request, recent, and under the
/// very key that the token is bound to.
pub proof fn law_sender_constrained(
    token: Seq<char>,
    header: Result<Header, String>,
    claims: Result<ChildClaims, String>,
    keys: Seq<Jwk>,
    dpop: Option<PresentedProof>,
    request: (Seq<char>, Seq<char>),
    max_age_secs: i64,
    now: i64,
    leeway_secs: i64,
)
    requires
        bound_fault(
            token,
            header,
            claims,
            keys,
            dpop,
            request,
            max_age_secs,
            now,
            leeway_secs,
        ) is None,
    ensures
        dpop matches Some(p) && {
            &&& p.header matches Ok(h) && thumbprint(h.jwk.x@) == claims->Ok_0.cnf.jkt@ && (
            proof_key(h.jwk.x@) matches Ok(key) && proof_signature_fault(
                key,
                signing_input(p.jws@),
                parts(p.jws@)[2],
            ) is None)
            &&& p.claims matches Ok(c) && c.htm@ == request.0 && c.htu@ == request.1 && now
                - max_age_secs <= c.iat <= now + leeway_secs
        },
        token_fault(token, header, claims, keys, now, leeway_secs) is None,
{
}

/// A token that is accepted is signed by the published key that its header
/// names, and both halves of the signature verify.
pub proof fn law_accepted_token_is_signed(
    token: Seq<char>,
    header: Result<Header, String>,
    claims: Result<ChildClaims, String>,
    keys: Seq<Jwk>,
    now: i64,
    leeway_secs: i64,
)
    requires
        token_fault(token, header, claims, keys, now, leeway_secs) is None,
    ensures
        header matches Ok(h) && h.alg@ == CHILD_ALG@ && h.typ@ == CHILD_TYP@ && (key_from(
            keys,
            h.kid@,
            0,
        ) matches Some(i) && (composite_key(keys[i].public@) matches Ok(key) && (part_bytes(
            parts(token)[2],
        ) matches Ok(sig) && composite::accepts(
            key,
            vstd::utf8::encode_utf8(CHILD_SIGNING_CONTEXT@),
            signing_input(token),
            composite::signature_from(sig),
        )))),
{
}

/// Time only takes away: a token that is accepted at some time was not expired
/// at any earlier time, and one that has expired stays so.
pub proof fn law_expiry_is_final(
    token: Seq<char>,
    header: Result<Header, String>,
    claims: Result<ChildClaims, String>,
    keys: Seq<Jwk>,
    earlier: i64,
    later: i64,
    leeway_secs: i64,
)
    requires
        earlier <= later,
    ensures
        token_fault(token, header, claims, keys, later, leeway_secs) is None ==> token_fault(
            token,
            header,
            claims,
            keys,
            earlier,
            leeway_secs,
        ) is None,
        token_fault(token, header, claims, keys, earlier, leeway_secs) == Some(
            VerifyFault::Expired,
        ) ==> token_fault(token, header, claims, keys, later, leeway_secs) == Some(
            VerifyFault::Expired,
        ),
{
}

proof fn lemma_next_char(s: Seq<char>, c: char, from: int, at: int)
    requires
        0 <= from <= at <= s.len(),
        forall|j: int| from <= j < at ==> s[j] != c,
        at < s.len() ==> s[at] == c,
    ensures
        text::next_char(s, c, from) == at,
    decreases at - from,
{
    if from < at {
        lemma_next_char(s, c, from + 1, at);
    }
}

/// A token of three parts, none of which holds a dot, is taken apart into just
/// these, and its signature covers the first two with the dot between them.
pub proof fn law_token_parts(a: Seq<char>, b: Seq<char>, c: Seq<char>)
    requires
        !a.contains('.'),
        !b.contains('.'),
        !c.contains('.'),
    ensures
        parts(a + seq!['.'] + b + seq!['.'] + c) == seq![a, b, c],
        signing_input(a + seq!['.'] + b + seq!['.'] + c) == vstd::utf8::encode_utf8(
            a + seq!['.'] + b,
        ),
{
    let dot = seq!['.'];
    let t = a + dot + b + dot + c;
    let i = a.len() as int;
    let k = i + 1 + b.len();
    let n = t.len() as int;
    assert forall|j: int| 0 <= j < i implies t[j] != '.' by {
        assert(t[j] == a[j]);
        assert(a.contains(a[j]));
    }
    assert(t[i] == '.');
    assert forall|j: int| i + 1 <= j < k implies t[j] != '.' by {
        assert(t[j] == b[j - i - 1]);
        assert(b.contains(b[j - i - 1]));
    }
    assert(t[k] == '.');
    assert forall|j: int| k + 1 <= j < n implies t[j] != '.' by {
        assert(t[j] == c[j - k - 1]);
        assert(c.contains(c[j - k - 1]));
    }
    lemma_next_char(t, '.', 0, i);
    lemma_next_char(t, '.', i + 1, k);
    lemma_next_char(t, '.', k + 1, n);
    let last = text::pieces_from(t, '.', k + 1);
    assert(last =~= seq![c]) by {
        assert(t.skip(k + 1) =~= c);
    }
    let two = text::pieces_from(t, '.', i + 1);
    assert(two =~= seq![b] + last) by {
        assert(t.subrange(i + 1, k) =~= b);
    }
    assert(parts(t) =~= seq![a] + two) by {
        assert(t.subrange(0, i) =~= a);
    }
    assert(parts(t) =~= seq![a, b, c]);
    reveal_strlit(".");
    assert(a + "."@ + b =~= a + dot + b);
}

/// A good token is accepted: three parts in Base64, the algorithm and type of
/// child tokens, a composite signature of the key that is published first under
/// the header's key id, and an end of validity that is not over.
pub proof fn law_good_token_accepted(
    token: Seq<char>,
    header: Result<Header, String>,
    claims: Result<ChildClaims, String>,
    keys: Seq<Jwk>,
    now: i64,
    leeway_secs: i64,
    i: int,
)
    requires
        parts(token).len() == 3,
        part_bytes(parts(token)[0]) is Ok,
        part_bytes(parts(token)[1]) is Ok,
        header is Ok,
        header->Ok_0.alg@ == "MLDSA65+Ed25519"@,
        header->Ok_0.typ@ == "ferrogate-child+jwt"@,
        first_with_kid(keys, header->Ok_0.kid@, i),
        keys[i].kty@ == "FERROGATE-COMPOSITE"@,
        composite_key(keys[i].public@) is Ok,
        part_bytes(parts(token)[2]) matches Ok(sig) && sig.len() == composite::COMPOSITE_SIG_LEN
            && composite::accepts(
            composite_key(keys[i].public@)->Ok_0,
            vstd::utf8::encode_utf8("ferrogate-child-token-v1"@),
            signing_input(token),
            composite::signature_from(sig),
        ),
        claims is Ok,
        now < claims->Ok_0.exp + leeway_secs,
    ensures
        token_fault(token, header, claims, keys, now, leeway_secs) is None,
{
    law_every_key_is_found(keys, header->Ok_0.kid@, i);
}

/// What a good token is refused for when one thing is wrong with it: a key id
/// that is not published, a signature that the published key does not accept,
/// or an end of validity that is over.
pub proof fn law_token_refusals(
    token: Seq<char>,
    header: Result<Header, String>,
    claims: Result<ChildClaims, String>,
    keys: Seq<Jwk>,
    now: i64,
    leeway_secs: i64,
)
    requires
        parts(token).len() == 3,
        part_bytes(parts(token)[0]) is Ok,
        header is Ok,
        header->Ok_0.alg@ == "MLDSA65+Ed25519"@,
        header->Ok_0.typ@ == "ferrogate-child+jwt"@,
    ensures
        (forall|j: int| 0 <= j < keys.len() ==> (#[trigger] keys[j]).kid@ != header->Ok_0.kid@)
            ==> token_fault(token, header, claims, keys, now, leeway_secs) == Some(
            VerifyFault::UnknownKid(header->Ok_0.kid@),
        ),
        forall|i: int| #[trigger]
            first_with_kid(keys, header->Ok_0.kid@, i) && keys[i].kty@ == "FERROGATE-COMPOSITE"@
                && composite_key(keys[i].public@) is Ok && (part_bytes(parts(token)[2]) matches Ok(
                sig,
            ) && !(sig.len() == composite::COMPOSITE_SIG_LEN && composite::accepts(
                composite_key(keys[i].public@)->Ok_0,
                vstd::utf8::encode_utf8("ferrogate-child-token-v1"@),
                signing_input(token),
                composite::signature_from(sig),
            ))) ==> token_fault(token, header, claims, keys, now, leeway_secs) == Some(
                VerifyFault::BadSignature,
            ),
        claims is Ok && now >= claims->Ok_0.exp + leeway_secs ==> token_fault(
            token,
            header,
            claims,
            keys,
            now,
            leeway_secs,
        ) is Some,
{
    lemma_key_from(keys, header->Ok_0.kid@, 0);
    assert forall|i: int| #[trigger] first_with_kid(keys, header->Ok_0.kid@, i) implies key_from(
        keys,
        header->Ok_0.kid@,
        0,
    ) == Some(i) by {
        law_every_key_is_found(keys, header->Ok_0.kid@, i);
        let k = key_from(keys, header->Ok_0.kid@, 0)->0;
        assert(keys[k].kid@ == header->Ok_0.kid@);
    }
}

/// A good proof is accepted: three parts in Base64, the type and algorithm of
/// proofs, an Ed25519 key with its signature on the first two parts, made for
/// this method and target, and neither too old nor from the future.
pub proof fn law_good_proof_accepted(
    proof_jws: Seq<char>,
    header: Result<DpopHeader, String>,
    claims: Result<DpopClaims, String>,
    request: (Seq<char>, Seq<char>),
    max_age_secs: i64,
    now: i64,
    leeway_secs: i64,
)
    requires
        parts(proof_jws).len() == 3,
        part_bytes(parts(proof_jws)[0]) is Ok,
        part_bytes(parts(proof_jws)[1]) is Ok,
        header is Ok,
        header->Ok_0.typ@ == "dpop+jwt"@,
        header->Ok_0.alg@ == "EdDSA"@,
        header->Ok_0.jwk.kty@ == "OKP"@,
        header->Ok_0.jwk.crv@ == "Ed25519"@,
        part_bytes(header->Ok_0.jwk.x@) matches Ok(key) && key.len() == 32
            && signature::ed25519_key_fault(key) is None && (part_bytes(parts(proof_jws)[2])
            matches Ok(sig) && sig.len() == 64 && signature::ed25519_accepts(
            key,
            signing_input(proof_jws),
            sig,
        )),
        claims is Ok,
        claims->Ok_0.htm@ == request.0,
        claims->Ok_0.htu@ == request.1,
        now - max_age_secs <= claims->Ok_0.iat <= now + leeway_secs,
    ensures
        proof_fault(
            proof_jws,
            header,
            claims,
            request,
            max_age_secs,
            now,
            leeway_secs,
        ) is None,
{
}

/// A good token with a good proof under the key that it is bound to is
/// accepted.
pub proof fn law_good_request_accepted(
    token: Seq<char>,
    header: Result<Header, String>,
    claims: Result<ChildClaims, String>,
    keys: Seq<Jwk>,
    p: PresentedProof,
    request: (Seq<char>, Seq<char>),
    max_age_secs: i64,
    now: i64,
    leeway_secs: i64,
)
    requires
        token_fault(token, header, claims, keys, now, leeway_secs) is None,
        proof_fault(
            p.jws@,
            p.header,
            p.claims,
            request,
            max_age_secs,
            now,
            leeway_secs,
        ) is None,
        claims->Ok_0.cnf.jkt@ == thumbprint(p.header->Ok_0.jwk.x@),
    ensures
        bound_fault(
            token,
            header,
            claims,
            keys,
            Some(p),
            request,
            max_age_secs,
            now,
            leeway_secs,
        ) is None,
{
}

/// The digest of a thumbprint covers the key: texts of different keys differ.
pub proof fn law_thumbprint_covers_key(a: Seq<char>, b: Seq<char>)
    requires
        vstd::utf8::encode_utf8(thumbprint_text(a)) == vstd::utf8::encode_utf8(thumbprint_text(b)),
    ensures
        a == b,
{
    json::lemma_utf8_injective(thumbprint_text(a), thumbprint_text(b));
    let head = "{\"crv\":\"Ed25519\",\"kty\":\"OKP\",\"x\":\""@;
    let tail = "\"}"@;
    let (s, t) = (thumbprint_text(a), thumbprint_text(b));
    assert(a.len() == b.len());
    assert(s.subrange(head.len() as int, (head.len() + a.len()) as int) =~= a);
    assert(t.subrange(head.len() as int, (head.len() + b.len()) as int) =~= b);
}

} // verus!
