//! Signed tree heads.
//!
//! A tree head publishes the size and the root of the log at a point in time.
//! It carries the CBOR form of its body as it was signed, so that a verifier
//! covers the bytes that the signer covered.

use vstd::prelude::*;
use crate::audit::bytes::Hash384;
use crate::audit::event;
use crate::crypto::composite;
use crate::crypto::composite::{
    CompositeError, CompositePublicKey, CompositeSecretKey, CompositeSignature, PublicKeyModel,
    SecretKeyModel,
};
use crate::crypto::envelope;
use crate::primitives::cbor;
use crate::primitives::cbor::{CborDoc, CborItem, CborModel, DocModel};
use crate::primitives::{encoding, signature};

verus! {

/// Context of tree head signatures.
pub const STH_SIGNING_CONTEXT: &'static str = "ferrogate-sth-v1";

/// The signed body.
#[derive(Debug, Clone, PartialEq, Eq)]
pub struct SthBody {
    /// Number of leaves.
    pub tree_size: u64,
    /// Root of the tree.
    pub root_hash: Hash384,
    /// When it was made, Unix seconds.
    pub timestamp: i64,
}

/// The contents of an [`SthBody`].
#[verifier::ext_equal]
pub struct SthBodyModel {
    pub tree_size: u64,
    pub root_hash: Seq<u8>,
    pub timestamp: i64,
}

impl View for SthBody {
    type V = SthBodyModel;

    open spec fn view(&self) -> SthBodyModel {
        SthBodyModel {
            tree_size: self.tree_size,
            root_hash: self.root_hash@,
            timestamp: self.timestamp,
        }
    }
}

/// The fields of a body, in the order in which they are written.
pub open spec fn body_fields(b: SthBodyModel) -> Seq<(Seq<char>, CborModel)> {
    seq![
        ("tree_size"@, CborModel::Integer(b.tree_size as i128)),
        ("root_hash"@, CborModel::Bytes(b.root_hash)),
        ("timestamp"@, CborModel::Integer(b.timestamp as i128)),
    ]
}

/// The CBOR form of a body.
pub open spec fn body_bytes(b: SthBodyModel) -> Seq<u8> {
    cbor::cbor_map_bytes(body_fields(b))
}

/// Whether every key of a map is a text or a byte string.
pub open spec fn has_names(m: Seq<(CborModel, CborModel)>) -> bool {
    forall|i: int| 0 <= i < m.len() ==> (#[trigger] m[i]).0 is Text || m[i].0 is Bytes
}

/// The body that the entries of a map stand for. Fields of other names are
/// passed over.
pub open spec fn body_of(m: Seq<(CborModel, CborModel)>) -> Option<SthBodyModel> {
    if !has_names(m) {
        None
    } else {
        match (
            event::number_field(m, "tree_size"@, 0, u64::MAX as int),
            event::octets_field(m, "root_hash"@, 48),
            event::number_field(m, "timestamp"@, i64::MIN as int, i64::MAX as int),
        ) {
            (Some(n), Some(root_hash), Some(t)) => Some(
                SthBodyModel { tree_size: n as u64, root_hash, timestamp: t as i64 },
            ),
            _ => None,
        }
    }
}

/// The body that some bytes begin with.
pub open spec fn body_from(b: Seq<u8>) -> Option<SthBodyModel> {
    match cbor::cbor_value(b) {
        Ok(DocModel::Entries(m)) => body_of(m),
        _ => None,
    }
}

/// What is said of bytes that hold no body: the fault of the item, or of a key,
/// or the first field that is missing or holds something else.
pub open spec fn body_fault(b: Seq<u8>) -> Seq<char> {
    match cbor::cbor_value(b) {
        Err(e) => e,
        Ok(DocModel::Elements(_)) => "expected map"@,
        Ok(DocModel::Other) => "expected map"@,
        Ok(DocModel::Entries(m)) => if !has_names(m) {
            "expected str or bytes"@
        } else if event::number_field(m, "tree_size"@, 0, u64::MAX as int) is None {
            "no field tree_size"@
        } else if event::octets_field(m, "root_hash"@, 48) is None {
            "no field root_hash"@
        } else {
            "no field timestamp"@
        },
    }
}

/// The fields of a body stand for that body.
pub proof fn law_body_fields_roundtrip(b: SthBodyModel)
    requires
        b.root_hash.len() == 48,
    ensures
        body_of(cbor::as_entries(body_fields(b))) == Some(b),
{
    reveal_strlit("tree_size");
    reveal_strlit("root_hash");
    reveal_strlit("timestamp");
    assert("tree_size"@[1] != "root_hash"@[1]);
    assert("tree_size"@[1] != "timestamp"@[1]);
    assert("timestamp"@[1] != "root_hash"@[1]);
    reveal_with_fuel(cbor::values_from, 5);
}

/// A signed tree head.
#[derive(Debug, Clone, PartialEq, Eq)]
pub struct SignedTreeHead {
    /// The CBOR form of the body.
    pub body_cbor: Vec<u8>,
    /// The signer's key.
    pub signer_kid: String,
    /// The composite signature, in unpadded URL-safe Base64.
    pub signature_b64: String,
}

/// Failure modes of tree heads.
#[derive(Debug)]
pub enum SthError {
    /// The body could not be written.
    Encode(String),
    /// The body could not be read.
    Decode(String),
    /// Signing failed.
    Composite(CompositeError),
    /// The signature is not Base64.
    SignatureB64(String),
    /// The signature does not verify.
    SignatureInvalid,
}

fn keys_are_names(m: &Vec<(CborItem, CborItem)>) -> (r: bool)
    ensures
        r == has_names(cbor::entries_view(m@)),
{
    let ghost v = cbor::entries_view(m@);
    let mut i: usize = 0;
    while i < m.len()
        invariant
            v == cbor::entries_view(m@),
            i <= m@.len(),
            forall|j: int| 0 <= j < i ==> (#[trigger] v[j]).0 is Text || v[j].0 is Bytes,
        decreases m@.len() - i,
    {
        assert(v[i as int] == (m@[i as int].0@, m@[i as int].1@));
        match &m[i].0 {
            CborItem::Text(_) => {},
            CborItem::Bytes(_) => {},
            _ => return false,
        }
        i += 1;
    }
    true
}

/// Read a body from its CBOR form. An item with a tag is none of the fields; a
/// byte string in pieces is read as one.
pub fn decode_body(b: &[u8]) -> (r: Result<SthBody, SthError>)
    ensures
        match r {
            Ok(body) => body_from(b@) == Some(body@),
            Err(e) => body_from(b@) is None && (e matches SthError::Decode(m) && m@ == body_fault(
                b@,
            )),
        },
{
    let m = match cbor::read_item(b) {
        Ok(CborDoc::Entries(m)) => m,
        Ok(_) => return Err(SthError::Decode("expected map".to_owned())),
        Err(e) => return Err(SthError::Decode(e)),
    };
    if !keys_are_names(&m) {
        return Err(SthError::Decode("expected str or bytes".to_owned()));
    }
    let tree_size: i128 = match event::number_of(&m, "tree_size", 0, 0xffff_ffff_ffff_ffff) {
        Some(n) => n,
        None => return Err(SthError::Decode("no field tree_size".to_owned())),
    };
    let root_hash = match event::octets_48(&m, "root_hash") {
        Some(h) => h,
        None => return Err(SthError::Decode("no field root_hash".to_owned())),
    };
    let timestamp: i128 = match event::number_of(
        &m,
        "timestamp",
        -0x8000_0000_0000_0000,
        0x7fff_ffff_ffff_ffff,
    ) {
        Some(n) => n,
        None => return Err(SthError::Decode("no field timestamp".to_owned())),
    };
    Ok(SthBody { tree_size: tree_size as u64, root_hash, timestamp: timestamp as i64 })
}

/// The CBOR form of a body.
pub fn encode_body(body: &SthBody) -> (r: Result<Vec<u8>, SthError>)
    ensures
        r matches Ok(b) && b@ == body_bytes(body@) && body_from(b@) == Some(body@),
{
    let mut fields: Vec<(&'static str, CborItem)> = Vec::new();
    fields.push(("tree_size", CborItem::Integer(body.tree_size as i128)));
    fields.push(("root_hash", body.root_hash.to_item()));
    fields.push(("timestamp", CborItem::Integer(body.timestamp as i128)));
    assert(cbor::fields_view(fields@) =~= body_fields(body@));
    proof {
        law_body_fields_roundtrip(body@);
    }
    Ok(cbor::write_map(fields))
}

/// The context of tree head signatures as bytes.
pub open spec fn sth_context() -> Seq<u8> {
    vstd::utf8::encode_utf8(STH_SIGNING_CONTEXT@)
}

/// Sign a body.
pub fn sign_body(body: &SthBody, sk: &CompositeSecretKey) -> (r: Result<
    CompositeSignature,
    SthError,
>)
    ensures
        match r {
            Ok(sig) => composite::made_by(sk@, sth_context(), body_bytes(body@), sig@),
            Err(e) => e matches SthError::Composite(c) && composite::sign_failed(
                sk@,
                sth_context(),
                body_bytes(body@),
                c,
            ),
        },
{
    let b = encode_body(body)?;
    match sk.sign(STH_SIGNING_CONTEXT.as_bytes(), b.as_slice()) {
        Ok(sig) => Ok(sig),
        Err(e) => Err(SthError::Composite(e)),
    }
}

/// What is wrong with a tree head.
pub enum SthFault {
    /// The signature is not Base64.
    SignatureB64(Seq<char>),
    /// The signature does not verify.
    SignatureInvalid,
    /// The body, though signed, cannot be read.
    Decode,
}

/// Whether a text is a signature of `key` on a body.
pub open spec fn signs(key: PublicKeyModel, body_cbor: Seq<u8>, text: Seq<char>) -> bool {
    match encoding::base64url_value(vstd::utf8::encode_utf8(text)) {
        Ok(b) => b.len() == composite::COMPOSITE_SIG_LEN && composite::accepts(
            key,
            sth_context(),
            body_cbor,
            composite::signature_from(b),
        ),
        Err(_) => false,
    }
}

/// What a verifier says of a tree head.
pub open spec fn sth_verdict(key: PublicKeyModel, body_cbor: Seq<u8>, text: Seq<char>) -> Result<
    SthBodyModel,
    SthFault,
> {
    match encoding::base64url_value(vstd::utf8::encode_utf8(text)) {
        Err(fault) => Err(SthFault::SignatureB64(fault)),
        Ok(_) => if !signs(key, body_cbor, text) {
            Err(SthFault::SignatureInvalid)
        } else {
            match body_from(body_cbor) {
                Some(body) => Ok(body),
                None => Err(SthFault::Decode),
            }
        },
    }
}

/// Whether a text is a signature of `key` on a body, and if it is not Base64,
/// what is wrong with it.
pub fn check_head(key: &CompositePublicKey, body_cbor: &[u8], text: &str) -> (r: Result<
    bool,
    String,
>)
    ensures
        match r {
            Ok(b) => b == signs(key@, body_cbor@, text@) && encoding::base64url_value(
                vstd::utf8::encode_utf8(text@),
            ) is Ok,
            Err(e) => encoding::base64url_value(vstd::utf8::encode_utf8(text@)) == Err::<
                Seq<u8>,
                _,
            >(e@),
        },
{
    let b = encoding::base64url_decode(text.as_bytes())?;
    let sig = match CompositeSignature::from_concat_bytes(b.as_slice()) {
        Ok(sig) => sig,
        Err(_) => return Ok(false),
    };
    Ok(key.verify(STH_SIGNING_CONTEXT.as_bytes(), body_cbor, &sig).is_ok())
}

impl SignedTreeHead {
    /// The body, whether or not the signature verifies.
    pub fn body(&self) -> (r: Result<SthBody, SthError>)
        ensures
            match r {
                Ok(body) => body_from(self.body_cbor@) == Some(body@),
                Err(e) => body_from(self.body_cbor@) is None && (e matches SthError::Decode(m)
                    && m@ == body_fault(self.body_cbor@)),
            },
    {
        decode_body(self.body_cbor.as_slice())
    }

    /// A copy.
    pub fn duplicate(&self) -> (r: Self)
        ensures
            r.body_cbor@ == self.body_cbor@,
            r.signer_kid@ == self.signer_kid@,
            r.signature_b64@ == self.signature_b64@,
    {
        SignedTreeHead {
            body_cbor: vstd::slice::slice_to_vec(self.body_cbor.as_slice()),
            signer_kid: self.signer_kid.as_str().to_owned(),
            signature_b64: self.signature_b64.as_str().to_owned(),
        }
    }
}

/// Verify a tree head, and read its body.
pub fn verify_sth(sth: &SignedTreeHead, pk: &CompositePublicKey) -> (r: Result<SthBody, SthError>)
    ensures
        match r {
            Ok(body) => sth_verdict(pk@, sth.body_cbor@, sth.signature_b64@) == Ok::<_, SthFault>(
                body@,
            ),
            Err(e) => match sth_verdict(pk@, sth.body_cbor@, sth.signature_b64@) {
                Ok(_) => false,
                Err(SthFault::SignatureB64(m)) => e matches SthError::SignatureB64(s) && s@ == m,
                Err(SthFault::SignatureInvalid) => e is SignatureInvalid,
                Err(SthFault::Decode) => e matches SthError::Decode(m) && m@ == body_fault(
                    sth.body_cbor@,
                ),
            },
        },
{
    match check_head(pk, sth.body_cbor.as_slice(), sth.signature_b64.as_str()) {
        Ok(true) => sth.body(),
        Ok(false) => Err(SthError::SignatureInvalid),
        Err(e) => Err(SthError::SignatureB64(e)),
    }
}

/// A signer of tree heads: it signs the CBOR form of the body that it is given,
/// and stamps its key's identifier on the head.
pub trait SthSigner {
    /// The identifier of the signer's key.
    spec fn key_id(&self) -> Seq<char>;

    /// Sign a body.
    fn sign(&self, body: &SthBody) -> (r: Result<SignedTreeHead, SthError>)
        ensures
            r matches Ok(sth) ==> sth.body_cbor@ == body_bytes(body@) && sth.signer_kid@
                == self.key_id() && body_from(sth.body_cbor@) == Some(body@),
    ;

    /// The identifier of the signer's key.
    fn kid(&self) -> (r: &str)
        ensures
            r@ == self.key_id(),
    ;
}

/// A signer that holds its key in memory.
pub struct InProcessSigner {
    kid: String,
    sk: CompositeSecretKey,
}

impl InProcessSigner {
    /// The secret key.
    pub closed spec fn secret(&self) -> SecretKeyModel {
        self.sk@
    }

    /// A signer with a key of its own.
    pub fn new(kid: String, sk: CompositeSecretKey) -> (r: Self)
        ensures
            r.key_id() == kid@,
            r.secret() == sk@,
    {
        InProcessSigner { kid, sk }
    }

    /// A signer with a fresh key, and the public key that belongs to it.
    pub fn generate(kid: String) -> (r: Result<(Self, CompositePublicKey), SthError>)
        ensures
            exists|ed25519: Result<[u8; 32], String>, mldsa65: Result<[u8; 32], String>|
                #[trigger] signature::drawn(ed25519) && #[trigger] signature::drawn(mldsa65)
                    && match r {
                    Ok((signer, pk)) => signer.key_id() == kid@ && composite::generated(
                        ed25519,
                        mldsa65,
                    ) == Ok::<_, CompositeError>(signer.secret()) && pk@ == composite::public_of(
                        signer.secret(),
                    ),
                    Err(e) => e matches SthError::Composite(c) && composite::generated(
                        ed25519,
                        mldsa65,
                    ) == Err::<SecretKeyModel, _>(c),
                },
    {
        match CompositeSecretKey::generate() {
            Ok((sk, pk)) => Ok((InProcessSigner::new(kid, sk), pk)),
            Err(e) => Err(SthError::Composite(e)),
        }
    }
}

impl SthSigner for InProcessSigner {
    closed spec fn key_id(&self) -> Seq<char> {
        self.kid@
    }

    /// Sign a body: the signature is one that the key can give.
    fn sign(&self, body: &SthBody) -> (r: Result<SignedTreeHead, SthError>)
        ensures
            match r {
                Ok(sth) => envelope::sealed_by(
                    self.secret(),
                    sth_context(),
                    body_bytes(body@),
                    sth.signature_b64@,
                ),
                Err(e) => e matches SthError::Composite(c) && composite::sign_failed(
                    self.secret(),
                    sth_context(),
                    body_bytes(body@),
                    c,
                ),
            },
    {
        let body_cbor = encode_body(body)?;
        match envelope::seal(&self.sk, STH_SIGNING_CONTEXT.as_bytes(), body_cbor.as_slice()) {
            Ok(signature_b64) => Ok(
                SignedTreeHead {
                    body_cbor,
                    signer_kid: self.kid.as_str().to_owned(),
                    signature_b64,
                },
            ),
            Err(e) => Err(SthError::Composite(e)),
        }
    }

    fn kid(&self) -> (r: &str) {
        self.kid.as_str()
    }
}

/// A head that a signer made verifies under the signer's public key and gives
/// back the body, unless the classical half of its signature is degenerate.
pub proof fn law_signed_head_verifies(
    secret: SecretKeyModel,
    body: SthBodyModel,
    body_cbor: Seq<u8>,
    text: Seq<char>,
)
    requires
        envelope::sealed_by(secret, sth_context(), body_cbor, text),
        !composite::degenerate(envelope::opened(text)->Ok_0),
        body_from(body_cbor) == Some(body),
    ensures
        sth_verdict(composite::public_of(secret), body_cbor, text) == Ok::<_, SthFault>(body),
{
    envelope::law_sealed_checks(secret, sth_context(), body_cbor, text);
}

/// Bodies with one CBOR form are the same body: what encoding and decoding
/// promise of a body and its form leaves no other.
pub proof fn law_body_bytes_injective(a: SthBodyModel, b: SthBodyModel)
    requires
        body_from(body_bytes(a)) == Some(a),
        body_from(body_bytes(b)) == Some(b),
        body_bytes(a) == body_bytes(b),
    ensures
        a == b,
{
}

/// A head is accepted just where both halves of its signature verify on its
/// body and the body can be read; it then gives that body.
pub proof fn law_head_accepted(
    key: PublicKeyModel,
    body_cbor: Seq<u8>,
    text: Seq<char>,
    body: SthBodyModel,
)
    ensures
        sth_verdict(key, body_cbor, text) == Ok::<_, SthFault>(body) <==> body_from(body_cbor)
            == Some(body) && (encoding::base64url_value(vstd::utf8::encode_utf8(text)) matches Ok(b)
            && b.len() == composite::COMPOSITE_SIG_LEN && composite::classical_accepts(
            key,
            sth_context(),
            body_cbor,
            composite::signature_from(b),
        ) && composite::pqc_accepts(key, sth_context(), body_cbor, composite::signature_from(b))),
{
}

} // verus!
