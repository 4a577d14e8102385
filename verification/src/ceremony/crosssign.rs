//! Cross-signatures between an outgoing and an incoming root.
//!
//! For a window of time the two roots vouch for each other, so that whoever
//! trusts either can come to trust the other. A signature covers both key ids,
//! both public keys and the window.

use vstd::prelude::*;
use crate::ceremony::error::{CeremonyError, CeremonyFault};
use crate::crypto::composite;
use crate::crypto::composite::{
    CompositeError, CompositePublicKey, CompositeSecretKey, CompositeSignature, PublicKeyModel,
    SecretKeyModel, SignatureModel,
};
use crate::primitives::bytes;
use crate::primitives::bytes::{i64_to_be, push_field};
use crate::primitives::{encoding, text};

verus! {

/// Context of cross-signatures.
pub const CROSSSIGN_CONTEXT: &'static str = "ferrogate-root-crosssign-v1";

/// The usual window: 90 days.
pub const DEFAULT_WINDOW_SECS: i64 = 7_776_000;

/// Which way a cross-signature points.
#[derive(Debug, Clone, Copy, PartialEq, Eq, Structural)]
pub enum CrossSignDirection {
    /// The outgoing root signs the incoming one.
    OldSignsNew,
    /// The incoming root signs the outgoing one.
    NewSignsOld,
}

/// Both cross-signatures of two roots.
#[derive(Debug, Clone, PartialEq, Eq)]
pub struct CrossSignBundle {
    /// Version of the format.
    pub version: u32,
    /// Key id of the outgoing root.
    pub old_kid: String,
    /// Public key of the outgoing root, in Base64.
    pub old_pub: String,
    /// Key id of the incoming root.
    pub new_kid: String,
    /// Public key of the incoming root, in Base64.
    pub new_pub: String,
    /// Start of the window, Unix seconds.
    pub window_start: i64,
    /// End of the window, Unix seconds, which no longer belongs to it.
    pub window_end: i64,
    /// The outgoing root's signature, in Base64.
    pub old_signs_new: String,
    /// The incoming root's signature, in Base64.
    pub new_signs_old: String,
}

/// What a cross-signature covers, each part with its length before it.
pub open spec fn transcript_of(
    signer_kid: Seq<u8>,
    signer_pub: Seq<u8>,
    subject_kid: Seq<u8>,
    subject_pub: Seq<u8>,
    window_start: i64,
    window_end: i64,
) -> Seq<u8> {
    bytes::field(signer_kid) + (bytes::field(signer_pub) + (bytes::field(subject_kid) + (
    bytes::field(subject_pub) + (bytes::field(bytes::be64_signed(window_start)) + (bytes::field(
        bytes::be64_signed(window_end),
    ) + Seq::empty())))))
}

/// What a cross-signature covers.
pub fn transcript(
    signer_kid: &str,
    signer_pub: &[u8],
    subject_kid: &str,
    subject_pub: &[u8],
    window_start: i64,
    window_end: i64,
) -> (r: Vec<u8>)
    ensures
        r@ == transcript_of(
            vstd::utf8::encode_utf8(signer_kid@),
            signer_pub@,
            vstd::utf8::encode_utf8(subject_kid@),
            subject_pub@,
            window_start,
            window_end,
        ),
{
    let mut out: Vec<u8> = Vec::new();
    push_field(&mut out, signer_kid.as_bytes());
    push_field(&mut out, signer_pub);
    push_field(&mut out, subject_kid.as_bytes());
    push_field(&mut out, subject_pub);
    push_field(&mut out, i64_to_be(window_start).as_slice());
    push_field(&mut out, i64_to_be(window_end).as_slice());
    assert(out@ =~= transcript_of(
        vstd::utf8::encode_utf8(signer_kid@),
        signer_pub@,
        vstd::utf8::encode_utf8(subject_kid@),
        subject_pub@,
        window_start,
        window_end,
    ));
    out
}

/// The end of a window, or the end of time.
pub open spec fn window_end_of(start: i64, secs: i64) -> i64 {
    if start + secs > i64::MAX {
        i64::MAX
    } else if start + secs < i64::MIN {
        i64::MIN
    } else {
        (start + secs) as i64
    }
}

fn window_end(start: i64, secs: i64) -> (r: i64)
    ensures
        r == window_end_of(start, secs),
{
    match start.checked_add(secs) {
        Some(t) => t,
        None => if secs > 0 {
            i64::MAX
        } else {
            i64::MIN
        },
    }
}

/// The context of cross-signatures as bytes.
pub open spec fn crosssign_context() -> Seq<u8> {
    vstd::utf8::encode_utf8(CROSSSIGN_CONTEXT@)
}

/// Whether a text is the encoded form of a signature.
pub open spec fn is_signature_text(t: Seq<char>, sig: SignatureModel) -> bool {
    &&& t == encoding::base64_text(composite::signature_bytes(sig))
    &&& encoding::base64_value(vstd::utf8::encode_utf8(t)) == Ok::<_, Seq<char>>(
        composite::signature_bytes(sig),
    )
}

/// Whether a text is a signature that a secret key made on a message.
pub open spec fn signed_text(secret: SecretKeyModel, msg: Seq<u8>, t: Seq<char>) -> bool {
    exists|sig: SignatureModel| #[trigger]
        composite::made_by(secret, crosssign_context(), msg, sig) && is_signature_text(t, sig)
}

/// The public key that a text holds, or why it holds none.
pub open spec fn public_key(t: Seq<char>) -> Result<PublicKeyModel, CeremonyFault> {
    match encoding::base64_value(vstd::utf8::encode_utf8(t)) {
        Err(e) => Err(CeremonyFault::Malformed { what: "cross-sign public key"@, detail: e }),
        Ok(b) => match composite::key_from(b) {
            Err(e) => Err(
                CeremonyFault::Malformed {
                    what: "cross-sign public key"@,
                    detail: "malformed encoded form: "@ + e,
                },
            ),
            Ok(k) => Ok(k),
        },
    }
}

fn decode_pub(field: &str) -> (r: Result<CompositePublicKey, CeremonyError>)
    ensures
        match r {
            Ok(k) => public_key(field@) == Ok::<_, CeremonyFault>(k@),
            Err(e) => public_key(field@) == Err::<PublicKeyModel, _>(e@),
        },
{
    let b = match encoding::base64_decode(field.as_bytes()) {
        Ok(b) => b,
        Err(detail) => return Err(
            CeremonyError::Malformed { what: "cross-sign public key", detail },
        ),
    };
    match CompositePublicKey::from_concat_bytes(b.as_slice()) {
        Ok(k) => Ok(k),
        Err(e) => Err(
            CeremonyError::Malformed { what: "cross-sign public key", detail: e.message() },
        ),
    }
}

/// The signature that a text holds, or why it holds none.
pub open spec fn signature_value(t: Seq<char>) -> Result<SignatureModel, CeremonyFault> {
    match encoding::base64_value(vstd::utf8::encode_utf8(t)) {
        Err(e) => Err(CeremonyFault::Malformed { what: "cross-sign signature"@, detail: e }),
        Ok(b) => if b.len() != composite::COMPOSITE_SIG_LEN {
            Err(
                CeremonyFault::Malformed {
                    what: "cross-sign signature"@,
                    detail: "malformed encoded form: "@ + composite::length_fault(
                        "composite signature"@,
                        composite::COMPOSITE_SIG_LEN as nat,
                        b.len(),
                    ),
                },
            )
        } else {
            Ok(composite::signature_from(b))
        },
    }
}

fn decode_sig(field: &str) -> (r: Result<CompositeSignature, CeremonyError>)
    ensures
        match r {
            Ok(s) => signature_value(field@) == Ok::<_, CeremonyFault>(s@),
            Err(e) => signature_value(field@) == Err::<SignatureModel, _>(e@),
        },
{
    let b = match encoding::base64_decode(field.as_bytes()) {
        Ok(b) => b,
        Err(detail) => return Err(
            CeremonyError::Malformed { what: "cross-sign signature", detail },
        ),
    };
    match CompositeSignature::from_concat_bytes(b.as_slice()) {
        Ok(s) => Ok(s),
        Err(e) => Err(
            CeremonyError::Malformed { what: "cross-sign signature", detail: e.message() },
        ),
    }
}

/// The name of a direction.
pub open spec fn direction_text(dir: CrossSignDirection) -> Seq<char> {
    match dir {
        CrossSignDirection::OldSignsNew => "OldSignsNew"@,
        CrossSignDirection::NewSignsOld => "NewSignsOld"@,
    }
}

impl CrossSignBundle {
    /// What the signature of one direction covers, given both keys.
    pub open spec fn covered(
        self,
        dir: CrossSignDirection,
        old_key: PublicKeyModel,
        new_key: PublicKeyModel,
    ) -> Seq<u8> {
        match dir {
            CrossSignDirection::OldSignsNew => transcript_of(
                vstd::utf8::encode_utf8(self.old_kid@),
                composite::key_bytes(old_key),
                vstd::utf8::encode_utf8(self.new_kid@),
                composite::key_bytes(new_key),
                self.window_start,
                self.window_end,
            ),
            CrossSignDirection::NewSignsOld => transcript_of(
                vstd::utf8::encode_utf8(self.new_kid@),
                composite::key_bytes(new_key),
                vstd::utf8::encode_utf8(self.old_kid@),
                composite::key_bytes(old_key),
                self.window_start,
                self.window_end,
            ),
        }
    }

    /// The signature of one direction.
    pub open spec fn signature_of(self, dir: CrossSignDirection) -> Seq<char> {
        match dir {
            CrossSignDirection::OldSignsNew => self.old_signs_new@,
            CrossSignDirection::NewSignsOld => self.new_signs_old@,
        }
    }

    /// What is wrong with one direction, if anything is.
    pub open spec fn direction_fault(self, dir: CrossSignDirection) -> Option<CeremonyFault> {
        match public_key(self.old_pub@) {
            Err(f) => Some(f),
            Ok(old_key) => match public_key(self.new_pub@) {
                Err(f) => Some(f),
                Ok(new_key) => match signature_value(self.signature_of(dir)) {
                    Err(f) => Some(f),
                    Ok(sig) => {
                        let signer = if dir is OldSignsNew {
                            old_key
                        } else {
                            new_key
                        };
                        let msg = self.covered(dir, old_key, new_key);
                        if composite::accepts(signer, crosssign_context(), msg, sig) {
                            None
                        } else {
                            Some(
                                CeremonyFault::Signature(
                                    direction_text(dir) + ": "@ + composite::refusal(
                                        signer,
                                        crosssign_context(),
                                        msg,
                                        sig,
                                    ).text(),
                                ),
                            )
                        }
                    },
                },
            },
        }
    }

    /// Let two roots sign each other for a window of time.
    pub fn create(
        old_sk: &CompositeSecretKey,
        old_kid: String,
        old_pk: &CompositePublicKey,
        new_sk: &CompositeSecretKey,
        new_kid: String,
        new_pk: &CompositePublicKey,
        window_start: i64,
        window_secs: i64,
    ) -> (r: Result<Self, CeremonyError>)
        ensures
            match r {
                Ok(b) => {
                    &&& b.version == 1
                    &&& b.old_kid@ == old_kid@
                    &&& b.new_kid@ == new_kid@
                    &&& b.window_start == window_start
                    &&& b.window_end == window_end_of(window_start, window_secs)
                    &&& b.old_pub@ == encoding::base64_text(composite::key_bytes(old_pk@))
                    &&& b.new_pub@ == encoding::base64_text(composite::key_bytes(new_pk@))
                    &&& public_key(b.old_pub@) == Ok::<_, CeremonyFault>(old_pk@)
                    &&& public_key(b.new_pub@) == Ok::<_, CeremonyFault>(new_pk@)
                    &&& signed_text(
                        old_sk@,
                        b.covered(CrossSignDirection::OldSignsNew, old_pk@, new_pk@),
                        b.old_signs_new@,
                    )
                    &&& signed_text(
                        new_sk@,
                        b.covered(CrossSignDirection::NewSignsOld, old_pk@, new_pk@),
                        b.new_signs_old@,
                    )
                },
                Err(e) => exists|f: CompositeError|
                    #![trigger f.text()]
                    e@ == CeremonyFault::Signature(f.text()) && (composite::sign_failed(
                        old_sk@,
                        crosssign_context(),
                        transcript_of(
                            vstd::utf8::encode_utf8(old_kid@),
                            composite::key_bytes(old_pk@),
                            vstd::utf8::encode_utf8(new_kid@),
                            composite::key_bytes(new_pk@),
                            window_start,
                            window_end_of(window_start, window_secs),
                        ),
                        f,
                    ) || composite::sign_failed(
                        new_sk@,
                        crosssign_context(),
                        transcript_of(
                            vstd::utf8::encode_utf8(new_kid@),
                            composite::key_bytes(new_pk@),
                            vstd::utf8::encode_utf8(old_kid@),
                            composite::key_bytes(old_pk@),
                            window_start,
                            window_end_of(window_start, window_secs),
                        ),
                        f,
                    )),
            },
    {
        let old_bytes = old_pk.to_concat_bytes();
        let new_bytes = new_pk.to_concat_bytes();
        let end: i64 = window_end(window_start, window_secs);
        let old_msg = transcript(
            old_kid.as_str(),
            old_bytes.as_slice(),
            new_kid.as_str(),
            new_bytes.as_slice(),
            window_start,
            end,
        );
        let new_msg = transcript(
            new_kid.as_str(),
            new_bytes.as_slice(),
            old_kid.as_str(),
            old_bytes.as_slice(),
            window_start,
            end,
        );
        let old_made = old_sk.sign(CROSSSIGN_CONTEXT.as_bytes(), old_msg.as_slice());
        let new_made = new_sk.sign(CROSSSIGN_CONTEXT.as_bytes(), new_msg.as_slice());
        let ghost (old_given, new_given) = (old_made, new_made);
        let r = CrossSignBundle::assemble(
            old_kid,
            old_pk,
            new_kid,
            new_pk,
            window_start,
            window_secs,
            old_made,
            new_made,
        );
        proof {
            match (old_given, new_given) {
                (Err(e), _) => {
                    assert(r->Err_0@ == CeremonyFault::Signature(e.text()));
                },
                (Ok(_), Err(e)) => {
                    assert(r->Err_0@ == CeremonyFault::Signature(e.text()));
                },
                (Ok(a), Ok(b)) => {
                    assert(composite::made_by(old_sk@, crosssign_context(), old_msg@, a@));
                    assert(composite::made_by(new_sk@, crosssign_context(), new_msg@, b@));
                },
            }
        }
        r
    }

    /// The bundle of two roots, from what signing gave the old and the new one.
    /// If one could not sign there is none; the old one's failure is told first.
    pub fn assemble(
        old_kid: String,
        old_pk: &CompositePublicKey,
        new_kid: String,
        new_pk: &CompositePublicKey,
        window_start: i64,
        window_secs: i64,
        old_made: Result<CompositeSignature, CompositeError>,
        new_made: Result<CompositeSignature, CompositeError>,
    ) -> (r: Result<Self, CeremonyError>)
        ensures
            match (old_made, new_made) {
                (Err(f), _) => r matches Err(e) && e@ == CeremonyFault::Signature(f.text()),
                (Ok(_), Err(f)) => r matches Err(e) && e@ == CeremonyFault::Signature(f.text()),
                (Ok(old_sig), Ok(new_sig)) => r matches Ok(b) && {
                    &&& b.version == 1
                    &&& b.old_kid@ == old_kid@
                    &&& b.new_kid@ == new_kid@
                    &&& b.window_start == window_start
                    &&& b.window_end == window_end_of(window_start, window_secs)
                    &&& b.old_pub@ == encoding::base64_text(composite::key_bytes(old_pk@))
                    &&& b.new_pub@ == encoding::base64_text(composite::key_bytes(new_pk@))
                    &&& public_key(b.old_pub@) == Ok::<_, CeremonyFault>(old_pk@)
                    &&& public_key(b.new_pub@) == Ok::<_, CeremonyFault>(new_pk@)
                    &&& is_signature_text(b.old_signs_new@, old_sig@)
                    &&& is_signature_text(b.new_signs_old@, new_sig@)
                },
            },
    {
        let old_sig = match old_made {
            Ok(s) => s,
            Err(e) => return Err(CeremonyError::Signature(e.message())),
        };
        let new_sig = match new_made {
            Ok(s) => s,
            Err(e) => return Err(CeremonyError::Signature(e.message())),
        };
        Ok(
            CrossSignBundle {
                version: 1,
                old_kid,
                old_pub: encoding::base64_encode(old_pk.to_concat_bytes().as_slice()),
                new_kid,
                new_pub: encoding::base64_encode(new_pk.to_concat_bytes().as_slice()),
                window_start,
                window_end: window_end(window_start, window_secs),
                old_signs_new: encoding::base64_encode(old_sig.to_concat_bytes().as_slice()),
                new_signs_old: encoding::base64_encode(new_sig.to_concat_bytes().as_slice()),
            },
        )
    }

    /// Verify one direction.
    pub fn verify_direction(&self, dir: CrossSignDirection) -> (r: Result<(), CeremonyError>)
        ensures
            match r {
                Ok(_) => self.direction_fault(dir) is None,
                Err(e) => self.direction_fault(dir) == Some(e@),
            },
    {
        let old_pk = decode_pub(self.old_pub.as_str())?;
        let new_pk = decode_pub(self.new_pub.as_str())?;
        let old_bytes = old_pk.to_concat_bytes();
        let new_bytes = new_pk.to_concat_bytes();
        match dir {
            CrossSignDirection::OldSignsNew => {
                let sig = decode_sig(self.old_signs_new.as_str())?;
                let msg = transcript(
                    self.old_kid.as_str(),
                    old_bytes.as_slice(),
                    self.new_kid.as_str(),
                    new_bytes.as_slice(),
                    self.window_start,
                    self.window_end,
                );
                match old_pk.verify(CROSSSIGN_CONTEXT.as_bytes(), msg.as_slice(), &sig) {
                    Ok(()) => Ok(()),
                    Err(e) => {
                        let mut m = text::joined("OldSignsNew", ": ");
                        m.append(e.message().as_str());
                        Err(CeremonyError::Signature(m))
                    },
                }
            },
            CrossSignDirection::NewSignsOld => {
                let sig = decode_sig(self.new_signs_old.as_str())?;
                let msg = transcript(
                    self.new_kid.as_str(),
                    new_bytes.as_slice(),
                    self.old_kid.as_str(),
                    old_bytes.as_slice(),
                    self.window_start,
                    self.window_end,
                );
                match new_pk.verify(CROSSSIGN_CONTEXT.as_bytes(), msg.as_slice(), &sig) {
                    Ok(()) => Ok(()),
                    Err(e) => {
                        let mut m = text::joined("NewSignsOld", ": ");
                        m.append(e.message().as_str());
                        Err(CeremonyError::Signature(m))
                    },
                }
            },
        }
    }

    /// Verify both directions.
    pub fn verify(&self) -> (r: Result<(), CeremonyError>)
        ensures
            match r {
                Ok(_) => self.direction_fault(CrossSignDirection::OldSignsNew) is None
                    && self.direction_fault(CrossSignDirection::NewSignsOld) is None,
                Err(e) => match self.direction_fault(CrossSignDirection::OldSignsNew) {
                    Some(f) => e@ == f,
                    None => self.direction_fault(CrossSignDirection::NewSignsOld) == Some(e@),
                },
            },
    {
        self.verify_direction(CrossSignDirection::OldSignsNew)?;
        self.verify_direction(CrossSignDirection::NewSignsOld)
    }
}

/// A signature cannot be lifted onto other keys, other key ids or another
/// window: what it covers tells all of them apart.
pub proof fn law_transcript_binds(
    a: (Seq<u8>, Seq<u8>, Seq<u8>, Seq<u8>),
    a_start: i64,
    a_end: i64,
    b: (Seq<u8>, Seq<u8>, Seq<u8>, Seq<u8>),
    b_start: i64,
    b_end: i64,
)
    requires
        a.0.len() <= u64::MAX,
        a.1.len() <= u64::MAX,
        a.2.len() <= u64::MAX,
        a.3.len() <= u64::MAX,
        b.0.len() <= u64::MAX,
        b.1.len() <= u64::MAX,
        b.2.len() <= u64::MAX,
        b.3.len() <= u64::MAX,
        transcript_of(a.0, a.1, a.2, a.3, a_start, a_end) == transcript_of(
            b.0,
            b.1,
            b.2,
            b.3,
            b_start,
            b_end,
        ),
    ensures
        a == b,
        a_start == b_start,
        a_end == b_end,
{
    let none = Seq::<u8>::empty();
    let a5 = bytes::field(bytes::be64_signed(a_end)) + none;
    let a4 = bytes::field(bytes::be64_signed(a_start)) + a5;
    let a3 = bytes::field(a.3) + a4;
    let a2 = bytes::field(a.2) + a3;
    let a1 = bytes::field(a.1) + a2;
    let b5 = bytes::field(bytes::be64_signed(b_end)) + none;
    let b4 = bytes::field(bytes::be64_signed(b_start)) + b5;
    let b3 = bytes::field(b.3) + b4;
    let b2 = bytes::field(b.2) + b3;
    let b1 = bytes::field(b.1) + b2;
    bytes::lemma_field_injective(a.0, a1, b.0, b1);
    bytes::lemma_field_injective(a.1, a2, b.1, b2);
    bytes::lemma_field_injective(a.2, a3, b.2, b3);
    bytes::lemma_field_injective(a.3, a4, b.3, b4);
    bytes::lemma_field_injective(
        bytes::be64_signed(a_start),
        a5,
        bytes::be64_signed(b_start),
        b5,
    );
    bytes::lemma_field_injective(
        bytes::be64_signed(a_end),
        none,
        bytes::be64_signed(b_end),
        none,
    );
    bytes::lemma_be64_signed_injective(a_start, b_start);
    bytes::lemma_be64_signed_injective(a_end, b_end);
}

/// What was cross-signed verifies in both directions, if each secret key
/// belongs to its public key, unless the classical half of a signature is
/// degenerate. `b` is what [`CrossSignBundle::create`] gave.
pub proof fn law_created_bundle_verifies(
    b: CrossSignBundle,
    old_secret: SecretKeyModel,
    new_secret: SecretKeyModel,
)
    requires
        public_key(b.old_pub@) == Ok::<_, CeremonyFault>(composite::public_of(old_secret)),
        public_key(b.new_pub@) == Ok::<_, CeremonyFault>(composite::public_of(new_secret)),
        signed_text(
            old_secret,
            b.covered(
                CrossSignDirection::OldSignsNew,
                composite::public_of(old_secret),
                composite::public_of(new_secret),
            ),
            b.old_signs_new@,
        ),
        signed_text(
            new_secret,
            b.covered(
                CrossSignDirection::NewSignsOld,
                composite::public_of(old_secret),
                composite::public_of(new_secret),
            ),
            b.new_signs_old@,
        ),
    ensures
        signature_value(b.old_signs_new@) matches Ok(s) && (!composite::degenerate(s) ==> b.direction_fault(
            CrossSignDirection::OldSignsNew,
        ) is None),
        signature_value(b.new_signs_old@) matches Ok(s) && (!composite::degenerate(s) ==> b.direction_fault(
            CrossSignDirection::NewSignsOld,
        ) is None),
{
    lemma_direction(b, CrossSignDirection::OldSignsNew, old_secret, new_secret);
    lemma_direction(b, CrossSignDirection::NewSignsOld, old_secret, new_secret);
}

proof fn lemma_direction(
    b: CrossSignBundle,
    dir: CrossSignDirection,
    old_secret: SecretKeyModel,
    new_secret: SecretKeyModel,
)
    requires
        public_key(b.old_pub@) == Ok::<_, CeremonyFault>(composite::public_of(old_secret)),
        public_key(b.new_pub@) == Ok::<_, CeremonyFault>(composite::public_of(new_secret)),
        signed_text(
            if dir is OldSignsNew {
                old_secret
            } else {
                new_secret
            },
            b.covered(
                dir,
                composite::public_of(old_secret),
                composite::public_of(new_secret),
            ),
            b.signature_of(dir),
        ),
    ensures
        signature_value(b.signature_of(dir)) matches Ok(s) && (!composite::degenerate(s)
            ==> b.direction_fault(dir) is None),
{
    let secret = if dir is OldSignsNew {
        old_secret
    } else {
        new_secret
    };
    let msg = b.covered(dir, composite::public_of(old_secret), composite::public_of(new_secret));
    let t = b.signature_of(dir);
    let sig = choose|sig: SignatureModel| #[trigger]
        composite::made_by(secret, crosssign_context(), msg, sig) && is_signature_text(t, sig);
    composite::law_concat_roundtrip(sig);
}

/// Whether two bundles differ in a key id, a key or the window.
pub open spec fn altered(a: CrossSignBundle, b: CrossSignBundle) -> bool {
    ||| a.old_kid@ != b.old_kid@
    ||| a.new_kid@ != b.new_kid@
    ||| public_key(a.old_pub@) != public_key(b.old_pub@)
    ||| public_key(a.new_pub@) != public_key(b.new_pub@)
    ||| a.window_start != b.window_start
    ||| a.window_end != b.window_end
}

/// Whether the lengths of key ids fit in 64 bits, as they do on every machine.
pub open spec fn kids_fit(b: CrossSignBundle) -> bool {
    &&& vstd::utf8::encode_utf8(b.old_kid@).len() <= u64::MAX
    &&& vstd::utf8::encode_utf8(b.new_kid@).len() <= u64::MAX
}

/// Whether the signature of one direction verifies in two bundles on different
/// messages: it was made on at most one of them.
pub open spec fn verifies_twice(
    a: CrossSignBundle,
    b: CrossSignBundle,
    dir: CrossSignDirection,
) -> bool {
    match (
        public_key(a.old_pub@),
        public_key(a.new_pub@),
        public_key(b.old_pub@),
        public_key(b.new_pub@),
        signature_value(a.signature_of(dir)),
    ) {
        (Ok(a_old), Ok(a_new), Ok(b_old), Ok(b_new), Ok(sig)) => {
            let a_msg = a.covered(dir, a_old, a_new);
            let b_msg = b.covered(dir, b_old, b_new);
            let (a_key, b_key) = if dir is OldSignsNew {
                (a_old, b_old)
            } else {
                (a_new, b_new)
            };
            &&& a_msg != b_msg
            &&& composite::accepts(a_key, crosssign_context(), a_msg, sig)
            &&& composite::accepts(b_key, crosssign_context(), b_msg, sig)
        },
        _ => false,
    }
}

proof fn lemma_public_key_len(t: Seq<char>)
    ensures
        public_key(t) matches Ok(k) ==> composite::key_bytes(k).len()
            == composite::COMPOSITE_PK_LEN,
        forall|k: PublicKeyModel|
            public_key(t) == Ok::<_, CeremonyFault>(k) ==> composite::key_from(
                #[trigger] composite::key_bytes(k),
            ) == Ok::<_, Seq<char>>(k),
{
    if let Ok(b) = encoding::base64_value(vstd::utf8::encode_utf8(t)) {
        if let Ok(k) = composite::key_from(b) {
            assert(composite::key_bytes(k) =~= b);
        }
    }
}

/// A bundle that was altered is refused: with another key id, another key or
/// another window neither signature verifies any more, unless one verifies on
/// two different messages.
pub proof fn law_altered_bundle_refused(
    a: CrossSignBundle,
    b: CrossSignBundle,
    dir: CrossSignDirection,
)
    requires
        a.direction_fault(dir) is None,
        b.signature_of(dir) == a.signature_of(dir),
        altered(a, b),
        kids_fit(a),
        kids_fit(b),
    ensures
        b.direction_fault(dir) is Some || verifies_twice(a, b, dir),
{
    if b.direction_fault(dir) is None {
        let (a_old, a_new) = (public_key(a.old_pub@)->Ok_0, public_key(a.new_pub@)->Ok_0);
        let (b_old, b_new) = (public_key(b.old_pub@)->Ok_0, public_key(b.new_pub@)->Ok_0);
        lemma_public_key_len(a.old_pub@);
        lemma_public_key_len(a.new_pub@);
        lemma_public_key_len(b.old_pub@);
        lemma_public_key_len(b.new_pub@);
        if a.covered(dir, a_old, a_new) == b.covered(dir, b_old, b_new) {
            let a1 = (vstd::utf8::encode_utf8(a.old_kid@), composite::key_bytes(a_old));
            let a2 = (vstd::utf8::encode_utf8(a.new_kid@), composite::key_bytes(a_new));
            let b1 = (vstd::utf8::encode_utf8(b.old_kid@), composite::key_bytes(b_old));
            let b2 = (vstd::utf8::encode_utf8(b.new_kid@), composite::key_bytes(b_new));
            if dir is OldSignsNew {
                law_transcript_binds(
                    (a1.0, a1.1, a2.0, a2.1),
                    a.window_start,
                    a.window_end,
                    (b1.0, b1.1, b2.0, b2.1),
                    b.window_start,
                    b.window_end,
                );
            } else {
                law_transcript_binds(
                    (a2.0, a2.1, a1.0, a1.1),
                    a.window_start,
                    a.window_end,
                    (b2.0, b2.1, b1.0, b1.1),
                    b.window_start,
                    b.window_end,
                );
            }
            vstd::utf8::encode_utf8_decode_utf8(a.old_kid@);
            vstd::utf8::encode_utf8_decode_utf8(b.old_kid@);
            vstd::utf8::encode_utf8_decode_utf8(a.new_kid@);
            vstd::utf8::encode_utf8_decode_utf8(b.new_kid@);
        }
    }
}

/// A window ends as many seconds after its start as it is long, where that is a
/// time, and never before its start.
pub proof fn law_window_end(start: i64, secs: i64)
    ensures
        i64::MIN <= start + secs <= i64::MAX ==> window_end_of(start, secs) == start + secs,
        secs >= 0 ==> window_end_of(start, secs) >= start,
        start + secs > i64::MAX ==> window_end_of(start, secs) == i64::MAX,
{
}

/// Each direction is signed by its own root: the old one vouches for the new
/// one, and the new one for the old one, in both halves of the signature.
pub proof fn law_each_root_signs(b: CrossSignBundle, dir: CrossSignDirection)
    requires
        b.direction_fault(dir) is None,
    ensures
        match (public_key(b.old_pub@), public_key(b.new_pub@)) {
            (Ok(old_key), Ok(new_key)) => {
                let sig = signature_value(b.signature_of(dir))->Ok_0;
                let msg = b.covered(dir, old_key, new_key);
                let key = match dir {
                    CrossSignDirection::OldSignsNew => old_key,
                    CrossSignDirection::NewSignsOld => new_key,
                };
                &&& signature_value(b.signature_of(dir)) is Ok
                &&& composite::classical_accepts(key, crosssign_context(), msg, sig)
                &&& composite::pqc_accepts(key, crosssign_context(), msg, sig)
            },
            _ => false,
        },
        dir is OldSignsNew ==> b.signature_of(dir) == b.old_signs_new@,
        dir is NewSignsOld ==> b.signature_of(dir) == b.new_signs_old@,
{
}

/// The two directions are different statements: what the one signature covers
/// the other does not, unless both roots are the same.
pub proof fn law_directions_differ(
    b: CrossSignBundle,
    old_key: PublicKeyModel,
    new_key: PublicKeyModel,
)
    requires
        kids_fit(b),
        composite::key_bytes(old_key).len() <= u64::MAX,
        composite::key_bytes(new_key).len() <= u64::MAX,
        composite::key_bytes(old_key) != composite::key_bytes(new_key),
    ensures
        b.covered(CrossSignDirection::OldSignsNew, old_key, new_key) != b.covered(
            CrossSignDirection::NewSignsOld,
            old_key,
            new_key,
        ),
{
    let o = (vstd::utf8::encode_utf8(b.old_kid@), composite::key_bytes(old_key));
    let n = (vstd::utf8::encode_utf8(b.new_kid@), composite::key_bytes(new_key));
    if b.covered(CrossSignDirection::OldSignsNew, old_key, new_key) == b.covered(
        CrossSignDirection::NewSignsOld,
        old_key,
        new_key,
    ) {
        law_transcript_binds(
            (o.0, o.1, n.0, n.1),
            b.window_start,
            b.window_end,
            (n.0, n.1, o.0, o.1),
            b.window_start,
            b.window_end,
        );
    }
}

} // verus!
