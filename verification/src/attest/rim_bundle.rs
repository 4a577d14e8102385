//! Signed bundles of reference measurements.
//!
//! A bundle describes one generation of measurements. It is applied only if a
//! trusted publisher's composite signature covers its canonical JSON, under a
//! context of its own.

use vstd::prelude::*;
use vstd::slice::slice_to_vec;
use vstd::string::StringExecFns;
use crate::attest::rim::{PolicyId, RimGeneration};
use crate::collections::{DigestSet, KeyMap};
use crate::crypto::composite::{
    CompositeError, CompositePublicKey, CompositeSecretKey, PublicKeyModel, SecretKeyModel,
};
use crate::crypto::{composite, envelope};
use crate::primitives::bytes::take_array;
use crate::primitives::{bytes, encoding, json, text};

verus! {

/// Context of bundle signatures.
pub const RIM_SIGNING_CONTEXT: &'static str = "ferrogate-rim-v1";

/// The publishable contents of one generation.
#[derive(Debug, Clone, PartialEq, Eq)]
pub struct RimBundle {
    /// Version, above that of every bundle before.
    pub version: u64,
    /// The policy that the generation approves under.
    pub policy_id: String,
    /// First second of active use, Unix time.
    pub not_before: i64,
    /// First second after active use, Unix time.
    pub not_after: i64,
    /// Approved aggregate digests, 96 hexadecimal digits each.
    pub approved_digests_hex: Vec<String>,
}

/// Failure modes of bundles.
#[derive(Debug)]
pub enum BundleError {
    /// JSON could not be written or read.
    Json(String),
    /// Signing failed.
    Sign(CompositeError),
    /// The signer is not trusted.
    UnknownKid(String),
    /// The signature does not verify.
    BadSignature(String),
    /// An approved digest is not 48 bytes in hexadecimal.
    BadDigest(String),
}

/// The canonical JSON text of a bundle.
pub open spec fn bundle_text(b: RimBundle) -> Seq<char> {
    "{\"version\":"@ + text::decimal(b.version as nat) + ",\"policy_id\":"@
        + json::json_string_text(b.policy_id@) + ",\"not_before\":"@ + text::signed_decimal(
        b.not_before as int,
    ) + ",\"not_after\":"@ + text::signed_decimal(b.not_after as int)
        + ",\"approved_digests_hex\":"@ + json::json_strings(b.approved_digests_hex@) + "}"@
}

/// The bytes that the signature of a bundle covers.
pub open spec fn bundle_bytes(b: RimBundle) -> Seq<u8> {
    vstd::utf8::encode_utf8(bundle_text(b))
}

/// What is wrong with a digest in hexadecimal.
pub open spec fn digest_fault(s: Seq<char>) -> Option<Seq<char>> {
    let b = vstd::utf8::encode_utf8(s);
    if !encoding::is_hex(b) {
        Some(encoding::hex_fault_text(b))
    } else if encoding::hex_value(b).len() != 48 {
        Some("expected 48 bytes, got "@ + text::decimal(encoding::hex_value(b).len()))
    } else {
        None
    }
}

/// What is said of the first digest, from position `i` on, that is none.
pub open spec fn first_digest_fault(digests: Seq<String>, i: nat) -> Option<Seq<char>>
    decreases digests.len() - i,
{
    if i >= digests.len() {
        None
    } else {
        match digest_fault(digests[i as int]@) {
            Some(fault) => Some("digest["@ + text::decimal(i) + "]: "@ + fault),
            None => first_digest_fault(digests, i + 1),
        }
    }
}

/// The digest that 96 hexadecimal digits stand for.
pub open spec fn is_digest_of(d: [u8; 48], s: Seq<char>) -> bool {
    d@ == encoding::hex_value(vstd::utf8::encode_utf8(s))
}

/// Decode a digest in hexadecimal.
pub fn decode_digest(s: &str) -> (r: Result<[u8; 48], String>)
    ensures
        match r {
            Ok(d) => digest_fault(s@) is None && is_digest_of(d, s@),
            Err(e) => digest_fault(s@) == Some(e@),
        },
{
    let v = encoding::hex_decode(s.as_bytes())?;
    if v.len() != 48 {
        let mut m = "expected 48 bytes, got ".to_owned();
        m.append(text::decimal_text(v.len() as u64).as_str());
        return Err(m);
    }
    let d: [u8; 48] = take_array::<48>(v.as_slice(), 0);
    assert(d@ =~= v@);
    Ok(d)
}

impl RimBundle {
    /// The canonical JSON that the signature covers.
    pub fn canonical_json(&self) -> (r: Result<Vec<u8>, BundleError>)
        ensures
            r matches Ok(b) && b@ == bundle_bytes(*self),
    {
        let mut s = "{\"version\":".to_owned();
        s.append(text::decimal_text(self.version).as_str());
        s.append(",\"policy_id\":");
        s.append(json::json_string(self.policy_id.as_str()).as_str());
        s.append(",\"not_before\":");
        s.append(text::signed_decimal_text(self.not_before).as_str());
        s.append(",\"not_after\":");
        s.append(text::signed_decimal_text(self.not_after).as_str());
        s.append(",\"approved_digests_hex\":");
        s.append(json::strings_text(&self.approved_digests_hex).as_str());
        s.append("}");
        Ok(slice_to_vec(s.as_str().as_bytes()))
    }

    /// The generation that the bundle describes, if all its digests are 48
    /// bytes in hexadecimal.
    pub fn to_generation(&self) -> (r: Result<RimGeneration, BundleError>)
        ensures
            match r {
                Ok(g) => {
                    &&& first_digest_fault(self.approved_digests_hex@, 0) is None
                    &&& g.version == self.version
                    &&& g.policy_id@ == self.policy_id@
                    &&& g.not_before == self.not_before
                    &&& g.not_after == self.not_after
                    &&& forall|d: [u8; 48]| #[trigger]
                        g.approved@.contains(d) <==> exists|i: int|
                            0 <= i < self.approved_digests_hex@.len() && is_digest_of(
                                d,
                                (#[trigger] self.approved_digests_hex@[i])@,
                            )
                },
                Err(e) => e matches BundleError::BadDigest(m) && first_digest_fault(
                    self.approved_digests_hex@,
                    0,
                ) == Some(m@),
            },
    {
        let mut approved = DigestSet::new();
        let mut i: usize = 0;
        let ghost digests = self.approved_digests_hex@;
        while i < self.approved_digests_hex.len()
            invariant
                i <= digests.len(),
                digests == self.approved_digests_hex@,
                first_digest_fault(digests, 0) == first_digest_fault(digests, i as nat),
                forall|d: [u8; 48]| #[trigger]
                    approved@.contains(d) <==> exists|j: int|
                        0 <= j < i && is_digest_of(d, (#[trigger] digests[j])@),
            decreases digests.len() - i,
        {
            match decode_digest(self.approved_digests_hex[i].as_str()) {
                Ok(d) => {
                    let ghost before = approved@;
                    approved.insert(d);
                    proof {
                        assert forall|x: [u8; 48]| #[trigger]
                            approved@.contains(x) <==> exists|j: int|
                                0 <= j < i + 1 && is_digest_of(x, (#[trigger] digests[j])@) by {
                            if before.contains(x) {
                                let j = choose|j: int|
                                    0 <= j < i && is_digest_of(x, (#[trigger] digests[j])@);
                                assert(is_digest_of(x, digests[j]@));
                            }
                            assert(is_digest_of(d, digests[i as int]@));
                            if is_digest_of(x, digests[i as int]@) {
                                bytes::lemma_array_view_injective::<48>(x, d);
                            }
                        }
                    }
                },
                Err(e) => {
                    let mut m = "digest[".to_owned();
                    m.append(text::decimal_text(i as u64).as_str());
                    m.append("]: ");
                    m.append(e.as_str());
                    return Err(BundleError::BadDigest(m));
                },
            }
            i += 1;
        }
        Ok(
            RimGeneration {
                version: self.version,
                policy_id: PolicyId(self.policy_id.clone()),
                not_before: self.not_before,
                not_after: self.not_after,
                approved,
            },
        )
    }
}

/// The publisher keys that are trusted, by key id.
#[derive(Debug)]
pub struct TrustedKeys {
    keys: KeyMap<String, CompositePublicKey>,
}

impl View for TrustedKeys {
    type V = Map<Seq<char>, PublicKeyModel>;

    closed spec fn view(&self) -> Map<Seq<char>, PublicKeyModel> {
        self.keys@.map_values(|k: CompositePublicKey| k@)
    }
}

impl Default for TrustedKeys {
    fn default() -> (r: Self)
        ensures
            r@ == Map::<Seq<char>, PublicKeyModel>::empty(),
    {
        TrustedKeys::new()
    }
}

impl TrustedKeys {
    /// No keys: everything is refused.
    pub fn new() -> (r: Self)
        ensures
            r@ == Map::<Seq<char>, PublicKeyModel>::empty(),
    {
        let r = TrustedKeys { keys: KeyMap::new() };
        assert(r@ =~= Map::<Seq<char>, PublicKeyModel>::empty());
        r
    }

    /// Trust a key, in place of an earlier one with the same id.
    pub fn add(&mut self, kid: String, pk: CompositePublicKey)
        ensures
            final(self)@ == old(self)@.insert(kid@, pk@),
    {
        self.keys.insert(kid, pk);
        assert(self@ =~= old(self)@.insert(kid@, pk@));
    }

    /// The key with an id.
    pub fn get(&self, kid: &str) -> (r: Option<&CompositePublicKey>)
        ensures
            match r {
                Some(k) => self@.dom().contains(kid@) && self@[kid@] == k@,
                None => !self@.dom().contains(kid@),
            },
    {
        let key = kid.to_owned();
        self.keys.get(&key)
    }

    /// The number of keys.
    pub fn len(&self) -> (r: usize)
        ensures
            self@.dom().finite(),
            r == self@.dom().len(),
    {
        assert(self.keys@.dom() =~= self@.dom());
        self.keys.len()
    }

    /// Whether no key is trusted.
    pub fn is_empty(&self) -> (r: bool)
        ensures
            r == (self@.dom().len() == 0),
    {
        self.len() == 0
    }
}

/// Why a signed document is refused.
pub enum EnvelopeFault {
    UnknownKid(Seq<char>),
    BadSignature(Seq<char>),
}

/// What the check of a signed document says: the signer must be trusted before
/// anything else is looked at.
pub open spec fn envelope_verdict(
    trust: Map<Seq<char>, PublicKeyModel>,
    kid: Seq<char>,
    signature: Seq<char>,
    ctx: Seq<u8>,
    payload: Seq<u8>,
) -> Result<(), EnvelopeFault> {
    if !trust.dom().contains(kid) {
        Err(EnvelopeFault::UnknownKid(kid))
    } else {
        match envelope::checked(trust[kid], ctx, payload, signature) {
            Ok(_) => Ok(()),
            Err(e) => Err(EnvelopeFault::BadSignature(e)),
        }
    }
}

/// A bundle with a publisher's signature.
#[derive(Debug)]
pub struct SignedRimBundle {
    /// The bundle.
    pub bundle: RimBundle,
    /// Key id of the publisher.
    pub signer_kid: String,
    /// The composite signature in unpadded URL-safe Base64.
    pub signature_b64: String,
}

impl SignedRimBundle {
    /// What verification says.
    pub open spec fn verdict(self, trust: Map<Seq<char>, PublicKeyModel>) -> Result<
        (),
        EnvelopeFault,
    > {
        envelope_verdict(
            trust,
            self.signer_kid@,
            self.signature_b64@,
            vstd::utf8::encode_utf8(RIM_SIGNING_CONTEXT@),
            bundle_bytes(self.bundle),
        )
    }

    /// Sign a bundle.
    pub fn sign(bundle: RimBundle, signer_kid: String, signer: &CompositeSecretKey) -> (r: Result<
        Self,
        BundleError,
    >)
        ensures
            match r {
                Ok(s) => {
                    &&& s.bundle == bundle
                    &&& s.signer_kid == signer_kid
                    &&& envelope::sealed_by(
                        signer@,
                        vstd::utf8::encode_utf8(RIM_SIGNING_CONTEXT@),
                        bundle_bytes(bundle),
                        s.signature_b64@,
                    )
                },
                Err(e) => e matches BundleError::Sign(c) && composite::sign_failed(
                    signer@,
                    vstd::utf8::encode_utf8(RIM_SIGNING_CONTEXT@),
                    bundle_bytes(bundle),
                    c,
                ),
            },
    {
        let payload = bundle.canonical_json()?;
        match envelope::seal(signer, RIM_SIGNING_CONTEXT.as_bytes(), payload.as_slice()) {
            Ok(signature_b64) => Ok(SignedRimBundle { bundle, signer_kid, signature_b64 }),
            Err(e) => Err(BundleError::Sign(e)),
        }
    }

    /// Verify the signature under a trusted key. The bundle is handed out only
    /// if it is authentic.
    pub fn verify<'a>(&'a self, trust: &TrustedKeys) -> (r: Result<&'a RimBundle, BundleError>)
        ensures
            match (r, self.verdict(trust@)) {
                (Ok(b), Ok(_)) => *b == self.bundle,
                (Err(BundleError::UnknownKid(k)), Err(EnvelopeFault::UnknownKid(kid))) => k@ == kid,
                (Err(BundleError::BadSignature(m)), Err(EnvelopeFault::BadSignature(fault))) => m@
                    == fault,
                _ => false,
            },
    {
        let pk = match trust.get(self.signer_kid.as_str()) {
            Some(k) => k,
            None => return Err(BundleError::UnknownKid(self.signer_kid.clone())),
        };
        let payload = self.bundle.canonical_json()?;
        match envelope::check_signature(
            pk,
            RIM_SIGNING_CONTEXT.as_bytes(),
            payload.as_slice(),
            self.signature_b64.as_str(),
        ) {
            Ok(()) => Ok(&self.bundle),
            Err(e) => Err(BundleError::BadSignature(e)),
        }
    }
}

/// A bundle that was signed with `secret` verifies wherever the key id stands
/// for the public key of `secret`, unless the classical half of the signature
/// is degenerate.
pub proof fn law_signed_bundle_verifies(
    s: SignedRimBundle,
    secret: SecretKeyModel,
    trust: Map<Seq<char>, PublicKeyModel>,
)
    requires
        envelope::sealed_by(
            secret,
            vstd::utf8::encode_utf8(RIM_SIGNING_CONTEXT@),
            bundle_bytes(s.bundle),
            s.signature_b64@,
        ),
        !composite::degenerate(envelope::opened(s.signature_b64@)->Ok_0),
        trust.dom().contains(s.signer_kid@),
        trust[s.signer_kid@] == composite::public_of(secret),
    ensures
        s.verdict(trust) is Ok,
{
    envelope::law_sealed_checks(
        secret,
        vstd::utf8::encode_utf8(RIM_SIGNING_CONTEXT@),
        bundle_bytes(s.bundle),
        s.signature_b64@,
    );
}

/// With no trusted keys every bundle is refused, whatever its signature.
pub proof fn law_no_keys_no_bundles(s: SignedRimBundle)
    ensures
        s.verdict(Map::empty()) == Err::<(), _>(EnvelopeFault::UnknownKid(s.signer_kid@)),
{
}

/// Whether two bundles say the same: version, policy, both ends of their use,
/// and the digests one by one.
pub open spec fn same_bundle(a: RimBundle, b: RimBundle) -> bool {
    &&& a.version == b.version
    &&& a.policy_id@ == b.policy_id@
    &&& a.not_before == b.not_before
    &&& a.not_after == b.not_after
    &&& json::same_texts(a.approved_digests_hex@, b.approved_digests_hex@)
}

/// The end of the text from the digests on.
spec fn digests_tail(m: RimBundle) -> Seq<char> {
    json::json_strings(m.approved_digests_hex@) + "}"@
}

/// The end of the text from the end of use on.
spec fn end_tail(m: RimBundle) -> Seq<char> {
    text::signed_decimal(m.not_after as int) + (",\"approved_digests_hex\":"@ + digests_tail(m))
}

/// The end of the text from the start of use on.
spec fn start_tail(m: RimBundle) -> Seq<char> {
    text::signed_decimal(m.not_before as int) + (",\"not_after\":"@ + end_tail(m))
}

/// The end of the text from the policy on.
spec fn policy_tail(m: RimBundle) -> Seq<char> {
    json::json_string_text(m.policy_id@) + (",\"not_before\":"@ + start_tail(m))
}

/// The end of the text from the version on.
spec fn version_tail(m: RimBundle) -> Seq<char> {
    text::decimal(m.version as nat) + (",\"policy_id\":"@ + policy_tail(m))
}

proof fn lemma_bundle_layout(m: RimBundle)
    ensures
        bundle_text(m) == "{\"version\":"@ + version_tail(m),
{
    let p1 = "{\"version\":"@;
    let p2 = text::decimal(m.version as nat);
    let p3 = ",\"policy_id\":"@;
    let p4 = json::json_string_text(m.policy_id@);
    let p5 = ",\"not_before\":"@;
    let p6 = text::signed_decimal(m.not_before as int);
    let p7 = ",\"not_after\":"@;
    let p8 = text::signed_decimal(m.not_after as int);
    let p9 = ",\"approved_digests_hex\":"@;
    let p10 = json::json_strings(m.approved_digests_hex@);
    let p11 = "}"@;
    let s2 = p1 + p2;
    let s3 = s2 + p3;
    let s4 = s3 + p4;
    let s5 = s4 + p5;
    let s6 = s5 + p6;
    let s7 = s6 + p7;
    let s8 = s7 + p8;
    let s9 = s8 + p9;
    json::lemma_grouping(s9, p10, p11);
    let r10 = p10 + p11;
    json::lemma_grouping(s8, p9, r10);
    let r9 = p9 + r10;
    json::lemma_grouping(s7, p8, r9);
    let r8 = p8 + r9;
    json::lemma_grouping(s6, p7, r8);
    let r7 = p7 + r8;
    json::lemma_grouping(s5, p6, r7);
    let r6 = p6 + r7;
    json::lemma_grouping(s4, p5, r6);
    let r5 = p5 + r6;
    json::lemma_grouping(s3, p4, r5);
    let r4 = p4 + r5;
    json::lemma_grouping(s2, p3, r4);
    let r3 = p3 + r4;
    json::lemma_grouping(p1, p2, r3);
}

/// The signed form determines the bundle: bundles with one canonical form say
/// the same in every field and approve the same digests.
pub proof fn law_canonical_form_binds(a: RimBundle, b: RimBundle)
    requires
        bundle_bytes(a) == bundle_bytes(b),
    ensures
        same_bundle(a, b),
{
    json::lemma_utf8_injective(bundle_text(a), bundle_text(b));
    reveal_strlit(",\"policy_id\":");
    reveal_strlit(",\"not_after\":");
    reveal_strlit(",\"approved_digests_hex\":");
    lemma_bundle_layout(a);
    lemma_bundle_layout(b);
    json::lemma_literal("{\"version\":"@, version_tail(a), version_tail(b));
    json::lemma_number_field(
        a.version as nat,
        ",\"policy_id\":"@ + policy_tail(a),
        b.version as nat,
        ",\"policy_id\":"@ + policy_tail(b),
    );
    json::lemma_literal(",\"policy_id\":"@, policy_tail(a), policy_tail(b));
    json::lemma_string_field(
        a.policy_id@,
        ",\"not_before\":"@ + start_tail(a),
        b.policy_id@,
        ",\"not_before\":"@ + start_tail(b),
    );
    json::lemma_literal(",\"not_before\":"@, start_tail(a), start_tail(b));
    json::lemma_signed_field(
        a.not_before,
        ",\"not_after\":"@ + end_tail(a),
        b.not_before,
        ",\"not_after\":"@ + end_tail(b),
    );
    json::lemma_literal(",\"not_after\":"@, end_tail(a), end_tail(b));
    json::lemma_signed_field(
        a.not_after,
        ",\"approved_digests_hex\":"@ + digests_tail(a),
        b.not_after,
        ",\"approved_digests_hex\":"@ + digests_tail(b),
    );
    json::lemma_literal(",\"approved_digests_hex\":"@, digests_tail(a), digests_tail(b));
    json::lemma_strings_field(a.approved_digests_hex@, "}"@, b.approved_digests_hex@, "}"@);
}

/// A bundle that was altered anywhere does not verify under the signature of
/// the one before, unless one signature is accepted on two different messages:
/// if both verify, the publisher's key accepts the signature on both forms, and
/// these differ.
pub proof fn law_altered_bundle_refused(
    a: SignedRimBundle,
    b: SignedRimBundle,
    trust: Map<Seq<char>, PublicKeyModel>,
)
    requires
        a.signer_kid@ == b.signer_kid@,
        a.signature_b64@ == b.signature_b64@,
        !same_bundle(a.bundle, b.bundle),
        a.verdict(trust) is Ok,
        b.verdict(trust) is Ok,
    ensures
        trust.dom().contains(a.signer_kid@),
        envelope::opened(a.signature_b64@) is Ok,
        ({
            let key = trust[a.signer_kid@];
            let sig = envelope::opened(a.signature_b64@)->Ok_0;
            let ctx = vstd::utf8::encode_utf8(RIM_SIGNING_CONTEXT@);
            let (m, n) = (bundle_bytes(a.bundle), bundle_bytes(b.bundle));
            m != n && composite::accepts(key, ctx, m, sig) && composite::accepts(key, ctx, n, sig)
        }),
{
    if bundle_bytes(a.bundle) == bundle_bytes(b.bundle) {
        law_canonical_form_binds(a.bundle, b.bundle);
    }
}

/// Whether a text is an approved digest as bundles hold it: 96 hexadecimal
/// digits.
pub open spec fn is_digest_text(s: Seq<char>) -> bool {
    let b = vstd::utf8::encode_utf8(s);
    b.len() == 96 && encoding::is_hex(b)
}

proof fn lemma_digest_fault(digests: Seq<String>, i: nat)
    ensures
        first_digest_fault(digests, i) is None <==> forall|k: int|
            i <= k < digests.len() ==> is_digest_text((#[trigger] digests[k])@),
    decreases digests.len() - i,
{
    if i < digests.len() {
        lemma_digest_fault(digests, i + 1);
        let b = vstd::utf8::encode_utf8(digests[i as int]@);
        assert(encoding::hex_value(b).len() == b.len() / 2);
        assert(digest_fault(digests[i as int]@) is None <==> is_digest_text(digests[i as int]@));
    }
}

/// A bundle can be applied exactly if each of its digests is one.
pub proof fn law_bundle_decodes(b: RimBundle)
    ensures
        first_digest_fault(b.approved_digests_hex@, 0) is None <==> forall|k: int|
            0 <= k < b.approved_digests_hex@.len() ==> is_digest_text(
                (#[trigger] b.approved_digests_hex@[k])@,
            ),
{
    lemma_digest_fault(b.approved_digests_hex@, 0);
}

/// The lowercase hexadecimal form of a digest stands for that digest, and for
/// no other.
pub proof fn law_digest_text(d: [u8; 48], e: [u8; 48])
    ensures
        is_digest_text(encoding::hex_text(d@)),
        is_digest_of(e, encoding::hex_text(d@)) <==> e == d,
{
    encoding::lemma_hex_roundtrip(d@);
    let t = encoding::hex_text(d@);
    assert(encoding::hex_value(vstd::utf8::encode_utf8(t)).len() == 48);
    assert(vstd::utf8::encode_utf8(t).len() / 2 == 48);
    if is_digest_of(e, t) {
        bytes::lemma_array_view_injective::<48>(d, e);
    }
}

} // verus!
