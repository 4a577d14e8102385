//! Quote verification. Every step ends the verification on failure with a
//! precise reason, which is for the audit trail and never for the peer.

use vstd::prelude::*;
use std::collections::BTreeMap;
use crate::attest::aik;
use crate::attest::aik::{check_aik, AikRejection};
use crate::attest::rim;
use crate::attest::rim::{PolicyId, RimModel, RimStore};
use crate::attest::tpm;
use crate::attest::tpm::{
    attest_magic, EccModel, EccPublic, EcdsaSignature, ParseError, QuoteInfo, QuoteModel, SelectionModel,
    TPM_ALG_SHA256, TPM_ALG_SHA384, TPM_GENERATED_VALUE, TPM_ST_ATTEST_QUOTE,
};
use crate::attest::vendor;
use crate::attest::vendor::{ChainError, ChainFault, RootModel, Vendor, VendorTrustStore};
use crate::primitives::bytes::ct_bytes_equal;
use crate::primitives::{hash, signature};

verus! {

/// The PCR values that a host reports beside its quote.
#[derive(Debug, Clone)]
pub struct PcrSet {
    values: BTreeMap<u8, Vec<u8>>,
}

impl View for PcrSet {
    type V = Map<u8, Seq<u8>>;

    closed spec fn view(&self) -> Map<u8, Seq<u8>> {
        self.values@.map_values(|v: Vec<u8>| v@)
    }
}

impl Default for PcrSet {
    fn default() -> (r: Self)
        ensures
            r@ == Map::<u8, Seq<u8>>::empty(),
    {
        PcrSet::new()
    }
}

impl PcrSet {
    /// An empty set.
    pub fn new() -> (r: Self)
        ensures
            r@ == Map::<u8, Seq<u8>>::empty(),
    {
        let r = PcrSet { values: BTreeMap::new() };
        assert(r@ =~= Map::<u8, Seq<u8>>::empty());
        r
    }

    /// Record the value of one PCR, in place of an earlier one.
    pub fn insert(&mut self, index: u8, value: Vec<u8>)
        ensures
            final(self)@ == old(self)@.insert(index, value@),
    {
        let _before = self.values.insert(index, value);
        assert(self@ =~= old(self)@.insert(index, value@));
    }

    /// The value of one PCR.
    pub fn get(&self, index: u8) -> (r: Option<&[u8]>)
        ensures
            match r {
                Some(v) => self@.dom().contains(index) && self@[index] == v@,
                None => !self@.dom().contains(index),
            },
    {
        match self.values.get(&index) {
            Some(v) => Some(v.as_slice()),
            None => None,
        }
    }
}

/// All inputs of one quote verification.
pub struct QuoteVerification<'a> {
    /// Endorsement-key certificate, DER.
    pub ek_cert_der: &'a [u8],
    /// Intermediate certificates, DER.
    pub ek_intermediates: &'a [Vec<u8>],
    /// Marshaled `TPMT_PUBLIC` of the attestation key.
    pub aik_pub: &'a [u8],
    /// Marshaled `TPMS_ATTEST`, the signed quote body.
    pub quote_blob: &'a [u8],
    /// Marshaled `TPMT_SIGNATURE` on the quote body.
    pub signature: &'a [u8],
    /// The nonce that the quote must carry.
    pub nonce: &'a [u8],
    /// The PCR values that the host reports.
    pub pcrs: &'a PcrSet,
    /// Reference time, Unix seconds.
    pub now: i64,
}

/// The contents of a [`QuoteVerification`].
pub struct QuoteInputs {
    pub ek_cert: Seq<u8>,
    pub intermediates: Seq<Seq<u8>>,
    pub aik_pub: Seq<u8>,
    pub quote_blob: Seq<u8>,
    pub signature: Seq<u8>,
    pub nonce: Seq<u8>,
    pub pcrs: Map<u8, Seq<u8>>,
    pub now: i64,
}

impl<'a> View for QuoteVerification<'a> {
    type V = QuoteInputs;

    open spec fn view(&self) -> QuoteInputs {
        QuoteInputs {
            ek_cert: self.ek_cert_der@,
            intermediates: vendor::cert_views(self.ek_intermediates@),
            aik_pub: self.aik_pub@,
            quote_blob: self.quote_blob@,
            signature: self.signature@,
            nonce: self.nonce@,
            pcrs: self.pcrs@,
            now: self.now,
        }
    }
}

/// A quote that passed every check.
#[derive(Debug, Clone, PartialEq, Eq)]
pub struct VerifiedQuote {
    /// The vendor whose root anchors the endorsement key.
    pub vendor: Vendor,
    /// The policy that the boot state is approved under.
    pub policy_id: PolicyId,
    /// The aggregate PCR digest.
    pub pcr_digest: [u8; 48],
}

/// Why a quote is rejected.
#[derive(Debug, Clone, PartialEq, Eq)]
pub enum RejectReason {
    /// The endorsement-key certificate does not chain to a trusted root.
    EkChain(ChainError),
    /// The attestation key does not have the required attributes.
    AikAttributes(AikRejection),
    /// A TPM structure does not parse.
    Malformed(ParseError),
    /// The quote was not made by a TPM.
    BadMagic,
    /// The attestation is no quote.
    NotAQuote,
    /// The quote does not carry the nonce.
    NonceMismatch,
    /// The signature does not verify under the attestation key.
    SignatureInvalid,
    /// The signature uses a digest algorithm that is not supported.
    UnsupportedSigHash(u16),
    /// The value of a selected PCR was not reported.
    MissingPcr(u8),
    /// The reported values do not hash to the quoted digest.
    PcrDigestMismatch,
    /// The quoted digest is not 48 bytes long.
    PcrDigestNotSha384,
    /// The aggregate digest is not approved.
    NotInRim,
}

/// The contents of a [`RejectReason`].
pub enum RejectModel {
    EkChain(ChainFault),
    AikAttributes(AikRejection),
    Malformed(ParseError),
    BadMagic,
    NotAQuote,
    NonceMismatch,
    SignatureInvalid,
    UnsupportedSigHash(u16),
    MissingPcr(u8),
    PcrDigestMismatch,
    PcrDigestNotSha384,
    NotInRim,
}

impl View for RejectReason {
    type V = RejectModel;

    open spec fn view(&self) -> RejectModel {
        match self {
            RejectReason::EkChain(e) => RejectModel::EkChain(e@),
            RejectReason::AikAttributes(e) => RejectModel::AikAttributes(*e),
            RejectReason::Malformed(e) => RejectModel::Malformed(*e),
            RejectReason::BadMagic => RejectModel::BadMagic,
            RejectReason::NotAQuote => RejectModel::NotAQuote,
            RejectReason::NonceMismatch => RejectModel::NonceMismatch,
            RejectReason::SignatureInvalid => RejectModel::SignatureInvalid,
            RejectReason::UnsupportedSigHash(h) => RejectModel::UnsupportedSigHash(*h),
            RejectReason::MissingPcr(i) => RejectModel::MissingPcr(*i),
            RejectReason::PcrDigestMismatch => RejectModel::PcrDigestMismatch,
            RejectReason::PcrDigestNotSha384 => RejectModel::PcrDigestNotSha384,
            RejectReason::NotInRim => RejectModel::NotInRim,
        }
    }
}

/// A big-endian scalar as 32 bytes: zeros in front of a shorter one, the last
/// 32 bytes of a longer one.
pub open spec fn padded32(b: Seq<u8>) -> Seq<u8> {
    if b.len() < 32 {
        Seq::new((32 - b.len()) as nat, |i: int| 0u8) + b
    } else {
        b.skip(b.len() - 32)
    }
}

/// Bring a big-endian scalar to 32 bytes, by zeros in front or by its last 32
/// bytes.
pub fn pad32(input: &[u8]) -> (r: [u8; 32])
    ensures
        r@ == padded32(input@),
{
    let mut out: [u8; 32] = [0u8; 32];
    let len: usize = input.len();
    let n: usize = if len < 32 {
        len
    } else {
        32
    };
    let mut i: usize = 0;
    while i < n
        invariant
            i <= n <= 32,
            n <= len == input@.len(),
            forall|j: int| 0 <= j < 32 - n ==> out@[j] == 0,
            forall|j: int| 32 - n <= j < 32 - n + i ==> #[trigger] out@[j] == input@[len - 32 + j],
        decreases n - i,
    {
        out[32 - n + i] = input[len - n + i];
        i += 1;
    }
    assert(out@ =~= padded32(input@));
    out
}

/// The digest of `blob` under a TPM algorithm, if it is a supported one.
pub open spec fn tpm_digest(alg: u16, blob: Seq<u8>) -> Option<Seq<u8>> {
    if alg == TPM_ALG_SHA256 {
        Some(hash::sha256_of(blob)@)
    } else if alg == TPM_ALG_SHA384 {
        Some(hash::sha384_of(blob)@)
    } else {
        None
    }
}

/// What the check of a signature by an attestation key says.
pub open spec fn signature_verdict(key: EccModel, blob: Seq<u8>, sig: Seq<u8>) -> Result<
    (),
    RejectModel,
> {
    match tpm::ecdsa_of(sig) {
        Err(e) => Err(RejectModel::Malformed(e)),
        Ok(s) => match tpm_digest(s.hash_alg, blob) {
            None => Err(RejectModel::UnsupportedSigHash(s.hash_alg)),
            Some(prehash) => if signature::p256_accepts(
                padded32(key.x),
                padded32(key.y),
                prehash,
                padded32(s.r),
                padded32(s.s),
            ) {
                Ok(())
            } else {
                Err(RejectModel::SignatureInvalid)
            },
        },
    }
}

/// Verify the ECDSA signature of `aik` on `blob`, whose digest algorithm the
/// signature names.
fn verify_quote_signature(aik: &EccPublic, blob: &[u8], sig: &[u8]) -> (r: Result<(), RejectReason>)
    ensures
        match r {
            Ok(_) => signature_verdict(aik@, blob@, sig@) is Ok,
            Err(e) => signature_verdict(aik@, blob@, sig@) == Err::<(), _>(e@),
        },
{
    let s = match EcdsaSignature::parse(sig) {
        Ok(s) => s,
        Err(e) => return Err(RejectReason::Malformed(e)),
    };
    let mut prehash: Vec<u8> = Vec::new();
    if s.hash_alg == TPM_ALG_SHA256 {
        let d = hash::sha256(blob);
        prehash.extend_from_slice(d.as_slice());
        assert(prehash@ =~= hash::sha256_of(blob@)@);
    } else if s.hash_alg == TPM_ALG_SHA384 {
        let d = hash::sha384(blob);
        prehash.extend_from_slice(d.as_slice());
        assert(prehash@ =~= hash::sha384_of(blob@)@);
    } else {
        return Err(RejectReason::UnsupportedSigHash(s.hash_alg));
    }
    if signature::p256_verify_prehash(
        &pad32(aik.x.as_slice()),
        &pad32(aik.y.as_slice()),
        prehash.as_slice(),
        &pad32(s.r.as_slice()),
        &pad32(s.s.as_slice()),
    ) {
        Ok(())
    } else {
        Err(RejectReason::SignatureInvalid)
    }
}

/// What the check of a signature by a marshaled attestation key says.
pub open spec fn aik_signature_verdict(aik_pub: Seq<u8>, message: Seq<u8>, sig: Seq<u8>) -> Result<
    (),
    RejectModel,
> {
    match tpm::ecc_public_of(aik_pub) {
        Err(e) => Err(RejectModel::Malformed(e)),
        Ok(key) => signature_verdict(key, message, sig),
    }
}

/// Verify a signature by an attestation key on any message. It binds a
/// software key to the attested hardware.
pub fn verify_aik_signature(aik_pub_marshaled: &[u8], message: &[u8], signature: &[u8]) -> (r:
    Result<(), RejectReason>)
    ensures
        match r {
            Ok(_) => aik_signature_verdict(aik_pub_marshaled@, message@, signature@) is Ok,
            Err(e) => aik_signature_verdict(aik_pub_marshaled@, message@, signature@) == Err::<
                (),
                _,
            >(e@),
        },
{
    let aik = match EccPublic::parse(aik_pub_marshaled) {
        Ok(k) => k,
        Err(e) => return Err(RejectReason::Malformed(e)),
    };
    verify_quote_signature(&aik, message, signature)
}

/// The PCR indices that a quote selects of the SHA-384 bank, in the order of
/// the quote. Other banks do not count.
pub open spec fn quoted_indices(selections: Seq<SelectionModel>) -> Seq<u8>
    decreases selections.len(),
{
    if selections.len() == 0 {
        Seq::empty()
    } else {
        let before = quoted_indices(selections.drop_last());
        let last = selections.last();
        if last.hash_alg == TPM_ALG_SHA384 {
            before + tpm::selected(last.bitmap)
        } else {
            before
        }
    }
}

/// The first index without a reported value.
pub open spec fn first_missing(indices: Seq<u8>, pcrs: Map<u8, Seq<u8>>) -> Option<u8>
    decreases indices.len(),
{
    if indices.len() == 0 {
        None
    } else {
        match first_missing(indices.drop_last(), pcrs) {
            Some(i) => Some(i),
            None => if pcrs.dom().contains(indices.last()) {
                None
            } else {
                Some(indices.last())
            },
        }
    }
}

/// The reported values of the indices, one after another.
pub open spec fn reported(indices: Seq<u8>, pcrs: Map<u8, Seq<u8>>) -> Seq<u8>
    decreases indices.len(),
{
    if indices.len() == 0 {
        Seq::empty()
    } else {
        reported(indices.drop_last(), pcrs) + pcrs[indices.last()]
    }
}

/// The aggregate digest of the quoted PCRs, or the first value that is
/// missing.
pub open spec fn aggregate(quote: QuoteModel, pcrs: Map<u8, Seq<u8>>) -> Result<[u8; 48], u8> {
    let indices = quoted_indices(quote.pcr_selection);
    match first_missing(indices, pcrs) {
        Some(i) => Err(i),
        None => Ok(hash::sha384_of(reported(indices, pcrs))),
    }
}

proof fn lemma_first_missing_prefix(indices: Seq<u8>, n: int, pcrs: Map<u8, Seq<u8>>)
    requires
        0 <= n <= indices.len(),
        first_missing(indices.take(n), pcrs) is Some,
    ensures
        first_missing(indices, pcrs) == first_missing(indices.take(n), pcrs),
    decreases indices.len(),
{
    if n < indices.len() {
        assert(indices.drop_last().take(n) =~= indices.take(n));
        lemma_first_missing_prefix(indices.drop_last(), n, pcrs);
    } else {
        assert(indices.take(n) =~= indices);
    }
}

proof fn lemma_quoted_prefix(selections: Seq<SelectionModel>, n: int)
    requires
        0 <= n <= selections.len(),
    ensures
        quoted_indices(selections.take(n)).len() <= quoted_indices(selections).len(),
        quoted_indices(selections).take(quoted_indices(selections.take(n)).len() as int)
            == quoted_indices(selections.take(n)),
    decreases selections.len(),
{
    if n == selections.len() {
        assert(selections.take(n) =~= selections);
        let q = quoted_indices(selections);
        assert(q.take(q.len() as int) =~= q);
    } else {
        let init = selections.drop_last();
        assert(init.take(n) =~= selections.take(n));
        lemma_quoted_prefix(init, n);
        let a = quoted_indices(selections.take(n));
        let b = quoted_indices(init);
        let c = quoted_indices(selections);
        assert(c.take(a.len() as int) =~= b.take(a.len() as int));
    }
}

/// Recompute the aggregate digest of the quoted PCRs from the reported values.
fn recompute_pcr_digest(quote: &QuoteInfo, pcrs: &PcrSet) -> (r: Result<[u8; 48], RejectReason>)
    ensures
        match r {
            Ok(d) => aggregate(quote@, pcrs@) == Ok::<_, u8>(d),
            Err(e) => e matches RejectReason::MissingPcr(i) && aggregate(quote@, pcrs@) == Err::<
                [u8; 48],
                _,
            >(i),
        },
{
    let ghost models = quote@.pcr_selection;
    let ghost all = quoted_indices(models);
    let mut values: Vec<u8> = Vec::new();
    let mut s: usize = 0;
    assert(models.take(0) =~= Seq::<SelectionModel>::empty());
    while s < quote.pcr_selection.len()
        invariant
            s <= quote.pcr_selection@.len(),
            models == quote@.pcr_selection,
            all == quoted_indices(models),
            first_missing(quoted_indices(models.take(s as int)), pcrs@) is None,
            values@ == reported(quoted_indices(models.take(s as int)), pcrs@),
        decreases quote.pcr_selection@.len() - s,
    {
        let selection = &quote.pcr_selection[s];
        let ghost done = quoted_indices(models.take(s as int));
        proof {
            assert(models.take(s + 1).drop_last() =~= models.take(s as int));
            assert(models.take(s + 1).last() == selection@);
        }
        if selection.hash_alg == TPM_ALG_SHA384 {
            let indices = selection.selected_indices();
            let ghost next = done + indices@;
            assert(next == quoted_indices(models.take(s + 1)));
            let mut i: usize = 0;
            assert(done + indices@.take(0) =~= done);
            while i < indices.len()
                invariant
                    i <= indices@.len(),
                    s < quote.pcr_selection@.len(),
                    models == quote@.pcr_selection,
                    all == quoted_indices(models),
                    next == done + indices@,
                    next == quoted_indices(models.take(s + 1)),
                    first_missing(done + indices@.take(i as int), pcrs@) is None,
                    values@ == reported(done + indices@.take(i as int), pcrs@),
                decreases indices@.len() - i,
            {
                let idx: u8 = indices[i];
                let ghost ahead = done + indices@.take(i + 1);
                proof {
                    assert(ahead.drop_last() =~= done + indices@.take(i as int));
                    assert(ahead.last() == idx);
                }
                match pcrs.get(idx) {
                    Some(v) => {
                        values.extend_from_slice(v);
                        assert(values@ =~= reported(ahead, pcrs@));
                    },
                    None => {
                        proof {
                            assert(first_missing(ahead, pcrs@) == Some(idx));
                            lemma_quoted_prefix(models, s + 1);
                            assert(all.take(ahead.len() as int) =~= ahead) by {
                                assert(all.take(next.len() as int) == next);
                                assert(all.take(ahead.len() as int) =~= all.take(
                                    next.len() as int,
                                ).take(ahead.len() as int));
                                assert(next.take(ahead.len() as int) =~= ahead);
                            }
                            lemma_first_missing_prefix(all, ahead.len() as int, pcrs@);
                        }
                        return Err(RejectReason::MissingPcr(idx));
                    },
                }
                i += 1;
            }
            assert(done + indices@.take(i as int) =~= next);
        }
        s += 1;
    }
    assert(models.take(s as int) =~= models);
    let digest = hash::sha384(values.as_slice());
    assert(digest =~= hash::sha384_of(reported(all, pcrs@)));
    Ok(digest)
}

/// Whether two secrets are the same. The comparison is made in constant time;
/// a match shows that the attestation key lives in the same TPM as the
/// endorsement key that the secret was wrapped for.
pub fn credential_secret_matches(expected: &[u8], got: &[u8]) -> (r: bool)
    ensures
        r == (expected@ == got@),
{
    ct_bytes_equal(expected, got)
}

/// What a verified quote says.
pub struct VerifiedModel {
    pub vendor: Vendor,
    pub policy_id: Seq<char>,
    pub pcr_digest: [u8; 48],
}

impl View for VerifiedQuote {
    type V = VerifiedModel;

    open spec fn view(&self) -> VerifiedModel {
        VerifiedModel {
            vendor: self.vendor,
            policy_id: self.policy_id@,
            pcr_digest: self.pcr_digest,
        }
    }
}

/// What is said of a parsed quote from a checked key: nonce, signature, PCR
/// digest and approval, in this order.
pub open spec fn quote_checks(
    rim: RimModel,
    v: QuoteInputs,
    vendor: Vendor,
    key: EccModel,
    quote: QuoteModel,
) -> Result<VerifiedModel, RejectModel> {
    if quote.magic != TPM_GENERATED_VALUE {
        Err(RejectModel::BadMagic)
    } else if quote.extra_data != v.nonce {
        Err(RejectModel::NonceMismatch)
    } else {
        match signature_verdict(key, v.quote_blob, v.signature) {
            Err(e) => Err(e),
            Ok(_) => if quote.pcr_digest.len() != 48 {
                Err(RejectModel::PcrDigestNotSha384)
            } else {
                match aggregate(quote, v.pcrs) {
                    Err(i) => Err(RejectModel::MissingPcr(i)),
                    Ok(digest) => if digest@ != quote.pcr_digest {
                        Err(RejectModel::PcrDigestMismatch)
                    } else {
                        match rim::approved_policy(rim, digest, Some(v.now)) {
                            None => Err(RejectModel::NotInRim),
                            Some(policy_id) => Ok(
                                VerifiedModel { vendor, policy_id, pcr_digest: digest },
                            ),
                        }
                    },
                }
            },
        }
    }
}

/// What is said of bytes that are no quote: another attestation was not made
/// by a TPM or is of another type, everything else is malformed.
pub open spec fn not_a_quote(blob: Seq<u8>, e: ParseError) -> RejectModel {
    if e is Unexpected {
        match tpm::read_u32(blob, "TPMS_ATTEST.magic") {
            Ok((magic, _)) => if magic != TPM_GENERATED_VALUE {
                RejectModel::BadMagic
            } else {
                RejectModel::NotAQuote
            },
            Err(_) => RejectModel::NotAQuote,
        }
    } else {
        RejectModel::Malformed(e)
    }
}

fn refuse_blob(blob: &[u8], e: ParseError) -> (r: RejectReason)
    ensures
        r@ == not_a_quote(blob@, e),
{
    match e {
        ParseError::Unexpected { .. } => match attest_magic(blob) {
            Some(magic) => if magic != TPM_GENERATED_VALUE {
                RejectReason::BadMagic
            } else {
                RejectReason::NotAQuote
            },
            None => RejectReason::NotAQuote,
        },
        e => RejectReason::Malformed(e),
    }
}

/// What the whole verification says.
#[verifier::opaque]
pub open spec fn quote_verdict(
    trust: Seq<RootModel>,
    rim: RimModel,
    v: QuoteInputs,
) -> Result<VerifiedModel, RejectModel> {
    match vendor::chain_verdict(
        trust,
        v.ek_cert,
        v.intermediates,
        v.now,
    ) {
        Err(e) => Err(RejectModel::EkChain(e)),
        Ok(vendor) => match tpm::ecc_public_of(v.aik_pub) {
            Err(e) => Err(RejectModel::Malformed(e)),
            Ok(key) => match aik::aik_verdict(key) {
                Err(e) => Err(RejectModel::AikAttributes(e)),
                Ok(_) => match tpm::quote_of(v.quote_blob) {
                    Err(e) => Err(not_a_quote(v.quote_blob, e)),
                    Ok(quote) => quote_checks(rim, v, vendor, key, quote),
                },
            },
        },
    }
}

/// Verifies quotes against trusted vendor roots and approved measurements.
pub struct TpmQuoteVerifier {
    trust: VendorTrustStore,
    rim: RimStore,
}

impl TpmQuoteVerifier {
    /// The trusted roots.
    pub closed spec fn roots(&self) -> Seq<RootModel> {
        self.trust@
    }

    /// The approved measurements.
    pub closed spec fn approved(&self) -> RimModel {
        self.rim@
    }

    /// A verifier over the given roots and measurements.
    pub fn new(trust: VendorTrustStore, rim: RimStore) -> (r: Self)
        ensures
            r.roots() == trust@,
            r.approved() == rim@,
    {
        TpmQuoteVerifier { trust, rim }
    }

    /// The approved measurements, to be changed.
    pub fn rim_mut(&mut self) -> (r: &mut RimStore)
        ensures
            r@ == old(self).approved(),
            final(self).approved() == final(r)@,
            final(self).roots() == old(self).roots(),
    {
        &mut self.rim
    }

    /// The approved measurements.
    pub fn rim(&self) -> (r: &RimStore)
        ensures
            r@ == self.approved(),
    {
        &self.rim
    }

    /// The trusted roots, to be changed.
    pub fn trust_mut(&mut self) -> (r: &mut VendorTrustStore)
        ensures
            r@ == old(self).roots(),
            final(self).roots() == final(r)@,
            final(self).approved() == old(self).approved(),
    {
        &mut self.trust
    }

    /// Verify a quote: the endorsement key chains to a trusted root, the
    /// attestation key has the required attributes, the quote was made by a
    /// TPM, carries the nonce, is signed by the attestation key, matches the
    /// reported PCR values, and these are approved. The first step that fails
    /// names the reason.
    pub fn verify_quote(&self, v: &QuoteVerification<'_>) -> (r: Result<
        VerifiedQuote,
        RejectReason,
    >)
        ensures
            match r {
                Ok(q) => quote_verdict(self.roots(), self.approved(), v@) == Ok::<_, RejectModel>(
                    q@,
                ),
                Err(e) => quote_verdict(self.roots(), self.approved(), v@) == Err::<
                    VerifiedModel,
                    _,
                >(e@),
            },
    {
        proof {
            reveal(quote_verdict);
        }
        let vendor_match = match self.trust.verify_ek_chain(
            v.ek_cert_der,
            v.ek_intermediates,
            v.now,
        ) {
            Ok(m) => m,
            Err(e) => return Err(RejectReason::EkChain(e)),
        };
        let aik = match EccPublic::parse(v.aik_pub) {
            Ok(k) => k,
            Err(e) => return Err(RejectReason::Malformed(e)),
        };
        if let Err(e) = check_aik(&aik) {
            return Err(RejectReason::AikAttributes(e));
        }
        let quote = match QuoteInfo::parse(v.quote_blob) {
            Ok(q) => q,
            Err(e) => return Err(refuse_blob(v.quote_blob, e)),
        };
        if quote.magic != TPM_GENERATED_VALUE {
            return Err(RejectReason::BadMagic);
        }
        if !ct_bytes_equal(quote.extra_data.as_slice(), v.nonce) {
            return Err(RejectReason::NonceMismatch);
        }
        if let Err(e) = verify_quote_signature(&aik, v.quote_blob, v.signature) {
            return Err(e);
        }
        if quote.pcr_digest.len() != 48 {
            return Err(RejectReason::PcrDigestNotSha384);
        }
        let computed = match recompute_pcr_digest(&quote, v.pcrs) {
            Ok(d) => d,
            Err(e) => return Err(e),
        };
        if !ct_bytes_equal(computed.as_slice(), quote.pcr_digest.as_slice()) {
            return Err(RejectReason::PcrDigestMismatch);
        }
        match self.rim.lookup_at(&computed, v.now) {
            None => Err(RejectReason::NotInRim),
            Some(policy_id) => Ok(
                VerifiedQuote { vendor: vendor_match.vendor, policy_id, pcr_digest: computed },
            ),
        }
    }
}

/// An accepted quote passed every single check: nothing is accepted on the
/// strength of some of them.
pub proof fn law_accepted_quote(
    trust: Seq<RootModel>,
    rim: RimModel,
    v: QuoteInputs,
    q: VerifiedModel,
)
    requires
        quote_verdict(trust, rim, v) == Ok::<_, RejectModel>(q),
    ensures
        vendor::chain_verdict(
            trust,
            v.ek_cert,
            v.intermediates,
            v.now,
        ) == Ok::<_, ChainFault>(q.vendor),
        tpm::ecc_public_of(v.aik_pub) matches Ok(key) && aik::aik_verdict(key) is Ok
            && signature_verdict(key, v.quote_blob, v.signature) is Ok,
        tpm::quote_of(v.quote_blob) matches Ok(quote) && quote.magic == TPM_GENERATED_VALUE
            && quote.attest_type == TPM_ST_ATTEST_QUOTE && quote.extra_data == v.nonce
            && quote.pcr_digest == q.pcr_digest@ && aggregate(quote, v.pcrs) == Ok::<_, u8>(
            q.pcr_digest,
        ),
        rim::approved_policy(rim, q.pcr_digest, Some(v.now)) == Some(q.policy_id),
{
    reveal(quote_verdict);
}

proof fn lemma_first_missing(indices: Seq<u8>, pcrs: Map<u8, Seq<u8>>)
    ensures
        match first_missing(indices, pcrs) {
            Some(i) => exists|k: int|
                0 <= k < indices.len() && #[trigger] indices[k] == i && !pcrs.dom().contains(i)
                    && forall|j: int|
                    0 <= j < k ==> pcrs.dom().contains(#[trigger] indices[j]),
            None => forall|k: int|
                0 <= k < indices.len() ==> pcrs.dom().contains(#[trigger] indices[k]),
        },
    decreases indices.len(),
{
    if indices.len() > 0 {
        let front = indices.drop_last();
        lemma_first_missing(front, pcrs);
        match first_missing(front, pcrs) {
            Some(i) => {
                let k = choose|k: int|
                    0 <= k < front.len() && #[trigger] front[k] == i && !pcrs.dom().contains(i)
                        && forall|j: int|
                        0 <= j < k ==> pcrs.dom().contains(#[trigger] front[j]);
                assert(indices[k] == i);
                assert forall|j: int| 0 <= j < k implies pcrs.dom().contains(
                    #[trigger] indices[j],
                ) by {
                    assert(front[j] == indices[j]);
                }
            },
            None => {
                assert forall|j: int| 0 <= j < front.len() implies pcrs.dom().contains(
                    #[trigger] indices[j],
                ) by {
                    assert(front[j] == indices[j]);
                }
                if !pcrs.dom().contains(indices.last()) {
                    assert(indices[indices.len() - 1] == indices.last());
                }
            },
        }
    }
}

proof fn lemma_reported(indices: Seq<u8>, pcrs: Map<u8, Seq<u8>>)
    ensures
        reported(indices, pcrs) == indices.map_values(|i: u8| pcrs[i]).flatten(),
    decreases indices.len(),
{
    let values = indices.map_values(|i: u8| pcrs[i]);
    if indices.len() == 0 {
        assert(values =~= Seq::<Seq<u8>>::empty());
    } else {
        let front = indices.drop_last();
        lemma_reported(front, pcrs);
        let before = front.map_values(|i: u8| pcrs[i]);
        assert(values =~= before.push(pcrs[indices.last()]));
        before.lemma_flatten_push(pcrs[indices.last()]);
    }
}

/// The aggregate of a quote over one selection of the SHA-384 bank covers the
/// reported value of every PCR whose bit is set, in ascending order and in a
/// row; if one of these values was not reported, there is none.
pub proof fn law_aggregate_covers_selection(
    quote: QuoteModel,
    bitmap: Seq<u8>,
    pcrs: Map<u8, Seq<u8>>,
    indices: Seq<u8>,
)
    requires
        quote.pcr_selection == seq![SelectionModel { hash_alg: TPM_ALG_SHA384, bitmap }],
        forall|p: u8| #[trigger]
            indices.contains(p) <==> p as int / 8 < bitmap.len() && bitmap[p as int / 8] & (1u8 << (
            p % 8)) != 0,
        forall|i: int, j: int| 0 <= i < j < indices.len() ==> indices[i] < indices[j],
    ensures
        match aggregate(quote, pcrs) {
            Ok(digest) => (forall|i: int|
                0 <= i < indices.len() ==> pcrs.dom().contains(#[trigger] indices[i])) && digest
                == hash::sha384_of(indices.map_values(|i: u8| pcrs[i]).flatten()),
            Err(i) => indices.contains(i) && !pcrs.dom().contains(i),
        },
{
    let quoted = quoted_indices(quote.pcr_selection);
    let sel = tpm::selected(bitmap);
    assert(quote.pcr_selection.drop_last() =~= Seq::<SelectionModel>::empty());
    assert(quoted_indices(quote.pcr_selection.drop_last()) =~= Seq::<u8>::empty());
    assert(quoted =~= sel);
    tpm::law_selected_bits(bitmap, 0);
    assert forall|p: u8| #[trigger] sel.contains(p) <==> indices.contains(p) by {
        tpm::law_selected_bits(bitmap, p);
    }
    lemma_ascending_same(sel, indices);
    lemma_first_missing(indices, pcrs);
    lemma_reported(indices, pcrs);
}

/// Two ascending sequences with the same elements are the same.
proof fn lemma_ascending_same(a: Seq<u8>, b: Seq<u8>)
    requires
        forall|i: int, j: int| 0 <= i < j < a.len() ==> a[i] < a[j],
        forall|i: int, j: int| 0 <= i < j < b.len() ==> b[i] < b[j],
        forall|p: u8| #[trigger] a.contains(p) <==> b.contains(p),
    ensures
        a == b,
    decreases a.len(),
{
    if a.len() == 0 {
        if b.len() > 0 {
            assert(b.contains(b[0]));
            assert(a.contains(b[0]));
        }
        assert(a =~= b);
    } else {
        assert(a.contains(a.last()));
        let k = choose|k: int| 0 <= k < b.len() && b[k] == a.last();
        assert(b.contains(b.last()));
        assert(a.contains(b.last()));
        let m = choose|m: int| 0 <= m < a.len() && a[m] == b.last();
        assert(a.last() == b.last());
        let (x, y) = (a.drop_last(), b.drop_last());
        assert forall|p: u8| #[trigger] x.contains(p) <==> y.contains(p) by {
            if x.contains(p) {
                let i = choose|i: int| 0 <= i < x.len() && x[i] == p;
                assert(a[i] == p && a[i] < a.last());
                assert(a.contains(p));
                let j = choose|j: int| 0 <= j < b.len() && b[j] == p;
                assert(y[j] == p);
            }
            if y.contains(p) {
                let i = choose|i: int| 0 <= i < y.len() && y[i] == p;
                assert(b[i] == p && b[i] < b.last());
                assert(b.contains(p));
                assert(a.contains(p));
                let j = choose|j: int| 0 <= j < a.len() && a[j] == p;
                assert(x[j] == p);
            }
        }
        lemma_ascending_same(x, y);
        assert(a =~= x.push(a.last()));
        assert(b =~= y.push(b.last()));
    }
}

/// A quote that passes every single check is accepted, with the vendor of the
/// chain, the policy that approves the boot state, and the quoted digest.
pub proof fn law_good_quote_accepted(
    trust: Seq<RootModel>,
    rim: RimModel,
    v: QuoteInputs,
    q: VerifiedModel,
    key: EccModel,
    quote: QuoteModel,
)
    requires
        vendor::chain_verdict(trust, v.ek_cert, v.intermediates, v.now) == Ok::<_, ChainFault>(
            q.vendor,
        ),
        tpm::ecc_public_of(v.aik_pub) == Ok::<_, ParseError>(key),
        aik::aik_verdict(key) is Ok,
        tpm::quote_of(v.quote_blob) == Ok::<_, ParseError>(quote),
        quote.magic == 0xff54_4347,
        quote.extra_data == v.nonce,
        signature_verdict(key, v.quote_blob, v.signature) is Ok,
        quote.pcr_digest == q.pcr_digest@,
        aggregate(quote, v.pcrs) == Ok::<_, u8>(q.pcr_digest),
        rim::approved_policy(rim, q.pcr_digest, Some(v.now)) == Some(q.policy_id),
    ensures
        quote_verdict(trust, rim, v) == Ok::<_, RejectModel>(q),
{
    reveal(quote_verdict);
}

/// A signature counts exactly if the curve's check accepts it on the digest of
/// the message, under the algorithm that the signature names.
pub proof fn law_signature_decides(key: EccModel, blob: Seq<u8>, sig: Seq<u8>, s: tpm::EcdsaModel)
    requires
        tpm::ecdsa_of(sig) == Ok::<_, ParseError>(s),
        s.hash_alg == 0x000b || s.hash_alg == 0x000c,
        key.x.len() == 32 && key.y.len() == 32 && s.r.len() == 32 && s.s.len() == 32,
    ensures
        signature_verdict(key, blob, sig) is Ok <==> signature::p256_accepts(
            key.x,
            key.y,
            if s.hash_alg == 0x000b {
                hash::sha256_of(blob)@
            } else {
                hash::sha384_of(blob)@
            },
            s.r,
            s.s,
        ),
{
    assert(padded32(key.x) =~= key.x);
    assert(padded32(key.y) =~= key.y);
    assert(padded32(s.r) =~= s.r);
    assert(padded32(s.s) =~= s.s);
}

/// A value is missing just where some quoted PCR has none, and the one that is
/// named has none.
pub proof fn law_missing_value_told(indices: Seq<u8>, pcrs: Map<u8, Seq<u8>>)
    ensures
        first_missing(indices, pcrs) is None <==> forall|i: int|
            0 <= i < indices.len() ==> pcrs.dom().contains(#[trigger] indices[i]),
        first_missing(indices, pcrs) matches Some(p) ==> indices.contains(p)
            && !pcrs.dom().contains(p),
    decreases indices.len(),
{
    if indices.len() > 0 {
        let init = indices.drop_last();
        law_missing_value_told(init, pcrs);
        assert(forall|i: int| 0 <= i < init.len() ==> #[trigger] init[i] == indices[i]);
        assert(indices[indices.len() - 1] == indices.last());
        if let Some(p) = first_missing(init, pcrs) {
            let i = choose|i: int| 0 <= i < init.len() && init[i] == p;
            assert(indices[i] == p);
        }
        if first_missing(indices, pcrs) is None {
            assert forall|i: int| 0 <= i < indices.len() implies pcrs.dom().contains(
                #[trigger] indices[i],
            ) by {
                if i < init.len() {
                    assert(pcrs.dom().contains(init[i]));
                }
            }
        }
        if forall|i: int| 0 <= i < indices.len() ==> pcrs.dom().contains(#[trigger] indices[i]) {
            assert forall|i: int| 0 <= i < init.len() implies pcrs.dom().contains(
                #[trigger] init[i],
            ) by {
                assert(pcrs.dom().contains(indices[i]));
            }
        }
    }
}

/// Bringing a scalar to 32 bytes keeps its value: what fits stands at the end
/// behind zeros, and leading zeros are all that a longer one may lose.
pub proof fn law_padding_keeps_value(zeros: Seq<u8>, b: Seq<u8>)
    requires
        forall|i: int| 0 <= i < zeros.len() ==> #[trigger] zeros[i] == 0,
        b.len() <= 32,
    ensures
        padded32(b).len() == 32,
        padded32(b).skip(32 - b.len()) == b,
        forall|i: int| 0 <= i < 32 - b.len() ==> #[trigger] padded32(b)[i] == 0,
        padded32(zeros + b) == padded32(b),
{
    assert(padded32(b).skip(32 - b.len()) =~= b);
    assert(padded32(zeros + b) =~= padded32(b));
}

} // verus!
