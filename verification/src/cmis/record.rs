//! Issued identity documents and what is kept of them.

use vstd::prelude::*;
use crate::primitives::text;

verus! {

/// What an identity document is issued with.
#[derive(Debug, Clone, PartialEq, Eq)]
pub struct IssueParams {
    /// Digest that identifies the host.
    pub ek_cert_sha384: [u8; 48],
    /// Aggregate PCR digest.
    pub pcr_digest: [u8; 48],
    /// The policy that the boot state was approved under.
    pub policy_id: String,
    /// Thumbprint of the host's proof-of-possession key.
    pub dpop_jkt: String,
    /// Lifetime in seconds.
    pub ttl_secs: u64,
    /// Evidence of the issuing enclave.
    pub tee_evidence_id: Option<String>,
}

/// When and in what state a host last attested in full.
#[derive(Debug, Clone, Copy, PartialEq, Eq)]
pub struct LastAttestation {
    /// Unix seconds.
    pub at: i64,
    /// Aggregate PCR digest.
    pub pcr_digest: [u8; 48],
    /// Policy epoch.
    pub policy_epoch: u64,
}

/// An identity document that was issued.
#[derive(Debug, Clone, PartialEq, Eq)]
pub struct IssuedSvid {
    /// The document in compact form.
    pub jws: String,
    /// Its subject.
    pub spiffe_id: String,
    /// Start of validity, Unix seconds.
    pub iat: i64,
    /// End of validity, Unix seconds.
    pub exp: i64,
}

/// Everything needed to renew a host's document.
#[derive(Debug, Clone, PartialEq, Eq)]
pub struct IssuedRecord {
    /// What the document was issued with.
    pub params: IssueParams,
    /// The last full attestation.
    pub last_attestation: LastAttestation,
    /// The document.
    pub bundle: IssuedSvid,
    /// The host's name, if it gave one.
    pub hostname: Option<String>,
    /// The host's key for child tokens, if it is kept.
    pub child_pub: Option<Vec<u8>>,
}

/// The contents of [`IssueParams`].
#[verifier::ext_equal]
pub struct ParamsModel {
    pub ek_cert_sha384: [u8; 48],
    pub pcr_digest: [u8; 48],
    pub policy_id: Seq<char>,
    pub dpop_jkt: Seq<char>,
    pub ttl_secs: u64,
    pub tee_evidence_id: Option<Seq<char>>,
}

/// The contents of an [`IssuedSvid`].
#[verifier::ext_equal]
pub struct SvidModel {
    pub jws: Seq<char>,
    pub spiffe_id: Seq<char>,
    pub iat: i64,
    pub exp: i64,
}

/// The contents of an [`IssuedRecord`].
#[verifier::ext_equal]
pub struct RecordModel {
    pub params: ParamsModel,
    pub last_attestation: LastAttestation,
    pub bundle: SvidModel,
    pub hostname: Option<Seq<char>>,
    pub child_pub: Option<Seq<u8>>,
}

impl View for IssueParams {
    type V = ParamsModel;

    open spec fn view(&self) -> ParamsModel {
        ParamsModel {
            ek_cert_sha384: self.ek_cert_sha384,
            pcr_digest: self.pcr_digest,
            policy_id: self.policy_id@,
            dpop_jkt: self.dpop_jkt@,
            ttl_secs: self.ttl_secs,
            tee_evidence_id: text::option_view(self.tee_evidence_id),
        }
    }
}

impl View for IssuedSvid {
    type V = SvidModel;

    open spec fn view(&self) -> SvidModel {
        SvidModel { jws: self.jws@, spiffe_id: self.spiffe_id@, iat: self.iat, exp: self.exp }
    }
}

/// The contents of optional bytes.
pub open spec fn bytes_option_view(b: Option<Vec<u8>>) -> Option<Seq<u8>> {
    match b {
        Some(v) => Some(v@),
        None => None,
    }
}

impl View for IssuedRecord {
    type V = RecordModel;

    open spec fn view(&self) -> RecordModel {
        RecordModel {
            params: self.params@,
            last_attestation: self.last_attestation,
            bundle: self.bundle@,
            hostname: text::option_view(self.hostname),
            child_pub: bytes_option_view(self.child_pub),
        }
    }
}

impl IssueParams {
    /// A copy.
    pub fn duplicate(&self) -> (r: Self)
        ensures
            r@ == self@,
    {
        IssueParams {
            ek_cert_sha384: self.ek_cert_sha384,
            pcr_digest: self.pcr_digest,
            policy_id: self.policy_id.clone(),
            dpop_jkt: self.dpop_jkt.clone(),
            ttl_secs: self.ttl_secs,
            tee_evidence_id: text::copy_option(&self.tee_evidence_id),
        }
    }
}

impl IssuedSvid {
    /// A copy.
    pub fn duplicate(&self) -> (r: Self)
        ensures
            r@ == self@,
    {
        IssuedSvid {
            jws: self.jws.clone(),
            spiffe_id: self.spiffe_id.clone(),
            iat: self.iat,
            exp: self.exp,
        }
    }
}

impl IssuedRecord {
    /// A copy.
    pub fn duplicate(&self) -> (r: Self)
        ensures
            r@ == self@,
    {
        IssuedRecord {
            params: self.params.duplicate(),
            last_attestation: self.last_attestation,
            bundle: self.bundle.duplicate(),
            hostname: text::copy_option(&self.hostname),
            child_pub: match &self.child_pub {
                Some(b) => Some(vstd::slice::slice_to_vec(b.as_slice())),
                None => None,
            },
        }
    }
}

} // verus!
