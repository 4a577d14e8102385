//! X.509 certificates.

use vstd::prelude::*;
use x509_parser::prelude::{FromDer, Pem, X509Certificate};

verus! {

/// What the library reads of a certificate.
#[derive(Debug)]
pub struct CertFacts {
    /// DER of the subject name.
    pub subject: Vec<u8>,
    /// DER of the issuer name.
    pub issuer: Vec<u8>,
    /// DER of the subject's public-key information.
    pub spki: Vec<u8>,
    /// Start of the validity window, Unix seconds.
    pub not_before: i64,
    /// End of the validity window, Unix seconds.
    pub not_after: i64,
}

/// The contents of a [`CertFacts`].
pub struct CertModel {
    pub subject: Seq<u8>,
    pub issuer: Seq<u8>,
    pub spki: Seq<u8>,
    pub not_before: int,
    pub not_after: int,
}

impl View for CertFacts {
    type V = CertModel;

    open spec fn view(&self) -> CertModel {
        CertModel {
            subject: self.subject@,
            issuer: self.issuer@,
            spki: self.spki@,
            not_before: self.not_before as int,
            not_after: self.not_after as int,
        }
    }
}

/// What a DER certificate says, or why it does not parse.
pub uninterp spec fn x509_facts(der: Seq<u8>) -> Result<CertModel, Seq<char>>;

/// Whether the signature on certificate `child` was made with the key that
/// certificate `issuer` certifies.
pub uninterp spec fn x509_signed_by(child: Seq<u8>, issuer: Seq<u8>) -> bool;

/// The PEM blocks of a text, in order: the bytes of each, or why it is none.
pub uninterp spec fn pem_blocks_of(pem: Seq<u8>) -> Seq<Result<Seq<u8>, Seq<char>>>;

/// The blocks as sequences.
pub open spec fn blocks_view(blocks: Seq<Result<Vec<u8>, String>>) -> Seq<
    Result<Seq<u8>, Seq<char>>,
> {
    Seq::new(
        blocks.len(),
        |i: int|
            match blocks[i] {
                Ok(b) => Ok::<Seq<u8>, Seq<char>>(b@),
                Err(e) => Err::<Seq<u8>, Seq<char>>(e@),
            },
    )
}

/// `x509_parser::certificate::X509Certificate::from_der`: the names, the
/// public-key information and the validity window of the certificate that
/// `der` starts with, or the error's text. A function of the bytes.
#[verifier::external_body]
pub(crate) fn x509_parse(der: &[u8]) -> (r: Result<CertFacts, String>)
    ensures
        match r {
            Ok(f) => x509_facts(der@) == Ok::<CertModel, Seq<char>>(f@),
            Err(e) => x509_facts(der@) == Err::<CertModel, Seq<char>>(e@),
        },
{
    match X509Certificate::from_der(der) {
        Ok((_, c)) => Ok(CertFacts {
            subject: c.tbs_certificate.subject.as_raw().to_vec(),
            issuer: c.tbs_certificate.issuer.as_raw().to_vec(),
            spki: c.tbs_certificate.subject_pki.raw.to_vec(),
            not_before: c.validity().not_before.timestamp(),
            not_after: c.validity().not_after.timestamp(),
        }),
        Err(e) => Err(e.to_string()),
    }
}

/// `x509_parser::certificate::X509Certificate::verify_signature` on two parsed
/// certificates; one that does not parse signs and is signed by nothing. A
/// function of the two encodings.
#[verifier::external_body]
pub(crate) fn x509_verify_signature(child: &[u8], issuer: &[u8]) -> (r: bool)
    ensures
        r == x509_signed_by(child@, issuer@),
{
    match (X509Certificate::from_der(child), X509Certificate::from_der(issuer)) {
        (Ok((_, c)), Ok((_, i))) => c.verify_signature(Some(i.public_key())).is_ok(),
        _ => false,
    }
}

/// `x509_parser::pem::Pem::iter_from_buffer`: the decoded blocks of a PEM text
/// in order, with the error's text for a block that is present but invalid. A
/// function of the text.
#[verifier::external_body]
pub(crate) fn pem_blocks(pem: &[u8]) -> (r: Vec<Result<Vec<u8>, String>>)
    ensures
        blocks_view(r@) == pem_blocks_of(pem@),
{
    Pem::iter_from_buffer(pem)
        .map(|p| p.map(|b| b.contents).map_err(|e| e.to_string()))
        .collect()
}

} // verus!
