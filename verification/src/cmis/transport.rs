//! The identity that the service shows to clients: a certificate chain and its
//! private key, from two PEM files that the caller has read.

use rustls::pki_types::PrivateKeyDer;
use vstd::prelude::*;
use vstd::string::StringExecFns;
use crate::primitives::text;

verus! {

/// How a private key is encoded.
#[derive(Debug, Clone, Copy, PartialEq, Eq, Structural)]
pub enum KeyKind {
    /// PKCS #1.
    Pkcs1,
    /// SEC 1.
    Sec1,
    /// PKCS #8.
    Pkcs8,
    /// Something else.
    Other,
}

/// A certificate chain and its private key.
#[derive(Debug)]
pub struct ServerIdentity {
    /// The certificates, DER, the server's own first.
    pub certs: Vec<Vec<u8>>,
    /// How the key is encoded.
    pub key_kind: KeyKind,
    /// The key, DER.
    pub key: Vec<u8>,
}

/// The contents of several byte strings.
pub open spec fn all_bytes(v: Seq<Vec<u8>>) -> Seq<Seq<u8>> {
    v.map_values(|b: Vec<u8>| b@)
}

/// The certificates in a PEM text, DER, or why one cannot be read.
pub uninterp spec fn pem_certs_of(pem: Seq<u8>) -> Result<Seq<Seq<u8>>, Seq<char>>;

/// The first private key in a PEM text, DER, if there is one, or why it cannot
/// be read.
pub uninterp spec fn pem_key_of(pem: Seq<u8>) -> Result<Option<(KeyKind, Seq<u8>)>, Seq<char>>;

/// `rustls_pemfile::certs`: the certificates of a PEM text in order, up to the
/// first that cannot be read, whose error's text is then returned. A function
/// of the text.
#[verifier::external_body]
fn pem_certs(pem: &[u8]) -> (r: Result<Vec<Vec<u8>>, String>)
    ensures
        match r {
            Ok(v) => pem_certs_of(pem@) == Ok::<_, Seq<char>>(all_bytes(v@)),
            Err(e) => pem_certs_of(pem@) == Err::<Seq<Seq<u8>>, _>(e@),
        },
{
    let mut reader = pem;
    rustls_pemfile::certs(&mut reader)
        .map(|c| c.map(|d| d.as_ref().to_vec()).map_err(|e| e.to_string()))
        .collect()
}

/// `rustls_pemfile::private_key`: the first private key of a PEM text, if there
/// is one, or the error's text. A function of the text.
#[verifier::external_body]
fn pem_private_key(pem: &[u8]) -> (r: Result<Option<(KeyKind, Vec<u8>)>, String>)
    ensures
        match r {
            Ok(Some(k)) => pem_key_of(pem@) == Ok::<_, Seq<char>>(Some((k.0, k.1@))),
            Ok(None) => pem_key_of(pem@) == Ok::<Option<(KeyKind, Seq<u8>)>, Seq<char>>(None),
            Err(e) => pem_key_of(pem@) == Err::<Option<(KeyKind, Seq<u8>)>, _>(e@),
        },
{
    let mut reader = pem;
    let found = rustls_pemfile::private_key(&mut reader).map_err(|e| e.to_string())?;
    Ok(found.map(|k| match &k {
        PrivateKeyDer::Pkcs1(d) => (KeyKind::Pkcs1, d.secret_pkcs1_der().to_vec()),
        PrivateKeyDer::Sec1(d) => (KeyKind::Sec1, d.secret_sec1_der().to_vec()),
        PrivateKeyDer::Pkcs8(d) => (KeyKind::Pkcs8, d.secret_pkcs8_der().to_vec()),
        _ => (KeyKind::Other, k.secret_der().to_vec()),
    }))
}

/// What is wrong with certificates that were read from a path.
pub open spec fn certs_fault(path: Seq<char>, found: Result<Seq<Seq<u8>>, Seq<char>>) -> Option<
    Seq<char>,
> {
    match found {
        Err(e) => Some("parsing TLS cert "@ + path + ": "@ + e),
        Ok(certs) => if certs.len() == 0 {
            Some("no certificates found in "@ + path)
        } else {
            None
        },
    }
}

/// What is wrong with a private key that was read from a path.
pub open spec fn key_fault(
    path: Seq<char>,
    found: Result<Option<(KeyKind, Seq<u8>)>, Seq<char>>,
) -> Option<Seq<char>> {
    match found {
        Err(e) => Some("parsing TLS key "@ + path + ": "@ + e),
        Ok(None) => Some("no private key found in "@ + path),
        Ok(Some(_)) => None,
    }
}

fn failed(what: &str, path: &str, why: &str) -> (r: String)
    ensures
        r@ == what@ + path@ + ": "@ + why@,
{
    let mut m = text::joined(what, path);
    m.append(": ");
    m.append(why);
    m
}

/// Insist that certificates could be read from a path, and that there are any.
pub fn require_certs(path: &str, found: Result<Vec<Vec<u8>>, String>) -> (r: Result<
    Vec<Vec<u8>>,
    String,
>)
    ensures
        match found {
            Ok(certs) => match r {
                Ok(v) => v == certs && certs_fault(path@, Ok(all_bytes(certs@))) is None,
                Err(e) => certs_fault(path@, Ok(all_bytes(certs@))) == Some(e@),
            },
            Err(m) => r matches Err(e) && certs_fault(path@, Err(m@)) == Some(e@),
        },
{
    match found {
        Err(m) => Err(failed("parsing TLS cert ", path, m.as_str())),
        Ok(certs) => if certs.len() == 0 {
            Err(text::joined("no certificates found in ", path))
        } else {
            Ok(certs)
        },
    }
}

/// Insist that a private key could be read from a path.
pub fn require_key(path: &str, found: Result<Option<(KeyKind, Vec<u8>)>, String>) -> (r: Result<
    (KeyKind, Vec<u8>),
    String,
>)
    ensures
        match found {
            Ok(Some(key)) => r == Ok::<_, String>(key),
            Ok(None) => r matches Err(e) && key_fault(path@, Ok(None)) == Some(e@),
            Err(m) => r matches Err(e) && key_fault(path@, Err(m@)) == Some(e@),
        },
{
    match found {
        Err(m) => Err(failed("parsing TLS key ", path, m.as_str())),
        Ok(None) => Err(text::joined("no private key found in ", path)),
        Ok(Some(key)) => Ok(key),
    }
}

/// What is wrong with the certificate file, as it was read.
pub open spec fn cert_file_fault(path: Seq<char>, read: Result<Vec<u8>, String>) -> Option<
    Seq<char>,
> {
    match read {
        Err(e) => Some("reading TLS cert "@ + path + ": "@ + e@),
        Ok(pem) => certs_fault(path, pem_certs_of(pem@)),
    }
}

/// What is wrong with the key file, as it was read.
pub open spec fn key_file_fault(path: Seq<char>, read: Result<Vec<u8>, String>) -> Option<
    Seq<char>,
> {
    match read {
        Err(e) => Some("reading TLS key "@ + path + ": "@ + e@),
        Ok(pem) => key_fault(path, pem_key_of(pem@)),
    }
}

/// The service's identity from its two files, as they were read. What is wrong
/// with the certificates is said first.
pub fn load_pem_identity(
    cert_path: &str,
    cert_file: Result<Vec<u8>, String>,
    key_path: &str,
    key_file: Result<Vec<u8>, String>,
) -> (r: Result<ServerIdentity, String>)
    ensures
        match r {
            Ok(id) => {
                &&& cert_file_fault(cert_path@, cert_file) is None
                &&& key_file_fault(key_path@, key_file) is None
                &&& pem_certs_of(cert_file->Ok_0@) == Ok::<_, Seq<char>>(all_bytes(id.certs@))
                &&& pem_key_of(key_file->Ok_0@) == Ok::<_, Seq<char>>(
                    Some((id.key_kind, id.key@)),
                )
            },
            Err(e) => match cert_file_fault(cert_path@, cert_file) {
                Some(f) => e@ == f,
                None => key_file_fault(key_path@, key_file) == Some(e@),
            },
        },
{
    let cert_pem = match cert_file {
        Ok(pem) => pem,
        Err(e) => return Err(failed("reading TLS cert ", cert_path, e.as_str())),
    };
    let certs = require_certs(cert_path, pem_certs(cert_pem.as_slice()))?;
    let key_pem = match key_file {
        Ok(pem) => pem,
        Err(e) => return Err(failed("reading TLS key ", key_path, e.as_str())),
    };
    let (key_kind, key) = require_key(key_path, pem_private_key(key_pem.as_slice()))?;
    Ok(ServerIdentity { certs, key_kind, key })
}

/// An identity is loaded just where both files can be read, the one holds a
/// certificate and the other a key, and it holds all of these certificates and
/// this key. `r` is what [`load_pem_identity`] gives.
pub proof fn law_identity_loaded(
    cert_path: &str,
    cert_file: Result<Vec<u8>, String>,
    key_path: &str,
    key_file: Result<Vec<u8>, String>,
    r: Result<ServerIdentity, String>,
)
    requires
        call_ensures(load_pem_identity, (cert_path, cert_file, key_path, key_file), r),
    ensures
        r is Ok <==> (cert_file matches Ok(c) && pem_certs_of(c@) is Ok && pem_certs_of(
            c@,
        )->Ok_0.len() > 0) && (key_file matches Ok(k) && pem_key_of(k@) is Ok && pem_key_of(
            k@,
        )->Ok_0 is Some),
        r matches Ok(id) ==> all_bytes(id.certs@) == pem_certs_of(cert_file->Ok_0@)->Ok_0 && Some(
            (id.key_kind, id.key@),
        ) == pem_key_of(key_file->Ok_0@)->Ok_0,
{
}

} // verus!
