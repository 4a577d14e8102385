//! Evidence of a host without a TPM.
//!
//! Such a host presents a hardware fingerprint, the identifiers that it was
//! made of, its machine key, and a signature of that key on `nonce || H`. What
//! is verified here shows that a key bound to particular hardware is still in
//! use; it says nothing of the boot state.

use vstd::prelude::*;
use crate::machineid;
use crate::machineid::{FactsModel, MachineFacts};
use crate::primitives::bytes::bytes_equal;

verus! {

/// Why evidence is rejected.
#[derive(Debug, Clone, PartialEq, Eq)]
pub enum HostKeyRejection {
    /// The identifiers do not hash to the claimed fingerprint.
    FingerprintMismatch,
    /// The claimed fingerprint is not 48 bytes long.
    BadFingerprintLen,
    /// The signature on the nonce does not verify.
    NonceSignatureInvalid,
    /// The signature on the certificate request does not verify.
    CsrSignatureInvalid,
}

/// What verified evidence establishes.
#[derive(Debug, Clone, Copy, PartialEq, Eq)]
pub struct VerifiedHostKey {
    /// The fingerprint of the hardware.
    pub fingerprint: [u8; 48],
}

/// The message that the machine key signs: the nonce, then the fingerprint.
pub fn host_key_binding(nonce: &[u8], fingerprint: &[u8]) -> (r: Vec<u8>)
    ensures
        r@ == nonce@ + fingerprint@,
{
    let mut out: Vec<u8> = Vec::new();
    out.extend_from_slice(nonce);
    out.extend_from_slice(fingerprint);
    assert(out@ =~= nonce@ + fingerprint@);
    out
}

/// Verify the evidence of a host: the fingerprint is recomputed from the
/// identifiers and must be the claimed one, and the machine key must have
/// signed `nonce || H`. `signature_verifies` is the verdict of the machine
/// key's own verifier on [`host_key_binding`] of the nonce and the claimed
/// fingerprint; it counts only if the fingerprint is right.
///
/// Whether the fingerprint is enrolled, and bound to this key, is decided
/// elsewhere.
pub fn verify_host_key_evidence(
    board_serial: &str,
    platform_uuid: &str,
    disk_serial: &str,
    claimed_fingerprint: &[u8],
    signature_verifies: bool,
) -> (r: Result<VerifiedHostKey, HostKeyRejection>)
    ensures
        ({
            let facts = FactsModel {
                board_serial: board_serial@,
                platform_uuid: platform_uuid@,
                disk_serial: disk_serial@,
            };
            let fp = machineid::fingerprint_of(facts);
            r == (if claimed_fingerprint@.len() != 48 {
                Err(HostKeyRejection::BadFingerprintLen)
            } else if claimed_fingerprint@ != fp@ {
                Err(HostKeyRejection::FingerprintMismatch)
            } else if !signature_verifies {
                Err(HostKeyRejection::NonceSignatureInvalid)
            } else {
                Ok(VerifiedHostKey { fingerprint: fp })
            })
        }),
{
    if claimed_fingerprint.len() != 48 {
        return Err(HostKeyRejection::BadFingerprintLen);
    }
    let facts = MachineFacts {
        board_serial: board_serial.to_owned(),
        platform_uuid: platform_uuid.to_owned(),
        disk_serial: disk_serial.to_owned(),
    };
    let fp = facts.fingerprint();
    if !bytes_equal(fp.as_bytes().as_slice(), claimed_fingerprint) {
        return Err(HostKeyRejection::FingerprintMismatch);
    }
    if !signature_verifies {
        return Err(HostKeyRejection::NonceSignatureInvalid);
    }
    Ok(VerifiedHostKey { fingerprint: *fp.as_bytes() })
}

/// Verify the binding of a composite key to the machine key.
/// `signature_verifies` is the verdict of the machine key's own verifier on
/// the composite public key.
pub fn verify_host_key_csr(signature_verifies: bool) -> (r: Result<(), HostKeyRejection>)
    ensures
        r == (if signature_verifies {
            Ok(())
        } else {
            Err(HostKeyRejection::CsrSignatureInvalid)
        }),
{
    if signature_verifies {
        Ok(())
    } else {
        Err(HostKeyRejection::CsrSignatureInvalid)
    }
}

/// A signature on the binding fixes both of its parts: messages with
/// fingerprints of the right length are equal only if nonce and fingerprint are.
/// `a` and `b` are what [`host_key_binding`] gives.
pub proof fn law_binding_fixes_both(
    nonce_a: &[u8],
    fp_a: &[u8],
    a: Vec<u8>,
    nonce_b: &[u8],
    fp_b: &[u8],
    b: Vec<u8>,
)
    requires
        call_ensures(host_key_binding, (nonce_a, fp_a), a),
        call_ensures(host_key_binding, (nonce_b, fp_b), b),
        fp_a@.len() == fp_b@.len(),
        a@ == b@,
    ensures
        nonce_a@ == nonce_b@,
        fp_a@ == fp_b@,
{
    assert(a@.len() == nonce_a@.len() + fp_a@.len());
    assert(nonce_a@ =~= a@.take(nonce_a@.len() as int));
    assert(nonce_b@ =~= b@.take(nonce_b@.len() as int));
    assert(fp_a@ =~= a@.skip(nonce_a@.len() as int));
    assert(fp_b@ =~= b@.skip(nonce_b@.len() as int));
}

/// Evidence is accepted just where the claimed fingerprint is the one that the
/// identifiers give and the machine key signed, and for that fingerprint. `r` is
/// what [`verify_host_key_evidence`] gives.
pub proof fn law_evidence_accepted(
    board_serial: &str,
    platform_uuid: &str,
    disk_serial: &str,
    claimed: &[u8],
    signature_verifies: bool,
    r: Result<VerifiedHostKey, HostKeyRejection>,
)
    requires
        call_ensures(
            verify_host_key_evidence,
            (board_serial, platform_uuid, disk_serial, claimed, signature_verifies),
            r,
        ),
    ensures
        ({
            let fp = machineid::fingerprint_of(
                FactsModel {
                    board_serial: board_serial@,
                    platform_uuid: platform_uuid@,
                    disk_serial: disk_serial@,
                },
            );
            &&& r is Ok <==> signature_verifies && claimed@ == fp@
            &&& r matches Ok(k) ==> k.fingerprint == fp
        }),
{
}

} // verus!
