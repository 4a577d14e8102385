//! The attribute profile of an attestation key.
//!
//! A restricted signing key signs structures of the TPM's own making only, so
//! it cannot be talked into signing a message of somebody's choice. A quote is
//! trusted only if its key has exactly the profile checked here.

use vstd::prelude::*;
use crate::attest::tpm::{
    EccModel, EccPublic, TPMA_DECRYPT, TPMA_FIXED_PARENT, TPMA_FIXED_TPM, TPMA_RESTRICTED,
    TPMA_SENSITIVE_DATA_ORIGIN, TPMA_SIGN, TPM_ALG_ECDSA, TPM_ECC_NIST_P256,
};

verus! {

/// Why a public area fails the check.
#[derive(Debug, Clone, PartialEq, Eq)]
pub enum AikRejection {
    /// A required attribute is clear.
    MissingAttribute(&'static str),
    /// A forbidden attribute is set.
    ForbiddenAttribute(&'static str),
    /// The key is not on curve NIST P-256.
    WrongCurve,
    /// The signing scheme is not ECDSA.
    WrongScheme,
}

/// The first rule that a public area breaks, in the order of the check.
pub open spec fn aik_verdict(key: EccModel) -> Result<(), AikRejection> {
    if key.attributes & TPMA_FIXED_TPM == 0 {
        Err(AikRejection::MissingAttribute("fixedTPM"))
    } else if key.attributes & TPMA_FIXED_PARENT == 0 {
        Err(AikRejection::MissingAttribute("fixedParent"))
    } else if key.attributes & TPMA_SENSITIVE_DATA_ORIGIN == 0 {
        Err(AikRejection::MissingAttribute("sensitiveDataOrigin"))
    } else if key.attributes & TPMA_RESTRICTED == 0 {
        Err(AikRejection::MissingAttribute("restricted"))
    } else if key.attributes & TPMA_SIGN == 0 {
        Err(AikRejection::MissingAttribute("sign"))
    } else if key.attributes & TPMA_DECRYPT != 0 {
        Err(AikRejection::ForbiddenAttribute("decrypt"))
    } else if key.curve_id != TPM_ECC_NIST_P256 {
        Err(AikRejection::WrongCurve)
    } else if key.scheme != TPM_ALG_ECDSA {
        Err(AikRejection::WrongScheme)
    } else {
        Ok(())
    }
}

/// Check that a public area has the attributes that an attestation key must
/// have: `fixedTPM`, `fixedParent`, `sensitiveDataOrigin`, `restricted` and
/// `sign` set, `decrypt` clear, on curve P-256, with the ECDSA scheme.
pub fn check_aik(pub_area: &EccPublic) -> (r: Result<(), AikRejection>)
    ensures
        r == aik_verdict(pub_area@),
{
    let attrs: u32 = pub_area.attributes;
    if attrs & TPMA_FIXED_TPM == 0 {
        return Err(AikRejection::MissingAttribute("fixedTPM"));
    }
    if attrs & TPMA_FIXED_PARENT == 0 {
        return Err(AikRejection::MissingAttribute("fixedParent"));
    }
    if attrs & TPMA_SENSITIVE_DATA_ORIGIN == 0 {
        return Err(AikRejection::MissingAttribute("sensitiveDataOrigin"));
    }
    if attrs & TPMA_RESTRICTED == 0 {
        return Err(AikRejection::MissingAttribute("restricted"));
    }
    if attrs & TPMA_SIGN == 0 {
        return Err(AikRejection::MissingAttribute("sign"));
    }
    if attrs & TPMA_DECRYPT != 0 {
        return Err(AikRejection::ForbiddenAttribute("decrypt"));
    }
    if pub_area.curve_id != TPM_ECC_NIST_P256 {
        return Err(AikRejection::WrongCurve);
    }
    if pub_area.scheme != TPM_ALG_ECDSA {
        return Err(AikRejection::WrongScheme);
    }
    Ok(())
}

/// A key passes exactly if, of the six attributes that count, the five
/// required ones are set and `decrypt` is clear, and curve and scheme are the
/// required ones; all other attribute bits are free.
pub proof fn law_aik_profile(key: EccModel)
    ensures
        aik_verdict(key) is Ok <==> key.attributes & 0x0007_0032 == 0x0005_0032 && key.curve_id
            == TPM_ECC_NIST_P256 && key.scheme == TPM_ALG_ECDSA,
{
    let a = key.attributes;
    assert((a & 0x2 != 0 && a & 0x10 != 0 && a & 0x20 != 0 && a & 0x1_0000 != 0 && a & 0x4_0000
        != 0 && a & 0x2_0000 == 0) <==> a & 0x0007_0032 == 0x0005_0032) by (bit_vector);
}

} // verus!
