//! Credential activation: what is exchanged to prove that an attestation key
//! lives in the TPM of an endorsement key.

use vstd::prelude::*;

verus! {

/// Why a secret could not be wrapped.
#[derive(Debug, Clone, PartialEq, Eq)]
pub enum CredentialError {
    /// The endorsement key cannot be used.
    Wrap(String),
}

/// A wrapped secret, as it is sent to the host.
#[derive(Debug, Clone, PartialEq, Eq)]
pub struct WrappedCredential {
    /// The encrypted credential.
    pub credential_blob: Vec<u8>,
    /// The wrapped seed.
    pub secret_blob: Vec<u8>,
}

/// Wraps secrets for endorsement keys, for others to provide. Nothing that is
/// proved here rests on how it does so.
pub trait CredentialMaker {
    /// Wrap `secret` for the TPM of an endorsement key, to be recovered only
    /// where the attestation key lives in the same TPM.
    fn make_credential(&self, ek_pub: &[u8], aik_pub: &[u8], secret: &[u8]) -> (r: Result<
        WrappedCredential,
        CredentialError,
    >);
}

} // verus!
