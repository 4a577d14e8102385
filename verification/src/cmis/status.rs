//! The small, fixed set of answers that a client gets when it is refused. They
//! do not say which check failed.

use vstd::prelude::*;
use crate::attest::verify::{RejectModel, RejectReason};

verus! {

/// Kinds of refusal.
#[derive(Debug, Clone, Copy, PartialEq, Eq, Structural)]
pub enum Code {
    /// The request is malformed.
    InvalidArgument,
    /// Something that was asked for does not exist.
    NotFound,
    /// The client may not do this.
    PermissionDenied,
    /// The client is not who it claims to be.
    Unauthenticated,
    /// The client must do something else first.
    FailedPrecondition,
    /// The conversation was broken off.
    Aborted,
    /// The service cannot do this now.
    Unavailable,
    /// The service failed.
    Internal,
}

/// A refusal.
#[derive(Debug, Clone, Copy, PartialEq, Eq)]
pub struct Status {
    /// Its kind.
    pub code: Code,
    /// Its text.
    pub message: &'static str,
}

/// The answer to every failed attestation but one.
pub open spec fn denied() -> Status {
    Status { code: Code::PermissionDenied, message: "attestation failed" }
}

/// The answer when the issuer, or what it needs, failed.
pub open spec fn issuer_unavailable() -> Status {
    Status { code: Code::Unavailable, message: "issuer temporarily unavailable" }
}

impl Status {
    /// A refusal.
    pub fn new(code: Code, message: &'static str) -> (r: Self)
        ensures
            r == (Status { code, message }),
    {
        Status { code, message }
    }

    /// The answer to every failed attestation but one.
    pub fn denied() -> (r: Self)
        ensures
            r == denied(),
    {
        Status { code: Code::PermissionDenied, message: "attestation failed" }
    }

    /// The answer when the issuer, or what it needs, failed.
    pub fn issuer_unavailable() -> (r: Self)
        ensures
            r == issuer_unavailable(),
    {
        Status { code: Code::Unavailable, message: "issuer temporarily unavailable" }
    }
}

/// The answer to a quote that was rejected: boot states that are not approved
/// are told apart from everything else, and nothing else is.
pub open spec fn verdict_status(reason: RejectModel) -> Status {
    match reason {
        RejectModel::NotInRim => Status {
            code: Code::FailedPrecondition,
            message: "attestation failed",
        },
        _ => denied(),
    }
}

/// The answer to a quote that was rejected.
pub fn verifier_status(reason: &RejectReason) -> (r: Status)
    ensures
        r == verdict_status(reason@),
{
    match reason {
        RejectReason::NotInRim => Status::new(Code::FailedPrecondition, "attestation failed"),
        _ => Status::denied(),
    }
}

/// Whatever check a quote fails, the client reads the same text.
pub proof fn law_refusals_are_uniform(a: RejectModel, b: RejectModel)
    ensures
        verdict_status(a).message == verdict_status(b).message,
        a !is NotInRim && b !is NotInRim ==> verdict_status(a) == verdict_status(b),
{
}

} // verus!
