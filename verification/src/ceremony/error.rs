//! What can go wrong in a ceremony.

use vstd::prelude::*;
use vstd::string::StringExecFns;
use crate::primitives::text;

verus! {

/// Size of the root seed in bytes.
pub const ROOT_SEED_LEN: usize = 32;

/// What went wrong in a ceremony.
#[derive(Debug, Clone, PartialEq, Eq)]
pub enum CeremonyError {
    /// JSON could not be written or read.
    Serde(String),
    /// A value has a wrong form.
    Malformed {
        /// Which value.
        what: &'static str,
        /// What is wrong with it.
        detail: String,
    },
    /// A value was altered after it was sealed.
    Integrity(&'static str),
    /// A signature is missing or does not verify.
    Signature(String),
    /// The secret could not be split or put together.
    Shamir(String),
    /// Something is left on a medium that was to be destroyed.
    NotDestroyed(String),
    /// A medium could not be read or written.
    Io(String),
}

/// The contents of a [`CeremonyError`].
pub enum CeremonyFault {
    Serde(Seq<char>),
    Malformed { what: Seq<char>, detail: Seq<char> },
    Integrity(Seq<char>),
    Signature(Seq<char>),
    Shamir(Seq<char>),
    NotDestroyed(Seq<char>),
    Io(Seq<char>),
}

impl View for CeremonyError {
    type V = CeremonyFault;

    open spec fn view(&self) -> CeremonyFault {
        match self {
            CeremonyError::Serde(m) => CeremonyFault::Serde(m@),
            CeremonyError::Malformed { what, detail } => CeremonyFault::Malformed {
                what: what@,
                detail: detail@,
            },
            CeremonyError::Integrity(w) => CeremonyFault::Integrity(w@),
            CeremonyError::Signature(m) => CeremonyFault::Signature(m@),
            CeremonyError::Shamir(m) => CeremonyFault::Shamir(m@),
            CeremonyError::NotDestroyed(m) => CeremonyFault::NotDestroyed(m@),
            CeremonyError::Io(m) => CeremonyFault::Io(m@),
        }
    }
}

/// What an error says.
pub open spec fn fault_text(f: CeremonyFault) -> Seq<char> {
    match f {
        CeremonyFault::Serde(m) => "serialization: "@ + m,
        CeremonyFault::Malformed { what, detail } => "malformed "@ + what + ": "@ + detail,
        CeremonyFault::Integrity(w) => "integrity check failed for "@ + w + ": tag mismatch"@,
        CeremonyFault::Signature(m) => "signature verification failed: "@ + m,
        CeremonyFault::Shamir(m) => "shamir: "@ + m,
        CeremonyFault::NotDestroyed(m) => "destruction verification failed: "@ + m,
        CeremonyFault::Io(m) => "io: "@ + m,
    }
}

impl CeremonyError {
    /// The error in words.
    pub fn message(&self) -> (r: String)
        ensures
            r@ == fault_text(self@),
    {
        match self {
            CeremonyError::Serde(m) => text::joined("serialization: ", m.as_str()),
            CeremonyError::Malformed { what, detail } => {
                let mut s = text::joined("malformed ", what);
                s.append(": ");
                s.append(detail.as_str());
                s
            },
            CeremonyError::Integrity(w) => {
                let mut s = text::joined("integrity check failed for ", w);
                s.append(": tag mismatch");
                s
            },
            CeremonyError::Signature(m) => text::joined(
                "signature verification failed: ",
                m.as_str(),
            ),
            CeremonyError::Shamir(m) => text::joined("shamir: ", m.as_str()),
            CeremonyError::NotDestroyed(m) => text::joined(
                "destruction verification failed: ",
                m.as_str(),
            ),
            CeremonyError::Io(m) => text::joined("io: ", m.as_str()),
        }
    }
}

} // verus!
