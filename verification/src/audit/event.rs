//! Audit events and their CBOR form.
//!
//! An event holds digests, counters and short identifiers only. Its CBOR form
//! is determined by the event, and tells events apart.

use vstd::prelude::*;
use crate::audit::bytes;
use crate::audit::bytes::{Bytes16, Hash384};
use crate::primitives::cbor;
use crate::primitives::cbor::{CborDoc, CborItem, CborModel, DocModel};
use crate::primitives::text;

verus! {

/// One audit event.
#[derive(Debug, Clone, PartialEq, Eq)]
pub enum AuditEvent {
    /// An attestation began.
    AttestStart {
        /// Digest of the endorsement certificate.
        ek_sha: Hash384,
        /// Digest of the attestation key's public area.
        aik_sha: Hash384,
        /// The measurement policy.
        policy_id: String,
    },
    /// An attestation was refused.
    AttestFail {
        /// Short, stable code that says why.
        reason: String,
    },
    /// An identity document was issued.
    SvidIssued {
        /// Digest of the document.
        cert_sha: Hash384,
        /// Subject.
        spiffe_id: String,
    },
    /// An identity document was revoked.
    SvidRevoked {
        /// Digest of the document.
        cert_sha: Hash384,
        /// Short, stable code that says why.
        reason: String,
    },
    /// Every document of a host was revoked.
    HostRevoked {
        /// The host.
        spiffe_id: String,
        /// Short, stable code that says why.
        reason: String,
    },
    /// A key share was used.
    KeyShareUsed {
        /// Which share.
        share_idx: u8,
        /// Measurement of the replica that used it.
        mrenclave: Hash384,
    },
    /// A local process was granted a token.
    LocalGrant {
        /// Process.
        pid: u32,
        /// User.
        uid: u32,
        /// Digest of the binary.
        bin_sha: Hash384,
        /// Token identifier.
        jti: Bytes16,
    },
    /// A local process was refused.
    LocalDenied {
        /// Process.
        pid: u32,
        /// User.
        uid: u32,
        /// Digest of the binary.
        bin_sha: Hash384,
        /// Short, stable code that says why.
        reason: String,
    },
    /// A host was admitted by the fleet manifest.
    HostEnrolled {
        /// Digest that identifies the host.
        ek_sha: Hash384,
    },
    /// A host was turned away before its evidence was looked at further.
    HostRejected {
        /// Digest that identifies the host.
        ek_sha: Hash384,
        /// Short, stable code that says why.
        reason: String,
    },
    /// The measurement policy's epoch was advanced.
    PolicyEpochBumped {
        /// Epoch before.
        old_epoch: u64,
        /// Epoch after.
        new_epoch: u64,
        /// Short, stable code that says why.
        reason: String,
    },
    /// An operator set a host's caller allowlist.
    AllowlistSet {
        /// The host.
        host_uuid: String,
        /// Number of entries.
        entry_count: u32,
        /// End of validity, Unix seconds.
        not_after: i64,
    },
    /// An operator deleted a host's caller allowlist.
    AllowlistDeleted {
        /// The host.
        host_uuid: String,
    },
    /// A host proposed a caller allowlist, which waits for review.
    AllowlistProposed {
        /// The host.
        host_uuid: String,
        /// Number of entries.
        entry_count: u32,
        /// Who proposed it.
        proposer_spiffe_id: String,
    },
    /// A host's proposal was adopted without review.
    AllowlistAutoAdopted {
        /// The host.
        host_uuid: String,
        /// Number of entries.
        entry_count: u32,
        /// End of validity, Unix seconds.
        not_after: i64,
    },
    /// An operator rejected a proposal.
    AllowlistProposalRejected {
        /// The host.
        host_uuid: String,
    },
}

/// The contents of an [`AuditEvent`].
#[verifier::ext_equal]
pub enum EventModel {
    AttestStart { ek_sha: Seq<u8>, aik_sha: Seq<u8>, policy_id: Seq<char> },
    AttestFail { reason: Seq<char> },
    SvidIssued { cert_sha: Seq<u8>, spiffe_id: Seq<char> },
    SvidRevoked { cert_sha: Seq<u8>, reason: Seq<char> },
    HostRevoked { spiffe_id: Seq<char>, reason: Seq<char> },
    KeyShareUsed { share_idx: u8, mrenclave: Seq<u8> },
    LocalGrant { pid: u32, uid: u32, bin_sha: Seq<u8>, jti: Seq<u8> },
    LocalDenied { pid: u32, uid: u32, bin_sha: Seq<u8>, reason: Seq<char> },
    HostEnrolled { ek_sha: Seq<u8> },
    HostRejected { ek_sha: Seq<u8>, reason: Seq<char> },
    PolicyEpochBumped { old_epoch: u64, new_epoch: u64, reason: Seq<char> },
    AllowlistSet { host_uuid: Seq<char>, entry_count: u32, not_after: i64 },
    AllowlistDeleted { host_uuid: Seq<char> },
    AllowlistProposed { host_uuid: Seq<char>, entry_count: u32, proposer_spiffe_id: Seq<char> },
    AllowlistAutoAdopted { host_uuid: Seq<char>, entry_count: u32, not_after: i64 },
    AllowlistProposalRejected { host_uuid: Seq<char> },
}

impl View for AuditEvent {
    type V = EventModel;

    open spec fn view(&self) -> EventModel {
        match self {
            AuditEvent::AttestStart { ek_sha, aik_sha, policy_id } => EventModel::AttestStart {
                ek_sha: ek_sha@,
                aik_sha: aik_sha@,
                policy_id: policy_id@,
            },
            AuditEvent::AttestFail { reason } => EventModel::AttestFail { reason: reason@ },
            AuditEvent::SvidIssued { cert_sha, spiffe_id } => EventModel::SvidIssued {
                cert_sha: cert_sha@,
                spiffe_id: spiffe_id@,
            },
            AuditEvent::SvidRevoked { cert_sha, reason } => EventModel::SvidRevoked {
                cert_sha: cert_sha@,
                reason: reason@,
            },
            AuditEvent::HostRevoked { spiffe_id, reason } => EventModel::HostRevoked {
                spiffe_id: spiffe_id@,
                reason: reason@,
            },
            AuditEvent::KeyShareUsed { share_idx, mrenclave } => EventModel::KeyShareUsed {
                share_idx: *share_idx,
                mrenclave: mrenclave@,
            },
            AuditEvent::LocalGrant { pid, uid, bin_sha, jti } => EventModel::LocalGrant {
                pid: *pid,
                uid: *uid,
                bin_sha: bin_sha@,
                jti: jti@,
            },
            AuditEvent::LocalDenied { pid, uid, bin_sha, reason } => EventModel::LocalDenied {
                pid: *pid,
                uid: *uid,
                bin_sha: bin_sha@,
                reason: reason@,
            },
            AuditEvent::HostEnrolled { ek_sha } => EventModel::HostEnrolled {
                ek_sha: ek_sha@,
            },
            AuditEvent::HostRejected { ek_sha, reason } => EventModel::HostRejected {
                ek_sha: ek_sha@,
                reason: reason@,
            },
            AuditEvent::PolicyEpochBumped { old_epoch, new_epoch, reason } => EventModel::PolicyEpochBumped {
                old_epoch: *old_epoch,
                new_epoch: *new_epoch,
                reason: reason@,
            },
            AuditEvent::AllowlistSet { host_uuid, entry_count, not_after } => EventModel::AllowlistSet {
                host_uuid: host_uuid@,
                entry_count: *entry_count,
                not_after: *not_after,
            },
            AuditEvent::AllowlistDeleted { host_uuid } => EventModel::AllowlistDeleted {
                host_uuid: host_uuid@,
            },
            AuditEvent::AllowlistProposed { host_uuid, entry_count, proposer_spiffe_id } => EventModel::AllowlistProposed {
                host_uuid: host_uuid@,
                entry_count: *entry_count,
                proposer_spiffe_id: proposer_spiffe_id@,
            },
            AuditEvent::AllowlistAutoAdopted { host_uuid, entry_count, not_after } => EventModel::AllowlistAutoAdopted {
                host_uuid: host_uuid@,
                entry_count: *entry_count,
                not_after: *not_after,
            },
            AuditEvent::AllowlistProposalRejected { host_uuid } => EventModel::AllowlistProposalRejected {
                host_uuid: host_uuid@,
            },
        }
    }
}

/// Failure modes of the CBOR form.
#[derive(Debug, Clone, PartialEq, Eq)]
pub enum EventCodecError {
    /// Writing failed.
    Encode(String),
    /// Reading failed.
    Decode(String),
}

/// The field that tells the kind of an event, and its value.
pub open spec fn kind_field(kind: Seq<char>) -> (Seq<char>, CborModel) {
    ("type"@, CborModel::Text(kind))
}

/// The fields of an event, in the order in which they are written.
pub open spec fn event_fields(e: EventModel) -> Seq<(Seq<char>, CborModel)> {
    match e {
        EventModel::AttestStart { ek_sha, aik_sha, policy_id } => seq![
            kind_field("AttestStart"@),
            ("ek_sha"@, CborModel::Bytes(ek_sha)),
            ("aik_sha"@, CborModel::Bytes(aik_sha)),
            ("policy_id"@, CborModel::Text(policy_id)),
        ],
        EventModel::AttestFail { reason } => seq![
            kind_field("AttestFail"@),
            ("reason"@, CborModel::Text(reason)),
        ],
        EventModel::SvidIssued { cert_sha, spiffe_id } => seq![
            kind_field("SvidIssued"@),
            ("cert_sha"@, CborModel::Bytes(cert_sha)),
            ("spiffe_id"@, CborModel::Text(spiffe_id)),
        ],
        EventModel::SvidRevoked { cert_sha, reason } => seq![
            kind_field("SvidRevoked"@),
            ("cert_sha"@, CborModel::Bytes(cert_sha)),
            ("reason"@, CborModel::Text(reason)),
        ],
        EventModel::HostRevoked { spiffe_id, reason } => seq![
            kind_field("HostRevoked"@),
            ("spiffe_id"@, CborModel::Text(spiffe_id)),
            ("reason"@, CborModel::Text(reason)),
        ],
        EventModel::KeyShareUsed { share_idx, mrenclave } => seq![
            kind_field("KeyShareUsed"@),
            ("share_idx"@, CborModel::Integer(share_idx as i128)),
            ("mrenclave"@, CborModel::Bytes(mrenclave)),
        ],
        EventModel::LocalGrant { pid, uid, bin_sha, jti } => seq![
            kind_field("LocalGrant"@),
            ("pid"@, CborModel::Integer(pid as i128)),
            ("uid"@, CborModel::Integer(uid as i128)),
            ("bin_sha"@, CborModel::Bytes(bin_sha)),
            ("jti"@, CborModel::Bytes(jti)),
        ],
        EventModel::LocalDenied { pid, uid, bin_sha, reason } => seq![
            kind_field("LocalDenied"@),
            ("pid"@, CborModel::Integer(pid as i128)),
            ("uid"@, CborModel::Integer(uid as i128)),
            ("bin_sha"@, CborModel::Bytes(bin_sha)),
            ("reason"@, CborModel::Text(reason)),
        ],
        EventModel::HostEnrolled { ek_sha } => seq![
            kind_field("HostEnrolled"@),
            ("ek_sha"@, CborModel::Bytes(ek_sha)),
        ],
        EventModel::HostRejected { ek_sha, reason } => seq![
            kind_field("HostRejected"@),
            ("ek_sha"@, CborModel::Bytes(ek_sha)),
            ("reason"@, CborModel::Text(reason)),
        ],
        EventModel::PolicyEpochBumped { old_epoch, new_epoch, reason } => seq![
            kind_field("PolicyEpochBumped"@),
            ("old_epoch"@, CborModel::Integer(old_epoch as i128)),
            ("new_epoch"@, CborModel::Integer(new_epoch as i128)),
            ("reason"@, CborModel::Text(reason)),
        ],
        EventModel::AllowlistSet { host_uuid, entry_count, not_after } => seq![
            kind_field("AllowlistSet"@),
            ("host_uuid"@, CborModel::Text(host_uuid)),
            ("entry_count"@, CborModel::Integer(entry_count as i128)),
            ("not_after"@, CborModel::Integer(not_after as i128)),
        ],
        EventModel::AllowlistDeleted { host_uuid } => seq![
            kind_field("AllowlistDeleted"@),
            ("host_uuid"@, CborModel::Text(host_uuid)),
        ],
        EventModel::AllowlistProposed { host_uuid, entry_count, proposer_spiffe_id } => seq![
            kind_field("AllowlistProposed"@),
            ("host_uuid"@, CborModel::Text(host_uuid)),
            ("entry_count"@, CborModel::Integer(entry_count as i128)),
            ("proposer_spiffe_id"@, CborModel::Text(proposer_spiffe_id)),
        ],
        EventModel::AllowlistAutoAdopted { host_uuid, entry_count, not_after } => seq![
            kind_field("AllowlistAutoAdopted"@),
            ("host_uuid"@, CborModel::Text(host_uuid)),
            ("entry_count"@, CborModel::Integer(entry_count as i128)),
            ("not_after"@, CborModel::Integer(not_after as i128)),
        ],
        EventModel::AllowlistProposalRejected { host_uuid } => seq![
            kind_field("AllowlistProposalRejected"@),
            ("host_uuid"@, CborModel::Text(host_uuid)),
        ],
    }
}

/// The CBOR form of an event.
pub open spec fn event_bytes(e: EventModel) -> Seq<u8> {
    cbor::cbor_map_bytes(event_fields(e))
}

/// A field that holds a byte string of `n` bytes.
pub open spec fn octets_field(m: Seq<(CborModel, CborModel)>, name: Seq<char>, n: nat) -> Option<
    Seq<u8>,
> {
    match cbor::field_of(m, name) {
        Some(item) => bytes::fixed_octets(item, n),
        None => None,
    }
}

/// A field that holds a text, or the bytes of one.
pub open spec fn text_field(m: Seq<(CborModel, CborModel)>, name: Seq<char>) -> Option<Seq<char>> {
    match cbor::field_of(m, name) {
        Some(CborModel::Text(t)) => Some(t),
        Some(CborModel::Bytes(b)) => if vstd::utf8::valid_utf8(b) {
            Some(vstd::utf8::decode_utf8(b))
        } else {
            None
        },
        _ => None,
    }
}

/// A field that holds a number from `low` to `high`.
pub open spec fn number_field(
    m: Seq<(CborModel, CborModel)>,
    name: Seq<char>,
    low: int,
    high: int,
) -> Option<int> {
    match cbor::field_of(m, name) {
        Some(CborModel::Integer(n)) => if low <= n <= high {
            Some(n as int)
        } else {
            None
        },
        _ => None,
    }
}

/// The event that the entries of a map stand for.
pub open spec fn event_of(m: Seq<(CborModel, CborModel)>) -> Option<EventModel> {
    let reason = text_field(m, "reason"@);
    let spiffe_id = text_field(m, "spiffe_id"@);
    let cert_sha = octets_field(m, "cert_sha"@, 48);
    let bin_sha = octets_field(m, "bin_sha"@, 48);
    let pid = number_field(m, "pid"@, 0, u32::MAX as int);
    let uid = number_field(m, "uid"@, 0, u32::MAX as int);
    match cbor::field_of(m, "type"@) {
        None => None,
        Some(kind) => if cbor::named(kind, "AttestStart"@) {
            match (
                octets_field(m, "ek_sha"@, 48),
                octets_field(m, "aik_sha"@, 48),
                text_field(m, "policy_id"@),
            ) {
                (Some(ek_sha), Some(aik_sha), Some(policy_id)) => Some(
                    EventModel::AttestStart { ek_sha, aik_sha, policy_id },
                ),
                _ => None,
            }
        } else if cbor::named(kind, "AttestFail"@) {
            match reason {
                Some(reason) => Some(EventModel::AttestFail { reason }),
                None => None,
            }
        } else if cbor::named(kind, "SvidIssued"@) {
            match (cert_sha, spiffe_id) {
                (Some(cert_sha), Some(spiffe_id)) => Some(
                    EventModel::SvidIssued { cert_sha, spiffe_id },
                ),
                _ => None,
            }
        } else if cbor::named(kind, "SvidRevoked"@) {
            match (cert_sha, reason) {
                (Some(cert_sha), Some(reason)) => Some(
                    EventModel::SvidRevoked { cert_sha, reason },
                ),
                _ => None,
            }
        } else if cbor::named(kind, "HostRevoked"@) {
            match (spiffe_id, reason) {
                (Some(spiffe_id), Some(reason)) => Some(
                    EventModel::HostRevoked { spiffe_id, reason },
                ),
                _ => None,
            }
        } else if cbor::named(kind, "KeyShareUsed"@) {
            match (number_field(m, "share_idx"@, 0, 255), octets_field(m, "mrenclave"@, 48)) {
                (Some(n), Some(mrenclave)) => Some(
                    EventModel::KeyShareUsed { share_idx: n as u8, mrenclave },
                ),
                _ => None,
            }
        } else if cbor::named(kind, "LocalGrant"@) {
            match (pid, uid, bin_sha, octets_field(m, "jti"@, 16)) {
                (Some(pid), Some(uid), Some(bin_sha), Some(jti)) => Some(
                    EventModel::LocalGrant { pid: pid as u32, uid: uid as u32, bin_sha, jti },
                ),
                _ => None,
            }
        } else if cbor::named(kind, "LocalDenied"@) {
            match (pid, uid, bin_sha, reason) {
                (Some(pid), Some(uid), Some(bin_sha), Some(reason)) => Some(
                    EventModel::LocalDenied { pid: pid as u32, uid: uid as u32, bin_sha, reason },
                ),
                _ => None,
            }
        } else if cbor::named(kind, "HostEnrolled"@) {
            match octets_field(m, "ek_sha"@, 48) {
                Some(ek_sha) => Some(EventModel::HostEnrolled { ek_sha }),
                None => None,
            }
        } else if cbor::named(kind, "HostRejected"@) {
            match (
                octets_field(m, "ek_sha"@, 48),
                text_field(m, "reason"@),
            ) {
                (Some(ek_sha), Some(reason)) => Some(
                    EventModel::HostRejected { ek_sha, reason },
                ),
                _ => None,
            }
        } else if cbor::named(kind, "PolicyEpochBumped"@) {
            match (
                number_field(m, "old_epoch"@, 0, u64::MAX as int),
                number_field(m, "new_epoch"@, 0, u64::MAX as int),
                text_field(m, "reason"@),
            ) {
                (Some(old_epoch), Some(new_epoch), Some(reason)) => Some(
                    EventModel::PolicyEpochBumped { old_epoch: old_epoch as u64, new_epoch: new_epoch as u64, reason },
                ),
                _ => None,
            }
        } else if cbor::named(kind, "AllowlistSet"@) {
            match (
                text_field(m, "host_uuid"@),
                number_field(m, "entry_count"@, 0, u32::MAX as int),
                number_field(m, "not_after"@, i64::MIN as int, i64::MAX as int),
            ) {
                (Some(host_uuid), Some(entry_count), Some(not_after)) => Some(
                    EventModel::AllowlistSet { host_uuid, entry_count: entry_count as u32, not_after: not_after as i64 },
                ),
                _ => None,
            }
        } else if cbor::named(kind, "AllowlistDeleted"@) {
            match text_field(m, "host_uuid"@) {
                Some(host_uuid) => Some(EventModel::AllowlistDeleted { host_uuid }),
                None => None,
            }
        } else if cbor::named(kind, "AllowlistProposed"@) {
            match (
                text_field(m, "host_uuid"@),
                number_field(m, "entry_count"@, 0, u32::MAX as int),
                text_field(m, "proposer_spiffe_id"@),
            ) {
                (Some(host_uuid), Some(entry_count), Some(proposer_spiffe_id)) => Some(
                    EventModel::AllowlistProposed { host_uuid, entry_count: entry_count as u32, proposer_spiffe_id },
                ),
                _ => None,
            }
        } else if cbor::named(kind, "AllowlistAutoAdopted"@) {
            match (
                text_field(m, "host_uuid"@),
                number_field(m, "entry_count"@, 0, u32::MAX as int),
                number_field(m, "not_after"@, i64::MIN as int, i64::MAX as int),
            ) {
                (Some(host_uuid), Some(entry_count), Some(not_after)) => Some(
                    EventModel::AllowlistAutoAdopted { host_uuid, entry_count: entry_count as u32, not_after: not_after as i64 },
                ),
                _ => None,
            }
        } else if cbor::named(kind, "AllowlistProposalRejected"@) {
            match text_field(m, "host_uuid"@) {
                Some(host_uuid) => Some(EventModel::AllowlistProposalRejected { host_uuid }),
                None => None,
            }
        } else {
            None
        },
    }
}

/// The fields of a kind of event, in their order.
pub open spec fn kind_fields(kind: CborModel) -> Seq<Seq<char>> {
    if cbor::named(kind, "AttestStart"@) {
        seq!["ek_sha"@, "aik_sha"@, "policy_id"@]
    } else if cbor::named(kind, "AttestFail"@) {
        seq!["reason"@]
    } else if cbor::named(kind, "SvidIssued"@) {
        seq!["cert_sha"@, "spiffe_id"@]
    } else if cbor::named(kind, "SvidRevoked"@) {
        seq!["cert_sha"@, "reason"@]
    } else if cbor::named(kind, "HostRevoked"@) {
        seq!["spiffe_id"@, "reason"@]
    } else if cbor::named(kind, "KeyShareUsed"@) {
        seq!["share_idx"@, "mrenclave"@]
    } else if cbor::named(kind, "LocalGrant"@) {
        seq!["pid"@, "uid"@, "bin_sha"@, "jti"@]
    } else if cbor::named(kind, "LocalDenied"@) {
        seq!["pid"@, "uid"@, "bin_sha"@, "reason"@]
    } else if cbor::named(kind, "HostEnrolled"@) {
        seq!["ek_sha"@]
    } else if cbor::named(kind, "HostRejected"@) {
        seq!["ek_sha"@, "reason"@]
    } else if cbor::named(kind, "PolicyEpochBumped"@) {
        seq!["old_epoch"@, "new_epoch"@, "reason"@]
    } else if cbor::named(kind, "AllowlistSet"@) {
        seq!["host_uuid"@, "entry_count"@, "not_after"@]
    } else if cbor::named(kind, "AllowlistDeleted"@) {
        seq!["host_uuid"@]
    } else if cbor::named(kind, "AllowlistProposed"@) {
        seq!["host_uuid"@, "entry_count"@, "proposer_spiffe_id"@]
    } else if cbor::named(kind, "AllowlistAutoAdopted"@) {
        seq!["host_uuid"@, "entry_count"@, "not_after"@]
    } else if cbor::named(kind, "AllowlistProposalRejected"@) {
        seq!["host_uuid"@]
    } else {
        seq![]
    }
}

/// Whether an item can be a key: a text, a byte string, or a position.
pub open spec fn is_key(item: CborModel) -> bool {
    match item {
        CborModel::Text(_) => true,
        CborModel::Bytes(_) => true,
        CborModel::Integer(n) => 0 <= n <= u64::MAX,
        _ => false,
    }
}

/// An entry of a map: under a position it belongs to the field there.
pub open spec fn by_name(names: Seq<Seq<char>>, entry: (CborModel, CborModel)) -> (
    CborModel,
    CborModel,
) {
    match entry.0 {
        CborModel::Integer(n) => if 0 <= n < names.len() {
            (CborModel::Text(names[n as int]), entry.1)
        } else {
            entry
        },
        _ => entry,
    }
}

/// The entries of a map, each under the name of its field.
pub open spec fn all_by_name(m: Seq<(CborModel, CborModel)>, names: Seq<Seq<char>>) -> Seq<
    (CborModel, CborModel),
> {
    m.map_values(|entry: (CborModel, CborModel)| by_name(names, entry))
}

/// The event that a map stands for. A field goes by its name or by its position
/// among the fields of its kind.
pub open spec fn event_in_map(m: Seq<(CborModel, CborModel)>) -> Option<EventModel> {
    match cbor::field_of(m, "type"@) {
        Some(kind) => if forall|i: int| 0 <= i < m.len() ==> is_key((#[trigger] m[i]).0) {
            event_of(all_by_name(m, kind_fields(kind)))
        } else {
            None
        },
        None => None,
    }
}

/// The elements of an array as the entries of a map: the kind first, then its
/// fields in their order.
pub open spec fn in_order(a: Seq<CborModel>, names: Seq<Seq<char>>) -> Seq<
    (CborModel, CborModel),
> {
    Seq::new(
        a.len(),
        |i: int|
            (
                CborModel::Text(
                    if i == 0 {
                        "type"@
                    } else {
                        names[i - 1]
                    },
                ),
                a[i],
            ),
    )
}

/// The event that an array stands for: it holds the kind and all of its fields,
/// and no more.
pub open spec fn event_in_array(a: Seq<CborModel>) -> Option<EventModel> {
    if a.len() > 0 && a.len() == 1 + kind_fields(a[0]).len() {
        event_of(in_order(a, kind_fields(a[0])))
    } else {
        None
    }
}

/// The event that an item stands for.
pub open spec fn event_in_doc(doc: DocModel) -> Option<EventModel> {
    match doc {
        DocModel::Entries(m) => event_in_map(m),
        DocModel::Elements(a) => event_in_array(a),
        DocModel::Other => None,
    }
}

/// The event that some bytes begin with.
pub open spec fn event_from(b: Seq<u8>) -> Option<EventModel> {
    match cbor::cbor_value(b) {
        Ok(doc) => event_in_doc(doc),
        Err(_) => None,
    }
}

fn text_item(s: &String) -> (r: CborItem)
    ensures
        r@ == CborModel::Text(s@),
{
    CborItem::Text(s.as_str().to_owned())
}

fn kind_entry(kind: &'static str) -> (r: (&'static str, CborItem))
    ensures
        r.0@ == "type"@,
        r.1@ == CborModel::Text(kind@),
{
    ("type", CborItem::Text(kind.to_owned()))
}

/// The fields of an event, in the order in which they are written.
fn fields_in(event: &AuditEvent) -> (r: Vec<(&'static str, CborItem)>)
    ensures
        cbor::fields_view(r@) == event_fields(event@),
        forall|i: int| 0 <= i < r@.len() ==> cbor::writable((#[trigger] r@[i]).1@),
{
    let mut fields: Vec<(&'static str, CborItem)> = Vec::new();
    match event {
        AuditEvent::AttestStart { ek_sha, aik_sha, policy_id } => {
            fields.push(kind_entry("AttestStart"));
            fields.push(("ek_sha", ek_sha.to_item()));
            fields.push(("aik_sha", aik_sha.to_item()));
            fields.push(("policy_id", text_item(policy_id)));
        },
        AuditEvent::AttestFail { reason } => {
            fields.push(kind_entry("AttestFail"));
            fields.push(("reason", text_item(reason)));
        },
        AuditEvent::SvidIssued { cert_sha, spiffe_id } => {
            fields.push(kind_entry("SvidIssued"));
            fields.push(("cert_sha", cert_sha.to_item()));
            fields.push(("spiffe_id", text_item(spiffe_id)));
        },
        AuditEvent::SvidRevoked { cert_sha, reason } => {
            fields.push(kind_entry("SvidRevoked"));
            fields.push(("cert_sha", cert_sha.to_item()));
            fields.push(("reason", text_item(reason)));
        },
        AuditEvent::HostRevoked { spiffe_id, reason } => {
            fields.push(kind_entry("HostRevoked"));
            fields.push(("spiffe_id", text_item(spiffe_id)));
            fields.push(("reason", text_item(reason)));
        },
        AuditEvent::KeyShareUsed { share_idx, mrenclave } => {
            fields.push(kind_entry("KeyShareUsed"));
            fields.push(("share_idx", CborItem::Integer(*share_idx as i128)));
            fields.push(("mrenclave", mrenclave.to_item()));
        },
        AuditEvent::LocalGrant { pid, uid, bin_sha, jti } => {
            fields.push(kind_entry("LocalGrant"));
            fields.push(("pid", CborItem::Integer(*pid as i128)));
            fields.push(("uid", CborItem::Integer(*uid as i128)));
            fields.push(("bin_sha", bin_sha.to_item()));
            fields.push(("jti", jti.to_item()));
        },
        AuditEvent::LocalDenied { pid, uid, bin_sha, reason } => {
            fields.push(kind_entry("LocalDenied"));
            fields.push(("pid", CborItem::Integer(*pid as i128)));
            fields.push(("uid", CborItem::Integer(*uid as i128)));
            fields.push(("bin_sha", bin_sha.to_item()));
            fields.push(("reason", text_item(reason)));
        },
        AuditEvent::HostEnrolled { ek_sha } => {
            fields.push(kind_entry("HostEnrolled"));
            fields.push(("ek_sha", ek_sha.to_item()));
        },
        AuditEvent::HostRejected { ek_sha, reason } => {
            fields.push(kind_entry("HostRejected"));
            fields.push(("ek_sha", ek_sha.to_item()));
            fields.push(("reason", text_item(reason)));
        },
        AuditEvent::PolicyEpochBumped { old_epoch, new_epoch, reason } => {
            fields.push(kind_entry("PolicyEpochBumped"));
            fields.push(("old_epoch", CborItem::Integer(*old_epoch as i128)));
            fields.push(("new_epoch", CborItem::Integer(*new_epoch as i128)));
            fields.push(("reason", text_item(reason)));
        },
        AuditEvent::AllowlistSet { host_uuid, entry_count, not_after } => {
            fields.push(kind_entry("AllowlistSet"));
            fields.push(("host_uuid", text_item(host_uuid)));
            fields.push(("entry_count", CborItem::Integer(*entry_count as i128)));
            fields.push(("not_after", CborItem::Integer(*not_after as i128)));
        },
        AuditEvent::AllowlistDeleted { host_uuid } => {
            fields.push(kind_entry("AllowlistDeleted"));
            fields.push(("host_uuid", text_item(host_uuid)));
        },
        AuditEvent::AllowlistProposed { host_uuid, entry_count, proposer_spiffe_id } => {
            fields.push(kind_entry("AllowlistProposed"));
            fields.push(("host_uuid", text_item(host_uuid)));
            fields.push(("entry_count", CborItem::Integer(*entry_count as i128)));
            fields.push(("proposer_spiffe_id", text_item(proposer_spiffe_id)));
        },
        AuditEvent::AllowlistAutoAdopted { host_uuid, entry_count, not_after } => {
            fields.push(kind_entry("AllowlistAutoAdopted"));
            fields.push(("host_uuid", text_item(host_uuid)));
            fields.push(("entry_count", CborItem::Integer(*entry_count as i128)));
            fields.push(("not_after", CborItem::Integer(*not_after as i128)));
        },
        AuditEvent::AllowlistProposalRejected { host_uuid } => {
            fields.push(kind_entry("AllowlistProposalRejected"));
            fields.push(("host_uuid", text_item(host_uuid)));
        },
    }
    assert(cbor::fields_view(fields@) =~= event_fields(event@));
    fields
}

/// The CBOR form of an event.
pub fn encode(event: &AuditEvent) -> (r: Result<Vec<u8>, EventCodecError>)
    ensures
        r matches Ok(b) && b@ == event_bytes(event@) && event_from(b@) == Some(event@),
{
    let fields = fields_in(event);
    proof {
        law_event_fields_roundtrip(event@);
    }
    Ok(cbor::write_map(fields))
}

/// A field that holds a digest of 48 bytes.
pub fn octets_48(m: &Vec<(CborItem, CborItem)>, name: &str) -> (r: Option<Hash384>)
    ensures
        match r {
            Some(h) => octets_field(cbor::entries_view(m@), name@, 48) == Some(h@),
            None => octets_field(cbor::entries_view(m@), name@, 48) is None,
        },
{
    match cbor::field(m, name) {
        Some(item) => Hash384::from_item(item),
        None => None,
    }
}

fn octets_16(m: &Vec<(CborItem, CborItem)>, name: &str) -> (r: Option<Bytes16>)
    ensures
        match r {
            Some(h) => octets_field(cbor::entries_view(m@), name@, 16) == Some(h@),
            None => octets_field(cbor::entries_view(m@), name@, 16) is None,
        },
{
    match cbor::field(m, name) {
        Some(item) => Bytes16::from_item(item),
        None => None,
    }
}

fn text_of(m: &Vec<(CborItem, CborItem)>, name: &str) -> (r: Option<String>)
    ensures
        match r {
            Some(t) => text_field(cbor::entries_view(m@), name@) == Some(t@),
            None => text_field(cbor::entries_view(m@), name@) is None,
        },
{
    match cbor::field(m, name) {
        Some(CborItem::Text(t)) => Some(t.as_str().to_owned()),
        Some(CborItem::Bytes(b)) => text::utf8_text(b.as_slice()),
        _ => None,
    }
}

/// A field that holds a number from `low` to `high`.
pub fn number_of(m: &Vec<(CborItem, CborItem)>, name: &str, low: i128, high: i128) -> (r: Option<
    i128,
>)
    ensures
        match r {
            Some(n) => number_field(cbor::entries_view(m@), name@, low as int, high as int) == Some(
                n as int,
            ) && low <= n <= high,
            None => number_field(cbor::entries_view(m@), name@, low as int, high as int) is None,
        },
{
    match cbor::field(m, name) {
        Some(CborItem::Integer(n)) => {
            if low <= *n && *n <= high {
                Some(*n)
            } else {
                None
            }
        },
        _ => None,
    }
}

fn u32_of(m: &Vec<(CborItem, CborItem)>, name: &str) -> (r: Option<u32>)
    ensures
        match r {
            Some(n) => number_field(cbor::entries_view(m@), name@, 0, u32::MAX as int) == Some(
                n as int,
            ),
            None => number_field(cbor::entries_view(m@), name@, 0, u32::MAX as int) is None,
        },
{
    match number_of(m, name, 0, 0xffff_ffff) {
        Some(n) => Some(n as u32),
        None => None,
    }
}

fn event_in(m: &Vec<(CborItem, CborItem)>) -> (r: Option<AuditEvent>)
    ensures
        match r {
            Some(e) => event_of(cbor::entries_view(m@)) == Some(e@),
            None => event_of(cbor::entries_view(m@)) is None,
        },
{
    let kind = match cbor::field(m, "type") {
        Some(kind) => kind,
        None => return None,
    };
    if cbor::is_named(kind, "AttestStart") {
        let ek_sha = octets_48(m, "ek_sha")?;
        let aik_sha = octets_48(m, "aik_sha")?;
        let policy_id = text_of(m, "policy_id")?;
        Some(AuditEvent::AttestStart { ek_sha, aik_sha, policy_id })
    } else if cbor::is_named(kind, "AttestFail") {
        let reason = text_of(m, "reason")?;
        Some(AuditEvent::AttestFail { reason })
    } else if cbor::is_named(kind, "SvidIssued") {
        let cert_sha = octets_48(m, "cert_sha")?;
        let spiffe_id = text_of(m, "spiffe_id")?;
        Some(AuditEvent::SvidIssued { cert_sha, spiffe_id })
    } else if cbor::is_named(kind, "SvidRevoked") {
        let cert_sha = octets_48(m, "cert_sha")?;
        let reason = text_of(m, "reason")?;
        Some(AuditEvent::SvidRevoked { cert_sha, reason })
    } else if cbor::is_named(kind, "HostRevoked") {
        let spiffe_id = text_of(m, "spiffe_id")?;
        let reason = text_of(m, "reason")?;
        Some(AuditEvent::HostRevoked { spiffe_id, reason })
    } else if cbor::is_named(kind, "KeyShareUsed") {
        let share_idx: i128 = number_of(m, "share_idx", 0, 255)?;
        let mrenclave = octets_48(m, "mrenclave")?;
        Some(AuditEvent::KeyShareUsed { share_idx: share_idx as u8, mrenclave })
    } else if cbor::is_named(kind, "LocalGrant") {
        let pid: u32 = u32_of(m, "pid")?;
        let uid: u32 = u32_of(m, "uid")?;
        let bin_sha = octets_48(m, "bin_sha")?;
        let jti = octets_16(m, "jti")?;
        Some(AuditEvent::LocalGrant { pid, uid, bin_sha, jti })
    } else if cbor::is_named(kind, "LocalDenied") {
        let pid: u32 = u32_of(m, "pid")?;
        let uid: u32 = u32_of(m, "uid")?;
        let bin_sha = octets_48(m, "bin_sha")?;
        let reason = text_of(m, "reason")?;
        Some(AuditEvent::LocalDenied { pid, uid, bin_sha, reason })
    } else if cbor::is_named(kind, "HostEnrolled") {
        let ek_sha = octets_48(m, "ek_sha")?;
        Some(AuditEvent::HostEnrolled { ek_sha })
    } else if cbor::is_named(kind, "HostRejected") {
        let ek_sha = octets_48(m, "ek_sha")?;
        let reason = text_of(m, "reason")?;
        Some(AuditEvent::HostRejected { ek_sha, reason })
    } else if cbor::is_named(kind, "PolicyEpochBumped") {
        let old_epoch: i128 = number_of(m, "old_epoch", 0, 0xffff_ffff_ffff_ffff)?;
        let new_epoch: i128 = number_of(m, "new_epoch", 0, 0xffff_ffff_ffff_ffff)?;
        let reason = text_of(m, "reason")?;
        Some(AuditEvent::PolicyEpochBumped { old_epoch: old_epoch as u64, new_epoch: new_epoch as u64, reason })
    } else if cbor::is_named(kind, "AllowlistSet") {
        let host_uuid = text_of(m, "host_uuid")?;
        let entry_count: u32 = u32_of(m, "entry_count")?;
        let not_after: i128 = number_of(m, "not_after", -0x8000_0000_0000_0000, 0x7fff_ffff_ffff_ffff)?;
        Some(AuditEvent::AllowlistSet { host_uuid, entry_count, not_after: not_after as i64 })
    } else if cbor::is_named(kind, "AllowlistDeleted") {
        let host_uuid = text_of(m, "host_uuid")?;
        Some(AuditEvent::AllowlistDeleted { host_uuid })
    } else if cbor::is_named(kind, "AllowlistProposed") {
        let host_uuid = text_of(m, "host_uuid")?;
        let entry_count: u32 = u32_of(m, "entry_count")?;
        let proposer_spiffe_id = text_of(m, "proposer_spiffe_id")?;
        Some(AuditEvent::AllowlistProposed { host_uuid, entry_count, proposer_spiffe_id })
    } else if cbor::is_named(kind, "AllowlistAutoAdopted") {
        let host_uuid = text_of(m, "host_uuid")?;
        let entry_count: u32 = u32_of(m, "entry_count")?;
        let not_after: i128 = number_of(m, "not_after", -0x8000_0000_0000_0000, 0x7fff_ffff_ffff_ffff)?;
        Some(AuditEvent::AllowlistAutoAdopted { host_uuid, entry_count, not_after: not_after as i64 })
    } else if cbor::is_named(kind, "AllowlistProposalRejected") {
        let host_uuid = text_of(m, "host_uuid")?;
        Some(AuditEvent::AllowlistProposalRejected { host_uuid })
    } else {
        None
    }
}

/// The fields of a kind of event, in their order.
fn fields_of_kind(kind: &CborItem) -> (r: Vec<&'static str>)
    ensures
        text::views(r@) == kind_fields(kind@),
{
    let names: Vec<&'static str> = if cbor::is_named(kind, "AttestStart") {
        vec!["ek_sha", "aik_sha", "policy_id"]
    } else if cbor::is_named(kind, "AttestFail") {
        vec!["reason"]
    } else if cbor::is_named(kind, "SvidIssued") {
        vec!["cert_sha", "spiffe_id"]
    } else if cbor::is_named(kind, "SvidRevoked") {
        vec!["cert_sha", "reason"]
    } else if cbor::is_named(kind, "HostRevoked") {
        vec!["spiffe_id", "reason"]
    } else if cbor::is_named(kind, "KeyShareUsed") {
        vec!["share_idx", "mrenclave"]
    } else if cbor::is_named(kind, "LocalGrant") {
        vec!["pid", "uid", "bin_sha", "jti"]
    } else if cbor::is_named(kind, "LocalDenied") {
        vec!["pid", "uid", "bin_sha", "reason"]
    } else if cbor::is_named(kind, "HostEnrolled") {
        vec!["ek_sha"]
    } else if cbor::is_named(kind, "HostRejected") {
        vec!["ek_sha", "reason"]
    } else if cbor::is_named(kind, "PolicyEpochBumped") {
        vec!["old_epoch", "new_epoch", "reason"]
    } else if cbor::is_named(kind, "AllowlistSet") {
        vec!["host_uuid", "entry_count", "not_after"]
    } else if cbor::is_named(kind, "AllowlistDeleted") {
        vec!["host_uuid"]
    } else if cbor::is_named(kind, "AllowlistProposed") {
        vec!["host_uuid", "entry_count", "proposer_spiffe_id"]
    } else if cbor::is_named(kind, "AllowlistAutoAdopted") {
        vec!["host_uuid", "entry_count", "not_after"]
    } else if cbor::is_named(kind, "AllowlistProposalRejected") {
        vec!["host_uuid"]
    } else {
        Vec::new()
    };
    assert(text::views(names@) =~= kind_fields(kind@));
    names
}

/// A key under which an entry goes: in place of a position, the name of the
/// field there. What can be no key gives none.
fn key_by_name(key: &CborItem, names: &Vec<&'static str>) -> (r: Option<CborItem>)
    ensures
        match r {
            Some(k) => is_key(key@) && forall|item: CborModel|
                (k@, item) == #[trigger] by_name(text::views(names@), (key@, item)),
            None => !is_key(key@),
        },
{
    match key {
        CborItem::Text(_) => Some(key.duplicate()),
        CborItem::Bytes(_) => Some(key.duplicate()),
        CborItem::Integer(n) => {
            if *n < 0 || *n > 0xffff_ffff_ffff_ffff {
                None
            } else if *n < names.len() as i128 {
                let name = names[*n as usize];
                assert(name@ == text::views(names@)[*n as int]);
                Some(CborItem::Text(name.to_owned()))
            } else {
                Some(key.duplicate())
            }
        },
        _ => None,
    }
}

/// The event that a map stands for.
fn map_event(m: &Vec<(CborItem, CborItem)>) -> (r: Option<AuditEvent>)
    ensures
        match r {
            Some(e) => event_in_map(cbor::entries_view(m@)) == Some(e@),
            None => event_in_map(cbor::entries_view(m@)) is None,
        },
{
    let ghost v = cbor::entries_view(m@);
    let names = match cbor::field(m, "type") {
        Some(kind) => fields_of_kind(kind),
        None => return None,
    };
    let ghost fields = text::views(names@);
    let mut out: Vec<(CborItem, CborItem)> = Vec::new();
    let mut i: usize = 0;
    while i < m.len()
        invariant
            i <= m@.len(),
            v == cbor::entries_view(m@),
            fields == text::views(names@),
            out@.len() == i,
            forall|j: int| 0 <= j < i ==> is_key((#[trigger] v[j]).0),
            forall|j: int|
                0 <= j < i ==> ((#[trigger] out@[j]).0@, out@[j].1@) == by_name(fields, v[j]),
        decreases m@.len() - i,
    {
        assert(v[i as int] == (m@[i as int].0@, m@[i as int].1@));
        match key_by_name(&m[i].0, &names) {
            Some(key) => {
                out.push((key, m[i].1.duplicate()));
            },
            None => {
                assert(!is_key(v[i as int].0));
                return None;
            },
        }
        i += 1;
    }
    assert(cbor::entries_view(out@) =~= all_by_name(v, fields));
    event_in(&out)
}

/// The event that an array stands for.
fn array_event(a: &Vec<CborItem>) -> (r: Option<AuditEvent>)
    ensures
        match r {
            Some(e) => event_in_array(cbor::items_view(a@)) == Some(e@),
            None => event_in_array(cbor::items_view(a@)) is None,
        },
{
    let ghost v = cbor::items_view(a@);
    if a.len() == 0 {
        return None;
    }
    assert(v[0] == a@[0]@);
    let names = fields_of_kind(&a[0]);
    let ghost fields = text::views(names@);
    if a.len() - 1 != names.len() {
        return None;
    }
    let mut m: Vec<(CborItem, CborItem)> = Vec::new();
    let mut i: usize = 0;
    while i < a.len()
        invariant
            i <= a@.len() == 1 + names@.len(),
            v == cbor::items_view(a@),
            fields == text::views(names@),
            m@.len() == i,
            forall|j: int|
                0 <= j < i ==> ((#[trigger] m@[j]).0@, m@[j].1@) == in_order(v, fields)[j],
        decreases a@.len() - i,
    {
        let name = if i == 0 {
            "type"
        } else {
            names[i - 1]
        };
        assert(name@ == if i == 0 {
            "type"@
        } else {
            fields[i - 1]
        });
        assert(v[i as int] == a@[i as int]@);
        m.push((CborItem::Text(name.to_owned()), a[i].duplicate()));
        i += 1;
    }
    assert(cbor::entries_view(m@) =~= in_order(v, fields));
    event_in(&m)
}

/// What is said of bytes that hold no event.
pub open spec fn event_fault(b: Seq<u8>) -> Seq<char> {
    match cbor::cbor_value(b) {
        Err(e) => e,
        Ok(DocModel::Other) => "expected map"@,
        Ok(_) => "no audit event"@,
    }
}

/// Read an event from its CBOR form. Every field of its kind must be there
/// exactly once; fields of other names are passed over, whatever they hold. A
/// number in the form of a big one is read as the number; an item with another
/// tag is none of the fields.
pub fn decode(b: &[u8]) -> (r: Result<AuditEvent, EventCodecError>)
    ensures
        match r {
            Ok(e) => event_from(b@) == Some(e@),
            Err(e) => event_from(b@) is None && (e matches EventCodecError::Decode(m) && m@
                == event_fault(b@)),
        },
{
    let event = match cbor::read_item(b) {
        Ok(CborDoc::Entries(m)) => map_event(&m),
        Ok(CborDoc::Elements(a)) => array_event(&a),
        Ok(CborDoc::Other) => return Err(EventCodecError::Decode("expected map".to_owned())),
        Err(e) => return Err(EventCodecError::Decode(e)),
    };
    match event {
        Some(e) => Ok(e),
        None => Err(EventCodecError::Decode("no audit event".to_owned())),
    }
}

/// Whether the byte strings of an event have the sizes that its type gives
/// them.
pub open spec fn well_sized(e: EventModel) -> bool {
    match e {
        EventModel::AttestStart { ek_sha, aik_sha, .. } => ek_sha.len() == 48 && aik_sha.len()
            == 48,
        EventModel::SvidIssued { cert_sha, .. } => cert_sha.len() == 48,
        EventModel::SvidRevoked { cert_sha, .. } => cert_sha.len() == 48,
        EventModel::KeyShareUsed { mrenclave, .. } => mrenclave.len() == 48,
        EventModel::LocalGrant { bin_sha, jti, .. } => bin_sha.len() == 48 && jti.len() == 16,
        EventModel::LocalDenied { bin_sha, .. } => bin_sha.len() == 48,
        EventModel::HostEnrolled { ek_sha } => ek_sha.len() == 48,
        EventModel::HostRejected { ek_sha, .. } => ek_sha.len() == 48,
        _ => true,
    }
}

proof fn lemma_field_names_differ()
    ensures
        "type"@.len() == 4,
        "ek_sha"@.len() == 6,
        "ek_sha"@ != "reason"@,
        "aik_sha"@.len() == 7,
        "bin_sha"@.len() == 7,
        "aik_sha"@ != "bin_sha"@,
        "policy_id"@.len() == 9,
        "share_idx"@.len() == 9,
        "mrenclave"@.len() == 9,
        "spiffe_id"@.len() == 9,
        "share_idx"@ != "mrenclave"@,
        "reason"@.len() == 6,
        "cert_sha"@.len() == 8,
        "pid"@.len() == 3,
        "uid"@.len() == 3,
        "jti"@.len() == 3,
        "pid"@ != "uid"@,
        "pid"@ != "jti"@,
        "uid"@ != "jti"@,
        "host_uuid"@.len() == 9,
        "not_after"@.len() == 9,
        "host_uuid"@ != "not_after"@,
        "entry_count"@.len() == 11,
        "proposer_spiffe_id"@.len() == 18,
        "old_epoch"@.len() == 9,
        "new_epoch"@.len() == 9,
        "old_epoch"@ != "new_epoch"@,
{
    reveal_strlit("type");
    reveal_strlit("ek_sha");
    reveal_strlit("aik_sha");
    reveal_strlit("bin_sha");
    reveal_strlit("policy_id");
    reveal_strlit("share_idx");
    reveal_strlit("mrenclave");
    reveal_strlit("spiffe_id");
    reveal_strlit("reason");
    reveal_strlit("cert_sha");
    reveal_strlit("pid");
    reveal_strlit("uid");
    reveal_strlit("jti");
    assert("aik_sha"@[0] != "bin_sha"@[0]);
    assert("ek_sha"@[0] != "reason"@[0]);
    assert("share_idx"@[0] != "mrenclave"@[0]);
    assert("pid"@[0] != "uid"@[0]);
    assert("pid"@[0] != "jti"@[0]);
    assert("uid"@[0] != "jti"@[0]);
    reveal_strlit("host_uuid");
    reveal_strlit("not_after");
    reveal_strlit("entry_count");
    reveal_strlit("proposer_spiffe_id");
    reveal_strlit("old_epoch");
    reveal_strlit("new_epoch");
    assert("host_uuid"@[0] != "not_after"@[0]);
    assert("old_epoch"@[0] != "new_epoch"@[0]);
}

proof fn lemma_kinds_differ()
    ensures
        "AttestStart"@.len() == 11,
        "SvidRevoked"@.len() == 11,
        "HostRevoked"@.len() == 11,
        "LocalDenied"@.len() == 11,
        "AttestStart"@ != "SvidRevoked"@,
        "AttestStart"@ != "HostRevoked"@,
        "AttestStart"@ != "LocalDenied"@,
        "SvidRevoked"@ != "HostRevoked"@,
        "SvidRevoked"@ != "LocalDenied"@,
        "HostRevoked"@ != "LocalDenied"@,
        "AttestFail"@.len() == 10,
        "SvidIssued"@.len() == 10,
        "LocalGrant"@.len() == 10,
        "AttestFail"@ != "SvidIssued"@,
        "AttestFail"@ != "LocalGrant"@,
        "SvidIssued"@ != "LocalGrant"@,
        "KeyShareUsed"@.len() == 12,
        "HostEnrolled"@.len() == 12,
        "HostRejected"@.len() == 12,
        "AllowlistSet"@.len() == 12,
        "KeyShareUsed"@ != "HostEnrolled"@,
        "KeyShareUsed"@ != "HostRejected"@,
        "KeyShareUsed"@ != "AllowlistSet"@,
        "HostEnrolled"@ != "HostRejected"@,
        "HostEnrolled"@ != "AllowlistSet"@,
        "HostRejected"@ != "AllowlistSet"@,
        "PolicyEpochBumped"@.len() == 17,
        "AllowlistProposed"@.len() == 17,
        "PolicyEpochBumped"@ != "AllowlistProposed"@,
        "AllowlistDeleted"@.len() == 16,
        "AllowlistAutoAdopted"@.len() == 20,
        "AllowlistProposalRejected"@.len() == 25,
{
    reveal_strlit("AttestStart");
    reveal_strlit("SvidRevoked");
    reveal_strlit("HostRevoked");
    reveal_strlit("LocalDenied");
    reveal_strlit("AttestFail");
    reveal_strlit("SvidIssued");
    reveal_strlit("LocalGrant");
    reveal_strlit("KeyShareUsed");
    assert("AttestStart"@[0] != "SvidRevoked"@[0]);
    assert("AttestStart"@[0] != "HostRevoked"@[0]);
    assert("AttestStart"@[0] != "LocalDenied"@[0]);
    assert("SvidRevoked"@[0] != "HostRevoked"@[0]);
    assert("SvidRevoked"@[0] != "LocalDenied"@[0]);
    assert("HostRevoked"@[0] != "LocalDenied"@[0]);
    assert("AttestFail"@[0] != "SvidIssued"@[0]);
    assert("AttestFail"@[0] != "LocalGrant"@[0]);
    assert("SvidIssued"@[0] != "LocalGrant"@[0]);
    reveal_strlit("HostEnrolled");
    reveal_strlit("HostRejected");
    reveal_strlit("AllowlistSet");
    reveal_strlit("PolicyEpochBumped");
    reveal_strlit("AllowlistProposed");
    reveal_strlit("AllowlistDeleted");
    reveal_strlit("AllowlistAutoAdopted");
    reveal_strlit("AllowlistProposalRejected");
    assert("KeyShareUsed"@[0] != "HostEnrolled"@[0]);
    assert("KeyShareUsed"@[0] != "HostRejected"@[0]);
    assert("KeyShareUsed"@[0] != "AllowlistSet"@[0]);
    assert("HostEnrolled"@[4] != "HostRejected"@[4]);
    assert("HostEnrolled"@[0] != "AllowlistSet"@[0]);
    assert("HostRejected"@[0] != "AllowlistSet"@[0]);
    assert("PolicyEpochBumped"@[0] != "AllowlistProposed"@[0]);
}

/// The fields of an event stand for that event.
pub proof fn law_event_fields_roundtrip(e: EventModel)
    requires
        well_sized(e),
    ensures
        event_in_map(cbor::as_entries(event_fields(e))) == Some(e),
{
    lemma_field_names_differ();
    lemma_kinds_differ();
    reveal_with_fuel(cbor::values_from, 6);
    let m = cbor::as_entries(event_fields(e));
    assert forall|names: Seq<Seq<char>>| #[trigger] all_by_name(m, names) == m by {
        assert(all_by_name(m, names) =~= m);
    }
    match e {
        EventModel::AttestStart { ek_sha, aik_sha, policy_id } => {
            assert(cbor::field_of(m, "type"@) == Some(CborModel::Text("AttestStart"@)));
            assert(cbor::field_of(m, "ek_sha"@) == Some(CborModel::Bytes(ek_sha)));
            assert(cbor::field_of(m, "aik_sha"@) == Some(CborModel::Bytes(aik_sha)));
            assert(cbor::field_of(m, "policy_id"@) == Some(CborModel::Text(policy_id)));
        },
        EventModel::AttestFail { reason } => {
            assert(cbor::field_of(m, "type"@) == Some(CborModel::Text("AttestFail"@)));
            assert(cbor::field_of(m, "reason"@) == Some(CborModel::Text(reason)));
        },
        EventModel::SvidIssued { cert_sha, spiffe_id } => {
            assert(cbor::field_of(m, "type"@) == Some(CborModel::Text("SvidIssued"@)));
            assert(cbor::field_of(m, "cert_sha"@) == Some(CborModel::Bytes(cert_sha)));
            assert(cbor::field_of(m, "spiffe_id"@) == Some(CborModel::Text(spiffe_id)));
        },
        EventModel::SvidRevoked { cert_sha, reason } => {
            assert(cbor::field_of(m, "type"@) == Some(CborModel::Text("SvidRevoked"@)));
            assert(cbor::field_of(m, "cert_sha"@) == Some(CborModel::Bytes(cert_sha)));
            assert(cbor::field_of(m, "reason"@) == Some(CborModel::Text(reason)));
        },
        EventModel::HostRevoked { spiffe_id, reason } => {
            assert(cbor::field_of(m, "type"@) == Some(CborModel::Text("HostRevoked"@)));
            assert(cbor::field_of(m, "spiffe_id"@) == Some(CborModel::Text(spiffe_id)));
            assert(cbor::field_of(m, "reason"@) == Some(CborModel::Text(reason)));
        },
        EventModel::KeyShareUsed { share_idx, mrenclave } => {
            assert(cbor::field_of(m, "type"@) == Some(CborModel::Text("KeyShareUsed"@)));
            assert(cbor::field_of(m, "share_idx"@) == Some(CborModel::Integer(share_idx as i128)));
            assert(cbor::field_of(m, "mrenclave"@) == Some(CborModel::Bytes(mrenclave)));
        },
        EventModel::LocalGrant { pid, uid, bin_sha, jti } => {
            assert(cbor::field_of(m, "type"@) == Some(CborModel::Text("LocalGrant"@)));
            assert(cbor::field_of(m, "pid"@) == Some(CborModel::Integer(pid as i128)));
            assert(cbor::field_of(m, "uid"@) == Some(CborModel::Integer(uid as i128)));
            assert(cbor::field_of(m, "bin_sha"@) == Some(CborModel::Bytes(bin_sha)));
            assert(cbor::field_of(m, "jti"@) == Some(CborModel::Bytes(jti)));
        },
        EventModel::LocalDenied { pid, uid, bin_sha, reason } => {
            assert(cbor::field_of(m, "type"@) == Some(CborModel::Text("LocalDenied"@)));
            assert(cbor::field_of(m, "pid"@) == Some(CborModel::Integer(pid as i128)));
            assert(cbor::field_of(m, "uid"@) == Some(CborModel::Integer(uid as i128)));
            assert(cbor::field_of(m, "bin_sha"@) == Some(CborModel::Bytes(bin_sha)));
            assert(cbor::field_of(m, "reason"@) == Some(CborModel::Text(reason)));
        },
        EventModel::HostEnrolled { ek_sha } => {
            assert(cbor::field_of(m, "type"@) == Some(CborModel::Text("HostEnrolled"@)));
            assert(cbor::field_of(m, "ek_sha"@) == Some(CborModel::Bytes(ek_sha)));
        },
        EventModel::HostRejected { ek_sha, reason } => {
            assert(cbor::field_of(m, "type"@) == Some(CborModel::Text("HostRejected"@)));
            assert(cbor::field_of(m, "ek_sha"@) == Some(CborModel::Bytes(ek_sha)));
            assert(cbor::field_of(m, "reason"@) == Some(CborModel::Text(reason)));
        },
        EventModel::PolicyEpochBumped { old_epoch, new_epoch, reason } => {
            assert(cbor::field_of(m, "type"@) == Some(CborModel::Text("PolicyEpochBumped"@)));
            assert(cbor::field_of(m, "old_epoch"@) == Some(CborModel::Integer(old_epoch as i128)));
            assert(cbor::field_of(m, "new_epoch"@) == Some(CborModel::Integer(new_epoch as i128)));
            assert(cbor::field_of(m, "reason"@) == Some(CborModel::Text(reason)));
        },
        EventModel::AllowlistSet { host_uuid, entry_count, not_after } => {
            assert(cbor::field_of(m, "type"@) == Some(CborModel::Text("AllowlistSet"@)));
            assert(cbor::field_of(m, "host_uuid"@) == Some(CborModel::Text(host_uuid)));
            assert(cbor::field_of(m, "entry_count"@) == Some(CborModel::Integer(entry_count as i128)));
            assert(cbor::field_of(m, "not_after"@) == Some(CborModel::Integer(not_after as i128)));
        },
        EventModel::AllowlistDeleted { host_uuid } => {
            assert(cbor::field_of(m, "type"@) == Some(CborModel::Text("AllowlistDeleted"@)));
            assert(cbor::field_of(m, "host_uuid"@) == Some(CborModel::Text(host_uuid)));
        },
        EventModel::AllowlistProposed { host_uuid, entry_count, proposer_spiffe_id } => {
            assert(cbor::field_of(m, "type"@) == Some(CborModel::Text("AllowlistProposed"@)));
            assert(cbor::field_of(m, "host_uuid"@) == Some(CborModel::Text(host_uuid)));
            assert(cbor::field_of(m, "entry_count"@) == Some(CborModel::Integer(entry_count as i128)));
            assert(cbor::field_of(m, "proposer_spiffe_id"@) == Some(CborModel::Text(proposer_spiffe_id)));
        },
        EventModel::AllowlistAutoAdopted { host_uuid, entry_count, not_after } => {
            assert(cbor::field_of(m, "type"@) == Some(CborModel::Text("AllowlistAutoAdopted"@)));
            assert(cbor::field_of(m, "host_uuid"@) == Some(CborModel::Text(host_uuid)));
            assert(cbor::field_of(m, "entry_count"@) == Some(CborModel::Integer(entry_count as i128)));
            assert(cbor::field_of(m, "not_after"@) == Some(CborModel::Integer(not_after as i128)));
        },
        EventModel::AllowlistProposalRejected { host_uuid } => {
            assert(cbor::field_of(m, "type"@) == Some(CborModel::Text("AllowlistProposalRejected"@)));
            assert(cbor::field_of(m, "host_uuid"@) == Some(CborModel::Text(host_uuid)));
        },
    }
}

/// Events with one CBOR form are the same event: what [`encode`] and
/// [`decode`] promise of an event and its form leaves no other.
pub proof fn law_event_bytes_injective(a: EventModel, b: EventModel)
    requires
        event_from(event_bytes(a)) == Some(a),
        event_from(event_bytes(b)) == Some(b),
        event_bytes(a) == event_bytes(b),
    ensures
        a == b,
{
}

/// The fields of an event stand for that event in an array too, the kind first
/// and then its fields in their order, and in a map under their positions.
pub proof fn law_event_order_roundtrip(e: EventModel)
    requires
        well_sized(e),
    ensures
        ({
            let fields = event_fields(e);
            &&& event_in_array(
                Seq::new(fields.len(), |i: int| fields[i].1),
            ) == Some(e)
            &&& event_in_map(
                Seq::new(
                    fields.len(),
                    |i: int|
                        if i == 0 {
                            (CborModel::Text("type"@), fields[0].1)
                        } else {
                            (CborModel::Integer((i - 1) as i128), fields[i].1)
                        },
                ),
            ) == Some(e)
        }),
{
    let fields = event_fields(e);
    let m = cbor::as_entries(fields);
    let a = Seq::new(fields.len(), |i: int| fields[i].1);
    let p = Seq::new(
        fields.len(),
        |i: int|
            if i == 0 {
                (CborModel::Text("type"@), fields[0].1)
            } else {
                (CborModel::Integer((i - 1) as i128), fields[i].1)
            },
    );
    law_event_fields_roundtrip(e);
    lemma_kinds_differ();
    assert forall|names: Seq<Seq<char>>| #[trigger] all_by_name(m, names) == m by {
        assert(all_by_name(m, names) =~= m);
    }
    cbor::law_field_found(p, "type"@, 0);
    match e {
        EventModel::AttestStart { .. } => {
            assert(in_order(a, kind_fields(a[0])) =~= m);
            assert(all_by_name(p, kind_fields(a[0])) =~= m);
        },
        EventModel::AttestFail { .. } => {
            assert(in_order(a, kind_fields(a[0])) =~= m);
            assert(all_by_name(p, kind_fields(a[0])) =~= m);
        },
        EventModel::SvidIssued { .. } => {
            assert(in_order(a, kind_fields(a[0])) =~= m);
            assert(all_by_name(p, kind_fields(a[0])) =~= m);
        },
        EventModel::SvidRevoked { .. } => {
            assert(in_order(a, kind_fields(a[0])) =~= m);
            assert(all_by_name(p, kind_fields(a[0])) =~= m);
        },
        EventModel::HostRevoked { .. } => {
            assert(in_order(a, kind_fields(a[0])) =~= m);
            assert(all_by_name(p, kind_fields(a[0])) =~= m);
        },
        EventModel::KeyShareUsed { .. } => {
            assert(in_order(a, kind_fields(a[0])) =~= m);
            assert(all_by_name(p, kind_fields(a[0])) =~= m);
        },
        EventModel::LocalGrant { .. } => {
            assert(in_order(a, kind_fields(a[0])) =~= m);
            assert(all_by_name(p, kind_fields(a[0])) =~= m);
        },
        EventModel::LocalDenied { .. } => {
            assert(in_order(a, kind_fields(a[0])) =~= m);
            assert(all_by_name(p, kind_fields(a[0])) =~= m);
        },
        EventModel::HostEnrolled { .. } => {
            assert(in_order(a, kind_fields(a[0])) =~= m);
            assert(all_by_name(p, kind_fields(a[0])) =~= m);
        },
        EventModel::HostRejected { .. } => {
            assert(in_order(a, kind_fields(a[0])) =~= m);
            assert(all_by_name(p, kind_fields(a[0])) =~= m);
        },
        EventModel::PolicyEpochBumped { .. } => {
            assert(in_order(a, kind_fields(a[0])) =~= m);
            assert(all_by_name(p, kind_fields(a[0])) =~= m);
        },
        EventModel::AllowlistSet { .. } => {
            assert(in_order(a, kind_fields(a[0])) =~= m);
            assert(all_by_name(p, kind_fields(a[0])) =~= m);
        },
        EventModel::AllowlistDeleted { .. } => {
            assert(in_order(a, kind_fields(a[0])) =~= m);
            assert(all_by_name(p, kind_fields(a[0])) =~= m);
        },
        EventModel::AllowlistProposed { .. } => {
            assert(in_order(a, kind_fields(a[0])) =~= m);
            assert(all_by_name(p, kind_fields(a[0])) =~= m);
        },
        EventModel::AllowlistAutoAdopted { .. } => {
            assert(in_order(a, kind_fields(a[0])) =~= m);
            assert(all_by_name(p, kind_fields(a[0])) =~= m);
        },
        EventModel::AllowlistProposalRejected { .. } => {
            assert(in_order(a, kind_fields(a[0])) =~= m);
            assert(all_by_name(p, kind_fields(a[0])) =~= m);
        },
    }
}

} // verus!
