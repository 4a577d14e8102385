//! Requests of operators and of hosts that are attested already: renewal,
//! revocation, listings, and the audit log.

use vstd::prelude::*;
use crate::audit::bytes::Hash384;
use crate::audit::event;
use crate::audit::event::{AuditEvent, EventModel};
use crate::audit::log;
use crate::audit::log::{AuditLog, ConsistencyProof, InclusionProof, NewLeaf};
use crate::audit::merkle;
use crate::audit::store::{AuditStore, AuditStoreError};
use crate::audit::sth::{SignedTreeHead, SthSigner};
use crate::cmis::attest;
use crate::cmis::pcr;
use crate::cmis::record::{IssueParams, IssuedRecord, IssuedSvid, LastAttestation, SvidModel};
use crate::cmis::requests;
use crate::cmis::requests::{parse_cert_sha, revocation_reason};
use crate::cmis::revocation;
use crate::cmis::revocation::{
    CrlBody, CrlEntry, CrlSignature, EntryModel, RevocationTarget, TargetModel,
};
use crate::cmis::state;
use crate::cmis::state::CmisState;
use crate::cmis::status;
use crate::cmis::status::{Code, Status};
use crate::collections;
use crate::primitives::{encoding, hash};

verus! {

/// A subject's document, as it was issued last.
pub fn fetch_svid(st: &CmisState, spiffe_id: &str) -> (r: Result<IssuedSvid, Status>)
    ensures
        match r {
            Ok(b) => st.svids@.dom().contains(spiffe_id@) && b@
                == st.svids@[spiffe_id@].bundle@,
            Err(s) => !st.svids@.dom().contains(spiffe_id@) && s == (Status {
                code: Code::NotFound,
                message: "no SVID for subject",
            }),
        },
{
    match st.lookup(spiffe_id) {
        Some(rec) => Ok(rec.bundle.duplicate()),
        None => Err(Status::new(Code::NotFound, "no SVID for subject")),
    }
}

/// What decides on a renewal.
#[derive(Debug)]
pub struct RotationCheck {
    /// What the document was issued with.
    pub params: IssueParams,
    /// The last full attestation.
    pub last_attestation: LastAttestation,
    /// The aggregate digest of the values that the host reports.
    pub current_digest: [u8; 48],
    /// The policy epoch.
    pub policy_epoch: u64,
}

/// Check a request to renew a document. `subject` is what the presented
/// document names, if it can be read; what was attested is taken from the
/// record alone.
pub fn check_rotation(
    st: &CmisState,
    subject: Option<&str>,
    pcr_values: &Vec<(u32, Vec<u8>)>,
) -> (r: Result<RotationCheck, Status>)
    ensures
        match subject {
            None => r == Err::<RotationCheck, _>(
                Status { code: Code::InvalidArgument, message: "malformed SVID" },
            ),
            Some(sub) => if !st.svids@.dom().contains(sub@) {
                r == Err::<RotationCheck, _>(
                    Status {
                        code: Code::NotFound,
                        message: "unknown subject; full attestation required",
                    },
                )
            } else {
                r matches Ok(c) && c.params@ == st.svids@[sub@].params@ && c.last_attestation
                    == st.svids@[sub@].last_attestation && c.current_digest == pcr::aggregate_of(
                    pcr::capped(pcr_values@),
                ) && c.policy_epoch == st.policy_epoch
            },
        },
{
    let sub = match subject {
        Some(sub) => sub,
        None => return Err(Status::new(Code::InvalidArgument, "malformed SVID")),
    };
    match st.lookup(sub) {
        Some(rec) => Ok(
            RotationCheck {
                params: rec.params.duplicate(),
                last_attestation: rec.last_attestation,
                current_digest: pcr::reported_digest(pcr_values),
                policy_epoch: st.current_epoch(),
            },
        ),
        None => Err(
            Status::new(Code::NotFound, "unknown subject; full attestation required"),
        ),
    }
}

/// What was decided on a renewal.
#[derive(Debug)]
pub enum Renewal {
    /// The document may be renewed: what the issuer gave, if it gave anything.
    ShortPath(Option<IssuedSvid>),
    /// The host must attest in full.
    FullReattest,
}

/// What an answer to a request to renew brings about: the state after it, and
/// the answer.
pub open spec fn rotated(
    st: CmisState,
    subject: Seq<char>,
    decided: Renewal,
    after: CmisState,
    r: Result<IssuedSvid, Status>,
) -> bool {
    &&& state::same_but_svids(st, after)
    &&& match decided {
        Renewal::ShortPath(Some(svid)) => {
            &&& r matches Ok(b) && b@ == svid@
            &&& if st.svids@.dom().contains(subject) {
                after.svids@.dom() == st.svids@.dom() && state::renewed(
                    st.svids@[subject],
                    after.svids@[subject],
                    svid,
                ) && forall|k: Seq<char>|
                    k != subject && st.svids@.dom().contains(k) ==> #[trigger] after.svids@[k]
                        == st.svids@[k]
            } else {
                after.svids@ == st.svids@
            }
        },
        Renewal::ShortPath(None) => {
            &&& r == Err::<IssuedSvid, _>(status::issuer_unavailable())
            &&& after.svids@ == st.svids@
        },
        Renewal::FullReattest => {
            &&& r == Err::<IssuedSvid, _>(
                Status {
                    code: Code::FailedPrecondition,
                    message: "re-attestation required",
                },
            )
            &&& after.svids@ == st.svids@
        },
    }
}

/// Answer a request to renew a document, once it has been decided on. A renewed
/// document takes the place of the subject's earlier one; whatever is refused
/// changes nothing.
pub fn finish_rotation(st: &mut CmisState, subject: &str, decided: Renewal) -> (r: Result<
    IssuedSvid,
    Status,
>)
    ensures
        rotated(*old(st), subject@, decided, *final(st), r),
{
    match decided {
        Renewal::ShortPath(Some(svid)) => {
            let answer = svid.duplicate();
            st.update_bundle(subject, svid);
            Ok(answer)
        },
        Renewal::ShortPath(None) => Err(Status::issuer_unavailable()),
        Renewal::FullReattest => Err(
            Status::new(Code::FailedPrecondition, "re-attestation required"),
        ),
    }
}

/// What a request to revoke a document brings about: the state after it, what is
/// entered in the audit log, and the answer.
pub open spec fn svid_revoked(
    st: CmisState,
    cert_sha: Seq<char>,
    reason: Seq<char>,
    now: i64,
    expires_at: i64,
    after: CmisState,
    r: (Vec<AuditEvent>, Result<(), Status>),
) -> bool {
    &&& state::same_but_revocations(st, after)
    &&& after.published_crl == st.published_crl
    &&& after.revocations@.number == st.revocations@.number
    &&& if requests::is_sha_text(cert_sha) {
        let digest = encoding::hex_value(requests::sha_text_bytes(cert_sha));
        &&& r.1 is Ok
        &&& revocation::after_revoking(
            st.revocations@.entries,
            EntryModel {
                target: TargetModel::Svid { cert_sha: encoding::hex_text(digest) },
                reason: requests::bounded_reason(reason),
                revoked_at: now,
                expires_at,
            },
            after.revocations@.entries,
        )
        &&& attest::audit_models(r.0@) == seq![
            EventModel::SvidRevoked {
                cert_sha: digest,
                reason: requests::bounded_reason(reason),
            },
        ]
    } else {
        &&& r.1 == Err::<(), _>(requests::sha_refusal(cert_sha))
        &&& r.0@.len() == 0
        &&& after.revocations == st.revocations
    }
}

/// Revoke one document. Its digest is kept in lower case.
pub fn revoke_svid(
    st: &mut CmisState,
    cert_sha: &str,
    reason: &str,
    now: i64,
    expires_at: i64,
) -> (r: (Vec<AuditEvent>, Result<(), Status>))
    ensures
        svid_revoked(*old(st), cert_sha@, reason@, now, expires_at, *final(st), r),
{
    let mut audits: Vec<AuditEvent> = Vec::new();
    let digest: [u8; 48] = match parse_cert_sha(cert_sha) {
        Ok(d) => d,
        Err(s) => return (audits, Err(s)),
    };
    let why = revocation_reason(reason);
    st.revoke(
        CrlEntry {
            target: RevocationTarget::Svid { cert_sha: encoding::hex_encode(digest.as_slice()) },
            reason: why.clone(),
            revoked_at: now,
            expires_at,
        },
    );
    audits.push(AuditEvent::SvidRevoked { cert_sha: Hash384(digest), reason: why });
    assert(attest::audit_models(audits@) =~= seq![audits@[0]@]);
    (audits, Ok(()))
}

/// What a request to revoke a host brings about: the state after it, what is
/// entered in the audit log, and the answer.
pub open spec fn host_revoked(
    st: CmisState,
    spiffe_id: Seq<char>,
    reason: Seq<char>,
    now: i64,
    expires_at: i64,
    after: CmisState,
    r: (Vec<AuditEvent>, Result<(), Status>),
) -> bool {
    &&& state::same_but_revocations(st, after)
    &&& after.published_crl == st.published_crl
    &&& after.revocations@.number == st.revocations@.number
    &&& if spiffe_id.len() > 0 {
        &&& r.1 is Ok
        &&& revocation::after_revoking(
            st.revocations@.entries,
            EntryModel {
                target: TargetModel::Host { spiffe_id: spiffe_id },
                reason: requests::bounded_reason(reason),
                revoked_at: now,
                expires_at,
            },
            after.revocations@.entries,
        )
        &&& attest::audit_models(r.0@) == seq![
            EventModel::HostRevoked {
                spiffe_id: spiffe_id,
                reason: requests::bounded_reason(reason),
            },
        ]
    } else {
        &&& r.1 == Err::<(), _>(
            Status { code: Code::InvalidArgument, message: "empty spiffe_id" },
        )
        &&& r.0@.len() == 0
        &&& after.revocations == st.revocations
    }
}

/// Revoke every document of a host.
pub fn revoke_host(
    st: &mut CmisState,
    spiffe_id: &str,
    reason: &str,
    now: i64,
    expires_at: i64,
) -> (r: (Vec<AuditEvent>, Result<(), Status>))
    ensures
        host_revoked(*old(st), spiffe_id@, reason@, now, expires_at, *final(st), r),
{
    let mut audits: Vec<AuditEvent> = Vec::new();
    if spiffe_id.unicode_len() == 0 {
        return (audits, Err(Status::new(Code::InvalidArgument, "empty spiffe_id")));
    }
    let why = revocation_reason(reason);
    st.revoke(
        CrlEntry {
            target: RevocationTarget::Host { spiffe_id: spiffe_id.to_owned() },
            reason: why.clone(),
            revoked_at: now,
            expires_at,
        },
    );
    audits.push(AuditEvent::HostRevoked { spiffe_id: spiffe_id.to_owned(), reason: why });
    assert(attest::audit_models(audits@) =~= seq![audits@[0]@]);
    (audits, Ok(()))
}

/// Publish a revocation list with what signing it gave, or say that it could not
/// be signed. The number of the published list is returned.
pub fn publish_crl_now<E>(
    st: &mut CmisState,
    body: CrlBody,
    signed: Result<CrlSignature, E>,
) -> (r: Result<u64, Status>)
    ensures
        state::same_but_revocations(*old(st), *final(st)),
        final(st).revocations == old(st).revocations,
        match signed {
            Ok(sig) => r == Ok::<_, Status>(body.number) && state::publishes(*final(st), body, sig),
            Err(_) => r == Err::<u64, _>(status::issuer_unavailable()) && final(st).published_crl
                == old(st).published_crl,
        },
{
    match st.publish_crl(body, signed) {
        Ok(number) => Ok(number),
        Err(_) => Err(Status::issuer_unavailable()),
    }
}

/// Advance the policy epoch, which sends every host back to full attestation.
pub fn bump_epoch(st: &mut CmisState, reason: &str) -> (r: (Vec<AuditEvent>, u64))
    requires
        old(st).policy_epoch < u64::MAX,
    ensures
        state::same_but_epoch(*old(st), *final(st)),
        final(st).policy_epoch == old(st).policy_epoch + 1,
        r.1 == final(st).policy_epoch,
        attest::audit_models(r.0@) == seq![
            EventModel::PolicyEpochBumped {
                old_epoch: old(st).policy_epoch,
                new_epoch: final(st).policy_epoch,
                reason: requests::bounded_reason(reason@),
            },
        ],
{
    let why = revocation_reason(reason);
    let (old_epoch, new_epoch) = st.bump_epoch();
    let mut audits: Vec<AuditEvent> = Vec::new();
    audits.push(AuditEvent::PolicyEpochBumped { old_epoch, new_epoch, reason: why });
    assert(attest::audit_models(audits@) =~= seq![audits@[0]@]);
    (audits, new_epoch)
}

/// What a listing says of one document.
#[derive(Debug, Clone, PartialEq, Eq)]
pub struct SvidSummary {
    /// Its subject.
    pub spiffe_id: String,
    /// The digest by which it can be revoked.
    pub cert_sha: String,
    /// Start of validity, Unix seconds.
    pub issued_at: i64,
    /// End of validity, Unix seconds.
    pub expires_at: i64,
    /// The policy that the boot state was approved under.
    pub policy_id: String,
    /// The policy epoch of the last full attestation.
    pub policy_epoch: u64,
}

/// The digest by which a document can be revoked: SHA-384 of its compact form,
/// in lowercase hexadecimal.
pub open spec fn cert_sha_of(svid: SvidModel) -> Seq<char> {
    encoding::hex_text(hash::sha384_of(vstd::utf8::encode_utf8(svid.jws))@)
}

/// Whether a summary is that of a record.
pub open spec fn summarizes(s: SvidSummary, rec: IssuedRecord) -> bool {
    &&& s.spiffe_id@ == rec.bundle.spiffe_id@
    &&& s.cert_sha@ == cert_sha_of(rec.bundle@)
    &&& s.issued_at == rec.bundle.iat
    &&& s.expires_at == rec.bundle.exp
    &&& s.policy_id@ == rec.params.policy_id@
    &&& s.policy_epoch == rec.last_attestation.policy_epoch
}

/// What a listing says of one record.
pub fn summary(rec: &IssuedRecord) -> (r: SvidSummary)
    ensures
        summarizes(r, *rec),
{
    let digest = hash::sha384(rec.bundle.jws.as_str().as_bytes());
    SvidSummary {
        spiffe_id: rec.bundle.spiffe_id.clone(),
        cert_sha: encoding::hex_encode(digest.as_slice()),
        issued_at: rec.bundle.iat,
        expires_at: rec.bundle.exp,
        policy_id: rec.params.policy_id.clone(),
        policy_epoch: rec.last_attestation.policy_epoch,
    }
}

/// One summary for every document that is kept, and no other.
pub fn list_svids(st: &CmisState) -> (r: Vec<SvidSummary>)
    ensures
        forall|i: int|
            0 <= i < r@.len() ==> exists|k: Seq<char>| #[trigger]
                st.svids@.dom().contains(k) && summarizes(#[trigger] r@[i], st.svids@[k]),
        forall|k: Seq<char>| #[trigger]
            st.svids@.dom().contains(k) ==> exists|i: int|
                0 <= i < r@.len() && summarizes(#[trigger] r@[i], st.svids@[k]),
        r@.len() == st.svids@.dom().len(),
{
    let entries = st.list_svids();
    proof {
        collections::lemma_entries_map(entries@);
    }
    let mut out: Vec<SvidSummary> = Vec::new();
    let mut i: usize = 0;
    while i < entries.len()
        invariant
            i <= entries@.len(),
            out@.len() == i,
            forall|j: int| 0 <= j < i ==> summarizes(#[trigger] out@[j], entries@[j].1),
        decreases entries@.len() - i,
    {
        out.push(summary(&entries[i].1));
        i += 1;
    }
    proof {
        assert forall|j: int| 0 <= j < out@.len() implies exists|k: Seq<char>| #[trigger]
            st.svids@.dom().contains(k) && summarizes(#[trigger] out@[j], st.svids@[k]) by {
            assert(st.svids@.dom().contains(entries@[j].0@));
        }
        assert forall|k: Seq<char>| #[trigger] st.svids@.dom().contains(k) implies exists|j: int|
            0 <= j < out@.len() && summarizes(#[trigger] out@[j], st.svids@[k]) by {
            let j = choose|j: int| 0 <= j < entries@.len() && (#[trigger] entries@[j]).0@ == k;
            assert(summarizes(out@[j], entries@[j].1));
        }
    }
    out
}

/// The key that hosts check allowlists with: the issuer's public key.
pub fn get_enrollment_key(st: &CmisState) -> (r: Vec<u8>)
    ensures
        r@ == st.keys@.issuer.public,
{
    st.keys.issuer_public()
}

/// What a node is to its cluster.
#[derive(Debug, Clone, Copy, PartialEq, Eq, Structural)]
pub enum NodeRole {
    /// It leads.
    Leader,
    /// It follows.
    Follower,
    /// It learns.
    Learner,
    /// It cannot be told.
    Unknown,
}

/// What a node says of its cluster.
#[derive(Debug, Clone, Copy, PartialEq, Eq, Structural)]
pub struct ClusterState {
    /// Whether the cluster is healthy.
    pub healthy: bool,
    /// What the node is to it.
    pub role: NodeRole,
    /// The node's identifier.
    pub node_id: u64,
}

/// Whether the service is healthy, what its node is to the cluster, and the
/// node's identifier. A service without a cluster is healthy; the role in a
/// cluster that is not cannot be told.
pub fn health(cluster: Option<ClusterState>) -> (r: (bool, NodeRole, u64))
    ensures
        r == (match cluster {
            None => (true, NodeRole::Unknown, 0u64),
            Some(c) => if c.healthy {
                (true, c.role, c.node_id)
            } else {
                (false, NodeRole::Unknown, c.node_id)
            },
        }),
{
    match cluster {
        None => (true, NodeRole::Unknown, 0),
        Some(c) => if c.healthy {
            (true, c.role, c.node_id)
        } else {
            (false, NodeRole::Unknown, c.node_id)
        },
    }
}

/// The latest tree head, with its signature decoded.
#[derive(Debug)]
pub struct WireTreeHead {
    /// The signed body.
    pub body_cbor: Vec<u8>,
    /// The signer's key.
    pub signer_kid: String,
    /// The signature.
    pub signature: Vec<u8>,
}

/// Bring a tree head to the form in which it is sent.
pub fn to_wire_sth(sth: &SignedTreeHead) -> (r: Result<WireTreeHead, Status>)
    ensures
        match r {
            Ok(w) => {
                &&& w.body_cbor@ == sth.body_cbor@
                &&& w.signer_kid@ == sth.signer_kid@
                &&& encoding::base64url_value(vstd::utf8::encode_utf8(sth.signature_b64@)) == Ok::<
                    _,
                    Seq<char>,
                >(w.signature@)
            },
            Err(s) => encoding::base64url_value(
                vstd::utf8::encode_utf8(sth.signature_b64@),
            ) is Err && s == (Status { code: Code::Internal, message: "sth signature base64" }),
        },
{
    match encoding::base64url_decode(sth.signature_b64.as_str().as_bytes()) {
        Ok(signature) => Ok(
            WireTreeHead {
                body_cbor: vstd::slice::slice_to_vec(sth.body_cbor.as_slice()),
                signer_kid: sth.signer_kid.clone(),
                signature,
            },
        ),
        Err(_) => Err(Status::new(Code::Internal, "sth signature base64")),
    }
}

/// The latest tree head of the audit log.
pub fn latest_sth<S: AuditStore, G: SthSigner>(audit: &AuditLog<S, G>) -> (r: Result<
    WireTreeHead,
    Status,
>)
    ensures
        match audit.head() {
            None => r == Err::<WireTreeHead, _>(
                Status { code: Code::NotFound, message: "no STH produced yet" },
            ),
            Some(h) => match r {
                Ok(w) => w.body_cbor@ == h.body_cbor@ && w.signer_kid@ == h.signer_kid@
                    && encoding::base64url_value(vstd::utf8::encode_utf8(h.signature_b64@)) == Ok::<
                    _,
                    Seq<char>,
                >(w.signature@),
                Err(s) => encoding::base64url_value(
                    vstd::utf8::encode_utf8(h.signature_b64@),
                ) is Err && s == (Status {
                    code: Code::Internal,
                    message: "sth signature base64",
                }),
            },
        },
{
    match audit.latest_sth() {
        Some(h) => to_wire_sth(h),
        None => Err(Status::new(Code::NotFound, "no STH produced yet")),
    }
}

/// The inclusion proof of a leaf of the audit log.
pub fn inclusion_proof<S: AuditStore, G: SthSigner>(audit: &AuditLog<S, G>, leaf_index: u64) -> (r:
    Result<InclusionProof, Status>)
    ensures
        match r {
            Ok(p) => {
                &&& leaf_index < audit.leaves().len()
                &&& p.leaf_hash == audit.leaves()[leaf_index as int]
                &&& p.leaf_index == leaf_index
                &&& p.tree_size == audit.leaves().len()
                &&& p.root_hash == merkle::tree_root(audit.leaves())
                &&& p.audit_path@ == merkle::audit_path(leaf_index as nat, audit.leaves())
            },
            Err(s) => leaf_index >= audit.leaves().len() && s == (Status {
                code: Code::NotFound,
                message: "leaf out of range",
            }),
        },
{
    match audit.inclusion_proof(leaf_index) {
        Ok(p) => Ok(p),
        Err(_) => Err(Status::new(Code::NotFound, "leaf out of range")),
    }
}

/// The consistency proof between an earlier size of the audit log and now.
pub fn consistency_proof<S: AuditStore, G: SthSigner>(audit: &AuditLog<S, G>, old_size: u64) -> (r:
    Result<ConsistencyProof, Status>)
    ensures
        match r {
            Ok(p) => {
                &&& 0 < old_size <= audit.leaves().len()
                &&& p.old_size == old_size
                &&& p.new_size == audit.leaves().len()
                &&& p.new_root_hash == merkle::tree_root(audit.leaves())
                &&& p.audit_path@ == merkle::consistency_path(
                    old_size as nat,
                    audit.leaves(),
                    true,
                )
            },
            Err(s) => (old_size == 0 || old_size > audit.leaves().len()) && s == (Status {
                code: Code::InvalidArgument,
                message: "old_size out of range",
            }),
        },
{
    match audit.consistency_proof(old_size) {
        Ok(p) => Ok(p),
        Err(_) => Err(Status::new(Code::InvalidArgument, "old_size out of range")),
    }
}

/// Whether a log after an event was to be entered follows from the one before:
/// if the store took the event's leaf, the log has it and seals it into a tree
/// head; if not, the log is as it was.
pub open spec fn enters<S: AuditStore, G: SthSigner>(
    before: AuditLog<S, G>,
    after: AuditLog<S, G>,
    e: EventModel,
    now: i64,
    entered: bool,
) -> bool {
    &&& after.leaves() == (if entered {
        before.leaves().push(merkle::leaf_digest(event::event_bytes(e)))
    } else {
        before.leaves()
    })
    &&& if entered {
        log::seals(
            before.backing(),
            before.sealer(),
            after.leaves(),
            now,
            before.head(),
            after.head(),
        )
    } else {
        after.head() == before.head()
    }
    &&& after.cosigned_head() == before.cosigned_head()
    &&& after.backing() == before.backing()
    &&& after.sealer() == before.sealer()
    &&& exists|leaf: NewLeaf, raw: &[u8], stored: Result<(), AuditStoreError>|
        #![trigger before.is_next_leaf(leaf, e), call_ensures(
            S::append_leaf,
            (&before.backing(), leaf.index, raw, &leaf.hash),
            stored,
        )]
        before.is_next_leaf(leaf, e) && raw@ == leaf.raw@ && call_ensures(
            S::append_leaf,
            (&before.backing(), leaf.index, raw, &leaf.hash),
            stored,
        ) && entered == (stored is Ok)
}

/// Enter an event in the audit log and seal it into a tree head. A failure is
/// not handed on: whether the event was entered is returned, and where it was
/// not, the log is as it was.
pub fn audit_record<S: AuditStore, G: SthSigner>(
    audit: &mut AuditLog<S, G>,
    e: &AuditEvent,
    now: i64,
) -> (entered: bool)
    ensures
        enters(*old(audit), *final(audit), e@, now, entered),
{
    match audit.append(e) {
        Ok(_) => {
            seal(audit, now);
            true
        },
        Err(_) => false,
    }
}

fn seal<S: AuditStore, G: SthSigner>(audit: &mut AuditLog<S, G>, now: i64)
    ensures
        final(audit).leaves() == old(audit).leaves(),
        final(audit).cosigned_head() == old(audit).cosigned_head(),
        final(audit).backing() == old(audit).backing(),
        final(audit).sealer() == old(audit).sealer(),
        log::seals(
            old(audit).backing(),
            old(audit).sealer(),
            old(audit).leaves(),
            now,
            old(audit).head(),
            final(audit).head(),
        ),
{
    let r = audit.produce_sth(now);
    if let Ok(h) = &r {
        assert(h.body_cbor == h.body_cbor);
    }
}

/// Enter an event that a host forwarded in the audit log, and seal it into a
/// tree head. Its leaf's index is returned.
pub fn append_audit_event<S: AuditStore, G: SthSigner>(
    audit: &mut AuditLog<S, G>,
    event_cbor: &[u8],
    now: i64,
) -> (r: Result<u64, Status>)
    ensures
        match event::event_from(event_cbor@) {
            None => {
                &&& r == Err::<u64, _>(
                    Status { code: Code::InvalidArgument, message: "malformed audit event" },
                )
                &&& *final(audit) == *old(audit)
            },
            Some(e) => {
                &&& enters(*old(audit), *final(audit), e, now, r is Ok)
                &&& match r {
                    Ok(index) => index == old(audit).leaves().len(),
                    Err(s) => s == (Status {
                        code: Code::Unavailable,
                        message: "audit log unavailable",
                    }),
                }
            },
        },
{
    let e = match event::decode(event_cbor) {
        Ok(e) => e,
        Err(_) => return Err(Status::new(Code::InvalidArgument, "malformed audit event")),
    };
    match audit.append(&e) {
        Ok(index) => {
            seal(audit, now);
            Ok(index)
        },
        Err(_) => Err(Status::new(Code::Unavailable, "audit log unavailable")),
    }
}

/// A revoked document is on the revocation list by the digest that listings
/// give of it.
pub proof fn law_listed_digest_revokes(svid: SvidModel)
    ensures
        requests::is_sha_text(cert_sha_of(svid)),
        encoding::hex_text(
            encoding::hex_value(requests::sha_text_bytes(cert_sha_of(svid))),
        ) == cert_sha_of(svid),
{
    let d = hash::sha384_of(vstd::utf8::encode_utf8(svid.jws))@;
    encoding::lemma_hex_roundtrip(d);
    encoding::lemma_hex_untrimmed(d);
}

/// A host that reports its PCRs in ascending order is compared by the digest of
/// all their values in a row, with what its own record says and the epoch in
/// force. `r` is what [`check_rotation`] gives.
pub proof fn law_renewal_compares_record(
    st: &CmisState,
    sub: &str,
    values: &Vec<(u32, Vec<u8>)>,
    r: Result<RotationCheck, Status>,
)
    requires
        call_ensures(check_rotation, (st, Some(sub), values), r),
        st.svids@.dom().contains(sub@),
        forall|i: int| 0 <= i < values@.len() ==> (#[trigger] values@[i]).0 <= 255,
        forall|i: int, j: int|
            0 <= i < j < values@.len() ==> (#[trigger] values@[i]).0 < (#[trigger] values@[j]).0,
    ensures
        r matches Ok(c) && c.current_digest == hash::sha384_of(
            values@.map_values(|v: (u32, Vec<u8>)| v.1@).flatten(),
        ) && c.params.pcr_digest@ == st.svids@[sub@].params.pcr_digest@ && c.params.ek_cert_sha384@
            == st.svids@[sub@].params.ek_cert_sha384@ && c.last_attestation
            == st.svids@[sub@].last_attestation && c.policy_epoch == st.policy_epoch,
{
    pcr::law_incoming_reports_count(values@);
    let c = r->Ok_0;
    assert(c.params@.pcr_digest == st.svids@[sub@].params@.pcr_digest);
    assert(c.params@.ek_cert_sha384 == st.svids@[sub@].params@.ek_cert_sha384);
}

/// Whoever is recorded is given the document that was issued last, and no one
/// else is given any. `r` is what [`fetch_svid`] gives.
pub proof fn law_recorded_document_fetched(
    st: &CmisState,
    id: &str,
    r: Result<IssuedSvid, Status>,
)
    requires
        call_ensures(fetch_svid, (st, id), r),
    ensures
        r is Ok <==> st.svids@.dom().contains(id@),
        r matches Ok(b) ==> b.jws@ == st.svids@[id@].bundle.jws@ && b.exp == st.svids@[id@].bundle.exp,
{
    if let Ok(b) = r {
        assert(b@.jws == st.svids@[id@].bundle@.jws);
        assert(b@.exp == st.svids@[id@].bundle@.exp);
    }
}

/// Every document that is kept is listed with the digest that revokes it and its
/// end of validity. `r` is what [`list_svids`] gives.
pub proof fn law_every_document_listed(st: &CmisState, r: Vec<SvidSummary>, k: Seq<char>)
    requires
        call_ensures(list_svids, (st,), r),
        st.svids@.dom().contains(k),
    ensures
        r@.len() == st.svids@.dom().len(),
        exists|i: int|
            0 <= i < r@.len() && (#[trigger] r@[i]).spiffe_id@ == st.svids@[k].bundle.spiffe_id@
                && r@[i].cert_sha@ == encoding::hex_text(
                hash::sha384_of(vstd::utf8::encode_utf8(st.svids@[k].bundle.jws@))@,
            ) && r@[i].expires_at == st.svids@[k].bundle.exp && r@[i].issued_at
                == st.svids@[k].bundle.iat && r@[i].policy_epoch
                == st.svids@[k].last_attestation.policy_epoch,
{
    let i = choose|i: int| 0 <= i < r@.len() && summarizes(#[trigger] r@[i], st.svids@[k]);
    assert(r@[i].spiffe_id@ == st.svids@[k].bundle.spiffe_id@);
}

/// The proof that is given out for a leaf of the log is one for this leaf, and
/// verifies. `r` is what [`inclusion_proof`] gives.
pub proof fn law_given_inclusion_verifies<S: AuditStore, G: SthSigner>(
    audit: &AuditLog<S, G>,
    leaf_index: u64,
    r: Result<InclusionProof, Status>,
)
    requires
        call_ensures(inclusion_proof::<S, G>, (audit, leaf_index), r),
    ensures
        r is Ok <==> leaf_index < audit.leaves().len(),
        r matches Ok(p) ==> p.leaf_hash == audit.leaves()[leaf_index as int]
            && merkle::inclusion_root(
            audit.leaves()[leaf_index as int],
            leaf_index as nat,
            p.tree_size as nat,
            p.audit_path@,
        ) == Some(p.root_hash) && p.tree_size == audit.leaves().len(),
{
    if r is Ok {
        merkle::law_inclusion_complete(audit.leaves(), leaf_index as nat);
    }
}

/// The proof that is given out for an earlier size connects the root that the
/// log had then with the one it has now. `r` is what [`consistency_proof`]
/// gives.
pub proof fn law_given_consistency_verifies<S: AuditStore, G: SthSigner>(
    audit: &AuditLog<S, G>,
    old_size: u64,
    r: Result<ConsistencyProof, Status>,
)
    requires
        call_ensures(consistency_proof::<S, G>, (audit, old_size), r),
    ensures
        r is Ok <==> 0 < old_size <= audit.leaves().len(),
        r matches Ok(p) ==> {
            let old_root = merkle::tree_root(audit.leaves().subrange(0, old_size as int));
            merkle::consistency_roots(
                old_size as nat,
                p.new_size as nat,
                true,
                old_root,
                p.audit_path@,
            ) == Some((old_root, p.new_root_hash)) && p.new_size == audit.leaves().len()
        },
{
    if r is Ok {
        merkle::law_consistency_complete(audit.leaves(), old_size as nat);
    }
}

/// An event that was entered is the log's next leaf, behind all that were there,
/// and can be proved to be in it.
pub proof fn law_entered_event_is_provable<S: AuditStore, G: SthSigner>(
    before: AuditLog<S, G>,
    after: AuditLog<S, G>,
    e: EventModel,
    now: i64,
)
    requires
        enters(before, after, e, now, true),
    ensures
        before.leaves().is_prefix_of(after.leaves()),
        after.leaves().len() == before.leaves().len() + 1,
        merkle::inclusion_root(
            merkle::leaf_digest(event::event_bytes(e)),
            before.leaves().len(),
            after.leaves().len(),
            merkle::audit_path(before.leaves().len(), after.leaves()),
        ) == Some(merkle::tree_root(after.leaves())),
{
    merkle::law_inclusion_complete(after.leaves(), before.leaves().len());
}

/// A tree head is sent as it was signed: body and signer letter for letter, and
/// the signature's own bytes. `r` is what [`to_wire_sth`] gives.
pub proof fn law_head_sent_as_signed(sth: &SignedTreeHead, r: Result<WireTreeHead, Status>)
    requires
        call_ensures(to_wire_sth, (sth,), r),
    ensures
        r is Ok <==> encoding::base64url_value(vstd::utf8::encode_utf8(sth.signature_b64@)) is Ok,
        r matches Ok(w) ==> w.body_cbor@ == sth.body_cbor@ && w.signer_kid@ == sth.signer_kid@ && Ok::<
            _,
            Seq<char>,
        >(w.signature@) == encoding::base64url_value(
            vstd::utf8::encode_utf8(sth.signature_b64@),
        ),
{
}

/// A service says that it is unhealthy just where its cluster is, and it then
/// claims no role. `r` is what [`health`] gives.
pub proof fn law_health(cluster: Option<ClusterState>, r: (bool, NodeRole, u64))
    requires
        call_ensures(health, (cluster,), r),
    ensures
        !r.0 <==> (cluster matches Some(c) && !c.healthy),
        !r.0 ==> r.1 is Unknown,
        cluster matches Some(c) ==> r.2 == c.node_id && (c.healthy ==> r.1 == c.role),
{
}

/// A document is renewed just where that was decided and the issuer gave one. It
/// then takes the place of the subject's earlier one, with what was attested
/// unchanged; no other subject's record changes, and a refusal changes nothing.
pub proof fn law_renewal_answered(
    st: CmisState,
    subject: Seq<char>,
    decided: Renewal,
    after: CmisState,
    r: Result<IssuedSvid, Status>,
    other: Seq<char>,
)
    requires
        rotated(st, subject, decided, after, r),
    ensures
        r is Ok <==> (decided matches Renewal::ShortPath(Some(_))),
        r is Err ==> after.svids@ == st.svids@,
        st.svids@.dom().contains(other) && other != subject ==> after.svids@[other]
            == st.svids@[other],
        after.svids@.dom() == st.svids@.dom(),
        decided matches Renewal::ShortPath(Some(svid)) ==> (r matches Ok(b) && b@ == svid@) && (
        st.svids@.dom().contains(subject) ==> after.svids@[subject].bundle == svid
            && after.svids@[subject].params@ == st.svids@[subject].params@
            && after.svids@[subject].last_attestation == st.svids@[subject].last_attestation),
        after.revocations == st.revocations,
        after.policy_epoch == st.policy_epoch,
{
}

/// A document that is revoked by the digest that listings give of it is on the
/// list of revocations under that digest, until the time that was given, and is
/// entered in the audit log. What is no digest is refused and changes nothing.
pub proof fn law_revoked_by_listed_digest(
    st: CmisState,
    svid: SvidModel,
    text: Seq<char>,
    reason: Seq<char>,
    now: i64,
    expires_at: i64,
    after: CmisState,
    r: (Vec<AuditEvent>, Result<(), Status>),
)
    requires
        svid_revoked(st, text, reason, now, expires_at, after, r),
    ensures
        text == cert_sha_of(svid) ==> r.1 is Ok && r.0@.len() == 1 && revocation::revokes(
            after.revocations@.entries,
            TargetModel::Svid { cert_sha: cert_sha_of(svid) },
        ) && (now < expires_at ==> revocation::revokes(
            revocation::unexpired(after.revocations@.entries, now),
            TargetModel::Svid { cert_sha: cert_sha_of(svid) },
        )),
        vstd::utf8::encode_utf8(crate::primitives::text::trimmed(text)).len() != 96 ==> r.1 is Err
            && r.0@.len() == 0 && after.revocations == st.revocations,
        after.svids == st.svids,
        after.published_crl == st.published_crl,
{
    law_listed_digest_revokes(svid);
    if text == cert_sha_of(svid) {
        let e = EntryModel {
            target: TargetModel::Svid { cert_sha: cert_sha_of(svid) },
            reason: requests::bounded_reason(reason),
            revoked_at: now,
            expires_at,
        };
        assert(attest::audit_models(r.0@).len() == r.0@.len());
        lemma_revoked(st.revocations@.entries, e, after.revocations@.entries);
        if now < expires_at {
            revocation::law_revoked_until_expiry(
                st.revocations@.entries,
                e,
                after.revocations@.entries,
                now,
            );
        }
    }
    if requests::is_sha_text(text) {
        let d: [u8; 48] = hash::sha384_of(Seq::empty());
        requests::law_digest_is_read(d, text);
    }
}

proof fn lemma_revoked(before: Seq<EntryModel>, e: EntryModel, after: Seq<EntryModel>)
    requires
        revocation::after_revoking(before, e, after),
    ensures
        revocation::revokes(after, e.target),
{
    if revocation::revokes(before, e.target) {
        let i = choose|i: int|
            0 <= i < before.len() && (#[trigger] before[i]).target == e.target && after
                == before.update(i, e);
        assert(after[i].target == e.target);
    } else {
        assert(after[after.len() - 1].target == e.target);
    }
}

/// A host that is revoked is on the list of revocations under its name, and the
/// revocation is entered in the audit log; without a name nothing changes.
pub proof fn law_host_revoked_by_name(
    st: CmisState,
    spiffe_id: Seq<char>,
    reason: Seq<char>,
    now: i64,
    expires_at: i64,
    after: CmisState,
    r: (Vec<AuditEvent>, Result<(), Status>),
)
    requires
        host_revoked(st, spiffe_id, reason, now, expires_at, after, r),
    ensures
        r.1 is Ok <==> spiffe_id.len() > 0,
        r.1 is Ok ==> r.0@.len() == 1 && revocation::revokes(
            after.revocations@.entries,
            TargetModel::Host { spiffe_id },
        ),
        r.1 is Err ==> r.0@.len() == 0 && after.revocations == st.revocations,
        after.svids == st.svids,
{
    if r.1 is Ok {
        assert(attest::audit_models(r.0@).len() == r.0@.len());
        lemma_revoked(
            st.revocations@.entries,
            EntryModel {
                target: TargetModel::Host { spiffe_id },
                reason: requests::bounded_reason(reason),
                revoked_at: now,
                expires_at,
            },
            after.revocations@.entries,
        );
    }
}

} // verus!
