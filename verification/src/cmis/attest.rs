//! The attestation handshake.
//!
//! The service speaks first, with a nonce. A host with a TPM answers with a
//! quote, proves by a challenge that its attestation key lives in the TPM of
//! its endorsement key, and then has its composite key certified. A host
//! without one answers with evidence of its machine key, and goes on to the
//! certificate request. Every step says what is to be entered in the audit log
//! and what is to be done next; a step that refuses ends the handshake.

use vstd::prelude::*;
use crate::attest::host_key;
use crate::attest::host_key::{verify_host_key_csr, verify_host_key_evidence, HostKeyRejection};
use crate::attest::verify;
use crate::attest::verify::{
    credential_secret_matches, verify_aik_signature, PcrSet, QuoteInputs, QuoteVerification,
    RejectModel, RejectReason, VerifiedModel, VerifiedQuote,
};
use crate::attest::{rim, vendor};
use crate::audit::bytes::Hash384;
use crate::audit::event::{AuditEvent, EventModel};
use crate::cmis::credential::{CredentialError, CredentialMaker, WrappedCredential};
use crate::cmis::fleet_manifest;
use crate::cmis::fleet_manifest::EnrollmentDecision;
use crate::cmis::host_keys;
use crate::cmis::host_keys::HostKeyBinding;
use crate::cmis::record::{
    IssueParams, IssuedRecord, IssuedSvid, LastAttestation, ParamsModel, RecordModel, SvidModel,
};
use crate::cmis::state;
use crate::cmis::state::CmisState;
use crate::cmis::status;
use crate::cmis::status::{verifier_status, Code, Status};
use crate::crypto::composite;
use crate::crypto::composite::CompositePublicKey;
use crate::machineid;
use crate::primitives::{hash, signature};

verus! {

/// The policy that documents of hosts without a TPM are issued under: a key
/// that is bound to hardware was shown, and no boot state.
pub const HOST_KEY_POLICY_ID: &'static str = "host-key";

/// What a host with a TPM presents first; one without sets `host_key`.
#[derive(Debug)]
pub struct AttestInit {
    /// Endorsement certificate, DER.
    pub ek_cert: Vec<u8>,
    /// Intermediate certificates, DER.
    pub ek_intermediates: Vec<Vec<u8>>,
    /// Marshaled public area of the attestation key.
    pub aik_pub: Vec<u8>,
    /// Marshaled quote.
    pub quote_blob: Vec<u8>,
    /// Marshaled signature on the quote.
    pub signature: Vec<u8>,
    /// PCR values by index.
    pub pcr_values: Vec<(u32, Vec<u8>)>,
    /// Evidence of a host without a TPM.
    pub host_key: Option<HostKeyEvidence>,
}

/// What a host without a TPM presents.
#[derive(Debug)]
pub struct HostKeyEvidence {
    /// Serial number of the board.
    pub board_serial: String,
    /// Identifier of the platform.
    pub platform_uuid: String,
    /// Serial number of the disk.
    pub disk_serial: String,
    /// The fingerprint that the host claims.
    pub fingerprint: Vec<u8>,
    /// The machine key.
    pub sep_pub: Vec<u8>,
}

/// A request for a document on a composite key.
#[derive(Debug)]
pub struct Csr {
    /// The composite public key.
    pub composite_pub: Vec<u8>,
    /// Signature on it, by the attestation key or the machine key.
    pub aik_sig: Vec<u8>,
    /// Thumbprint of the host's proof-of-possession key.
    pub dpop_jkt: String,
}

/// What comes from the host.
#[derive(Debug)]
pub enum ClientMessage {
    /// Evidence.
    Init(AttestInit),
    /// The answer to the challenge.
    ChallengeResponse(Vec<u8>),
    /// The certificate request.
    Csr(Csr),
    /// A message with nothing in it.
    Empty,
    /// The end of the stream.
    Closed,
}

/// What is to be done next.
#[derive(Debug)]
pub enum Action {
    /// Send the challenge.
    SendChallenge(WrappedCredential),
    /// Wait for the certificate request.
    AwaitCsr,
    /// Publish the host's composite key, if it decodes, and have the issuer
    /// issue a document.
    Issue {
        /// What to issue it with.
        params: IssueParams,
        /// The host's composite key.
        child_key: Option<CompositePublicKey>,
    },
    /// Send the document; the handshake is over.
    Deliver(IssuedSvid),
    /// Refuse; the handshake is over.
    Refuse(Status),
}

/// A step's result.
#[derive(Debug)]
pub struct Reply {
    /// What is to be entered in the audit log, in order.
    pub audits: Vec<AuditEvent>,
    /// What is to be done next.
    pub action: Action,
}

/// The contents of audit events.
pub open spec fn audit_models(events: Seq<AuditEvent>) -> Seq<EventModel> {
    events.map_values(|e: AuditEvent| e@)
}

/// The entry of a failed attestation.
pub open spec fn fail_event(code: Seq<char>) -> EventModel {
    EventModel::AttestFail { reason: code }
}

/// The PCR that a reported index stands for; indices out of range stand for
/// the last.
pub open spec fn pcr_index(i: u32) -> u8 {
    if i <= 255 {
        i as u8
    } else {
        255
    }
}

/// The reported PCR values by index; of several for one index the last.
pub open spec fn pcr_map(values: Seq<(u32, Vec<u8>)>, n: int) -> Map<u8, Seq<u8>>
    decreases n,
{
    if n <= 0 {
        Map::empty()
    } else {
        pcr_map(values, n - 1).insert(pcr_index(values[n - 1].0), values[n - 1].1@)
    }
}

/// The inputs of the quote verification.
pub open spec fn quote_inputs(init: AttestInit, nonce: Seq<u8>, now: i64) -> QuoteInputs {
    QuoteInputs {
        ek_cert: init.ek_cert@,
        intermediates: vendor::cert_views(init.ek_intermediates@),
        aik_pub: init.aik_pub@,
        quote_blob: init.quote_blob@,
        signature: init.signature@,
        nonce,
        pcrs: pcr_map(init.pcr_values@, init.pcr_values@.len() as int),
        now,
    }
}

/// What admission enters in the audit log, for hosts that go on.
pub open spec fn admission_events(d: EnrollmentDecision, id: Seq<u8>) -> Seq<EventModel> {
    if d is Enrolled {
        seq![EventModel::HostEnrolled { ek_sha: id }]
    } else {
        Seq::empty()
    }
}

/// The entry of a host that is turned away.
pub open spec fn rejected_event(id: Seq<u8>, reason: Seq<char>) -> EventModel {
    EventModel::HostRejected { ek_sha: id, reason }
}

/// The code of a rejected quote.
pub open spec fn quote_code(reason: RejectModel) -> Seq<char> {
    if reason is NotInRim {
        "quote-not-in-rim"@
    } else {
        "quote-verify-failed"@
    }
}

/// What is decided on a host with a TPM: the entries for the audit log, and the
/// verified quote or the refusal. The host must be enrolled before its quote is
/// looked at.
pub open spec fn tpm_verdict(st: CmisState, init: AttestInit, nonce: Seq<u8>, now: i64) -> (
    Seq<EventModel>,
    Result<VerifiedModel, Status>,
) {
    let id = hash::sha384_of(init.ek_cert@);
    let d = fleet_manifest::decision(st.fleet@, id);
    if d is Rejected {
        (seq![rejected_event(id@, "not-enrolled"@)], Err(status::denied()))
    } else {
        match verify::quote_verdict(
            st.verifier.roots(),
            st.verifier.approved(),
            quote_inputs(init, nonce, now),
        ) {
            Err(reason) => (
                admission_events(d, id@).push(fail_event(quote_code(reason))),
                Err(status::verdict_status(reason)),
            ),
            Ok(v) => (
                admission_events(d, id@).push(
                    EventModel::AttestStart {
                        ek_sha: id@,
                        aik_sha: hash::sha384_of(init.aik_pub@)@,
                        policy_id: v.policy_id,
                    },
                ),
                Ok(v),
            ),
        }
    }
}

fn fail(code: &'static str) -> (r: AuditEvent)
    ensures
        r@ == fail_event(code@),
{
    AuditEvent::AttestFail { reason: code.to_owned() }
}

fn sha384_of_bytes(b: &[u8]) -> (r: Hash384)
    ensures
        r.0 == hash::sha384_of(b@),
        r@ == hash::sha384_of(b@)@,
{
    Hash384(hash::sha384(b))
}

fn collect_pcrs(values: &Vec<(u32, Vec<u8>)>) -> (r: PcrSet)
    ensures
        r@ == pcr_map(values@, values@.len() as int),
{
    let mut pcrs = PcrSet::new();
    let mut i: usize = 0;
    while i < values.len()
        invariant
            i <= values@.len(),
            pcrs@ == pcr_map(values@, i as int),
        decreases values@.len() - i,
    {
        let index: u8 = if values[i].0 <= 255 {
            values[i].0 as u8
        } else {
            255
        };
        pcrs.insert(index, vstd::slice::slice_to_vec(values[i].1.as_slice()));
        i += 1;
    }
    pcrs
}

/// Decide on a host with a TPM.
pub fn verify_tpm_host(st: &CmisState, init: &AttestInit, nonce: &[u8], now: i64) -> (r: (
    Vec<AuditEvent>,
    Result<VerifiedQuote, Status>,
))
    ensures
        audit_models(r.0@) == tpm_verdict(*st, *init, nonce@, now).0,
        match r.1 {
            Ok(q) => tpm_verdict(*st, *init, nonce@, now).1 == Ok::<_, Status>(q@),
            Err(s) => tpm_verdict(*st, *init, nonce@, now).1 == Err::<VerifiedModel, _>(s),
        },
{
    let mut audits: Vec<AuditEvent> = Vec::new();
    let ek_sha = sha384_of_bytes(init.ek_cert.as_slice());
    let ghost id = hash::sha384_of(init.ek_cert@);
    match st.check_enrollment(&ek_sha.0) {
        EnrollmentDecision::Rejected => {
            audits.push(AuditEvent::HostRejected { ek_sha, reason: "not-enrolled".to_owned() });
            assert(audit_models(audits@) =~= seq![rejected_event(id@, "not-enrolled"@)]);
            return (audits, Err(Status::denied()));
        },
        EnrollmentDecision::Enrolled => {
            audits.push(AuditEvent::HostEnrolled { ek_sha });
        },
        EnrollmentDecision::NotEnforced => {},
    }
    let ghost d = fleet_manifest::decision(st.fleet@, id);
    assert(audit_models(audits@) =~= admission_events(d, id@));
    let ghost before = audits@;
    let pcrs = collect_pcrs(&init.pcr_values);
    let v = QuoteVerification {
        ek_cert_der: init.ek_cert.as_slice(),
        ek_intermediates: init.ek_intermediates.as_slice(),
        aik_pub: init.aik_pub.as_slice(),
        quote_blob: init.quote_blob.as_slice(),
        signature: init.signature.as_slice(),
        nonce,
        pcrs: &pcrs,
        now,
    };
    assert(v@ == quote_inputs(*init, nonce@, now));
    match st.verifier.verify_quote(&v) {
        Ok(q) => {
            audits.push(
                AuditEvent::AttestStart {
                    ek_sha,
                    aik_sha: sha384_of_bytes(init.aik_pub.as_slice()),
                    policy_id: q.policy_id.as_str().to_owned(),
                },
            );
            assert(audit_models(audits@) =~= audit_models(before).push(audits@.last()@));
            (audits, Ok(q))
        },
        Err(reason) => {
            let code = match reason {
                RejectReason::NotInRim => "quote-not-in-rim",
                _ => "quote-verify-failed",
            };
            audits.push(fail(code));
            assert(audit_models(audits@) =~= audit_models(before).push(audits@.last()@));
            (audits, Err(verifier_status(&reason)))
        },
    }
}

/// Why a binding of a machine key turns a host away.
pub open spec fn binding_code(b: HostKeyBinding) -> Option<Seq<char>> {
    match b {
        HostKeyBinding::Mismatch => Some("key-rebind"@),
        HostKeyBinding::RejectedNotPreRegistered => Some("not-preregistered"@),
        _ => None,
    }
}

/// What verification says of a host key's evidence; `sep_ok` is the verdict of
/// the machine key's verifier on the nonce and the claimed fingerprint.
pub open spec fn evidence_verdict(e: HostKeyEvidence, sep_ok: bool) -> Result<
    [u8; 48],
    HostKeyRejection,
> {
    let fp = machineid::fingerprint_of(
        machineid::FactsModel {
            board_serial: e.board_serial@,
            platform_uuid: e.platform_uuid@,
            disk_serial: e.disk_serial@,
        },
    );
    if e.fingerprint@.len() != 48 {
        Err(HostKeyRejection::BadFingerprintLen)
    } else if e.fingerprint@ != fp@ {
        Err(HostKeyRejection::FingerprintMismatch)
    } else if !sep_ok {
        Err(HostKeyRejection::NonceSignatureInvalid)
    } else {
        Ok(fp)
    }
}

/// What is decided on a host without a TPM: the entries for the audit log, and
/// the fingerprint or the refusal. The evidence must verify, the fingerprint be
/// enrolled, and the machine key be the one that belongs to it.
pub open spec fn host_key_verdict(st: CmisState, e: HostKeyEvidence, sep_ok: bool) -> (
    Seq<EventModel>,
    Result<[u8; 48], Status>,
) {
    match evidence_verdict(e, sep_ok) {
        Err(_) => (seq![fail_event("host-key-verify-failed"@)], Err(status::denied())),
        Ok(fp) => {
            let d = fleet_manifest::decision(st.fleet@, fp);
            if d is Rejected {
                (seq![rejected_event(fp@, "not-enrolled"@)], Err(status::denied()))
            } else {
                match binding_code(
                    host_keys::binding(
                        st.fleet@,
                        st.host_keys@,
                        fp,
                        e.sep_pub@,
                        st.config.require_preregistered_host_key,
                    ),
                ) {
                    Some(code) => (
                        admission_events(d, fp@).push(rejected_event(fp@, code)),
                        Err(status::denied()),
                    ),
                    None => (
                        admission_events(d, fp@).push(
                            EventModel::AttestStart {
                                ek_sha: fp@,
                                aik_sha: hash::sha384_of(e.sep_pub@)@,
                                policy_id: HOST_KEY_POLICY_ID@,
                            },
                        ),
                        Ok(fp),
                    ),
                }
            }
        },
    }
}

/// The pinned host keys after a host presented its evidence: its key is looked
/// at only if the evidence verifies and the host is admitted.
pub open spec fn pins_after_evidence(st: CmisState, e: HostKeyEvidence, sep_ok: bool) -> Map<
    [u8; 48],
    Seq<u8>,
> {
    match evidence_verdict(e, sep_ok) {
        Ok(fp) if !(fleet_manifest::decision(st.fleet@, fp) is Rejected) => host_keys::pins_after(
            st.fleet@,
            st.host_keys@,
            fp,
            e.sep_pub@,
            st.config.require_preregistered_host_key,
        ),
        _ => st.host_keys@,
    }
}

/// Decide on a host without a TPM.
pub fn verify_host_key_host(st: &mut CmisState, e: &HostKeyEvidence, sep_ok: bool) -> (r: (
    Vec<AuditEvent>,
    Result<[u8; 48], Status>,
))
    ensures
        audit_models(r.0@) == host_key_verdict(*old(st), *e, sep_ok).0,
        r.1 == host_key_verdict(*old(st), *e, sep_ok).1,
        final(st).host_keys@ == pins_after_evidence(*old(st), *e, sep_ok),
        state::same_but_host_keys(*old(st), *final(st)),
{
    let mut audits: Vec<AuditEvent> = Vec::new();
    let verified = match verify_host_key_evidence(
        e.board_serial.as_str(),
        e.platform_uuid.as_str(),
        e.disk_serial.as_str(),
        e.fingerprint.as_slice(),
        sep_ok,
    ) {
        Ok(v) => v,
        Err(_) => {
            audits.push(fail("host-key-verify-failed"));
            assert(audit_models(audits@) =~= seq![fail_event("host-key-verify-failed"@)]);
            return (audits, Err(Status::denied()));
        },
    };
    let fp: [u8; 48] = verified.fingerprint;
    let fp_sha = Hash384(fp);
    match st.check_enrollment(&fp) {
        EnrollmentDecision::Rejected => {
            audits.push(
                AuditEvent::HostRejected { ek_sha: fp_sha, reason: "not-enrolled".to_owned() },
            );
            assert(audit_models(audits@) =~= seq![rejected_event(fp@, "not-enrolled"@)]);
            return (audits, Err(Status::denied()));
        },
        EnrollmentDecision::Enrolled => {
            audits.push(AuditEvent::HostEnrolled { ek_sha: fp_sha });
        },
        EnrollmentDecision::NotEnforced => {},
    }
    let ghost d = fleet_manifest::decision(st.fleet@, fp);
    assert(audit_models(audits@) =~= admission_events(d, fp@));
    let ghost before = audits@;
    let strict = st.config.require_preregistered_host_key;
    let code = match st.bind_host_key(&fp, e.sep_pub.as_slice(), strict) {
        HostKeyBinding::Mismatch => Some("key-rebind"),
        HostKeyBinding::RejectedNotPreRegistered => Some("not-preregistered"),
        _ => None,
    };
    if let Some(reason) = code {
        audits.push(AuditEvent::HostRejected { ek_sha: fp_sha, reason: reason.to_owned() });
        assert(audit_models(audits@) =~= audit_models(before).push(audits@.last()@));
        return (audits, Err(Status::denied()));
    }
    audits.push(
        AuditEvent::AttestStart {
            ek_sha: fp_sha,
            aik_sha: sha384_of_bytes(e.sep_pub.as_slice()),
            policy_id: HOST_KEY_POLICY_ID.to_owned(),
        },
    );
    assert(audit_models(audits@) =~= audit_models(before).push(audits@.last()@));
    (audits, Ok(fp))
}

/// A host whose evidence was accepted.
#[derive(Debug)]
pub enum Applicant {
    /// A host with a TPM.
    Tpm {
        /// What it presented.
        init: AttestInit,
        /// Its verified quote.
        quote: VerifiedQuote,
    },
    /// A host without one.
    HostKey {
        /// What it presented.
        evidence: HostKeyEvidence,
        /// Its fingerprint.
        fingerprint: [u8; 48],
    },
}

/// Where a handshake stands.
#[derive(Debug)]
pub enum Phase {
    /// The nonce was sent.
    AwaitInit,
    /// The challenge was sent.
    AwaitChallenge {
        /// The host.
        applicant: Applicant,
    },
    /// The certificate request is expected.
    AwaitCsr {
        /// The host.
        applicant: Applicant,
    },
    /// The issuer is at work.
    AwaitIssue {
        /// What the document is issued with.
        params: IssueParams,
        /// The host's composite key, if it decodes.
        child_pub: Option<Vec<u8>>,
    },
    /// It is over.
    Over,
}

/// One handshake. Past its first phase it holds evidence that was accepted.
#[derive(Debug)]
pub struct Handshake {
    nonce: [u8; 32],
    secret: [u8; 32],
    now: i64,
    phase: Phase,
}

/// Whether the evidence of a host was accepted, for a nonce and at a time, by
/// the service in some state.
pub open spec fn accepted(a: Applicant, nonce: Seq<u8>, now: i64) -> bool {
    exists|st: CmisState| #[trigger] accepted_by(st, a, nonce, now)
}

/// Whether the evidence of a host is accepted, for a nonce and at a time, by
/// the service in a state. That the machine key signed is part of it.
pub open spec fn accepted_by(st: CmisState, a: Applicant, nonce: Seq<u8>, now: i64) -> bool {
    match a {
        Applicant::Tpm { init, quote } => tpm_verdict(st, init, nonce, now).1 == Ok::<_, Status>(
            quote@,
        ),
        Applicant::HostKey { evidence, fingerprint } => host_key_verdict(st, evidence, true).1
            == Ok::<_, Status>(fingerprint),
    }
}

/// What a document is issued with, for an accepted host.
pub open spec fn issue_params(a: Applicant, ttl_secs: u64, dpop_jkt: Seq<char>) -> ParamsModel {
    match a {
        Applicant::Tpm { init, quote } => ParamsModel {
            ek_cert_sha384: hash::sha384_of(init.ek_cert@),
            pcr_digest: quote.pcr_digest,
            policy_id: quote.policy_id@,
            dpop_jkt,
            ttl_secs,
            tee_evidence_id: None,
        },
        Applicant::HostKey { fingerprint, .. } => ParamsModel {
            ek_cert_sha384: fingerprint,
            pcr_digest: fingerprint,
            policy_id: HOST_KEY_POLICY_ID@,
            dpop_jkt,
            ttl_secs,
            tee_evidence_id: None,
        },
    }
}

/// Whether the key that an accepted host is bound to signed its composite key;
/// `sep_ok` is the verdict of the machine key's verifier.
pub open spec fn csr_signed(a: Applicant, csr: Csr, sep_ok: bool) -> bool {
    match a {
        Applicant::Tpm { init, .. } => verify::aik_signature_verdict(
            init.aik_pub@,
            csr.composite_pub@,
            csr.aik_sig@,
        ) is Ok,
        Applicant::HostKey { .. } => sep_ok,
    }
}

/// The code of a certificate request that is not signed.
pub open spec fn csr_code(a: Applicant) -> Seq<char> {
    match a {
        Applicant::Tpm { .. } => "aik-sig-invalid"@,
        Applicant::HostKey { .. } => "host-key-csr-sig-invalid"@,
    }
}

/// A composite key that decodes, as bytes.
pub open spec fn decoded_key(b: Seq<u8>) -> Option<Seq<u8>> {
    if composite::key_from(b) is Ok {
        Some(b)
    } else {
        None
    }
}

/// What is said of a message that does not belong, by what was expected.
pub open spec fn out_of_turn(msg: ClientMessage, expected: &'static str, code: Seq<char>) -> (
    Seq<EventModel>,
    Status,
) {
    match msg {
        ClientMessage::Empty => (
            Seq::empty(),
            Status { code: Code::InvalidArgument, message: "empty attest request" },
        ),
        ClientMessage::Closed => (
            Seq::empty(),
            Status { code: Code::Aborted, message: "client closed stream early" },
        ),
        _ => (
            seq![fail_event(code)],
            Status { code: Code::InvalidArgument, message: expected },
        ),
    }
}

fn refuse(audits: Vec<AuditEvent>, s: Status) -> (r: Reply)
    ensures
        r.audits == audits,
        r.action == Action::Refuse(s),
{
    Reply { audits, action: Action::Refuse(s) }
}

fn misplaced(msg: &ClientMessage, expected: &'static str, code: &'static str) -> (r: Reply)
    ensures
        audit_models(r.audits@) == out_of_turn(*msg, expected, code@).0,
        r.action == Action::Refuse(out_of_turn(*msg, expected, code@).1),
{
    let mut audits: Vec<AuditEvent> = Vec::new();
    assert(audit_models(audits@) =~= Seq::<EventModel>::empty());
    match msg {
        ClientMessage::Empty => refuse(
            audits,
            Status::new(Code::InvalidArgument, "empty attest request"),
        ),
        ClientMessage::Closed => refuse(
            audits,
            Status::new(Code::Aborted, "client closed stream early"),
        ),
        _ => {
            audits.push(fail(code));
            assert(audit_models(audits@) =~= seq![fail_event(code@)]);
            refuse(audits, Status::new(Code::InvalidArgument, expected))
        },
    }
}

/// What the host's first message brings about: handshake and state after it,
/// and the reply.
pub open spec fn introduced<M: CredentialMaker>(
    before: Handshake,
    st: CmisState,
    maker: &M,
    msg: ClientMessage,
    sep_ok: bool,
    after: Handshake,
    st_after: CmisState,
    r: Reply,
) -> bool {
    &&& after.same_session(before)
    &&& state::same_but_host_keys(st, st_after)
    &&& match msg {
        ClientMessage::Init(init) => match init.host_key {
            None => {
                let (audits, verdict) = tpm_verdict(
                    st,
                    init,
                    before.challenge_nonce()@,
                    before.began(),
                );
                &&& st_after.host_keys@ == st.host_keys@
                &&& match verdict {
                    Err(s) => audit_models(r.audits@) == audits && r.action
                        == Action::Refuse(s) && after.at() == Phase::Over,
                    Ok(v) => exists|
                        wrapped: Result<WrappedCredential, CredentialError>,
                        ek: &[u8],
                        aik: &[u8],
                        secret: &[u8],
                    | #[trigger]
                        call_ensures(
                            M::make_credential,
                            (maker, ek, aik, secret),
                            wrapped,
                        ) && ek@ == init.ek_cert@ && aik@ == init.aik_pub@ && secret@
                            == before.challenge_secret()@ && match wrapped {
                            Ok(w) => audit_models(r.audits@) == audits && r.action
                                == Action::SendChallenge(w) && (
                            after.at() matches Phase::AwaitChallenge { applicant }
                                && (applicant matches Applicant::Tpm { init: i, quote }
                                && i == init && quote@ == v)),
                            Err(_) => audit_models(r.audits@) == audits.push(
                                fail_event("credential-wrap-failed"@),
                            ) && r.action == Action::Refuse(status::issuer_unavailable())
                                && after.at() == Phase::Over,
                        },
                }
            },
            Some(e) => {
                let (audits, verdict) = host_key_verdict(st, e, sep_ok);
                &&& st_after.host_keys@ == pins_after_evidence(st, e, sep_ok)
                &&& audit_models(r.audits@) == audits
                &&& match verdict {
                    Err(s) => r.action == Action::Refuse(s) && after.at()
                        == Phase::Over,
                    Ok(fp) => r.action == Action::AwaitCsr && after.at()
                        == (Phase::AwaitCsr {
                        applicant: Applicant::HostKey { evidence: e, fingerprint: fp },
                    }),
                }
            },
        },
        _ => {
            let (audits, s) = out_of_turn(msg, "expected attest init", "init-expected"@);
            &&& audit_models(r.audits@) == audits
            &&& r.action == Action::Refuse(s)
            &&& after.at() == Phase::Over
            &&& st_after.host_keys@ == st.host_keys@
        },
    }
}

/// What the host's answer to the challenge brings about.
pub open spec fn challenged(
    before: Handshake,
    msg: ClientMessage,
    after: Handshake,
    r: Reply,
) -> bool {
    &&& after.same_session(before)
    &&& match msg {
        ClientMessage::ChallengeResponse(secret) => if secret@ == before.challenge_secret()@ {
            &&& r.audits@.len() == 0
            &&& r.action == Action::AwaitCsr
            &&& after.at() == (Phase::AwaitCsr {
                applicant: before.at()->AwaitChallenge_applicant,
            })
        } else {
            &&& audit_models(r.audits@) == seq![fail_event("credential-mismatch"@)]
            &&& r.action == Action::Refuse(status::denied())
            &&& after.at() == Phase::Over
        },
        _ => {
            let (audits, s) = out_of_turn(
                msg,
                "expected challenge response",
                "challenge-resp-expected"@,
            );
            &&& audit_models(r.audits@) == audits
            &&& r.action == Action::Refuse(s)
            &&& after.at() == Phase::Over
        },
    }
}

/// What the host's certificate request brings about.
pub open spec fn requested(
    before: Handshake,
    st: CmisState,
    msg: ClientMessage,
    sep_ok: bool,
    after: Handshake,
    r: Reply,
) -> bool {
    &&& after.same_session(before)
    &&& match msg {
        ClientMessage::Csr(csr) => {
            let applicant = before.at()->AwaitCsr_applicant;
            if csr_signed(applicant, csr, sep_ok) {
                &&& accepted(applicant, before.challenge_nonce()@, before.began())
                &&& r.audits@.len() == 0
                &&& r.action matches Action::Issue { params, child_key } && params@
                    == issue_params(applicant, st.config.svid_ttl_secs, csr.dpop_jkt@)
                    && match child_key {
                    Some(k) => composite::key_from(csr.composite_pub@) == Ok::<
                        _,
                        Seq<char>,
                    >(k@),
                    None => composite::key_from(csr.composite_pub@) is Err,
                }
                &&& after.at() matches Phase::AwaitIssue { params, child_pub }
                    && params@ == issue_params(
                    applicant,
                    st.config.svid_ttl_secs,
                    csr.dpop_jkt@,
                ) && crate::cmis::record::bytes_option_view(child_pub) == decoded_key(
                    csr.composite_pub@,
                )
            } else {
                &&& audit_models(r.audits@) == seq![fail_event(csr_code(applicant))]
                &&& r.action == Action::Refuse(status::denied())
                &&& after.at() == Phase::Over
            }
        },
        _ => {
            let (audits, s) = out_of_turn(msg, "expected CSR", "csr-expected"@);
            &&& audit_models(r.audits@) == audits
            &&& r.action == Action::Refuse(s)
            &&& after.at() == Phase::Over
        },
    }
}

/// What the issuer's answer brings about.
pub open spec fn answered<E>(
    before: Handshake,
    st: CmisState,
    issued: Result<IssuedSvid, E>,
    after: Handshake,
    st_after: CmisState,
    r: Reply,
) -> bool {
    &&& after.same_session(before)
    &&& after.at() == Phase::Over
    &&& state::same_but_svids(st, st_after)
    &&& match issued {
        Ok(svid) => {
            &&& audit_models(r.audits@) == seq![
                EventModel::SvidIssued {
                    cert_sha: hash::sha384_of(vstd::utf8::encode_utf8(svid.jws@))@,
                    spiffe_id: svid.spiffe_id@,
                },
            ]
            &&& r.action == Action::Deliver(svid)
            &&& st_after.svids@.dom() == st.svids@.dom().insert(svid.spiffe_id@)
            &&& st_after.svids@[svid.spiffe_id@]@ == issued_record(
                before.at(),
                before.began(),
                st.policy_epoch,
                svid@,
            )
            &&& forall|k: Seq<char>|
                k != svid.spiffe_id@ && st.svids@.dom().contains(k)
                    ==> #[trigger] st_after.svids@[k] == st.svids@[k]
        },
        Err(_) => {
            &&& audit_models(r.audits@) == seq![fail_event("issuance-failed"@)]
            &&& r.action == Action::Refuse(status::issuer_unavailable())
            &&& st_after.svids@ == st.svids@
        },
    }
}

impl Handshake {
    #[verifier::type_invariant]
    spec fn inv(&self) -> bool {
        match self.phase {
            Phase::AwaitChallenge { applicant } => accepted(applicant, self.nonce@, self.now),
            Phase::AwaitCsr { applicant } => accepted(applicant, self.nonce@, self.now),
            _ => true,
        }
    }

    /// Where it stands.
    pub closed spec fn at(&self) -> Phase {
        self.phase
    }

    /// The nonce that the host must answer.
    pub closed spec fn challenge_nonce(&self) -> [u8; 32] {
        self.nonce
    }

    /// The secret that the host must recover.
    pub closed spec fn challenge_secret(&self) -> [u8; 32] {
        self.secret
    }

    /// When it began.
    pub closed spec fn began(&self) -> i64 {
        self.now
    }

    /// Whether nonce, secret and time are those of another.
    pub open spec fn same_session(self, other: Self) -> bool {
        &&& self.challenge_nonce() == other.challenge_nonce()
        &&& self.challenge_secret() == other.challenge_secret()
        &&& self.began() == other.began()
    }

    /// A handshake at its beginning: the nonce is to be sent.
    pub fn begin(nonce: [u8; 32], secret: [u8; 32], now: i64) -> (r: Self)
        ensures
            r.at() == Phase::AwaitInit,
            r.challenge_nonce() == nonce,
            r.challenge_secret() == secret,
            r.began() == now,
    {
        Handshake { nonce, secret, now, phase: Phase::AwaitInit }
    }

    /// Whether a result is that of a handshake's beginning, for a nonce and a
    /// secret that were drawn.
    pub open spec fn opens(
        nonce: Result<[u8; 32], String>,
        secret: Result<[u8; 32], String>,
        now: i64,
        r: Result<Self, String>,
    ) -> bool {
        match (nonce, secret) {
            (Ok(n), Ok(s)) => r matches Ok(h) && h.at() == Phase::AwaitInit && h.challenge_nonce()
                == n && h.challenge_secret() == s && h.began() == now,
            (Err(e), _) => r == Err::<Self, String>(e),
            (Ok(_), Err(e)) => r == Err::<Self, String>(e),
        }
    }

    /// A handshake at its beginning, with a nonce and a secret from the
    /// operating system's random number generator, or why there are none.
    pub fn start(now: i64) -> (r: Result<Self, String>)
        ensures
            exists|nonce: Result<[u8; 32], String>, secret: Result<[u8; 32], String>|
                #[trigger] signature::drawn(nonce) && #[trigger] signature::drawn(secret)
                    && Handshake::opens(nonce, secret, now, r),
    {
        Handshake::from_drawn(signature::random_32(), signature::random_32(), now)
    }

    /// A handshake at its beginning, with the nonce and the secret that were
    /// drawn. If one could not be drawn there is none; the nonce's failure is
    /// told first.
    pub fn from_drawn(
        nonce: Result<[u8; 32], String>,
        secret: Result<[u8; 32], String>,
        now: i64,
    ) -> (r: Result<Self, String>)
        ensures
            Handshake::opens(nonce, secret, now, r),
    {
        match (nonce, secret) {
            (Ok(n), Ok(s)) => Ok(Handshake::begin(n, s, now)),
            (Err(e), _) => Err(e),
            (Ok(_), Err(e)) => Err(e),
        }
    }

    /// The nonce that is to be sent.
    pub fn nonce(&self) -> (r: &[u8; 32])
        ensures
            *r == self.challenge_nonce(),
    {
        &self.nonce
    }

    /// The host's first message: its evidence. `sep_ok` is the verdict of the
    /// machine key's verifier on the nonce and the claimed fingerprint, and
    /// matters only for a host without a TPM.
    pub fn on_init<M: CredentialMaker>(
        &mut self,
        st: &mut CmisState,
        maker: &M,
        msg: ClientMessage,
        sep_ok: bool,
    ) -> (r: Reply)
        requires
            old(self).at() == Phase::AwaitInit,
        ensures
            introduced(*old(self), *old(st), maker, msg, sep_ok, *final(self), *final(st), r),
    {
        self.phase = Phase::Over;
        match msg {
            ClientMessage::Init(init) => {
                let mut init = init;
                if init.host_key.is_some() {
                    let mut taken: Option<HostKeyEvidence> = None;
                    std::mem::swap(&mut taken, &mut init.host_key);
                    match taken {
                        Some(evidence) => {
                            let (audits, verdict) = verify_host_key_host(st, &evidence, sep_ok);
                            match verdict {
                                Err(s) => refuse(audits, s),
                                Ok(fingerprint) => {
                                    let applicant = Applicant::HostKey { evidence, fingerprint };
                                    assert(accepted_by(
                                        *old(st),
                                        applicant,
                                        self.nonce@,
                                        self.now,
                                    ));
                                    self.phase = Phase::AwaitCsr { applicant };
                                    Reply { audits, action: Action::AwaitCsr }
                                },
                            }
                        },
                        None => refuse(Vec::new(), Status::denied()),
                    }
                } else {
                    let (audits, verdict) = verify_tpm_host(
                        st,
                        &init,
                        self.nonce.as_slice(),
                        self.now,
                    );
                    let quote = match verdict {
                        Ok(q) => q,
                        Err(s) => return refuse(audits, s),
                    };
                    let ek = init.ek_cert.as_slice();
                    let aik = init.aik_pub.as_slice();
                    let secret = self.secret.as_slice();
                    let wrapped = maker.make_credential(ek, aik, secret);
                    assert(call_ensures(M::make_credential, (maker, ek, aik, secret), wrapped));
                    match wrapped {
                        Ok(w) => {
                            let applicant = Applicant::Tpm { init, quote };
                            assert(accepted_by(*old(st), applicant, self.nonce@, self.now));
                            self.phase = Phase::AwaitChallenge { applicant };
                            Reply { audits, action: Action::SendChallenge(w) }
                        },
                        Err(_) => {
                            let mut audits = audits;
                            let ghost before = audits@;
                            audits.push(fail("credential-wrap-failed"));
                            assert(audit_models(audits@) =~= audit_models(before).push(
                                fail_event("credential-wrap-failed"@),
                            ));
                            refuse(audits, Status::issuer_unavailable())
                        },
                    }
                }
            },
            _ => misplaced(&msg, "expected attest init", "init-expected"),
        }
    }

    /// The host's answer to the challenge: the secret.
    pub fn on_challenge_response(&mut self, msg: ClientMessage) -> (r: Reply)
        requires
            old(self).at() is AwaitChallenge,
        ensures
            challenged(*old(self), msg, *final(self), r),
    {
        proof {
            use_type_invariant(&*self);
        }
        let mut phase = Phase::Over;
        std::mem::swap(&mut phase, &mut self.phase);
        match msg {
            ClientMessage::ChallengeResponse(secret) => {
                if credential_secret_matches(self.secret.as_slice(), secret.as_slice()) {
                    if let Phase::AwaitChallenge { applicant } = phase {
                        self.phase = Phase::AwaitCsr { applicant };
                    }
                    Reply { audits: Vec::new(), action: Action::AwaitCsr }
                } else {
                    let mut audits: Vec<AuditEvent> = Vec::new();
                    audits.push(fail("credential-mismatch"));
                    assert(audit_models(audits@) =~= seq![fail_event("credential-mismatch"@)]);
                    refuse(audits, Status::denied())
                }
            },
            _ => misplaced(&msg, "expected challenge response", "challenge-resp-expected"),
        }
    }

    /// The host's certificate request. `sep_ok` is the verdict of the machine
    /// key's verifier on the composite key, and matters only for a host without
    /// a TPM. A document is asked for only where the host's evidence was
    /// accepted, for this handshake's nonce.
    pub fn on_csr(&mut self, st: &CmisState, msg: ClientMessage, sep_ok: bool) -> (r: Reply)
        requires
            old(self).at() is AwaitCsr,
        ensures
            requested(*old(self), *st, msg, sep_ok, *final(self), r),
    {
        proof {
            use_type_invariant(&*self);
        }
        let mut phase = Phase::Over;
        std::mem::swap(&mut phase, &mut self.phase);
        let csr = match msg {
            ClientMessage::Csr(csr) => csr,
            _ => return misplaced(&msg, "expected CSR", "csr-expected"),
        };
        let applicant = match phase {
            Phase::AwaitCsr { applicant } => applicant,
            _ => return refuse(Vec::new(), Status::denied()),
        };
        let (signed, code) = match &applicant {
            Applicant::Tpm { init, .. } => (
                verify_aik_signature(
                    init.aik_pub.as_slice(),
                    csr.composite_pub.as_slice(),
                    csr.aik_sig.as_slice(),
                ).is_ok(),
                "aik-sig-invalid",
            ),
            Applicant::HostKey { .. } => (
                verify_host_key_csr(sep_ok).is_ok(),
                "host-key-csr-sig-invalid",
            ),
        };
        if !signed {
            let mut audits: Vec<AuditEvent> = Vec::new();
            audits.push(fail(code));
            assert(audit_models(audits@) =~= seq![fail_event(csr_code(applicant))]);
            return refuse(audits, Status::denied());
        }
        let params = match &applicant {
            Applicant::Tpm { init, quote } => IssueParams {
                ek_cert_sha384: hash::sha384(init.ek_cert.as_slice()),
                pcr_digest: quote.pcr_digest,
                policy_id: quote.policy_id.as_str().to_owned(),
                dpop_jkt: csr.dpop_jkt.clone(),
                ttl_secs: st.config.svid_ttl_secs,
                tee_evidence_id: None,
            },
            Applicant::HostKey { fingerprint, .. } => IssueParams {
                ek_cert_sha384: *fingerprint,
                pcr_digest: *fingerprint,
                policy_id: HOST_KEY_POLICY_ID.to_owned(),
                dpop_jkt: csr.dpop_jkt.clone(),
                ttl_secs: st.config.svid_ttl_secs,
                tee_evidence_id: None,
            },
        };
        assert(params@ =~= issue_params(applicant, st.config.svid_ttl_secs, csr.dpop_jkt@));
        let child_key = match CompositePublicKey::from_concat_bytes(csr.composite_pub.as_slice()) {
            Ok(k) => Some(k),
            Err(_) => None,
        };
        let child_pub = if child_key.is_some() {
            Some(csr.composite_pub)
        } else {
            None
        };
        self.phase = Phase::AwaitIssue { params: params.duplicate(), child_pub };
        Reply { audits: Vec::new(), action: Action::Issue { params, child_key } }
    }

    /// The issuer's document, or that it could not issue one. The document is
    /// kept, with the state in which the host attested.
    pub fn on_issued<E>(&mut self, st: &mut CmisState, issued: Result<IssuedSvid, E>) -> (r: Reply)
        requires
            old(self).at() is AwaitIssue,
        ensures
            answered(*old(self), *old(st), issued, *final(self), *final(st), r),
    {
        let mut phase = Phase::Over;
        std::mem::swap(&mut phase, &mut self.phase);
        let mut audits: Vec<AuditEvent> = Vec::new();
        let svid = match issued {
            Ok(s) => s,
            Err(_) => {
                audits.push(fail("issuance-failed"));
                assert(audit_models(audits@) =~= seq![fail_event("issuance-failed"@)]);
                return refuse(audits, Status::issuer_unavailable());
            },
        };
        audits.push(
            AuditEvent::SvidIssued {
                cert_sha: sha384_of_bytes(svid.jws.as_str().as_bytes()),
                spiffe_id: svid.spiffe_id.clone(),
            },
        );
        assert(audit_models(audits@) =~= seq![
            EventModel::SvidIssued {
                cert_sha: hash::sha384_of(vstd::utf8::encode_utf8(svid.jws@))@,
                spiffe_id: svid.spiffe_id@,
            },
        ]);
        if let Phase::AwaitIssue { params, child_pub } = phase {
            let pcr_digest: [u8; 48] = params.pcr_digest;
            st.record(
                IssuedRecord {
                    params,
                    last_attestation: LastAttestation {
                        at: self.now,
                        pcr_digest,
                        policy_epoch: st.current_epoch(),
                    },
                    bundle: svid.duplicate(),
                    hostname: None,
                    child_pub,
                },
            );
            assert(st.svids@.dom() =~= old(st).svids@.dom().insert(svid.spiffe_id@));
        }
        Reply { audits, action: Action::Deliver(svid) }
    }
}

/// A host whose evidence was accepted passed every check: it was not turned
/// away at the door, and its quote carries the nonce, is signed by its
/// attestation key, and is of an approved boot state; without a TPM, its
/// hardware gives the fingerprint that it claims, and its machine key is the
/// one that belongs to it.
pub proof fn law_accepted_host(st: CmisState, a: Applicant, nonce: Seq<u8>, now: i64)
    requires
        accepted_by(st, a, nonce, now),
    ensures
        match a {
            Applicant::Tpm { init, quote } => {
                &&& !(fleet_manifest::decision(st.fleet@, hash::sha384_of(init.ek_cert@))
                    is Rejected)
                &&& verify::quote_verdict(
                    st.verifier.roots(),
                    st.verifier.approved(),
                    quote_inputs(init, nonce, now),
                ) == Ok::<_, RejectModel>(quote@)
                &&& rim::approved_policy(st.verifier.approved(), quote.pcr_digest, Some(now))
                    == Some(quote.policy_id@)
            },
            Applicant::HostKey { evidence, fingerprint } => {
                &&& evidence_verdict(evidence, true) == Ok::<_, HostKeyRejection>(fingerprint)
                &&& evidence.fingerprint@ == fingerprint@
                &&& !(fleet_manifest::decision(st.fleet@, fingerprint) is Rejected)
                &&& binding_code(
                    host_keys::binding(
                        st.fleet@,
                        st.host_keys@,
                        fingerprint,
                        evidence.sep_pub@,
                        st.config.require_preregistered_host_key,
                    ),
                ) is None
            },
        },
{
    if let Applicant::Tpm { init, quote } = a {
        verify::law_accepted_quote(
            st.verifier.roots(),
            st.verifier.approved(),
            quote_inputs(init, nonce, now),
            quote@,
        );
    }
}

/// A host that is turned away learns nothing but that: whatever failed, the
/// answer is one of two, with one text.
pub proof fn law_refused_hosts_learn_nothing(
    st: CmisState,
    init: AttestInit,
    e: HostKeyEvidence,
    sep_ok: bool,
    nonce: Seq<u8>,
    now: i64,
)
    ensures
        tpm_verdict(st, init, nonce, now).1 matches Err(s) ==> s.message == "attestation failed",
        host_key_verdict(st, e, sep_ok).1 matches Err(s) ==> s == status::denied(),
{
}

/// Every attestation that fails on its evidence is entered in the audit log,
/// and so is every one that goes on.
pub proof fn law_every_verdict_is_audited(
    st: CmisState,
    init: AttestInit,
    e: HostKeyEvidence,
    sep_ok: bool,
    nonce: Seq<u8>,
    now: i64,
)
    ensures
        ({
            let (audits, verdict) = tpm_verdict(st, init, nonce, now);
            &&& audits.len() > 0
            &&& verdict is Ok <==> audits.last() is AttestStart
            &&& verdict is Err <==> audits.last() is AttestFail || audits.last() is HostRejected
        }),
        ({
            let (audits, verdict) = host_key_verdict(st, e, sep_ok);
            &&& audits.len() > 0
            &&& verdict is Ok <==> audits.last() is AttestStart
            &&& verdict is Err <==> audits.last() is AttestFail || audits.last() is HostRejected
        }),
{
}

/// What is kept of a document that was issued.
pub open spec fn issued_record(phase: Phase, now: i64, epoch: u64, svid: SvidModel) -> RecordModel {
    RecordModel {
        params: phase->AwaitIssue_params@,
        last_attestation: LastAttestation {
            at: now,
            pcr_digest: phase->AwaitIssue_params.pcr_digest,
            policy_epoch: epoch,
        },
        bundle: svid,
        hostname: None,
        child_pub: crate::cmis::record::bytes_option_view(phase->AwaitIssue_child_pub),
    }
}

/// A host with a TPM that was not turned away at the door and whose quote
/// verifies is accepted, with what its quote shows, and its start is entered in
/// the audit log.
pub proof fn law_good_tpm_host_accepted(
    st: CmisState,
    init: AttestInit,
    nonce: Seq<u8>,
    now: i64,
    q: VerifiedModel,
)
    requires
        !(fleet_manifest::decision(st.fleet@, hash::sha384_of(init.ek_cert@)) is Rejected),
        verify::quote_verdict(
            st.verifier.roots(),
            st.verifier.approved(),
            quote_inputs(init, nonce, now),
        ) == Ok::<_, RejectModel>(q),
    ensures
        tpm_verdict(st, init, nonce, now).1 == Ok::<_, Status>(q),
        tpm_verdict(st, init, nonce, now).0.last() == (EventModel::AttestStart {
            ek_sha: hash::sha384_of(init.ek_cert@)@,
            aik_sha: hash::sha384_of(init.aik_pub@)@,
            policy_id: q.policy_id,
        }),
        fleet_manifest::decision(st.fleet@, hash::sha384_of(init.ek_cert@)) is Enrolled
            ==> tpm_verdict(st, init, nonce, now).0[0] == (EventModel::HostEnrolled {
            ek_sha: hash::sha384_of(init.ek_cert@)@,
        }),
{
}

/// A host without a TPM is accepted if its hardware gives the fingerprint that
/// it claims, its machine key signed, it was not turned away at the door, and
/// its key is the one that is asserted or pinned, or the first where any may
/// come; and a first key is pinned from then on.
pub proof fn law_good_host_key_accepted(
    st: CmisState,
    e: HostKeyEvidence,
    facts: machineid::FactsModel,
)
    requires
        facts == (machineid::FactsModel {
            board_serial: e.board_serial@,
            platform_uuid: e.platform_uuid@,
            disk_serial: e.disk_serial@,
        }),
        e.fingerprint@ == machineid::fingerprint_of(facts)@,
        !(fleet_manifest::decision(st.fleet@, machineid::fingerprint_of(facts)) is Rejected),
        ({
            let fp = machineid::fingerprint_of(facts);
            if st.fleet@.prereg.dom().contains(fp) {
                st.fleet@.prereg[fp] == e.sep_pub@
            } else if st.host_keys@.dom().contains(fp) {
                st.host_keys@[fp] == e.sep_pub@
            } else {
                !st.config.require_preregistered_host_key
            }
        }),
    ensures
        ({
            let fp = machineid::fingerprint_of(facts);
            &&& host_key_verdict(st, e, true).1 == Ok::<_, Status>(fp)
            &&& host_key_verdict(st, e, true).0.last() == (EventModel::AttestStart {
                ek_sha: fp@,
                aik_sha: hash::sha384_of(e.sep_pub@)@,
                policy_id: "host-key"@,
            })
            &&& !st.fleet@.prereg.dom().contains(fp) ==> pins_after_evidence(
                st,
                e,
                true,
            ).dom().contains(fp) && pins_after_evidence(st, e, true)[fp] == e.sep_pub@
        }),
        host_key_verdict(st, e, false).1 is Err,
        pins_after_evidence(st, e, false) == st.host_keys@,
{
}

/// Evidence whose hardware does not give the claimed fingerprint is refused,
/// and leaves no pin.
pub proof fn law_wrong_fingerprint_refused(st: CmisState, e: HostKeyEvidence, sep_ok: bool)
    requires
        e.fingerprint@ != machineid::fingerprint_of(
            machineid::FactsModel {
                board_serial: e.board_serial@,
                platform_uuid: e.platform_uuid@,
                disk_serial: e.disk_serial@,
            },
        )@,
    ensures
        host_key_verdict(st, e, sep_ok).1 is Err,
        pins_after_evidence(st, e, sep_ok) == st.host_keys@,
{
}

proof fn lemma_pcr_map(values: Seq<(u32, Vec<u8>)>, n: int)
    requires
        0 <= n <= values.len(),
    ensures
        forall|p: u8| #[trigger]
            pcr_map(values, n).dom().contains(p) ==> exists|i: int|
                0 <= i < n && pcr_index((#[trigger] values[i]).0) == p && pcr_map(values, n)[p]
                    == values[i].1@ && forall|j: int|
                    i < j < n ==> pcr_index((#[trigger] values[j]).0) != p,
        forall|i: int|
            0 <= i < n ==> pcr_map(values, n).dom().contains(pcr_index((#[trigger] values[i]).0)),
    decreases n,
{
    if n > 0 {
        lemma_pcr_map(values, n - 1);
        let before = pcr_map(values, n - 1);
        let now = pcr_map(values, n);
        let last = pcr_index(values[n - 1].0);
        assert forall|p: u8| #[trigger] now.dom().contains(p) implies exists|i: int|
            0 <= i < n && pcr_index((#[trigger] values[i]).0) == p && now[p] == values[i].1@
                && forall|j: int|
                i < j < n ==> pcr_index((#[trigger] values[j]).0) != p by {
            if p == last {
                assert(pcr_index(values[n - 1].0) == p);
            } else {
                assert(before.dom().contains(p));
                let i = choose|i: int|
                    0 <= i < n - 1 && pcr_index((#[trigger] values[i]).0) == p && before[p]
                        == values[i].1@ && forall|j: int|
                        i < j < n - 1 ==> pcr_index((#[trigger] values[j]).0) != p;
                assert(pcr_index(values[i].0) == p);
            }
        }
    }
}

/// Every reported PCR counts, with the value of its last report, and no other
/// does.
pub proof fn law_reported_pcrs(values: Seq<(u32, Vec<u8>)>, p: u8)
    requires
        forall|i: int| 0 <= i < values.len() ==> (#[trigger] values[i]).0 <= 255,
    ensures
        ({
            let pcrs = pcr_map(values, values.len() as int);
            if exists|i: int| 0 <= i < values.len() && (#[trigger] values[i]).0 == p {
                pcrs.dom().contains(p) && exists|i: int|
                    0 <= i < values.len() && (#[trigger] values[i]).0 == p && pcrs[p]
                        == values[i].1@ && forall|j: int|
                        i < j < values.len() ==> (#[trigger] values[j]).0 != p
            } else {
                !pcrs.dom().contains(p)
            }
        }),
{
    let n = values.len() as int;
    let pcrs = pcr_map(values, n);
    lemma_pcr_map(values, n);
    if exists|i: int| 0 <= i < n && (#[trigger] values[i]).0 == p {
        let k = choose|k: int| 0 <= k < n && (#[trigger] values[k]).0 == p;
        assert(pcrs.dom().contains(pcr_index(values[k].0)));
    }
    if pcrs.dom().contains(p) {
        let i = choose|i: int|
            0 <= i < n && pcr_index((#[trigger] values[i]).0) == p && pcrs[p] == values[i].1@
                && forall|j: int|
                i < j < n ==> pcr_index((#[trigger] values[j]).0) != p;
        assert(values[i].0 == p);
        assert forall|j: int| i < j < n implies (#[trigger] values[j]).0 != p by {
            assert(pcr_index(values[j].0) != p);
        }
    }
}

/// A document says what was attested: it is issued to the digest of the
/// endorsement certificate, under the policy that approves the quoted boot
/// state at the time; without a TPM to the fingerprint of the hardware, under
/// the policy of such hosts.
pub proof fn law_document_matches_evidence(
    st: CmisState,
    a: Applicant,
    nonce: Seq<u8>,
    now: i64,
    ttl_secs: u64,
    dpop_jkt: Seq<char>,
)
    requires
        accepted_by(st, a, nonce, now),
    ensures
        ({
            let p = issue_params(a, ttl_secs, dpop_jkt);
            &&& p.ttl_secs == ttl_secs
            &&& p.dpop_jkt == dpop_jkt
            &&& p.tee_evidence_id is None
            &&& match a {
                Applicant::Tpm { init, .. } => p.ek_cert_sha384 == hash::sha384_of(init.ek_cert@)
                    && rim::approved_policy(st.verifier.approved(), p.pcr_digest, Some(now))
                    == Some(p.policy_id) && (verify::quote_verdict(
                    st.verifier.roots(),
                    st.verifier.approved(),
                    quote_inputs(init, nonce, now),
                ) matches Ok(q) && q.pcr_digest == p.pcr_digest),
                Applicant::HostKey { evidence, .. } => p.ek_cert_sha384@ == evidence.fingerprint@
                    && p.pcr_digest == p.ek_cert_sha384 && p.policy_id == "host-key"@,
            }
        }),
{
    law_accepted_host(st, a, nonce, now);
}

/// A host gets past its first message only with evidence that the service
/// accepts, for the nonce of this handshake: with a TPM it is then challenged,
/// without one its machine key must have signed. Anything else ends the
/// handshake.
pub proof fn law_first_message<M: CredentialMaker>(
    before: Handshake,
    st: CmisState,
    maker: &M,
    msg: ClientMessage,
    sep_ok: bool,
    after: Handshake,
    st_after: CmisState,
    r: Reply,
)
    requires
        introduced(before, st, maker, msg, sep_ok, after, st_after, r),
    ensures
        after.challenge_secret() == before.challenge_secret(),
        after.challenge_nonce() == before.challenge_nonce(),
        r.action is SendChallenge <==> after.at() is AwaitChallenge,
        r.action is AwaitCsr <==> after.at() is AwaitCsr,
        after.at() is AwaitChallenge || after.at() is AwaitCsr || (after.at() is Over
            && r.action is Refuse),
        after.at() matches Phase::AwaitChallenge { applicant } ==> (applicant matches Applicant::Tpm {
            init,
            quote,
        } && msg == ClientMessage::Init(init) && verify::quote_verdict(
            st.verifier.roots(),
            st.verifier.approved(),
            quote_inputs(init, before.challenge_nonce()@, before.began()),
        ) == Ok::<_, RejectModel>(quote@)),
        after.at() matches Phase::AwaitCsr { applicant } ==> (applicant matches Applicant::HostKey {
            evidence,
            fingerprint,
        } && sep_ok && evidence.fingerprint@ == fingerprint@ && evidence_verdict(evidence, sep_ok)
            == Ok::<_, HostKeyRejection>(fingerprint)),
{
    if let Phase::AwaitChallenge { applicant } = after.at() {
        law_accepted_host(st, applicant, before.challenge_nonce()@, before.began());
    }
    if let Phase::AwaitCsr { applicant } = after.at() {
        if let Applicant::HostKey { evidence, fingerprint } = applicant {
            assert(host_key_verdict(st, evidence, sep_ok).1 == Ok::<_, Status>(fingerprint));
        }
    }
}

/// A challenged host goes on just where it answers with the secret, and as the
/// host that it was; any other answer ends the handshake.
pub proof fn law_secret_needed(
    before: Handshake,
    msg: ClientMessage,
    after: Handshake,
    r: Reply,
)
    requires
        challenged(before, msg, after, r),
        before.at() is AwaitChallenge,
    ensures
        r.action is AwaitCsr <==> (msg matches ClientMessage::ChallengeResponse(s) && s@
            == before.challenge_secret()@),
        r.action is AwaitCsr ==> after.at() == (Phase::AwaitCsr {
            applicant: before.at()->AwaitChallenge_applicant,
        }),
        !(r.action is AwaitCsr) ==> r.action is Refuse && after.at() is Over,
{
}

/// A document is asked for just where the key that the host is bound to signed
/// the key in its request, and with what was attested.
pub proof fn law_signed_request_needed(
    before: Handshake,
    st: CmisState,
    msg: ClientMessage,
    sep_ok: bool,
    after: Handshake,
    r: Reply,
)
    requires
        requested(before, st, msg, sep_ok, after, r),
        before.at() is AwaitCsr,
    ensures
        r.action is Issue <==> (msg matches ClientMessage::Csr(csr)
            && match before.at()->AwaitCsr_applicant {
            Applicant::Tpm { init, .. } => verify::aik_signature_verdict(
                init.aik_pub@,
                csr.composite_pub@,
                csr.aik_sig@,
            ) is Ok,
            Applicant::HostKey { .. } => sep_ok,
        }),
        !(r.action is Issue) ==> r.action is Refuse && after.at() is Over,
        r.action matches Action::Issue { params, child_key } ==> {
            &&& params.ttl_secs == st.config.svid_ttl_secs
            &&& params.dpop_jkt@ == msg->Csr_0.dpop_jkt@
            &&& params@ == issue_params(
                before.at()->AwaitCsr_applicant,
                st.config.svid_ttl_secs,
                msg->Csr_0.dpop_jkt@,
            )
            &&& child_key matches Some(k) ==> composite::key_bytes(k@)
                == msg->Csr_0.composite_pub@
            &&& accepted(
                before.at()->AwaitCsr_applicant,
                before.challenge_nonce()@,
                before.began(),
            )
        },
{
    if let Action::Issue { params, child_key } = r.action {
        let csr = msg->Csr_0;
        let p = issue_params(
            before.at()->AwaitCsr_applicant,
            st.config.svid_ttl_secs,
            csr.dpop_jkt@,
        );
        assert(params@ == p);
        assert(params@.ttl_secs == params.ttl_secs && params@.dpop_jkt == params.dpop_jkt@);
        if let Some(k) = child_key {
            composite::law_key_roundtrip(k@, csr.composite_pub@);
        }
    }
}

/// A document that was issued is delivered, entered in the audit log and kept
/// under its subject, with what was attested, the time and the epoch; no other
/// subject's record changes. Where none was issued nothing is kept.
pub proof fn law_issued_document_kept<E>(
    before: Handshake,
    st: CmisState,
    issued: Result<IssuedSvid, E>,
    after: Handshake,
    st_after: CmisState,
    r: Reply,
    other: Seq<char>,
)
    requires
        answered(before, st, issued, after, st_after, r),
        before.at() is AwaitIssue,
    ensures
        after.at() is Over,
        issued matches Ok(svid) ==> {
            let kept = st_after.svids@[svid.spiffe_id@]@;
            &&& r.action == Action::Deliver(svid)
            &&& st_after.svids@.dom().contains(svid.spiffe_id@)
            &&& kept.bundle == svid@
            &&& kept.params == before.at()->AwaitIssue_params@
            &&& kept.last_attestation.at == before.began()
            &&& kept.last_attestation.policy_epoch == st.policy_epoch
            &&& kept.last_attestation.pcr_digest == before.at()->AwaitIssue_params.pcr_digest
            &&& other != svid.spiffe_id@ && st.svids@.dom().contains(other)
                ==> st_after.svids@[other] == st.svids@[other]
        },
        issued is Err ==> r.action is Refuse && st_after.svids@ == st.svids@,
{
}

} // verus!
