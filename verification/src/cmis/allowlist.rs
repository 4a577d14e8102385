//! Caller allowlists of hosts: set by operators, or proposed by hosts.
//!
//! A host that proposes must show a valid document of this service, hold the
//! machine key that the document is bound to, and propose for itself alone.
//! What becomes of a proposal is decided by policy.

use vstd::prelude::*;
use crate::audit::event::{AuditEvent, EventModel};
use crate::cmis::attest;
use crate::cmis::requests;
use crate::cmis::requests::{
    parse_cert_sha, require_host_uuid, saturating_count, saturating_later,
};
use crate::cmis::state;
use crate::cmis::state::{AllowEntry, CmisConfig, CmisState, ProposalPolicy, ProposalRecord};
use crate::cmis::status::{Code, Status};
use crate::collections;
use crate::crypto::composite;
use crate::crypto::composite::{CompositePublicKey, CompositeSignature, PublicKeyModel};
use crate::primitives::{encoding, hash, text};

verus! {

/// Longest lifetime of an allowlist: 30 days.
pub const MAX_ALLOWLIST_TTL_SECS: i64 = 2_592_000;

/// How far ahead of the service's clock a proposal may be made, in seconds.
pub const PROPOSAL_SKEW_SECS: i64 = 300;

/// The contents of an [`AllowEntry`].
pub struct AllowModel {
    pub uid: Option<u32>,
    pub bin_sha: Seq<char>,
}

impl View for AllowEntry {
    type V = AllowModel;

    open spec fn view(&self) -> AllowModel {
        AllowModel { uid: self.uid, bin_sha: self.bin_sha@ }
    }
}

/// The contents of several entries.
pub open spec fn allow_models(entries: Seq<AllowEntry>) -> Seq<AllowModel> {
    entries.map_values(|e: AllowEntry| e@)
}

/// Entries as they are kept: digests without white space around them.
pub open spec fn kept_entries(entries: Seq<AllowEntry>) -> Seq<AllowModel> {
    entries.map_values(
        |e: AllowEntry| AllowModel { uid: e.uid, bin_sha: text::trimmed(e.bin_sha@) },
    )
}

/// Whether every entry names a binary by a digest.
pub open spec fn well_formed(entries: Seq<AllowEntry>) -> bool {
    forall|i: int| 0 <= i < entries.len() ==> requests::is_sha_text((#[trigger] entries[i]).bin_sha@)
}

/// The answer to entries of which one names no binary.
pub open spec fn entry_refusal() -> Status {
    Status { code: Code::InvalidArgument, message: "entry bin_sha must be hex SHA-384" }
}

/// Check entries, and bring them to the form in which they are kept.
pub fn check_entries(entries: &Vec<AllowEntry>) -> (r: Result<Vec<AllowEntry>, Status>)
    ensures
        match r {
            Ok(kept) => well_formed(entries@) && allow_models(kept@) == kept_entries(entries@),
            Err(s) => !well_formed(entries@) && s == entry_refusal(),
        },
{
    let mut kept: Vec<AllowEntry> = Vec::new();
    let mut i: usize = 0;
    while i < entries.len()
        invariant
            i <= entries@.len(),
            kept@.len() == i,
            forall|j: int|
                0 <= j < i ==> requests::is_sha_text((#[trigger] entries@[j]).bin_sha@),
            forall|j: int|
                0 <= j < i ==> (#[trigger] kept@[j])@ == (AllowModel {
                    uid: entries@[j].uid,
                    bin_sha: text::trimmed(entries@[j].bin_sha@),
                }),
        decreases entries@.len() - i,
    {
        if parse_cert_sha(entries[i].bin_sha.as_str()).is_err() {
            assert(!requests::is_sha_text(entries@[i as int].bin_sha@));
            return Err(
                Status::new(Code::InvalidArgument, "entry bin_sha must be hex SHA-384"),
            );
        }
        kept.push(
            AllowEntry {
                uid: entries[i].uid,
                bin_sha: text::trim(entries[i].bin_sha.as_str()).to_owned(),
            },
        );
        i += 1;
    }
    assert(allow_models(kept@) =~= kept_entries(entries@));
    Ok(kept)
}

/// An allowlist that is to be signed and kept.
#[derive(Debug)]
pub struct AllowlistPlan {
    /// The host.
    pub host_uuid: String,
    /// The entries.
    pub entries: Vec<AllowEntry>,
    /// Start of validity, Unix seconds.
    pub issued_at: i64,
    /// End of validity, Unix seconds.
    pub not_after: i64,
    /// The number of entries.
    pub entry_count: u32,
}

/// The lifetime of an allowlist: what was asked for, up to the longest, or the
/// setting where nothing was.
pub open spec fn effective_ttl(config: CmisConfig, ttl_secs: i64) -> i64 {
    if ttl_secs <= 0 {
        config.allowlist_ttl_secs
    } else if ttl_secs > MAX_ALLOWLIST_TTL_SECS {
        MAX_ALLOWLIST_TTL_SECS
    } else {
        ttl_secs
    }
}

/// Check an operator's request for an allowlist.
pub fn plan_allowlist(
    config: &CmisConfig,
    host_uuid: &str,
    entries: &Vec<AllowEntry>,
    ttl_secs: i64,
    now: i64,
) -> (r: Result<AllowlistPlan, Status>)
    ensures
        match r {
            Ok(p) => {
                &&& text::trimmed(host_uuid@).len() > 0
                &&& well_formed(entries@)
                &&& p.host_uuid@ == host_uuid@
                &&& allow_models(p.entries@) == kept_entries(entries@)
                &&& p.issued_at == now
                &&& p.not_after == requests::later(now, effective_ttl(*config, ttl_secs) as int)
                &&& p.entry_count == requests::count_u32(entries@.len())
            },
            Err(s) => if text::trimmed(host_uuid@).len() == 0 {
                s == (Status { code: Code::InvalidArgument, message: "empty host_uuid" })
            } else {
                !well_formed(entries@) && s == entry_refusal()
            },
        },
{
    require_host_uuid(host_uuid)?;
    let kept = check_entries(entries)?;
    assert(kept@.len() == entries@.len()) by {
        assert(allow_models(kept@).len() == kept_entries(entries@).len());
    }
    let ttl: i64 = if ttl_secs <= 0 {
        config.allowlist_ttl_secs
    } else if ttl_secs > MAX_ALLOWLIST_TTL_SECS {
        MAX_ALLOWLIST_TTL_SECS
    } else {
        ttl_secs
    };
    let entry_count: u32 = saturating_count(kept.len());
    Ok(
        AllowlistPlan {
            host_uuid: host_uuid.to_owned(),
            entries: kept,
            issued_at: now,
            not_after: saturating_later(now, ttl),
            entry_count,
        },
    )
}

/// How signing an allowlist can fail.
#[derive(Debug, Clone, Copy, PartialEq, Eq, Structural)]
pub enum SigningFailure {
    /// The signer failed.
    Sign,
    /// The signed allowlist could not be encoded.
    Encode,
}

/// The answer to a failure to sign.
pub open spec fn signing_refusal(f: SigningFailure) -> Status {
    match f {
        SigningFailure::Sign => Status {
            code: Code::Internal,
            message: "allowlist signing failed",
        },
        SigningFailure::Encode => Status {
            code: Code::Internal,
            message: "allowlist encode failed",
        },
    }
}

fn refusal_of(f: SigningFailure) -> (r: Status)
    ensures
        r == signing_refusal(f),
{
    match f {
        SigningFailure::Sign => Status::new(Code::Internal, "allowlist signing failed"),
        SigningFailure::Encode => Status::new(Code::Internal, "allowlist encode failed"),
    }
}

/// Keep an operator's allowlist once it is signed; start and end of its
/// validity are returned.
pub fn set_allowlist(
    st: &mut CmisState,
    plan: &AllowlistPlan,
    signed: Result<Vec<u8>, SigningFailure>,
) -> (r: (Vec<AuditEvent>, Result<(i64, i64), Status>))
    ensures
        state::same_but_allowlists(*old(st), *final(st)),
        final(st).proposals == old(st).proposals,
        match signed {
            Ok(bytes) => {
                &&& r.1 == Ok::<_, Status>((plan.issued_at, plan.not_after))
                &&& final(st).allowlists@ == old(st).allowlists@.insert(plan.host_uuid@, bytes)
                &&& attest::audit_models(r.0@) == seq![
                    EventModel::AllowlistSet {
                        host_uuid: plan.host_uuid@,
                        entry_count: plan.entry_count,
                        not_after: plan.not_after,
                    },
                ]
            },
            Err(f) => {
                &&& r.1 == Err::<(i64, i64), _>(signing_refusal(f))
                &&& r.0@.len() == 0
                &&& final(st).allowlists@ == old(st).allowlists@
            },
        },
{
    let mut audits: Vec<AuditEvent> = Vec::new();
    match signed {
        Err(f) => (audits, Err(refusal_of(f))),
        Ok(bytes) => {
            st.put_allowlist(plan.host_uuid.as_str(), bytes);
            audits.push(
                AuditEvent::AllowlistSet {
                    host_uuid: plan.host_uuid.clone(),
                    entry_count: plan.entry_count,
                    not_after: plan.not_after,
                },
            );
            assert(attest::audit_models(audits@) =~= seq![audits@[0]@]);
            (audits, Ok((plan.issued_at, plan.not_after)))
        },
    }
}

/// A host's signed allowlist, or nothing where there is none.
pub fn get_allowlist(st: &CmisState, host_uuid: &str) -> (r: Result<Vec<u8>, Status>)
    ensures
        match r {
            Ok(b) => text::trimmed(host_uuid@).len() > 0 && b@ == (
            if st.allowlists@.dom().contains(host_uuid@) {
                st.allowlists@[host_uuid@]@
            } else {
                Seq::empty()
            }),
            Err(s) => text::trimmed(host_uuid@).len() == 0 && s == (Status {
                code: Code::InvalidArgument,
                message: "empty host_uuid",
            }),
        },
{
    require_host_uuid(host_uuid)?;
    match st.get_allowlist(host_uuid) {
        Some(b) => Ok(vstd::slice::slice_to_vec(b.as_slice())),
        None => Ok(Vec::new()),
    }
}

/// Delete a host's allowlist; whether there was one.
pub fn delete_allowlist(st: &mut CmisState, host_uuid: &str) -> (r: (
    Vec<AuditEvent>,
    Result<bool, Status>,
))
    ensures
        state::same_but_allowlists(*old(st), *final(st)),
        final(st).proposals == old(st).proposals,
        if text::trimmed(host_uuid@).len() == 0 {
            &&& r.1 == Err::<bool, _>(
                Status { code: Code::InvalidArgument, message: "empty host_uuid" },
            )
            &&& r.0@.len() == 0
            &&& final(st).allowlists@ == old(st).allowlists@
        } else {
            let existed = old(st).allowlists@.dom().contains(host_uuid@);
            &&& r.1 == Ok::<_, Status>(existed)
            &&& final(st).allowlists@ == old(st).allowlists@.remove(host_uuid@)
            &&& attest::audit_models(r.0@) == (if existed {
                seq![EventModel::AllowlistDeleted { host_uuid: host_uuid@ }]
            } else {
                Seq::empty()
            })
        },
{
    let mut audits: Vec<AuditEvent> = Vec::new();
    if let Err(s) = require_host_uuid(host_uuid) {
        return (audits, Err(s));
    }
    let existed = st.delete_allowlist(host_uuid);
    if existed {
        audits.push(AuditEvent::AllowlistDeleted { host_uuid: host_uuid.to_owned() });
        assert(attest::audit_models(audits@) =~= seq![audits@[0]@]);
    } else {
        assert(attest::audit_models(audits@) =~= Seq::<EventModel>::empty());
    }
    (audits, Ok(existed))
}

/// Reject a host's proposal; whether there was one.
pub fn delete_proposal(st: &mut CmisState, host_uuid: &str) -> (r: (
    Vec<AuditEvent>,
    Result<bool, Status>,
))
    ensures
        state::same_but_allowlists(*old(st), *final(st)),
        final(st).allowlists == old(st).allowlists,
        if text::trimmed(host_uuid@).len() == 0 {
            &&& r.1 == Err::<bool, _>(
                Status { code: Code::InvalidArgument, message: "empty host_uuid" },
            )
            &&& r.0@.len() == 0
            &&& final(st).proposals@ == old(st).proposals@
        } else {
            let existed = old(st).proposals@.dom().contains(host_uuid@);
            &&& r.1 == Ok::<_, Status>(existed)
            &&& final(st).proposals@ == old(st).proposals@.remove(host_uuid@)
            &&& attest::audit_models(r.0@) == (if existed {
                seq![EventModel::AllowlistProposalRejected { host_uuid: host_uuid@ }]
            } else {
                Seq::empty()
            })
        },
{
    let mut audits: Vec<AuditEvent> = Vec::new();
    if let Err(s) = require_host_uuid(host_uuid) {
        return (audits, Err(s));
    }
    let existed = st.delete_proposal(host_uuid);
    if existed {
        audits.push(AuditEvent::AllowlistProposalRejected { host_uuid: host_uuid.to_owned() });
        assert(attest::audit_models(audits@) =~= seq![audits@[0]@]);
    } else {
        assert(attest::audit_models(audits@) =~= Seq::<EventModel>::empty());
    }
    (audits, Ok(existed))
}

/// How often an entry occurs among the first `n`.
pub open spec fn occurrences(s: Seq<AllowModel>, x: AllowModel, n: int) -> nat
    decreases n,
{
    if n <= 0 {
        0
    } else {
        occurrences(s, x, n - 1) + if s[n - 1] == x {
            1nat
        } else {
            0nat
        }
    }
}

proof fn lemma_occurrences(s: Seq<AllowModel>, x: AllowModel, n: int)
    requires
        0 <= n <= s.len(),
    ensures
        occurrences(s, x, n) == s.take(n).to_multiset().count(x),
    decreases n,
{
    s.take(0).to_multiset_ensures();
    if n > 0 {
        lemma_occurrences(s, x, n - 1);
        assert(s.take(n) =~= s.take(n - 1).push(s[n - 1]));
        s.take(n - 1).to_multiset_ensures();
    } else {
        assert(s.take(0) =~= Seq::<AllowModel>::empty());
        assert(s.take(0).to_multiset().len() == 0);
    }
}

fn same_entry(a: &AllowEntry, b: &AllowEntry) -> (r: bool)
    ensures
        r == (a@ == b@),
{
    let same_uid = match (a.uid, b.uid) {
        (Some(x), Some(y)) => x == y,
        (None, None) => true,
        _ => false,
    };
    same_uid && text::same_text(a.bin_sha.as_str(), b.bin_sha.as_str())
}

fn count_entry(entries: &Vec<AllowEntry>, e: &AllowEntry) -> (r: usize)
    ensures
        r == occurrences(allow_models(entries@), e@, entries@.len() as int),
{
    let mut n: usize = 0;
    let mut i: usize = 0;
    while i < entries.len()
        invariant
            i <= entries@.len(),
            n <= i,
            n == occurrences(allow_models(entries@), e@, i as int),
        decreases entries@.len() - i,
    {
        assert(allow_models(entries@)[i as int] == entries@[i as int]@);
        if same_entry(&entries[i], e) {
            n += 1;
        }
        i += 1;
    }
    n
}

fn covered(a: &Vec<AllowEntry>, b: &Vec<AllowEntry>) -> (r: bool)
    ensures
        r == (forall|i: int|
            0 <= i < a@.len() ==> occurrences(
                allow_models(a@),
                (#[trigger] a@[i])@,
                a@.len() as int,
            ) == occurrences(allow_models(b@), a@[i]@, b@.len() as int)),
{
    let mut i: usize = 0;
    while i < a.len()
        invariant
            i <= a@.len(),
            forall|j: int|
                0 <= j < i ==> occurrences(
                    allow_models(a@),
                    (#[trigger] a@[j])@,
                    a@.len() as int,
                ) == occurrences(allow_models(b@), a@[j]@, b@.len() as int),
        decreases a@.len() - i,
    {
        if count_entry(a, &a[i]) != count_entry(b, &a[i]) {
            assert(occurrences(allow_models(a@), a@[i as int]@, a@.len() as int) != occurrences(
                allow_models(b@),
                a@[i as int]@,
                b@.len() as int,
            ));
            return false;
        }
        i += 1;
    }
    true
}

/// Whether two lists hold the same entries, each as often, in whatever order.
pub fn entries_match(a: &Vec<AllowEntry>, b: &Vec<AllowEntry>) -> (r: bool)
    ensures
        r == (allow_models(a@).to_multiset() == allow_models(b@).to_multiset()),
{
    let ghost ma = allow_models(a@);
    let ghost mb = allow_models(b@);
    let r = covered(a, b) && covered(b, a);
    proof {
        assert(ma.take(ma.len() as int) =~= ma);
        assert(mb.take(mb.len() as int) =~= mb);
        assert forall|x: AllowModel|
            occurrences(ma, x, ma.len() as int) == ma.to_multiset().count(x) && occurrences(
                mb,
                x,
                mb.len() as int,
            ) == #[trigger] mb.to_multiset().count(x) by {
            lemma_occurrences(ma, x, ma.len() as int);
            lemma_occurrences(mb, x, mb.len() as int);
        }
        ma.to_multiset_ensures();
        mb.to_multiset_ensures();
        if r {
            assert forall|x: AllowModel| ma.to_multiset().count(x) == #[trigger] mb.to_multiset().count(
                x,
            ) by {
                if ma.contains(x) {
                    let i = choose|i: int| 0 <= i < ma.len() && ma[i] == x;
                    assert(a@[i]@ == x);
                } else if mb.contains(x) {
                    let j = choose|j: int| 0 <= j < mb.len() && mb[j] == x;
                    assert(b@[j]@ == x);
                }
            }
            assert(ma.to_multiset() =~= mb.to_multiset());
        } else if ma.to_multiset() == mb.to_multiset() {
            assert forall|i: int| 0 <= i < a@.len() implies occurrences(
                ma,
                (#[trigger] a@[i])@,
                a@.len() as int,
            ) == occurrences(mb, a@[i]@, b@.len() as int) by {
                assert(mb.to_multiset().count(a@[i]@) == ma.to_multiset().count(a@[i]@));
            }
            assert forall|i: int| 0 <= i < b@.len() implies occurrences(
                mb,
                (#[trigger] b@[i])@,
                b@.len() as int,
            ) == occurrences(ma, b@[i]@, a@.len() as int) by {
                assert(mb.to_multiset().count(b@[i]@) == ma.to_multiset().count(b@[i]@));
            }
        }
    }
    r
}

/// A host's document as it was presented, taken apart.
#[derive(Debug)]
pub struct PresentedSvid {
    /// What its signature covers.
    pub signing_input: Vec<u8>,
    /// The signature.
    pub signature: Vec<u8>,
    /// Its subject.
    pub sub: String,
    /// Start of validity, Unix seconds.
    pub nbf: i64,
    /// End of validity, Unix seconds.
    pub exp: i64,
    /// Thumbprint of the key that it is bound to.
    pub jkt: String,
}

/// A host's proposal, taken apart.
#[derive(Debug)]
pub struct ProposalDoc {
    /// The host that it is for.
    pub host_uuid: String,
    /// When it was made, Unix seconds.
    pub issued_at: i64,
    /// The proposed entries.
    pub entries: Vec<AllowEntry>,
}

/// Where `/host/` begins for the last time in the first `n` characters.
pub open spec fn last_host(s: Seq<char>, n: int) -> Option<int>
    decreases n,
{
    if n < 6 {
        None
    } else if s.subrange(n - 6, n) == "/host/"@ {
        Some(n - 6)
    } else {
        last_host(s, n - 1)
    }
}

/// The host that a subject names: what follows the last `/host/`, if anything
/// does.
pub open spec fn host_of(sub: Seq<char>) -> Option<Seq<char>> {
    match last_host(sub, sub.len() as int) {
        Some(i) => if i + 6 < sub.len() {
            Some(sub.skip(i + 6))
        } else {
            None
        },
        None => None,
    }
}

/// The host that a subject names.
pub fn subject_host(sub: &str) -> (r: Option<String>)
    ensures
        text::option_view(r) == host_of(sub@),
{
    let len: usize = sub.unicode_len();
    let mut n: usize = len;
    while n >= 6
        invariant
            n <= len == sub@.len(),
            last_host(sub@, len as int) == last_host(sub@, n as int),
        decreases n,
    {
        if text::same_text(sub.substring_char(n - 6, n), "/host/") {
            if n < len {
                let host = sub.substring_char(n, len);
                assert(host@ =~= sub@.skip(n as int));
                return Some(host.to_owned());
            }
            return None;
        }
        n -= 1;
    }
    None
}

/// An answer to a host that is not who it claims to be.
pub open spec fn unauthenticated(message: &'static str) -> Status {
    Status { code: Code::Unauthenticated, message }
}

/// What is said of a presented document: whose host it is, or why it is
/// refused. It must be signed by the issuer, and valid now.
pub open spec fn svid_verdict(
    issuer: PublicKeyModel,
    ctx: Seq<u8>,
    presented: Option<PresentedSvid>,
    now: i64,
) -> Result<Seq<char>, Status> {
    match presented {
        None => Err(unauthenticated("malformed svid")),
        Some(p) => if p.signature@.len() != composite::COMPOSITE_SIG_LEN {
            Err(unauthenticated("malformed svid signature"))
        } else if !composite::accepts(
            issuer,
            ctx,
            p.signing_input@,
            composite::signature_from(p.signature@),
        ) {
            Err(unauthenticated("svid not issued by this cmis"))
        } else if now < p.nbf || now > p.exp {
            Err(unauthenticated("svid is not currently valid"))
        } else {
            match host_of(p.sub@) {
                None => Err(unauthenticated("svid subject is not a host id")),
                Some(host) => Ok(host),
            }
        },
    }
}

/// Check a presented document: whose host it is.
pub fn verify_proposing_svid(
    issuer: &CompositePublicKey,
    ctx: &[u8],
    presented: &Option<PresentedSvid>,
    now: i64,
) -> (r: Result<String, Status>)
    ensures
        match r {
            Ok(host) => svid_verdict(issuer@, ctx@, *presented, now) == Ok::<_, Status>(host@),
            Err(s) => svid_verdict(issuer@, ctx@, *presented, now) == Err::<Seq<char>, _>(s),
        },
{
    let p = match presented {
        Some(p) => p,
        None => return Err(Status::new(Code::Unauthenticated, "malformed svid")),
    };
    let sig = match CompositeSignature::from_concat_bytes(p.signature.as_slice()) {
        Ok(sig) => sig,
        Err(_) => return Err(Status::new(Code::Unauthenticated, "malformed svid signature")),
    };
    if issuer.verify(ctx, p.signing_input.as_slice(), &sig).is_err() {
        return Err(Status::new(Code::Unauthenticated, "svid not issued by this cmis"));
    }
    if now < p.nbf || now > p.exp {
        return Err(Status::new(Code::Unauthenticated, "svid is not currently valid"));
    }
    match subject_host(p.sub.as_str()) {
        Some(host) => Ok(host),
        None => Err(Status::new(Code::Unauthenticated, "svid subject is not a host id")),
    }
}

/// A host's request to change its allowlist, taken apart.
#[derive(Debug)]
pub struct ProposalRequest {
    /// The document.
    pub svid: Option<PresentedSvid>,
    /// The machine key.
    pub sep_pub: Vec<u8>,
    /// Whether the machine key's verifier accepts the signature on the
    /// proposal.
    pub signature_verifies: bool,
    /// The proposal.
    pub proposal: Option<ProposalDoc>,
}

/// The thumbprint of a machine key.
pub open spec fn key_thumbprint(sep_pub: Seq<u8>) -> Seq<char> {
    encoding::base64url_text(hash::sha256_of(sep_pub)@)
}

/// What is said of a proposal before policy is asked: nothing, or why it is
/// refused. The document is checked first, then that the machine key is the one
/// that it is bound to, that it signed, and that the proposal is for the host
/// itself, not from the future, and well-formed.
pub open spec fn proposal_fault(
    issuer: PublicKeyModel,
    ctx: Seq<u8>,
    req: ProposalRequest,
    now: i64,
) -> Option<Status> {
    match svid_verdict(issuer, ctx, req.svid, now) {
        Err(s) => Some(s),
        Ok(host) => if key_thumbprint(req.sep_pub@) != req.svid->0.jkt@ {
            Some(unauthenticated("sep_pub does not match svid cnf.jkt"))
        } else if !req.signature_verifies {
            Some(unauthenticated("proposal signature did not verify"))
        } else {
            match req.proposal {
                None => Some(
                    Status { code: Code::InvalidArgument, message: "malformed proposal body" },
                ),
                Some(p) => if p.host_uuid@ != host {
                    Some(
                        Status {
                            code: Code::PermissionDenied,
                            message: "proposal host_uuid does not match the proposing SVID",
                        },
                    )
                } else if p.issued_at > requests::later(now, PROPOSAL_SKEW_SECS as int) {
                    Some(
                        Status {
                            code: Code::InvalidArgument,
                            message: "proposal issued_at is in the future",
                        },
                    )
                } else if !well_formed(p.entries@) {
                    Some(entry_refusal())
                } else {
                    None
                },
            }
        },
    }
}

/// Check a proposal: its entries, as they would be kept.
pub fn check_proposal(
    issuer: &CompositePublicKey,
    ctx: &[u8],
    req: &ProposalRequest,
    now: i64,
) -> (r: Result<Vec<AllowEntry>, Status>)
    ensures
        match r {
            Ok(kept) => proposal_fault(issuer@, ctx@, *req, now) is None && req.proposal is Some
                && req.svid is Some && allow_models(kept@) == kept_entries(
                req.proposal->0.entries@,
            ),
            Err(s) => proposal_fault(issuer@, ctx@, *req, now) == Some(s),
        },
{
    let host = verify_proposing_svid(issuer, ctx, &req.svid, now)?;
    let digest = hash::sha256(req.sep_pub.as_slice());
    let computed = encoding::base64url_encode(digest.as_slice());
    if let Some(p) = &req.svid {
        if !text::same_text(computed.as_str(), p.jkt.as_str()) {
            return Err(
                Status::new(Code::Unauthenticated, "sep_pub does not match svid cnf.jkt"),
            );
        }
    }
    if !req.signature_verifies {
        return Err(Status::new(Code::Unauthenticated, "proposal signature did not verify"));
    }
    let doc = match &req.proposal {
        Some(doc) => doc,
        None => return Err(Status::new(Code::InvalidArgument, "malformed proposal body")),
    };
    if !text::same_text(doc.host_uuid.as_str(), host.as_str()) {
        return Err(
            Status::new(
                Code::PermissionDenied,
                "proposal host_uuid does not match the proposing SVID",
            ),
        );
    }
    if doc.issued_at > saturating_later(now, PROPOSAL_SKEW_SECS) {
        return Err(Status::new(Code::InvalidArgument, "proposal issued_at is in the future"));
    }
    check_entries(&doc.entries)
}

/// What becomes of a proposal.
#[derive(Debug)]
pub enum ProposalDecision {
    /// The host's allowlist holds these entries already.
    Unchanged,
    /// The allowlist is to be signed and put in force.
    Adopt(AllowlistPlan),
    /// An operator is to review it.
    Queue {
        /// The host.
        host_uuid: String,
        /// The entries.
        entries: Vec<AllowEntry>,
        /// Who proposed them.
        proposer_spiffe_id: String,
    },
}

/// Decide on a proposal. `live` are the entries of the host's allowlist, where
/// it has one that can be read.
pub fn propose_allowlist(
    st: &CmisState,
    issuer: &CompositePublicKey,
    ctx: &[u8],
    req: &ProposalRequest,
    live: &Option<Vec<AllowEntry>>,
    now: i64,
) -> (r: Result<ProposalDecision, Status>)
    ensures
        match r {
            Err(s) => proposal_fault(issuer@, ctx@, *req, now) == Some(s),
            Ok(d) => {
                let kept = kept_entries(req.proposal->0.entries@);
                let host = req.proposal->0.host_uuid@;
                &&& proposal_fault(issuer@, ctx@, *req, now) is None
                &&& if live matches Some(cur) && allow_models(cur@).to_multiset()
                    == kept.to_multiset() {
                    d is Unchanged
                } else if state::adopted(
                    st.config.allowlist_proposal_policy,
                    st.allowlists@.dom().contains(host),
                ) {
                    d matches ProposalDecision::Adopt(p) && p.host_uuid@ == host && allow_models(
                        p.entries@,
                    ) == kept && p.issued_at == now && p.not_after == requests::later(
                        now,
                        st.config.allowlist_ttl_secs as int,
                    ) && p.entry_count == requests::count_u32(kept.len())
                } else {
                    d matches ProposalDecision::Queue { host_uuid, entries, proposer_spiffe_id }
                        && host_uuid@ == host && allow_models(entries@) == kept
                        && proposer_spiffe_id@ == req.svid->0.sub@
                }
            },
        },
{
    let kept = check_proposal(issuer, ctx, req, now)?;
    assert(kept@.len() == allow_models(kept@).len());
    if let Some(cur) = live {
        if entries_match(cur, &kept) {
            return Ok(ProposalDecision::Unchanged);
        }
    }
    let (doc, svid) = match (&req.proposal, &req.svid) {
        (Some(doc), Some(svid)) => (doc, svid),
        _ => return Err(Status::new(Code::Internal, "proposal incomplete")),
    };
    let has_existing = st.get_allowlist(doc.host_uuid.as_str()).is_some();
    if st.config.allowlist_proposal_policy.adopts(has_existing) {
        let entry_count: u32 = saturating_count(kept.len());
        Ok(
            ProposalDecision::Adopt(
                AllowlistPlan {
                    host_uuid: doc.host_uuid.clone(),
                    entries: kept,
                    issued_at: now,
                    not_after: saturating_later(now, st.config.allowlist_ttl_secs),
                    entry_count,
                },
            ),
        )
    } else {
        Ok(
            ProposalDecision::Queue {
                host_uuid: doc.host_uuid.clone(),
                entries: kept,
                proposer_spiffe_id: svid.sub.clone(),
            },
        )
    }
}

/// Put an adopted proposal in force once it is signed. A proposal that waited
/// for review is then of no more concern.
pub fn adopt_proposal(
    st: &mut CmisState,
    plan: &AllowlistPlan,
    signed: Result<Vec<u8>, SigningFailure>,
) -> (r: (Vec<AuditEvent>, Result<(i64, i64), Status>))
    ensures
        state::same_but_allowlists(*old(st), *final(st)),
        match signed {
            Ok(bytes) => {
                &&& r.1 == Ok::<_, Status>((plan.issued_at, plan.not_after))
                &&& final(st).allowlists@ == old(st).allowlists@.insert(plan.host_uuid@, bytes)
                &&& final(st).proposals@ == old(st).proposals@.remove(plan.host_uuid@)
                &&& attest::audit_models(r.0@) == seq![
                    EventModel::AllowlistAutoAdopted {
                        host_uuid: plan.host_uuid@,
                        entry_count: plan.entry_count,
                        not_after: plan.not_after,
                    },
                ]
            },
            Err(f) => {
                &&& r.1 == Err::<(i64, i64), _>(signing_refusal(f))
                &&& r.0@.len() == 0
                &&& final(st).allowlists@ == old(st).allowlists@
                &&& final(st).proposals@ == old(st).proposals@
            },
        },
{
    let mut audits: Vec<AuditEvent> = Vec::new();
    match signed {
        Err(f) => (audits, Err(refusal_of(f))),
        Ok(bytes) => {
            st.put_allowlist(plan.host_uuid.as_str(), bytes);
            let _existed = st.delete_proposal(plan.host_uuid.as_str());
            audits.push(
                AuditEvent::AllowlistAutoAdopted {
                    host_uuid: plan.host_uuid.clone(),
                    entry_count: plan.entry_count,
                    not_after: plan.not_after,
                },
            );
            assert(attest::audit_models(audits@) =~= seq![audits@[0]@]);
            (audits, Ok((plan.issued_at, plan.not_after)))
        },
    }
}

/// Keep a proposal for review, in place of an earlier one of the host. The
/// allowlist in force stays as it is.
pub fn queue_proposal(
    st: &mut CmisState,
    host_uuid: &str,
    entries: Vec<AllowEntry>,
    proposer_spiffe_id: &str,
    now: i64,
) -> (r: Vec<AuditEvent>)
    ensures
        state::same_but_allowlists(*old(st), *final(st)),
        final(st).allowlists == old(st).allowlists,
        final(st).proposals@.dom() == old(st).proposals@.dom().insert(host_uuid@),
        final(st).proposals@[host_uuid@].entries == entries,
        final(st).proposals@[host_uuid@].proposer_spiffe_id@ == proposer_spiffe_id@,
        final(st).proposals@[host_uuid@].proposed_at == now,
        forall|k: Seq<char>|
            k != host_uuid@ && old(st).proposals@.dom().contains(k) ==> #[trigger] final(
                st
            ).proposals@[k] == old(st).proposals@[k],
        attest::audit_models(r@) == seq![
            EventModel::AllowlistProposed {
                host_uuid: host_uuid@,
                entry_count: requests::count_u32(entries@.len()),
                proposer_spiffe_id: proposer_spiffe_id@,
            },
        ],
{
    let entry_count: u32 = saturating_count(entries.len());
    st.put_proposal(
        host_uuid,
        ProposalRecord {
            entries,
            proposer_spiffe_id: proposer_spiffe_id.to_owned(),
            proposed_at: now,
        },
    );
    assert(st.proposals@.dom() =~= old(st).proposals@.dom().insert(host_uuid@));
    let mut audits: Vec<AuditEvent> = Vec::new();
    audits.push(
        AuditEvent::AllowlistProposed {
            host_uuid: host_uuid.to_owned(),
            entry_count,
            proposer_spiffe_id: proposer_spiffe_id.to_owned(),
        },
    );
    assert(attest::audit_models(audits@) =~= seq![audits@[0]@]);
    audits
}

/// A signed allowlist, taken apart.
#[derive(Debug)]
pub struct AllowlistDoc {
    /// The entries.
    pub entries: Vec<AllowEntry>,
    /// Start of validity, Unix seconds.
    pub issued_at: i64,
    /// End of validity, Unix seconds.
    pub not_after: i64,
}

/// What a listing says of one allowlist.
#[derive(Debug)]
pub struct AllowlistSummary {
    /// The host.
    pub host_uuid: String,
    /// Start of validity, Unix seconds.
    pub issued_at: i64,
    /// End of validity, Unix seconds.
    pub not_after: i64,
    /// The number of entries.
    pub entry_count: u32,
}

/// Whether a summary is that of a host's allowlist.
pub open spec fn summarizes(s: AllowlistSummary, host_uuid: Seq<char>, doc: AllowlistDoc) -> bool {
    &&& s.host_uuid@ == host_uuid
    &&& s.issued_at == doc.issued_at
    &&& s.not_after == doc.not_after
    &&& s.entry_count == requests::count_u32(doc.entries@.len())
}

/// The allowlists that can be read, among the first `n`.
pub open spec fn readable(rows: Seq<(String, Option<AllowlistDoc>)>, n: int) -> Seq<int>
    decreases n,
{
    if n <= 0 {
        Seq::empty()
    } else if rows[n - 1].1 is Some {
        readable(rows, n - 1).push(n - 1)
    } else {
        readable(rows, n - 1)
    }
}

proof fn lemma_readable(rows: Seq<(String, Option<AllowlistDoc>)>, n: int)
    requires
        n <= rows.len(),
    ensures
        forall|i: int|
            0 <= i < readable(rows, n).len() ==> 0 <= #[trigger] readable(rows, n)[i] < n
                && rows[readable(rows, n)[i]].1 is Some,
    decreases n,
{
    if n > 0 {
        lemma_readable(rows, n - 1);
        let before = readable(rows, n - 1);
        assert forall|i: int| 0 <= i < readable(rows, n).len() implies 0 <= #[trigger] readable(
            rows,
            n,
        )[i] < n && rows[readable(rows, n)[i]].1 is Some by {
            if i < before.len() {
                assert(readable(rows, n)[i] == before[i]);
            }
        }
    }
}

/// A summary of each allowlist that can be read, in their order; those that
/// cannot are passed over.
pub fn list_allowlists(rows: &Vec<(String, Option<AllowlistDoc>)>) -> (r: Vec<AllowlistSummary>)
    ensures
        r@.len() == readable(rows@, rows@.len() as int).len(),
        forall|i: int|
            0 <= i < r@.len() ==> summarizes(
                #[trigger] r@[i],
                rows@[readable(rows@, rows@.len() as int)[i]].0@,
                rows@[readable(rows@, rows@.len() as int)[i]].1->0,
            ),
{
    let mut out: Vec<AllowlistSummary> = Vec::new();
    let mut i: usize = 0;
    while i < rows.len()
        invariant
            i <= rows@.len(),
            out@.len() == readable(rows@, i as int).len(),
            forall|j: int|
                0 <= j < out@.len() ==> summarizes(
                    #[trigger] out@[j],
                    rows@[readable(rows@, i as int)[j]].0@,
                    rows@[readable(rows@, i as int)[j]].1->0,
                ),
        decreases rows@.len() - i,
    {
        proof {
            lemma_readable(rows@, i as int);
        }
        let ghost before = out@;
        if let Some(doc) = &rows[i].1 {
            let entry_count: u32 = saturating_count(doc.entries.len());
            out.push(
                AllowlistSummary {
                    host_uuid: rows[i].0.clone(),
                    issued_at: doc.issued_at,
                    not_after: doc.not_after,
                    entry_count,
                },
            );
        }
        proof {
            assert forall|j: int| 0 <= j < out@.len() implies summarizes(
                #[trigger] out@[j],
                rows@[readable(rows@, i + 1)[j]].0@,
                rows@[readable(rows@, i + 1)[j]].1->0,
            ) by {
                if j < before.len() {
                    assert(out@[j] == before[j]);
                    assert(readable(rows@, i + 1)[j] == readable(rows@, i as int)[j]);
                }
            }
        }
        i += 1;
    }
    out
}

/// A proposal that waits for review, as operators see it.
#[derive(Debug)]
pub struct PendingProposal {
    /// The host.
    pub host_uuid: String,
    /// The entries.
    pub entries: Vec<AllowEntry>,
    /// Who proposed them.
    pub proposer_spiffe_id: String,
    /// When it was proposed, Unix seconds.
    pub proposed_at: i64,
}

/// Whether a listing shows a host's proposal.
pub open spec fn shows(p: PendingProposal, host_uuid: Seq<char>, rec: ProposalRecord) -> bool {
    &&& p.host_uuid@ == host_uuid
    &&& allow_models(p.entries@) == allow_models(rec.entries@)
    &&& p.proposer_spiffe_id@ == rec.proposer_spiffe_id@
    &&& p.proposed_at == rec.proposed_at
}

fn copy_entries(entries: &Vec<AllowEntry>) -> (r: Vec<AllowEntry>)
    ensures
        allow_models(r@) == allow_models(entries@),
{
    let mut out: Vec<AllowEntry> = Vec::new();
    let mut i: usize = 0;
    while i < entries.len()
        invariant
            i <= entries@.len(),
            out@.len() == i,
            forall|j: int| 0 <= j < i ==> (#[trigger] out@[j])@ == entries@[j]@,
        decreases entries@.len() - i,
    {
        out.push(AllowEntry { uid: entries[i].uid, bin_sha: entries[i].bin_sha.clone() });
        i += 1;
    }
    assert(allow_models(out@) =~= allow_models(entries@));
    out
}

/// Every proposal that waits for review, and no other.
pub fn list_proposals(st: &CmisState) -> (r: Vec<PendingProposal>)
    ensures
        forall|i: int|
            0 <= i < r@.len() ==> st.proposals@.dom().contains((#[trigger] r@[i]).host_uuid@)
                && shows(r@[i], r@[i].host_uuid@, st.proposals@[r@[i].host_uuid@]),
        forall|k: Seq<char>| #[trigger]
            st.proposals@.dom().contains(k) ==> exists|i: int|
                0 <= i < r@.len() && shows(#[trigger] r@[i], k, st.proposals@[k]),
        r@.len() == st.proposals@.dom().len(),
{
    let rows = st.list_proposals();
    proof {
        collections::lemma_entries_map(rows@);
    }
    let mut out: Vec<PendingProposal> = Vec::new();
    let mut i: usize = 0;
    while i < rows.len()
        invariant
            i <= rows@.len(),
            out@.len() == i,
            forall|j: int| 0 <= j < i ==> shows(#[trigger] out@[j], rows@[j].0@, rows@[j].1),
        decreases rows@.len() - i,
    {
        out.push(
            PendingProposal {
                host_uuid: rows[i].0.clone(),
                entries: copy_entries(&rows[i].1.entries),
                proposer_spiffe_id: rows[i].1.proposer_spiffe_id.clone(),
                proposed_at: rows[i].1.proposed_at,
            },
        );
        i += 1;
    }
    proof {
        assert forall|j: int| 0 <= j < out@.len() implies st.proposals@.dom().contains(
            (#[trigger] out@[j]).host_uuid@,
        ) && shows(out@[j], out@[j].host_uuid@, st.proposals@[out@[j].host_uuid@]) by {
            assert(st.proposals@.dom().contains(rows@[j].0@));
            assert(shows(out@[j], rows@[j].0@, rows@[j].1));
        }
        assert forall|k: Seq<char>| #[trigger] st.proposals@.dom().contains(k) implies exists|
            j: int,
        |
            0 <= j < out@.len() && shows(#[trigger] out@[j], k, st.proposals@[k]) by {
            let j = choose|j: int| 0 <= j < rows@.len() && (#[trigger] rows@[j]).0@ == k;
            assert(shows(out@[j], rows@[j].0@, rows@[j].1));
        }
    }
    out
}

/// A proposal gets to policy only from the host itself: the document that was
/// presented names the host that the proposal is for, is signed by the issuer
/// and valid, and is bound to the machine key that signed the proposal.
pub proof fn law_proposal_is_hosts_own(
    issuer: PublicKeyModel,
    ctx: Seq<u8>,
    req: ProposalRequest,
    now: i64,
)
    requires
        proposal_fault(issuer, ctx, req, now) is None,
    ensures
        req.svid matches Some(p) && p.nbf <= now <= p.exp && composite::accepts(
            issuer,
            ctx,
            p.signing_input@,
            composite::signature_from(p.signature@),
        ) && host_of(p.sub@) == Some(req.proposal->0.host_uuid@) && key_thumbprint(req.sep_pub@)
            == p.jkt@,
        req.signature_verifies,
{
}

/// No policy but the one that always adopts replaces an allowlist without
/// review, and the one that never adopts does not even give a first one.
pub proof fn law_policy(policy: ProposalPolicy)
    ensures
        state::adopted(policy, true) <==> policy is Always,
        state::adopted(policy, false) <==> !(policy is Off),
{
}

/// An allowlist never outlives the longest lifetime, if the setting does not.
pub proof fn law_allowlist_lifetime(config: CmisConfig, ttl_secs: i64, now: i64)
    requires
        config.allowlist_ttl_secs <= MAX_ALLOWLIST_TTL_SECS,
    ensures
        requests::later(now, effective_ttl(config, ttl_secs) as int) <= now
            + MAX_ALLOWLIST_TTL_SECS,
{
}

/// A proposal that is in order gets to policy, up to the last second of the
/// document's validity and the last second of the allowed skew.
pub proof fn law_good_proposal_considered(
    issuer: PublicKeyModel,
    ctx: Seq<u8>,
    req: ProposalRequest,
    now: i64,
)
    requires
        req.svid matches Some(p) && p.signature@.len() == composite::COMPOSITE_SIG_LEN
            && composite::accepts(
            issuer,
            ctx,
            p.signing_input@,
            composite::signature_from(p.signature@),
        ) && p.nbf <= now <= p.exp && host_of(p.sub@) == Some(req.proposal->0.host_uuid@)
            && p.jkt@ == encoding::base64url_text(hash::sha256_of(req.sep_pub@)@),
        req.signature_verifies,
        req.proposal matches Some(d) && d.issued_at <= now + PROPOSAL_SKEW_SECS && forall|i: int|
            0 <= i < d.entries@.len() ==> requests::is_sha_text((#[trigger] d.entries@[i]).bin_sha@),
    ensures
        proposal_fault(issuer, ctx, req, now) is None,
{
}

/// A document is refused outside its validity, and unless the issuer signed it.
pub proof fn law_document_refused(
    issuer: PublicKeyModel,
    ctx: Seq<u8>,
    presented: Option<PresentedSvid>,
    now: i64,
)
    requires
        presented matches Some(p) ==> now < p.nbf || now > p.exp || p.signature@.len()
            != composite::COMPOSITE_SIG_LEN || !composite::accepts(
            issuer,
            ctx,
            p.signing_input@,
            composite::signature_from(p.signature@),
        ),
    ensures
        svid_verdict(issuer, ctx, presented, now) matches Err(s) && s.code is Unauthenticated,
{
}

/// The host is what follows the last `/host/` of a subject, and without a name
/// behind it there is none.
pub proof fn law_subject_names_host(prefix: Seq<char>, host: Seq<char>)
    requires
        text::lacks(host, '/'),
    ensures
        host_of(prefix + "/host/"@ + host) == if host.len() > 0 {
            Some(host)
        } else {
            None
        },
{
    reveal_strlit("/host/");
    let s = prefix + "/host/"@ + host;
    lemma_last_host(prefix, host, s.len() as int);
    assert(s.skip(prefix.len() as int + 6) =~= host);
}

proof fn lemma_last_host(prefix: Seq<char>, host: Seq<char>, n: int)
    requires
        text::lacks(host, '/'),
        prefix.len() + 6 <= n <= prefix.len() + 6 + host.len(),
    ensures
        last_host(prefix + "/host/"@ + host, n) == Some(prefix.len() as int),
    decreases n,
{
    reveal_strlit("/host/");
    let s = prefix + "/host/"@ + host;
    if n > prefix.len() + 6 {
        assert(s[n - 1] == host[n - 7 - prefix.len()]);
        assert(s.subrange(n - 6, n)[5] == s[n - 1]);
        assert("/host/"@[5] == '/');
        lemma_last_host(prefix, host, n - 1);
    } else {
        assert(s.subrange(n - 6, n) =~= "/host/"@);
    }
}

/// A subject without `/host/` names no host.
pub proof fn law_other_subject_names_none(sub: Seq<char>)
    requires
        forall|i: int|
            0 <= i <= sub.len() - 6 ==> #[trigger] sub.subrange(i, i + 6) != "/host/"@,
    ensures
        host_of(sub) is None,
{
    lemma_no_host(sub, sub.len() as int);
}

proof fn lemma_no_host(sub: Seq<char>, n: int)
    requires
        n <= sub.len(),
        forall|i: int|
            0 <= i <= sub.len() - 6 ==> #[trigger] sub.subrange(i, i + 6) != "/host/"@,
    ensures
        last_host(sub, n) is None,
    decreases n,
{
    if n >= 6 {
        assert(sub.subrange(n - 6, (n - 6) + 6) != "/host/"@);
        lemma_no_host(sub, n - 1);
    }
}

/// Every allowlist that can be read is listed once, in order, and no other.
pub proof fn law_every_readable_listed(rows: Seq<(String, Option<AllowlistDoc>)>, n: int)
    requires
        0 <= n <= rows.len(),
    ensures
        forall|k: int|
            0 <= k < n ==> (readable(rows, n).contains(k) <==> (#[trigger] rows[k]).1 is Some),
        forall|i: int, j: int|
            0 <= i < j < readable(rows, n).len() ==> #[trigger] readable(rows, n)[i]
                < #[trigger] readable(rows, n)[j],
        forall|i: int| 0 <= i < readable(rows, n).len() ==> 0 <= #[trigger] readable(rows, n)[i] < n,
    decreases n,
{
    lemma_readable(rows, n);
    if n > 0 {
        law_every_readable_listed(rows, n - 1);
        let before = readable(rows, n - 1);
        let all = readable(rows, n);
        assert forall|k: int| 0 <= k < n implies (all.contains(k) <==> (#[trigger] rows[k]).1
            is Some) by {
            if k < n - 1 && before.contains(k) {
                let i = choose|i: int| 0 <= i < before.len() && before[i] == k;
                assert(all[i] == k);
            }
            if all.contains(k) && k < n - 1 {
                let i = choose|i: int| 0 <= i < all.len() && all[i] == k;
                assert(before[i] == k);
            }
            if k == n - 1 && rows[k].1 is Some {
                assert(all[before.len() as int] == k);
            }
        }
    }
}

/// A lifetime that is asked for within the longest is given as it is, and where
/// none is asked for the setting holds.
pub proof fn law_lifetime_given(config: CmisConfig, ttl_secs: i64)
    ensures
        0 < ttl_secs <= MAX_ALLOWLIST_TTL_SECS ==> effective_ttl(config, ttl_secs) == ttl_secs,
        ttl_secs <= 0 ==> effective_ttl(config, ttl_secs) == config.allowlist_ttl_secs,
        ttl_secs > MAX_ALLOWLIST_TTL_SECS ==> effective_ttl(config, ttl_secs)
            == MAX_ALLOWLIST_TTL_SECS,
{
}

/// Entries are kept one for one, in their order, for the same user and with the
/// same digest; a digest without white space around it is kept letter for
/// letter.
pub proof fn law_entries_kept(entries: Seq<AllowEntry>, d: [u8; 48], i: int)
    requires
        0 <= i < entries.len(),
        entries[i].bin_sha@ == encoding::hex_text(d@),
    ensures
        kept_entries(entries).len() == entries.len(),
        kept_entries(entries)[i].uid == entries[i].uid,
        kept_entries(entries)[i].bin_sha == entries[i].bin_sha@,
        requests::is_sha_text(entries[i].bin_sha@),
{
    encoding::lemma_hex_untrimmed(d@);
    requests::law_digest_is_read(d, entries[i].bin_sha@);
}

/// A proposal that is in order is adopted, queued or found to change nothing,
/// always for the host's own allowlist and with its own entries: it is adopted
/// only where policy says so. `r` is what [`propose_allowlist`] gives.
pub proof fn law_proposal_decided(
    st: &CmisState,
    issuer: &CompositePublicKey,
    ctx: &[u8],
    req: &ProposalRequest,
    live: &Option<Vec<AllowEntry>>,
    now: i64,
    r: Result<ProposalDecision, Status>,
)
    requires
        call_ensures(propose_allowlist, (st, issuer, ctx, req, live, now), r),
        proposal_fault(issuer@, ctx@, *req, now) is None,
        req.proposal is Some,
    ensures
        r is Ok,
        r matches Ok(ProposalDecision::Unchanged) ==> (live matches Some(cur) && allow_models(
            cur@,
        ).to_multiset() == kept_entries(req.proposal->0.entries@).to_multiset()),
        r matches Ok(ProposalDecision::Adopt(p)) ==> p.host_uuid@ == req.proposal->0.host_uuid@
            && allow_models(p.entries@) == kept_entries(req.proposal->0.entries@) && !(
        st.config.allowlist_proposal_policy is Off) && (
        st.config.allowlist_proposal_policy is BootstrapOnly ==> !st.allowlists@.dom().contains(
            req.proposal->0.host_uuid@,
        )) && p.issued_at == now,
        r matches Ok(ProposalDecision::Queue { host_uuid, entries, proposer_spiffe_id })
            ==> host_uuid@ == req.proposal->0.host_uuid@ && allow_models(entries@) == kept_entries(
            req.proposal->0.entries@,
        ) && !(st.config.allowlist_proposal_policy is Always),
        live is None && st.config.allowlist_proposal_policy is Off ==> r->Ok_0 is Queue,
        live is None && st.config.allowlist_proposal_policy is Always ==> r->Ok_0 is Adopt,
{
}

} // verus!
