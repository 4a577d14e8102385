//! What the service keeps: its settings, the policy epoch, published keys,
//! revocations, enrolled hosts, pinned host keys, issued documents and caller
//! allowlists.

use vstd::prelude::*;
use crate::attest::verify::TpmQuoteVerifier;
use crate::cmis::fleet_manifest;
use crate::cmis::fleet_manifest::{EnrollmentDecision, FleetStore};
use crate::cmis::host_keys;
use crate::cmis::host_keys::{HostKeyBinding, HostKeys};
use crate::cmis::keys;
use crate::cmis::keys::{Jwk, JwkModel, JwkSet, KeyRegistry};
use crate::cmis::record::{IssuedRecord, IssuedSvid};
use crate::cmis::revocation;
use crate::cmis::revocation::{CrlBody, CrlEntry, CrlSignature, Revocations, SignedCrl};
use crate::collections;
use crate::collections::KeyMap;
use crate::crypto::composite;
use crate::crypto::composite::CompositePublicKey;
use crate::primitives::text;

verus! {

/// When a host's proposal for its caller allowlist is adopted without review.
#[derive(Debug, Clone, Copy, PartialEq, Eq, Structural)]
pub enum ProposalPolicy {
    /// Never.
    Off,
    /// If the host has no allowlist yet.
    BootstrapOnly,
    /// Always.
    Always,
}

impl ProposalPolicy {
    /// The policy that a setting names: `off` or `always`, in any case and with
    /// white space around it; anything else names the policy for first
    /// proposals only.
    pub fn from_env_value(value: &str) -> (r: Self)
        ensures
            r == policy_named(text::ascii_lower(text::trimmed(value@))),
    {
        let v = text::trim(value).to_ascii_lowercase();
        if text::same_text(v.as_str(), "off") {
            ProposalPolicy::Off
        } else if text::same_text(v.as_str(), "always") {
            ProposalPolicy::Always
        } else {
            ProposalPolicy::BootstrapOnly
        }
    }

    /// Whether a proposal is adopted without review.
    pub fn adopts(&self, has_allowlist: bool) -> (r: bool)
        ensures
            r == adopted(*self, has_allowlist),
    {
        match self {
            ProposalPolicy::Off => false,
            ProposalPolicy::BootstrapOnly => !has_allowlist,
            ProposalPolicy::Always => true,
        }
    }
}

/// The policy that a word names.
pub open spec fn policy_named(word: Seq<char>) -> ProposalPolicy {
    if word == "off"@ {
        ProposalPolicy::Off
    } else if word == "always"@ {
        ProposalPolicy::Always
    } else {
        ProposalPolicy::BootstrapOnly
    }
}

/// Whether a policy adopts a proposal without review.
pub open spec fn adopted(policy: ProposalPolicy, has_allowlist: bool) -> bool {
    match policy {
        ProposalPolicy::Off => false,
        ProposalPolicy::BootstrapOnly => !has_allowlist,
        ProposalPolicy::Always => true,
    }
}

/// Settings of the service.
#[derive(Debug, Clone)]
pub struct CmisConfig {
    /// Trust domain.
    pub trust_domain: String,
    /// Lifetime of identity documents in seconds.
    pub svid_ttl_secs: u64,
    /// Policy epoch at the start.
    pub policy_epoch: u64,
    /// When proposals are adopted without review.
    pub allowlist_proposal_policy: ProposalPolicy,
    /// Whether only asserted machine keys are allowed.
    pub require_preregistered_host_key: bool,
    /// Lifetime of allowlists in seconds, where none is asked for.
    pub allowlist_ttl_secs: i64,
}

impl Default for CmisConfig {
    fn default() -> (r: Self)
        ensures
            r.trust_domain@ == "ferrogate.dev"@,
            r.svid_ttl_secs == 3600,
            r.policy_epoch == 1,
            r.allowlist_proposal_policy is BootstrapOnly,
            !r.require_preregistered_host_key,
            r.allowlist_ttl_secs == 72 * 3600,
    {
        CmisConfig {
            trust_domain: "ferrogate.dev".to_owned(),
            svid_ttl_secs: 3600,
            policy_epoch: 1,
            allowlist_proposal_policy: ProposalPolicy::BootstrapOnly,
            require_preregistered_host_key: false,
            allowlist_ttl_secs: 259200,
        }
    }
}

/// A proposal that waits for review.
#[derive(Debug, Clone, PartialEq, Eq)]
pub struct ProposalRecord {
    /// The proposed entries.
    pub entries: Vec<AllowEntry>,
    /// Who proposed them.
    pub proposer_spiffe_id: String,
    /// When, Unix seconds.
    pub proposed_at: i64,
}

/// One allowed caller.
#[derive(Debug, Clone, PartialEq, Eq)]
pub struct AllowEntry {
    /// User, or any.
    pub uid: Option<u32>,
    /// Digest of the binary, 96 hexadecimal digits.
    pub bin_sha: String,
}

/// What the service keeps.
pub struct CmisState {
    /// Settings.
    pub config: CmisConfig,
    /// Verifies quotes.
    pub verifier: TpmQuoteVerifier,
    /// Published keys.
    pub keys: KeyRegistry,
    /// Revocations in force.
    pub revocations: Revocations,
    /// The latest published list.
    pub published_crl: Option<SignedCrl>,
    /// Enrolled hosts.
    pub fleet: FleetStore,
    /// Pinned host keys.
    pub host_keys: HostKeys,
    /// Issued documents, by subject.
    pub svids: KeyMap<String, IssuedRecord>,
    /// Signed allowlists, by host.
    pub allowlists: KeyMap<String, Vec<u8>>,
    /// Proposals that wait for review, by host.
    pub proposals: KeyMap<String, ProposalRecord>,
    /// The policy epoch.
    pub policy_epoch: u64,
}

/// Whether a key set is what a state publishes: its keys in their order, and its
/// latest revocation list.
pub open spec fn is_key_set_of(st: CmisState, set: JwkSet) -> bool {
    &&& keys::models(set.keys@) == keys::published(st.keys@)
    &&& revocation::crl_view(set.crl) == revocation::crl_view(st.published_crl)
}

/// Whether a list is the next one of a state: what has not expired, under the
/// next number. What has expired is dropped from the state for good.
pub open spec fn makes_list(before: CmisState, after: CmisState, now: i64, body: CrlBody) -> bool {
    &&& body.issued_at == now
    &&& body.number == before.revocations@.number + 1
    &&& body@.entries == revocation::unexpired(before.revocations@.entries, now)
    &&& after.revocations@.entries == body@.entries
    &&& after.revocations@.number == body.number
}

/// Whether a state publishes a list with its signature.
pub open spec fn publishes(st: CmisState, body: CrlBody, sig: CrlSignature) -> bool {
    st.published_crl == Some(
        SignedCrl { body, signer_kid: sig.signer_kid, signature_b64: sig.signature_b64 },
    )
}

impl CmisState {
    /// The state at a start.
    pub fn new(issuer_key: Jwk, verifier: TpmQuoteVerifier, config: CmisConfig) -> (r: Self)
        ensures
            r.config == config,
            r.verifier == verifier,
            r.policy_epoch == config.policy_epoch,
            r.keys@ == (keys::RegistryModel {
                issuer: issuer_key@,
                extra_roots: Seq::empty(),
                child_keys: Seq::empty(),
            }),
            r.revocations@.entries.len() == 0,
            r.revocations@.number == 0,
            r.published_crl is None,
            r.fleet@ == fleet_manifest::no_manifest(),
            r.host_keys@ == Map::<[u8; 48], Seq<u8>>::empty(),
            r.svids@ == Map::<Seq<char>, IssuedRecord>::empty(),
            r.allowlists@ == Map::<Seq<char>, Vec<u8>>::empty(),
            r.proposals@ == Map::<Seq<char>, ProposalRecord>::empty(),
    {
        let policy_epoch: u64 = config.policy_epoch;
        CmisState {
            config,
            verifier,
            keys: KeyRegistry::new(issuer_key),
            revocations: Revocations::new(),
            published_crl: None,
            fleet: FleetStore::unenforced(),
            host_keys: HostKeys::new(),
            svids: KeyMap::new(),
            allowlists: KeyMap::new(),
            proposals: KeyMap::new(),
            policy_epoch,
        }
    }

    /// What becomes of a host at the door.
    pub fn check_enrollment(&self, ek_sha: &[u8; 48]) -> (r: EnrollmentDecision)
        ensures
            r == fleet_manifest::decision(self.fleet@, *ek_sha),
    {
        self.fleet.decide(ek_sha)
    }

    /// What a presented machine key is to a fingerprint; a first key is pinned.
    pub fn bind_host_key(&mut self, fp: &[u8; 48], key: &[u8], strict: bool) -> (r:
        HostKeyBinding)
        ensures
            r == host_keys::binding(old(self).fleet@, old(self).host_keys@, *fp, key@, strict),
            final(self).host_keys@ == host_keys::pins_after(
                old(self).fleet@,
                old(self).host_keys@,
                *fp,
                key@,
                strict,
            ),
            same_but_host_keys(*old(self), *final(self)),
    {
        self.host_keys.bind(&self.fleet, fp, key, strict)
    }

    /// What is published for verifiers: the keys, and the latest revocation
    /// list.
    pub fn published_jwks(&self) -> (r: JwkSet)
        ensures
            is_key_set_of(*self, r),
    {
        let crl = match &self.published_crl {
            Some(crl) => Some(crl.duplicate()),
            None => None,
        };
        JwkSet { keys: self.keys.published_keys(), crl }
    }

    /// Publish another root, made at a given time.
    pub fn register_root_key(&mut self, pk: &CompositePublicKey, kid: String, created: i64)
        ensures
            final(self).keys@ == keys::after_root(
                old(self).keys@,
                kid@,
                composite::key_bytes(pk@),
                created,
            ),
            same_but_keys(*old(self), *final(self)),
    {
        self.keys.register_root_key(pk, kid, created);
    }

    /// Publish a host's key for child tokens.
    pub fn register_child_key(&mut self, kid: String, pk: &CompositePublicKey)
        ensures
            final(self).keys@ == keys::after_child(
                old(self).keys@,
                kid@,
                composite::key_bytes(pk@),
            ),
            same_but_keys(*old(self), *final(self)),
    {
        self.keys.register_child_key(kid, pk);
    }

    /// Revoke a document or a host.
    pub fn revoke(&mut self, entry: CrlEntry)
        ensures
            revocation::after_revoking(
                old(self).revocations@.entries,
                entry@,
                final(self).revocations@.entries,
            ),
            final(self).revocations@.number == old(self).revocations@.number,
            same_but_revocations(*old(self), *final(self)),
            final(self).published_crl == old(self).published_crl,
    {
        self.revocations.revoke(entry);
    }

    /// The body of the next revocation list, to be signed.
    pub fn next_crl(&mut self, now: i64) -> (r: CrlBody)
        requires
            old(self).revocations@.number < u64::MAX,
        ensures
            makes_list(*old(self), *final(self), now, r),
            same_but_revocations(*old(self), *final(self)),
            final(self).published_crl == old(self).published_crl,
    {
        self.revocations.next_crl(now)
    }

    /// Publish a revocation list with what signing it gave; its number is
    /// returned. A list that could not be signed leaves the published one as it
    /// is.
    pub fn publish_crl<E>(&mut self, body: CrlBody, signed: Result<CrlSignature, E>) -> (r: Result<
        u64,
        E,
    >)
        ensures
            match signed {
                Ok(sig) => r == Ok::<_, E>(body.number) && publishes(*final(self), body, sig),
                Err(e) => r == Err::<u64, _>(e) && final(self).published_crl == old(
                    self,
                ).published_crl,
            },
            same_but_revocations(*old(self), *final(self)),
            final(self).revocations == old(self).revocations,
    {
        match signed {
            Ok(sig) => {
                let number: u64 = body.number;
                self.published_crl = Some(
                    SignedCrl {
                        body,
                        signer_kid: sig.signer_kid,
                        signature_b64: sig.signature_b64,
                    },
                );
                Ok(number)
            },
            Err(e) => Err(e),
        }
    }

    /// The policy epoch.
    pub fn current_epoch(&self) -> (r: u64)
        ensures
            r == self.policy_epoch,
    {
        self.policy_epoch
    }

    /// Advance the policy epoch by one; the epoch before and after.
    pub fn bump_epoch(&mut self) -> (r: (u64, u64))
        requires
            old(self).policy_epoch < u64::MAX,
        ensures
            r == (old(self).policy_epoch, final(self).policy_epoch),
            final(self).policy_epoch == old(self).policy_epoch + 1,
            same_but_epoch(*old(self), *final(self)),
    {
        let before: u64 = self.policy_epoch;
        self.policy_epoch = before + 1;
        (before, before + 1)
    }

    /// Keep an issued document, by its subject.
    pub fn record(&mut self, record: IssuedRecord)
        ensures
            final(self).svids@ == old(self).svids@.insert(record.bundle.spiffe_id@, record),
            same_but_svids(*old(self), *final(self)),
    {
        let subject = record.bundle.spiffe_id.clone();
        self.svids.insert(subject, record);
    }

    /// What is kept of a subject.
    pub fn lookup(&self, spiffe_id: &str) -> (r: Option<&IssuedRecord>)
        ensures
            r == (if self.svids@.dom().contains(spiffe_id@) {
                Some(&self.svids@[spiffe_id@])
            } else {
                None
            }),
    {
        let key = spiffe_id.to_owned();
        self.svids.get(&key)
    }

    /// Everything that is kept, by subject.
    pub fn list_svids(&self) -> (r: &Vec<(String, IssuedRecord)>)
        ensures
            collections::distinct_keys(r@),
            collections::entries_map(r@) == self.svids@,
    {
        self.svids.entries()
    }

    /// Replace the document of a subject that is kept. What is known of its
    /// last attestation stays.
    pub fn update_bundle(&mut self, spiffe_id: &str, bundle: IssuedSvid)
        ensures
            same_but_svids(*old(self), *final(self)),
            if old(self).svids@.dom().contains(spiffe_id@) {
                final(self).svids@.dom() == old(self).svids@.dom() && renewed(
                    old(self).svids@[spiffe_id@],
                    final(self).svids@[spiffe_id@],
                    bundle,
                ) && forall|k: Seq<char>|
                    k != spiffe_id@ && old(self).svids@.dom().contains(k) ==> #[trigger] final(self).svids@[k] == old(self).svids@[k]
            } else {
                final(self).svids@ == old(self).svids@
            },
    {
        let key = spiffe_id.to_owned();
        let updated: Option<IssuedRecord> = match self.svids.get(&key) {
            Some(rec) => {
                let mut copy = rec.duplicate();
                copy.bundle = bundle;
                Some(copy)
            },
            None => None,
        };
        if let Some(rec) = updated {
            self.svids.insert(key, rec);
            assert(self.svids@.dom() =~= old(self).svids@.dom());
        }
    }

    /// The host keys in issued documents that decode.
    pub fn stored_child_keys(&self) -> (r: Vec<CompositePublicKey>)
        ensures
            forall|i: int|
                0 <= i < r@.len() ==> is_stored_child_key(self.svids@, (#[trigger] r@[i])@),
            forall|subject: Seq<char>| #[trigger]
                self.svids@.dom().contains(subject) ==> (self.svids@[subject].child_pub matches Some(
                    b,
                ) && composite::key_from(b@) is Ok ==> exists|i: int|
                    0 <= i < r@.len() && (#[trigger] r@[i])@ == composite::key_from(
                        self.svids@[subject].child_pub->0@,
                    )->Ok_0),
    {
        let entries = self.svids.entries();
        let mut out: Vec<CompositePublicKey> = Vec::new();
        let mut i: usize = 0;
        proof {
            collections::lemma_entries_map(entries@);
        }
        while i < entries.len()
            invariant
                i <= entries@.len(),
                collections::entries_map(entries@) == self.svids@,
                forall|j: int|
                    0 <= j < entries@.len() ==> self.svids@.dom().contains(
                        (#[trigger] entries@[j]).0@,
                    ) && self.svids@[entries@[j].0@] == entries@[j].1,
                forall|k: Seq<char>| #[trigger]
                    self.svids@.dom().contains(k) ==> exists|j: int|
                        0 <= j < entries@.len() && (#[trigger] entries@[j]).0@ == k,
                forall|j: int|
                    0 <= j < out@.len() ==> is_stored_child_key(self.svids@, (#[trigger] out@[j])@),
                forall|j: int|
                    0 <= j < i ==> ((#[trigger] entries@[j]).1.child_pub matches Some(b)
                        && composite::key_from(b@) is Ok ==> exists|m: int|
                        0 <= m < out@.len() && (#[trigger] out@[m])@ == composite::key_from(
                            entries@[j].1.child_pub->0@,
                        )->Ok_0),
            decreases entries@.len() - i,
        {
            let ghost before = out@;
            if let Some(b) = &entries[i].1.child_pub {
                if let Ok(pk) = CompositePublicKey::from_concat_bytes(b.as_slice()) {
                    out.push(pk);
                    proof {
                        assert(is_stored_child_key(self.svids@, pk@)) by {
                            assert(self.svids@.dom().contains(entries@[i as int].0@));
                        }
                        assert(out@[before.len() as int]@ == pk@);
                    }
                }
            }
            proof {
                assert forall|j: int| 0 <= j < i + 1 implies ((
                #[trigger] entries@[j]).1.child_pub matches Some(b) && composite::key_from(b@) is Ok
                    ==> exists|m: int|
                    0 <= m < out@.len() && (#[trigger] out@[m])@ == composite::key_from(
                        entries@[j].1.child_pub->0@,
                    )->Ok_0) by {
                    if j < i && entries@[j].1.child_pub is Some && composite::key_from(
                        entries@[j].1.child_pub->0@,
                    ) is Ok {
                        let m = choose|m: int|
                            0 <= m < before.len() && (#[trigger] before[m])@
                                == composite::key_from(entries@[j].1.child_pub->0@)->Ok_0;
                        assert(out@[m] == before[m]);
                    }
                }
            }
            i += 1;
        }
        out
    }

    /// Publish host keys from issued documents, each under its identifier.
    pub fn rehydrate_child_keys(&mut self, stored: &Vec<(String, CompositePublicKey)>)
        ensures
            final(self).keys@ == after_children(old(self).keys@, stored@, stored@.len() as int),
            same_but_keys(*old(self), *final(self)),
    {
        let mut i: usize = 0;
        while i < stored.len()
            invariant
                i <= stored@.len(),
                self.keys@ == after_children(old(self).keys@, stored@, i as int),
                same_but_keys(*old(self), *self),
            decreases stored@.len() - i,
        {
            self.register_child_key(stored[i].0.clone(), &stored[i].1);
            i += 1;
        }
    }

    /// Whether a host's key is published under an identifier, after host keys
    /// from issued documents have been published if it was not. Identifiers
    /// that no host key can have are not looked for.
    pub fn ensure_child_key_published(
        &mut self,
        kid: &str,
        stored: &Vec<(String, CompositePublicKey)>,
    ) -> (r: bool)
        ensures
            same_but_keys(*old(self), *final(self)),
            r == (final(self).keys@.issuer.kid == kid@ || keys::has_kid(
                final(self).keys@.child_keys,
                kid@,
            )),
            final(self).keys@ == (if old(self).keys@.issuer.kid == kid@ || keys::has_kid(
                old(self).keys@.child_keys,
                kid@,
            ) || !text::begins_with(kid@, "host-"@) {
                old(self).keys@
            } else {
                after_children(old(self).keys@, stored@, stored@.len() as int)
            }),
    {
        if self.keys.is_published(kid) {
            return true;
        }
        if text::strip_prefix(kid, "host-").is_none() {
            return false;
        }
        self.rehydrate_child_keys(stored);
        self.keys.is_published(kid)
    }

    /// Keep a host's signed allowlist, in place of an earlier one.
    pub fn put_allowlist(&mut self, host_uuid: &str, signed: Vec<u8>)
        ensures
            final(self).allowlists@ == old(self).allowlists@.insert(host_uuid@, signed),
            same_but_allowlists(*old(self), *final(self)),
            final(self).proposals == old(self).proposals,
    {
        let key = host_uuid.to_owned();
        self.allowlists.insert(key, signed);
    }

    /// A host's signed allowlist.
    pub fn get_allowlist(&self, host_uuid: &str) -> (r: Option<&Vec<u8>>)
        ensures
            r == (if self.allowlists@.dom().contains(host_uuid@) {
                Some(&self.allowlists@[host_uuid@])
            } else {
                None
            }),
    {
        let key = host_uuid.to_owned();
        self.allowlists.get(&key)
    }

    /// All signed allowlists, by host.
    pub fn list_allowlists(&self) -> (r: &Vec<(String, Vec<u8>)>)
        ensures
            collections::distinct_keys(r@),
            collections::entries_map(r@) == self.allowlists@,
    {
        self.allowlists.entries()
    }

    /// Drop a host's allowlist; whether there was one.
    pub fn delete_allowlist(&mut self, host_uuid: &str) -> (existed: bool)
        ensures
            existed == old(self).allowlists@.dom().contains(host_uuid@),
            final(self).allowlists@ == old(self).allowlists@.remove(host_uuid@),
            same_but_allowlists(*old(self), *final(self)),
            final(self).proposals == old(self).proposals,
    {
        let key = host_uuid.to_owned();
        self.allowlists.remove(&key)
    }

    /// Keep a proposal for review, in place of an earlier one of the host.
    pub fn put_proposal(&mut self, host_uuid: &str, proposal: ProposalRecord)
        ensures
            final(self).proposals@ == old(self).proposals@.insert(host_uuid@, proposal),
            same_but_allowlists(*old(self), *final(self)),
            final(self).allowlists == old(self).allowlists,
    {
        let key = host_uuid.to_owned();
        self.proposals.insert(key, proposal);
    }

    /// All proposals, by host.
    pub fn list_proposals(&self) -> (r: &Vec<(String, ProposalRecord)>)
        ensures
            collections::distinct_keys(r@),
            collections::entries_map(r@) == self.proposals@,
    {
        self.proposals.entries()
    }

    /// Drop a host's proposal; whether there was one.
    pub fn delete_proposal(&mut self, host_uuid: &str) -> (existed: bool)
        ensures
            existed == old(self).proposals@.dom().contains(host_uuid@),
            final(self).proposals@ == old(self).proposals@.remove(host_uuid@),
            same_but_allowlists(*old(self), *final(self)),
            final(self).allowlists == old(self).allowlists,
    {
        let key = host_uuid.to_owned();
        self.proposals.remove(&key)
    }
}

/// The registry after the first `n` host keys were published.
pub open spec fn after_children(
    m: keys::RegistryModel,
    stored: Seq<(String, CompositePublicKey)>,
    n: int,
) -> keys::RegistryModel
    decreases n,
{
    if n <= 0 {
        m
    } else {
        keys::after_child(
            after_children(m, stored, n - 1),
            stored[n - 1].0@,
            composite::key_bytes(stored[n - 1].1@),
        )
    }
}

/// Whether a key is that of some issued document.
pub open spec fn is_stored_child_key(
    svids: Map<Seq<char>, IssuedRecord>,
    key: composite::PublicKeyModel,
) -> bool {
    exists|subject: Seq<char>| #[trigger]
        svids.dom().contains(subject) && (svids[subject].child_pub matches Some(b)
            && composite::key_from(b@) == Ok::<_, Seq<char>>(key))
}

/// Whether a record is another with a new document.
pub open spec fn renewed(before: IssuedRecord, after: IssuedRecord, bundle: IssuedSvid) -> bool {
    &&& after.bundle == bundle
    &&& after.params@ == before.params@
    &&& after.last_attestation == before.last_attestation
    &&& after@.hostname == before@.hostname
    &&& after@.child_pub == before@.child_pub
}

/// Whether two states differ at most in what is published.
pub open spec fn same_but_keys(a: CmisState, b: CmisState) -> bool {
    &&& same_settings(a, b)
    &&& a.revocations == b.revocations
    &&& a.published_crl == b.published_crl
    &&& a.host_keys == b.host_keys
    &&& a.svids == b.svids
    &&& a.allowlists == b.allowlists
    &&& a.proposals == b.proposals
    &&& a.policy_epoch == b.policy_epoch
}

/// Whether settings, verifier and enrolled hosts are the same.
pub open spec fn same_settings(a: CmisState, b: CmisState) -> bool {
    &&& a.config == b.config
    &&& a.verifier == b.verifier
    &&& a.fleet == b.fleet
}

/// Whether two states differ at most in pinned host keys.
pub open spec fn same_but_host_keys(a: CmisState, b: CmisState) -> bool {
    &&& same_settings(a, b)
    &&& a.keys == b.keys
    &&& a.revocations == b.revocations
    &&& a.published_crl == b.published_crl
    &&& a.svids == b.svids
    &&& a.allowlists == b.allowlists
    &&& a.proposals == b.proposals
    &&& a.policy_epoch == b.policy_epoch
}

/// Whether two states differ at most in revocations and the published list.
pub open spec fn same_but_revocations(a: CmisState, b: CmisState) -> bool {
    &&& same_settings(a, b)
    &&& a.keys == b.keys
    &&& a.host_keys == b.host_keys
    &&& a.svids == b.svids
    &&& a.allowlists == b.allowlists
    &&& a.proposals == b.proposals
    &&& a.policy_epoch == b.policy_epoch
}

/// Whether two states differ at most in the policy epoch.
pub open spec fn same_but_epoch(a: CmisState, b: CmisState) -> bool {
    &&& same_settings(a, b)
    &&& a.keys == b.keys
    &&& a.revocations == b.revocations
    &&& a.published_crl == b.published_crl
    &&& a.host_keys == b.host_keys
    &&& a.svids == b.svids
    &&& a.allowlists == b.allowlists
    &&& a.proposals == b.proposals
}

/// Whether two states differ at most in issued documents.
pub open spec fn same_but_svids(a: CmisState, b: CmisState) -> bool {
    &&& same_settings(a, b)
    &&& a.keys == b.keys
    &&& a.revocations == b.revocations
    &&& a.published_crl == b.published_crl
    &&& a.host_keys == b.host_keys
    &&& a.allowlists == b.allowlists
    &&& a.proposals == b.proposals
    &&& a.policy_epoch == b.policy_epoch
}

/// Whether two states differ at most in allowlists and proposals.
pub open spec fn same_but_allowlists(a: CmisState, b: CmisState) -> bool {
    &&& same_settings(a, b)
    &&& a.keys == b.keys
    &&& a.revocations == b.revocations
    &&& a.published_crl == b.published_crl
    &&& a.host_keys == b.host_keys
    &&& a.svids == b.svids
    &&& a.policy_epoch == b.policy_epoch
}

/// A target that was revoked is on the list that verifiers are given with the
/// keys, once a list made before the revocation has expired is signed and
/// published: the set carries that list, under that signature.
pub proof fn law_revocation_reaches_key_set(
    before: CmisState,
    entry: CrlEntry,
    revoked: CmisState,
    now: i64,
    body: CrlBody,
    listed: CmisState,
    sig: CrlSignature,
    published: CmisState,
    set: JwkSet,
)
    requires
        revocation::after_revoking(
            before.revocations@.entries,
            entry@,
            revoked.revocations@.entries,
        ),
        entry.expires_at > now,
        makes_list(revoked, listed, now, body),
        publishes(published, body, sig),
        is_key_set_of(published, set),
    ensures
        set.crl matches Some(crl) && crl@.body == body@ && crl@.signer_kid == sig.signer_kid@
            && crl@.signature_b64 == sig.signature_b64@ && revocation::revokes(
            crl@.body.entries,
            entry@.target,
        ),
{
    revocation::law_revoked_until_expiry(
        before.revocations@.entries,
        entry@,
        revoked.revocations@.entries,
        now,
    );
}

/// Publishing host keys from issued documents makes each of them resolvable by
/// its identifier.
pub proof fn law_rehydration_publishes(
    m: keys::RegistryModel,
    stored: Seq<(String, CompositePublicKey)>,
    n: int,
    i: int,
)
    requires
        0 <= i < n <= stored.len(),
    ensures
        ({
            let after = after_children(m, stored, n);
            after.issuer.kid == stored[i].0@ || keys::has_kid(after.child_keys, stored[i].0@)
        }),
    decreases n,
{
    let before = after_children(m, stored, n - 1);
    let public = composite::key_bytes(stored[n - 1].1@);
    if i == n - 1 {
        keys::lemma_after_child_has(before, stored[i].0@, public);
    } else {
        law_rehydration_publishes(m, stored, n - 1, i);
        keys::lemma_after_child_keeps(before, stored[n - 1].0@, public, stored[i].0@);
    }
}

/// The words `off` and `always` name their policies, and no other word names
/// one that is laxer or stricter than adopting first proposals.
pub proof fn law_policy_words(word: Seq<char>)
    ensures
        policy_named(word) is Off <==> word == "off"@,
        policy_named(word) is Always <==> word == "always"@,
{
    reveal_strlit("off");
    reveal_strlit("always");
    assert("off"@.len() != "always"@.len());
}

/// A host key that is published from an issued document is published with its
/// own bytes, unless its identifier was taken before.
pub proof fn law_rehydrated_key(
    m: keys::RegistryModel,
    stored: Seq<(String, CompositePublicKey)>,
    n: int,
    i: int,
)
    requires
        0 <= i < n <= stored.len(),
        stored[i].0@ != m.issuer.kid,
        !keys::has_kid(m.child_keys, stored[i].0@),
        forall|j: int| 0 <= j < i ==> (#[trigger] stored[j]).0@ != stored[i].0@,
    ensures
        after_children(m, stored, n).child_keys.contains(
            JwkModel {
                kid: stored[i].0@,
                public: composite::key_bytes(stored[i].1@),
                created: None,
            },
        ),
        m.child_keys.is_prefix_of(after_children(m, stored, n).child_keys),
        after_children(m, stored, n).extra_roots == m.extra_roots,
        after_children(m, stored, n).issuer == m.issuer,
    decreases n,
{
    let k = JwkModel {
        kid: stored[i].0@,
        public: composite::key_bytes(stored[i].1@),
        created: None,
    };
    let before = after_children(m, stored, n - 1);
    let after = after_children(m, stored, n);
    let public = composite::key_bytes(stored[n - 1].1@);
    keys::law_child_key_published(before, stored[n - 1].0@, public);
    if i < n - 1 {
        law_rehydrated_key(m, stored, n - 1, i);
        let p = choose|p: int| 0 <= p < before.child_keys.len() && before.child_keys[p] == k;
        assert(after.child_keys[p] == k);
    } else {
        lemma_children_new(m, stored, n - 1, stored[i].0@);
        assert(after.child_keys[after.child_keys.len() - 1] == k);
    }
}

proof fn lemma_children_new(
    m: keys::RegistryModel,
    stored: Seq<(String, CompositePublicKey)>,
    n: int,
    kid: Seq<char>,
)
    requires
        0 <= n <= stored.len(),
        !keys::has_kid(m.child_keys, kid),
        forall|j: int| 0 <= j < n ==> (#[trigger] stored[j]).0@ != kid,
    ensures
        !keys::has_kid(after_children(m, stored, n).child_keys, kid),
        m.child_keys.is_prefix_of(after_children(m, stored, n).child_keys),
        after_children(m, stored, n).extra_roots == m.extra_roots,
        after_children(m, stored, n).issuer == m.issuer,
    decreases n,
{
    if n > 0 {
        lemma_children_new(m, stored, n - 1, kid);
        let before = after_children(m, stored, n - 1);
        let after = after_children(m, stored, n);
        keys::law_child_key_published(
            before,
            stored[n - 1].0@,
            composite::key_bytes(stored[n - 1].1@),
        );
        assert forall|j: int| 0 <= j < after.child_keys.len() implies (
        #[trigger] after.child_keys[j]).kid != kid by {
            if j < before.child_keys.len() {
                assert(after.child_keys[j] == before.child_keys[j]);
                if before.child_keys[j].kid == kid {
                    keys::law_key_found(before.child_keys, kid, j);
                }
            }
        }
        keys::law_no_other_key_found(after.child_keys, kid);
    }
}

} // verus!
