use base64::engine::general_purpose::URL_SAFE_NO_PAD;
use base64::Engine;
use ferrogate::attest::rim::RimStore;
use ferrogate::attest::rim_bundle::TrustedKeys;
use ferrogate::attest::vendor::VendorTrustStore;
use ferrogate::attest::verify::{RejectReason, TpmQuoteVerifier};
use ferrogate::audit::event::AuditEvent;
use ferrogate::audit::log::AuditLog;
use ferrogate::audit::store::{AuditStore, AuditStoreError};
use ferrogate::audit::sth::{verify_sth, InProcessSigner, SignedTreeHead};
use ferrogate::audit::cosign::CoSignedTreeHead;
use ferrogate::cmis::allowlist::{
    adopt_proposal, delete_allowlist, delete_proposal, entries_match, get_allowlist,
    list_allowlists, list_proposals, plan_allowlist, propose_allowlist, queue_proposal, set_allowlist,
    subject_host, AllowlistDoc, AllowlistPlan, PresentedSvid, ProposalDecision, ProposalDoc,
    ProposalRequest, SigningFailure, MAX_ALLOWLIST_TTL_SECS,
};
use ferrogate::cmis::attest::{
    Action, AttestInit, ClientMessage, Csr, Handshake, HostKeyEvidence, HOST_KEY_POLICY_ID,
};
use ferrogate::cmis::cluster_store::{decode, list_records, WireError, WireIssuedRecord};
use ferrogate::cmis::credential::{CredentialError, CredentialMaker, WrappedCredential};
use ferrogate::cmis::fleet_manifest::{
    EnrollmentDecision, FleetError, FleetManifest, FleetManifestLoader, FleetReloadError,
    FleetReloadOutcome, FleetStore, MachinePubkey, SignedFleetManifest,
};
use ferrogate::cmis::host_keys::HostKeyBinding;
use ferrogate::cmis::keys::Jwk;
use ferrogate::cmis::pcr::{aggregate_digest, reported_digest};
use ferrogate::cmis::record::{IssueParams, IssuedRecord, IssuedSvid, LastAttestation};
use ferrogate::cmis::requests::{parse_cert_sha, revocation_reason, saturating_count};
use ferrogate::cmis::revocation::{CrlBody, CrlEntry, CrlSignature, RevocationTarget};
use ferrogate::cmis::seed::{advance, mirror_needed, parse_seed, SeedEvent, SeedStep};
use ferrogate::cmis::service::{
    append_audit_event, audit_record, bump_epoch, check_rotation, consistency_proof, fetch_svid,
    finish_rotation, get_enrollment_key, health, inclusion_proof, latest_sth, list_svids, publish_crl_now, revoke_host,
    revoke_svid, summary, ClusterState, NodeRole, Renewal,
};
use ferrogate::cmis::transport::{load_pem_identity, require_certs, require_key, KeyKind};
use ferrogate::cmis::startup::{
    cluster_plan, configure, is_truthy, load_single_key_trust, parse_peers, resolve_peer_tls,
    resolve_tls, ttl_setting, ClusterEnv, Nodes, PeerTls, StartupError, MAX_TTL_SECS, MIN_TTL_SECS,
};
use ferrogate::cmis::state::{AllowEntry, CmisConfig, CmisState, ProposalPolicy};
use ferrogate::cmis::status::{verifier_status, Code, Status};
use ferrogate::crypto::composite::{CompositePublicKey, CompositeSecretKey, CompositeSignature};
use ferrogate::machineid::MachineFacts;
use serde_json::Value;
use sha2::{Digest, Sha256, Sha384};
use std::cell::RefCell;
use std::collections::BTreeMap;

const CRL_CTX: &[u8] = b"ferrogate-crl-v1";
const SVID_CTX: &[u8] = b"ferrogate-svid-v1";
const NOW: i64 = 1_770_000_000;

fn keypair() -> (CompositeSecretKey, CompositePublicKey) {
    CompositeSecretKey::generate().unwrap()
}

fn state_of(kid: &str, config: CmisConfig) -> (CmisState, CompositeSecretKey, CompositePublicKey) {
    let (sk, pk) = keypair();
    let verifier = TpmQuoteVerifier::new(VendorTrustStore::new(), RimStore::new());
    let st = CmisState::new(Jwk::from_public_key(kid.to_string(), &pk), verifier, config);
    (st, sk, pk)
}

fn plain_state() -> CmisState {
    state_of("cmis-test-1", CmisConfig::default()).0
}

// ---- replicated records ----

fn sample_record() -> IssuedRecord {
    IssuedRecord {
        params: IssueParams {
            ek_cert_sha384: [0xABu8; 48],
            pcr_digest: [0x11u8; 48],
            policy_id: "fleet-a".into(),
            dpop_jkt: "thumb".into(),
            ttl_secs: 3600,
            tee_evidence_id: Some("tee-1".into()),
        },
        last_attestation: LastAttestation {
            at: 1_700_000_000,
            pcr_digest: [0x22u8; 48],
            policy_epoch: 7,
        },
        bundle: IssuedSvid {
            jws: "eyJ...".into(),
            spiffe_id: "spiffe://td/host/x".into(),
            iat: 1_700_000_000,
            exp: 1_700_003_600,
        },
        hostname: None,
        child_pub: None,
    }
}

fn text_option(v: &Option<String>) -> Value {
    match v {
        Some(s) => Value::from(s.clone()),
        None => Value::Null,
    }
}

fn wire_to_json(w: &WireIssuedRecord) -> Vec<u8> {
    let mut m = serde_json::Map::new();
    m.insert("ek_cert_sha384_hex".into(), w.ek_cert_sha384_hex.clone().into());
    m.insert("pcr_digest_hex".into(), w.pcr_digest_hex.clone().into());
    m.insert("policy_id".into(), w.policy_id.clone().into());
    m.insert("dpop_jkt".into(), w.dpop_jkt.clone().into());
    m.insert("ttl_secs".into(), w.ttl_secs.into());
    m.insert("tee_evidence_id".into(), text_option(&w.tee_evidence_id));
    m.insert("last_attestation_at".into(), w.last_attestation_at.into());
    m.insert("last_pcr_digest_hex".into(), w.last_pcr_digest_hex.clone().into());
    m.insert("last_policy_epoch".into(), w.last_policy_epoch.into());
    m.insert("jws".into(), w.jws.clone().into());
    m.insert("spiffe_id".into(), w.spiffe_id.clone().into());
    m.insert("iat".into(), w.iat.into());
    m.insert("exp".into(), w.exp.into());
    m.insert("hostname".into(), text_option(&w.hostname));
    m.insert("child_pub_hex".into(), text_option(&w.child_pub_hex));
    serde_json::to_vec(&Value::Object(m)).unwrap()
}

fn s(v: &Value) -> String {
    v.as_str().unwrap().to_string()
}

fn wire_from_json(b: &[u8]) -> WireIssuedRecord {
    let v: Value = serde_json::from_slice(b).unwrap();
    WireIssuedRecord {
        ek_cert_sha384_hex: s(&v["ek_cert_sha384_hex"]),
        pcr_digest_hex: s(&v["pcr_digest_hex"]),
        policy_id: s(&v["policy_id"]),
        dpop_jkt: s(&v["dpop_jkt"]),
        ttl_secs: v["ttl_secs"].as_u64().unwrap(),
        tee_evidence_id: v["tee_evidence_id"].as_str().map(String::from),
        last_attestation_at: v["last_attestation_at"].as_i64().unwrap(),
        last_pcr_digest_hex: s(&v["last_pcr_digest_hex"]),
        last_policy_epoch: v["last_policy_epoch"].as_u64().unwrap(),
        jws: s(&v["jws"]),
        spiffe_id: s(&v["spiffe_id"]),
        iat: v["iat"].as_i64().unwrap(),
        exp: v["exp"].as_i64().unwrap(),
        hostname: v["hostname"].as_str().map(String::from),
        child_pub_hex: v["child_pub_hex"].as_str().map(String::from),
    }
}

#[test]
fn roundtrip_through_json() {
    let r = sample_record();
    let bytes = wire_to_json(&WireIssuedRecord::from_record(&r));
    let back = wire_from_json(&bytes).into_record().unwrap();
    assert_eq!(back.params.ek_cert_sha384, r.params.ek_cert_sha384);
    assert_eq!(back.params.pcr_digest, r.params.pcr_digest);
    assert_eq!(back.params.policy_id, r.params.policy_id);
    assert_eq!(back.params.tee_evidence_id, r.params.tee_evidence_id);
    assert_eq!(back.last_attestation.at, r.last_attestation.at);
    assert_eq!(
        back.last_attestation.pcr_digest,
        r.last_attestation.pcr_digest
    );
    assert_eq!(back.bundle.jws, r.bundle.jws);
    assert_eq!(back.bundle.spiffe_id, r.bundle.spiffe_id);
}

#[test]
fn rejects_short_hex() {
    let mut wire = WireIssuedRecord::from_record(&sample_record());
    wire.ek_cert_sha384_hex = "ab".into();
    let bytes = wire_to_json(&wire);
    let err = wire_from_json(&bytes).into_record().unwrap_err();
    match err {
        WireError::Hex { field, .. } => assert_eq!(field, "ek_cert_sha384_hex"),
        WireError::Json(e) => panic!("expected hex error, got json: {e}"),
    }
}

#[test]
fn every_field_of_a_record_survives_replication() {
    let mut r = sample_record();
    r.hostname = Some("web-1".into());
    r.child_pub = Some(vec![0, 255, 16]);
    let w = WireIssuedRecord::from_record(&r);
    assert_eq!(w.pcr_digest_hex, "11".repeat(48));
    assert_eq!(w.child_pub_hex.as_deref(), Some("00ff10"));
    assert_eq!(w.into_record().unwrap(), r);
    let mut w = WireIssuedRecord::from_record(&r);
    w.child_pub_hex = Some("zz".into());
    assert!(matches!(
        w.into_record(),
        Err(WireError::Hex {
            field: "child_pub_hex",
            ..
        })
    ));
}

// ---- fleet manifest ----

fn ek_hex(byte: u8) -> String {
    hex::encode([byte; 48])
}

fn sample(version: u64, eks: &[u8]) -> FleetManifest {
    FleetManifest {
        version,
        trust_domain: "ferrogate.test".to_string(),
        issued_at: 1_700_000_000,
        enrolled_ek_sha384: eks.iter().map(|b| ek_hex(*b)).collect(),
        enrolled_machine_id: Vec::new(),
        enrolled_machine_pubkey: Vec::new(),
    }
}

fn trust_with(kid: &str, pk: CompositePublicKey) -> TrustedKeys {
    let mut t = TrustedKeys::new();
    t.add(kid.to_string(), pk);
    t
}

fn sign_manifest(m: FleetManifest, kid: &str, sk: &CompositeSecretKey) -> SignedFleetManifest {
    SignedFleetManifest::sign(m, kid.to_string(), sk).unwrap()
}

#[test]
fn fleet_manifest_sign_then_verify_roundtrips() {
    let (sk, pk) = keypair();
    let signed = sign_manifest(sample(1, &[0xAA]), "fleet-1", &sk);
    let trust = trust_with("fleet-1", pk);
    let verified = signed.verify(&trust).expect("verify ok");
    assert_eq!(verified.version, 1);
}

#[test]
fn fleet_manifest_unknown_kid_is_refused_before_crypto() {
    let (sk, _pk) = keypair();
    let signed = sign_manifest(sample(1, &[0xAA]), "evil", &sk);
    let err = signed.verify(&TrustedKeys::new()).unwrap_err();
    assert!(matches!(err, FleetError::UnknownKid(_)));
}

#[test]
fn tampered_manifest_fails_signature() {
    let (sk, pk) = keypair();
    let mut signed = sign_manifest(sample(1, &[0xAA]), "fleet-1", &sk);
    signed.manifest.enrolled_ek_sha384[0] = ek_hex(0xBB);
    let trust = trust_with("fleet-1", pk);
    assert!(matches!(
        signed.verify(&trust),
        Err(FleetError::BadSignature(_))
    ));
}

#[test]
fn fleet_manifest_json_roundtrip_preserves_signature() {
    let (sk, pk) = keypair();
    let signed = sign_manifest(sample(3, &[1, 2, 3]), "p", &sk);
    let mut m = serde_json::Map::new();
    m.insert(
        "manifest".into(),
        serde_json::from_slice(&signed.manifest.canonical_json().unwrap()).unwrap(),
    );
    m.insert("signer_kid".into(), signed.signer_kid.clone().into());
    m.insert("signature_b64".into(), signed.signature_b64.clone().into());
    let blob = serde_json::to_vec(&Value::Object(m)).unwrap();
    let v: Value = serde_json::from_slice(&blob).unwrap();
    let back = SignedFleetManifest {
        manifest: FleetManifest {
            version: v["manifest"]["version"].as_u64().unwrap(),
            trust_domain: s(&v["manifest"]["trust_domain"]),
            issued_at: v["manifest"]["issued_at"].as_i64().unwrap(),
            enrolled_ek_sha384: v["manifest"]["enrolled_ek_sha384"]
                .as_array()
                .unwrap()
                .iter()
                .map(s)
                .collect(),
            enrolled_machine_id: Vec::new(),
            enrolled_machine_pubkey: Vec::new(),
        },
        signer_kid: s(&v["signer_kid"]),
        signature_b64: s(&v["signature_b64"]),
    };
    let trust = trust_with("p", pk);
    back.verify(&trust).expect("verify after json roundtrip");
}

#[test]
fn to_enrolled_rejects_bad_hex() {
    let mut m = sample(1, &[0xAA]);
    m.enrolled_ek_sha384[0] = "not-hex".to_string();
    assert!(matches!(m.to_enrolled(), Err(FleetError::BadEkHash(_))));
}

#[test]
fn enrolled_lookup_and_decisions() {
    let hosts = sample(1, &[0xAA, 0xBB]).to_enrolled().unwrap();
    assert!(hosts.is_enforced());
    assert_eq!(hosts.len(), 2);
    assert_eq!(hosts.decide(&[0xAA; 48]), EnrollmentDecision::Enrolled);
    assert_eq!(hosts.decide(&[0xCC; 48]), EnrollmentDecision::Rejected);
}

#[test]
fn machine_ids_enroll_alongside_ek_hashes() {
    let mut m = sample(1, &[0xAA]);
    m.enrolled_machine_id = vec![ek_hex(0xCC)];
    let hosts = m.to_enrolled().unwrap();
    assert_eq!(hosts.len(), 2);
    // EK host and host-key host both admitted from the one set.
    assert_eq!(hosts.decide(&[0xAA; 48]), EnrollmentDecision::Enrolled);
    assert_eq!(hosts.decide(&[0xCC; 48]), EnrollmentDecision::Enrolled);
    assert_eq!(hosts.decide(&[0xBB; 48]), EnrollmentDecision::Rejected);
}

#[test]
fn preregistered_pubkey_enrolls_and_pins() {
    let mut m = sample(1, &[]);
    let fp = ek_hex(0xDD);
    m.enrolled_machine_pubkey = vec![MachinePubkey {
        fingerprint: fp.clone(),
        sep_pub_b64: URL_SAFE_NO_PAD.encode([0x99u8; 91]),
    }];
    let hosts = m.to_enrolled().unwrap();
    // The fingerprint is auto-enrolled...
    assert_eq!(hosts.decide(&[0xDD; 48]), EnrollmentDecision::Enrolled);
    // ...and its key is pinned for the host-key handshake.
    assert_eq!(hosts.preregistered(&[0xDD; 48]), Some(&[0x99u8; 91][..]));
    assert_eq!(hosts.preregistered(&[0xEE; 48]), None);
}

#[test]
fn empty_machine_ids_omitted_from_canonical_json() {
    let json = String::from_utf8(sample(1, &[0xAA]).canonical_json().unwrap()).unwrap();
    assert!(!json.contains("enrolled_machine_id"));
}

#[test]
fn machine_id_signature_roundtrips() {
    let (sk, pk) = keypair();
    let mut m = sample(2, &[0xAA]);
    m.enrolled_machine_id = vec![ek_hex(0xCC)];
    let signed = sign_manifest(m, "fleet-1", &sk);
    let trust = trust_with("fleet-1", pk);
    let verified = signed.verify(&trust).expect("verify ok");
    assert_eq!(verified.enrolled_machine_id.len(), 1);
}

#[test]
fn unenforced_admits_everything() {
    let store = FleetStore::unenforced();
    assert_eq!(store.current_version(), 0);
    assert_eq!(store.decide(&[0x11; 48]), EnrollmentDecision::NotEnforced);
}

#[test]
fn apply_swaps_snapshot_atomically() {
    let mut store = FleetStore::unenforced();
    let before = store.snapshot().is_enforced();
    store.apply(sample(5, &[0xAA]).to_enrolled().unwrap());
    assert_eq!(store.current_version(), 5);
    assert_eq!(store.decide(&[0xAA; 48]), EnrollmentDecision::Enrolled);
    assert_eq!(store.decide(&[0xBB; 48]), EnrollmentDecision::Rejected);
    assert!(!before);
}

#[test]
fn a_store_starts_with_the_hosts_it_is_given() {
    let store = FleetStore::with_enrolled(sample(9, &[0xAA]).to_enrolled().unwrap());
    assert_eq!(store.current_version(), 9);
    assert_eq!(store.decide(&[0xAA; 48]), EnrollmentDecision::Enrolled);
    assert_eq!(store.decide(&[0xBB; 48]), EnrollmentDecision::Rejected);
}

#[test]
fn the_signed_form_of_a_manifest_is_compact_json() {
    let mut m = sample(4, &[]);
    m.trust_domain = "a\"b".into();
    m.enrolled_ek_sha384 = vec!["x".into(), "y".into()];
    m.enrolled_machine_pubkey = vec![MachinePubkey {
        fingerprint: "f".into(),
        sep_pub_b64: "k".into(),
    }];
    let text = String::from_utf8(m.canonical_json().unwrap()).unwrap();
    assert_eq!(
        text,
        "{\"version\":4,\"trust_domain\":\"a\\\"b\",\"issued_at\":1700000000,\
         \"enrolled_ek_sha384\":[\"x\",\"y\"],\
         \"enrolled_machine_pubkey\":[{\"fingerprint\":\"f\",\"sep_pub_b64\":\"k\"}]}"
    );
}

#[test]
fn only_newer_manifests_are_taken_up() {
    let (sk, pk) = keypair();
    let loader = FleetManifestLoader::new("/etc/fleet.json".into(), trust_with("p", pk));
    assert_eq!(loader.path(), "/etc/fleet.json");
    let mut store = FleetStore::unenforced();
    let first = sign_manifest(sample(2, &[0xAA]), "p", &sk);
    assert_eq!(
        loader.try_reload(Ok(first), &mut store).unwrap(),
        FleetReloadOutcome::Applied {
            version: 2,
            enrolled: 1
        }
    );
    let same = sign_manifest(sample(2, &[0xBB]), "p", &sk);
    assert_eq!(
        loader.try_reload(Ok(same), &mut store).unwrap(),
        FleetReloadOutcome::UpToDate { version: 2 }
    );
    assert_eq!(store.decide(&[0xBB; 48]), EnrollmentDecision::Rejected);
    let mut bad = sample(3, &[0xAA]);
    bad.enrolled_ek_sha384.push("00".into());
    let bad = sign_manifest(bad, "p", &sk);
    match loader.try_reload(Ok(bad), &mut store) {
        Err(FleetReloadError::Manifest(FleetError::BadEkHash(m))) => {
            assert!(m.contains("expected 96 hex chars, got 2"), "{m}")
        }
        other => panic!("{other:?}"),
    }
    let unread = FleetReloadError::Io {
        path: "/etc/fleet.json".into(),
        message: "gone".into(),
    };
    assert!(matches!(
        loader.try_reload(Err(unread), &mut store),
        Err(FleetReloadError::Io { .. })
    ));
    assert_eq!(store.current_version(), 2);
}

// ---- seeds ----

#[test]
fn parse_seed_requires_exactly_32_bytes() {
    assert!(parse_seed(&[0u8; 32], "x").is_ok());
    assert!(parse_seed(&[0u8; 31], "x").is_err());
    assert!(parse_seed(&[0u8; 33], "x").is_err());
    assert!(parse_seed(&[], "x").is_err());
}

/// A cluster with one node, which always leads.
struct OneNode {
    held: Option<Vec<u8>>,
    disk: Option<Vec<u8>>,
    fresh: [u8; 32],
}

impl OneNode {
    fn resolve(&mut self) -> Result<[u8; 32], StartupError> {
        let mut step = SeedStep::Fetch;
        loop {
            let event = match step {
                SeedStep::Fetch => SeedEvent::Fetched(self.held.clone()),
                SeedStep::AskLeader => SeedEvent::Leads(true, 0),
                SeedStep::ReadDisk => SeedEvent::OnDisk(self.disk.clone()),
                SeedStep::Mint => SeedEvent::Minted(self.fresh),
                SeedStep::Offer(seed) => {
                    let free = self.held.is_none();
                    if free {
                        self.held = Some(seed.to_vec());
                    }
                    SeedEvent::Accepted(free)
                }
                SeedStep::Sleep => SeedEvent::Woke,
                SeedStep::Use(seed) => {
                    if mirror_needed(self.disk.as_deref(), &seed) {
                        self.disk = Some(seed.to_vec());
                    }
                    return Ok(seed);
                }
            };
            step = advance(step, event, "issuer.seed")?;
        }
    }
}

#[test]
fn resolve_adopts_existing_on_disk_seed() {
    let existing = [0x42u8; 32];
    let mut node = OneNode {
        held: None,
        disk: Some(existing.to_vec()),
        fresh: [9; 32],
    };
    let seed = node.resolve().unwrap();
    assert_eq!(seed, existing, "must adopt the on-disk seed");
    // It was promoted into the cluster.
    assert_eq!(node.held, Some(existing.to_vec()));
}

#[test]
fn resolve_mints_and_then_reuses_a_fresh_seed() {
    let mut node = OneNode {
        held: None,
        disk: None,
        fresh: [7; 32],
    };
    let first = node.resolve().unwrap();
    node.fresh = [8; 32];
    let second = node.resolve().unwrap();
    assert_eq!(
        first, second,
        "an established seed is stable across resolves"
    );
}

#[test]
fn mirror_heals_a_diverged_on_disk_seed() {
    assert!(mirror_needed(None, &[2; 32]));
    assert!(mirror_needed(Some(&[1; 32]), &[2; 32]));
    assert!(!mirror_needed(Some(&[2; 32]), &[2; 32]));
    let mut node = OneNode {
        held: Some(vec![2; 32]),
        disk: Some(vec![1; 32]),
        fresh: [0; 32],
    };
    assert_eq!(node.resolve().unwrap(), [2; 32]);
    assert_eq!(node.disk, Some(vec![2; 32]));
}

#[test]
fn a_follower_waits_but_not_for_ever() {
    let wait = advance(SeedStep::AskLeader, SeedEvent::Leads(false, 19_999), "d").unwrap();
    assert_eq!(wait, SeedStep::Sleep);
    assert_eq!(
        advance(wait, SeedEvent::Woke, "d").unwrap(),
        SeedStep::Fetch
    );
    assert_eq!(
        advance(SeedStep::AskLeader, SeedEvent::Leads(false, 20_000), "d").unwrap(),
        SeedStep::ReadDisk
    );
    // An offer that lost the race leads back to what the cluster holds.
    assert_eq!(
        advance(SeedStep::Offer([1; 32]), SeedEvent::Accepted(false), "d").unwrap(),
        SeedStep::Fetch
    );
    match advance(SeedStep::ReadDisk, SeedEvent::OnDisk(Some(vec![0; 3])), "d") {
        Err(StartupError::SeedLength { src, len }) => assert_eq!((src.as_str(), len), ("d", 3)),
        other => panic!("{other:?}"),
    }
}

// ---- PCR aggregates ----

#[test]
fn order_independent_of_input_order() {
    let a = aggregate_digest(&[(4, vec![1, 2]), (0, vec![3, 4]), (7, vec![5])]);
    let b = aggregate_digest(&[(0, vec![3, 4]), (7, vec![5]), (4, vec![1, 2])]);
    assert_eq!(a, b);
}

#[test]
fn different_values_differ() {
    let a = aggregate_digest(&[(0, vec![1])]);
    let b = aggregate_digest(&[(0, vec![2])]);
    assert_ne!(a, b);
}

#[test]
fn the_aggregate_is_the_digest_of_the_values_by_index() {
    let got = aggregate_digest(&[(7, vec![5]), (0, vec![3, 4])]);
    assert_eq!(got.to_vec(), Sha384::digest([3u8, 4, 5]).to_vec());
    let reported = reported_digest(&vec![(7, vec![5]), (0, vec![3, 4])]);
    assert_eq!(reported, got);
}

#[test]
fn the_last_value_of_an_index_wins() {
    let got = aggregate_digest(&[(0, vec![1]), (3, vec![9]), (0, vec![2])]);
    assert_eq!(got.to_vec(), Sha384::digest([2u8, 9]).to_vec());
    assert_eq!(got, aggregate_digest(&[(3, vec![9]), (0, vec![2])]));
}

// ---- allowlists ----

fn entry(uid: u32, byte: u8) -> AllowEntry {
    AllowEntry {
        uid: Some(uid),
        bin_sha: hex::encode([byte; 48]),
    }
}

fn entries_json(entries: &[AllowEntry]) -> Value {
    entries
        .iter()
        .map(|e| {
            let mut m = serde_json::Map::new();
            m.insert(
                "uid".into(),
                match e.uid {
                    Some(u) => u.into(),
                    None => Value::Null,
                },
            );
            m.insert("bin_sha".into(), e.bin_sha.clone().into());
            Value::Object(m)
        })
        .collect::<Vec<Value>>()
        .into()
}

/// Sign an allowlist as a service does: a body, and a signature on it.
fn sign_plan(plan: &AllowlistPlan, domain: &str, sk: &CompositeSecretKey) -> Vec<u8> {
    let mut m = serde_json::Map::new();
    m.insert("trust_domain".into(), domain.into());
    m.insert("issued_at".into(), plan.issued_at.into());
    m.insert("not_after".into(), plan.not_after.into());
    m.insert("entries".into(), entries_json(&plan.entries));
    let body = serde_json::to_vec(&Value::Object(m)).unwrap();
    let mut out = sk.sign(b"allowlist", &body).unwrap().to_concat_bytes();
    out.extend_from_slice(&body);
    out
}

fn open_plan(bytes: &[u8], pk: &CompositePublicKey) -> Value {
    let n = ferrogate::crypto::composite::COMPOSITE_SIG_LEN;
    let sig = CompositeSignature::from_concat_bytes(&bytes[..n]).unwrap();
    pk.verify(b"allowlist", &bytes[n..], &sig).unwrap();
    serde_json::from_slice(&bytes[n..]).unwrap()
}

fn doc_of(bytes: &[u8]) -> AllowlistDoc {
    let n = ferrogate::crypto::composite::COMPOSITE_SIG_LEN;
    let v: Value = serde_json::from_slice(&bytes[n..]).unwrap();
    AllowlistDoc {
        entries: v["entries"]
            .as_array()
            .unwrap()
            .iter()
            .map(|e| AllowEntry {
                uid: e["uid"].as_u64().map(|u| u as u32),
                bin_sha: s(&e["bin_sha"]),
            })
            .collect(),
        issued_at: v["issued_at"].as_i64().unwrap(),
        not_after: v["not_after"].as_i64().unwrap(),
    }
}

struct Svc {
    st: CmisState,
    sk: CompositeSecretKey,
    pk: CompositePublicKey,
    domain: String,
}

fn svc_with(config: CmisConfig) -> Svc {
    let (st, sk, pk) = state_of("cmis-test-al", config);
    Svc {
        st,
        sk,
        pk,
        domain: "ferrogate.test".into(),
    }
}

impl Svc {
    fn set(&mut self, host: &str, entries: Vec<AllowEntry>, ttl: i64) -> Result<(i64, i64), Status> {
        let plan = plan_allowlist(&self.st.config, host, &entries, ttl, NOW)?;
        let signed = sign_plan(&plan, &self.domain, &self.sk);
        let (audits, r) = set_allowlist(&mut self.st, &plan, Ok(signed));
        assert!(matches!(audits[0], AuditEvent::AllowlistSet { .. }));
        r
    }

    fn listed(&self) -> Vec<(String, u32)> {
        let rows: Vec<(String, Option<AllowlistDoc>)> = self
            .st
            .list_allowlists()
            .iter()
            .map(|(h, b)| (h.clone(), Some(doc_of(b))))
            .collect();
        list_allowlists(&rows)
            .into_iter()
            .map(|s| (s.host_uuid, s.entry_count))
            .collect()
    }
}

#[test]
fn set_then_get_serves_a_verifiable_signed_allowlist() {
    let mut svc = svc_with(CmisConfig::default());
    let host = "host-uuid-1";
    let set = svc
        .set(host, vec![entry(1000, 0xAA), entry(1001, 0xBB)], 3600)
        .expect("set ok");
    assert_eq!(set.1 - set.0, 3600);

    let got = get_allowlist(&svc.st, host).expect("get ok");
    assert!(!got.is_empty(), "an allowlist was stored");

    let doc = open_plan(&got, &svc.pk);
    assert_eq!(doc["trust_domain"].as_str(), Some("ferrogate.test"));
    let entries = doc["entries"].as_array().unwrap();
    assert_eq!(entries.len(), 2);
    assert_eq!(doc["issued_at"].as_i64(), Some(set.0));
    assert_eq!(doc["not_after"].as_i64(), Some(set.1));
    assert!(entries.iter().any(|e| e["uid"].as_u64() == Some(1000)));
}

#[test]
fn get_unknown_host_returns_empty_not_error() {
    let svc = svc_with(CmisConfig::default());
    let got = get_allowlist(&svc.st, "nobody").expect("get ok");
    assert!(got.is_empty());
}

#[test]
fn set_rejects_malformed_entry_hash() {
    let mut svc = svc_with(CmisConfig::default());
    let bad = AllowEntry {
        uid: Some(1),
        bin_sha: "not-hex".into(),
    };
    let err = svc
        .set("host", vec![bad], 60)
        .expect_err("malformed entry rejected");
    assert_eq!(err.code, Code::InvalidArgument);
}

#[test]
fn set_rejects_empty_host_uuid() {
    let mut svc = svc_with(CmisConfig::default());
    let err = svc
        .set("  ", vec![entry(1, 0x11)], 60)
        .expect_err("empty host rejected");
    assert_eq!(err.code, Code::InvalidArgument);
    assert_eq!(
        get_allowlist(&svc.st, " ").unwrap_err().code,
        Code::InvalidArgument
    );
}

#[test]
fn list_and_delete_reflect_stored_allowlists() {
    let mut svc = svc_with(CmisConfig::default());
    for (host, n) in [("h1", 0x01u8), ("h2", 0x02u8)] {
        svc.set(host, vec![entry(1000, n)], 600).expect("set ok");
    }
    let listed = svc.listed();
    assert_eq!(listed.len(), 2);
    assert!(listed.iter().all(|s| s.1 == 1));

    let (audits, del) = delete_allowlist(&mut svc.st, "h1");
    assert!(del.expect("delete ok"));
    assert!(matches!(audits[0], AuditEvent::AllowlistDeleted { .. }));

    // Deleting again reports it was already gone.
    let (audits, del2) = delete_allowlist(&mut svc.st, "h1");
    assert!(!del2.expect("delete ok"));
    assert!(audits.is_empty());

    let listed = svc.listed();
    assert_eq!(listed.len(), 1);
    assert_eq!(listed[0].0, "h2");
}

#[test]
fn ttl_zero_falls_back_to_a_default_window() {
    let mut svc = svc_with(CmisConfig::default());
    let set = svc.set("h", vec![entry(1, 0x11)], 0).expect("set ok");
    assert_eq!(set.1 - set.0, 72 * 3600);
}

#[test]
fn lifetimes_of_allowlists_are_bounded() {
    let mut svc = svc_with(CmisConfig::default());
    let set = svc.set("h", vec![entry(1, 0x11)], i64::MAX).unwrap();
    assert_eq!(set.1 - set.0, MAX_ALLOWLIST_TTL_SECS);
}

#[test]
fn an_allowlist_that_was_not_signed_is_not_kept() {
    let mut svc = svc_with(CmisConfig::default());
    let plan = plan_allowlist(&svc.st.config, "h", &vec![entry(1, 1)], 60, NOW).unwrap();
    for (failure, message) in [
        (SigningFailure::Sign, "allowlist signing failed"),
        (SigningFailure::Encode, "allowlist encode failed"),
    ] {
        let (audits, r) = set_allowlist(&mut svc.st, &plan, Err(failure));
        assert!(audits.is_empty());
        let status = r.unwrap_err();
        assert_eq!((status.code, status.message), (Code::Internal, message));
    }
    assert!(get_allowlist(&svc.st, "h").unwrap().is_empty());
}

#[test]
fn unreadable_allowlists_are_passed_over_in_listings() {
    let doc = AllowlistDoc {
        entries: vec![entry(1, 1), entry(2, 2)],
        issued_at: 5,
        not_after: 6,
    };
    let rows = vec![("a".to_string(), None), ("b".to_string(), Some(doc))];
    let listed = list_allowlists(&rows);
    assert_eq!(listed.len(), 1);
    assert_eq!(listed[0].host_uuid, "b");
    assert_eq!(
        (listed[0].issued_at, listed[0].not_after, listed[0].entry_count),
        (5, 6, 2)
    );
}

// ---- child keys ----

fn child_kid(pk: &CompositePublicKey) -> String {
    let digest = Sha384::digest(pk.to_concat_bytes());
    format!("host-{}", &hex::encode(digest)[..16])
}

fn record_with_child_key(spiffe_id: &str, child_pub: Vec<u8>) -> IssuedRecord {
    IssuedRecord {
        params: IssueParams {
            ek_cert_sha384: [0x11; 48],
            pcr_digest: [0x22; 48],
            policy_id: "host-key".to_string(),
            dpop_jkt: "dpop".to_string(),
            ttl_secs: 3600,
            tee_evidence_id: None,
        },
        last_attestation: LastAttestation {
            at: 1_700_000_000,
            pcr_digest: [0x22; 48],
            policy_epoch: 1,
        },
        bundle: IssuedSvid {
            jws: "eyJ...".to_string(),
            spiffe_id: spiffe_id.to_string(),
            iat: 1_700_000_000,
            exp: 1_700_003_600,
        },
        hostname: None,
        child_pub: Some(child_pub),
    }
}

fn stored(st: &CmisState) -> Vec<(String, CompositePublicKey)> {
    st.stored_child_keys()
        .into_iter()
        .map(|pk| (child_kid(&pk), pk))
        .collect()
}

#[test]
fn rehydrate_republishes_persisted_child_keys() {
    let mut st = plain_state();
    let (_sk, pk) = keypair();
    let kid = child_kid(&pk);
    st.record(record_with_child_key(
        "spiffe://ferrogate.test/host/abc",
        pk.to_concat_bytes(),
    ));
    assert!(
        st.published_jwks().find(&kid).is_none(),
        "persisting a record must not by itself publish the child key"
    );
    let keys = stored(&st);
    st.rehydrate_child_keys(&keys);
    assert!(
        st.published_jwks().find(&kid).is_some(),
        "rehydration must republish the persisted child key into the JWKS"
    );
}

#[test]
fn ensure_child_key_published_rehydrates_on_miss() {
    let mut st = plain_state();
    let (_sk, pk) = keypair();
    let kid = child_kid(&pk);
    st.record(record_with_child_key(
        "spiffe://ferrogate.test/host/other-node",
        pk.to_concat_bytes(),
    ));
    assert!(st.published_jwks().find(&kid).is_none());
    let keys = stored(&st);
    assert!(
        st.ensure_child_key_published(&kid, &keys),
        "on-miss rehydrate must publish a kid present in the replicated store"
    );
    assert!(st.published_jwks().find(&kid).is_some());
    assert!(st.ensure_child_key_published(&kid, &keys));
    assert!(!st.ensure_child_key_published("host-0000000000000000", &keys));
    assert!(!st.ensure_child_key_published("not-a-host-kid", &keys));
}

#[test]
fn rehydrate_skips_records_without_a_child_key() {
    let mut st = plain_state();
    let before = st.published_jwks().keys.len();
    let mut rec = record_with_child_key("spiffe://ferrogate.test/host/legacy", vec![]);
    rec.child_pub = None;
    st.record(rec);
    let keys = stored(&st);
    st.rehydrate_child_keys(&keys);
    assert_eq!(
        st.published_jwks().keys.len(),
        before,
        "a record without a stored child key must add nothing to the JWKS"
    );
}

#[test]
fn get_enrollment_key_returns_issuer_public_concat() {
    let (st, _sk, pk) = state_of("cmis-test-ek", CmisConfig::default());
    let key = get_enrollment_key(&st);
    assert_eq!(key, pk.to_concat_bytes());
    let parsed = CompositePublicKey::from_concat_bytes(&key);
    assert!(
        parsed.is_ok(),
        "enrollment key must parse as a composite public key"
    );
}

// ---- host keys ----

#[test]
fn tofu_pins_when_not_strict() {
    let mut state = plain_state();
    let fp = [7u8; 48];
    let key = b"machine-pubkey-A";
    assert!(matches!(
        state.bind_host_key(&fp, key, false),
        HostKeyBinding::FirstSeen
    ));
    // Second time the same key is now pinned.
    assert!(matches!(
        state.bind_host_key(&fp, key, false),
        HostKeyBinding::Pinned
    ));
    assert!(matches!(
        state.bind_host_key(&fp, b"machine-pubkey-B", false),
        HostKeyBinding::Mismatch
    ));
}

#[test]
fn strict_rejects_unregistered_and_leaves_no_pin() {
    let config = CmisConfig {
        require_preregistered_host_key: true,
        ..CmisConfig::default()
    };
    let (mut state, _sk, _pk) = state_of("cmis-test-ek", config);
    let fp = [9u8; 48];
    let key = b"machine-pubkey-B";
    assert!(matches!(
        state.bind_host_key(&fp, key, true),
        HostKeyBinding::RejectedNotPreRegistered
    ));
    // The refusal left no pin behind.
    assert!(matches!(
        state.bind_host_key(&fp, key, false),
        HostKeyBinding::FirstSeen
    ));
}

#[test]
fn asserted_keys_win_over_pins() {
    let mut state = plain_state();
    let mut m = sample(1, &[]);
    m.enrolled_machine_pubkey = vec![MachinePubkey {
        fingerprint: ek_hex(0xDD),
        sep_pub_b64: URL_SAFE_NO_PAD.encode(b"asserted"),
    }];
    state.fleet.apply(m.to_enrolled().unwrap());
    let fp = [0xDD; 48];
    assert_eq!(
        state.bind_host_key(&fp, b"asserted", true),
        HostKeyBinding::PreRegistered
    );
    assert_eq!(
        state.bind_host_key(&fp, b"other", false),
        HostKeyBinding::Mismatch
    );
}

// ---- proposals ----

struct Proposing {
    svc: Svc,
    spki: Vec<u8>,
    host: String,
}

fn setup(policy: ProposalPolicy) -> Proposing {
    let config = CmisConfig {
        allowlist_proposal_policy: policy,
        ..CmisConfig::default()
    };
    Proposing {
        svc: svc_with(config),
        spki: b"the machine key's public key".to_vec(),
        host: "42424242-4242-4242-4242-424242424242".into(),
    }
}

fn svid(sk: &CompositeSecretKey, host: &str, spki: &[u8]) -> PresentedSvid {
    let signing_input = format!("header.{host}").into_bytes();
    PresentedSvid {
        signature: sk.sign(SVID_CTX, &signing_input).unwrap().to_concat_bytes(),
        signing_input,
        sub: format!("spiffe://ferrogate.test/host/{host}"),
        nbf: NOW,
        exp: NOW + 3600,
        jkt: URL_SAFE_NO_PAD.encode(Sha256::digest(spki)),
    }
}

impl Proposing {
    fn request(&self, entries: Vec<AllowEntry>) -> ProposalRequest {
        ProposalRequest {
            svid: Some(svid(&self.svc.sk, &self.host, &self.spki)),
            sep_pub: self.spki.clone(),
            signature_verifies: true,
            proposal: Some(ProposalDoc {
                host_uuid: self.host.clone(),
                issued_at: NOW,
                entries,
            }),
        }
    }

    fn decide(&self, req: &ProposalRequest) -> Result<ProposalDecision, Status> {
        let live = match get_allowlist(&self.svc.st, &self.host) {
            Ok(b) if !b.is_empty() => Some(doc_of(&b).entries),
            _ => None,
        };
        propose_allowlist(&self.svc.st, &self.svc.pk, SVID_CTX, req, &live, NOW)
    }

    fn queue(&mut self, d: ProposalDecision) {
        match d {
            ProposalDecision::Queue {
                host_uuid,
                entries,
                proposer_spiffe_id,
            } => {
                let audits = queue_proposal(
                    &mut self.svc.st,
                    &host_uuid,
                    entries,
                    &proposer_spiffe_id,
                    NOW,
                );
                assert!(matches!(audits[0], AuditEvent::AllowlistProposed { .. }));
            }
            other => panic!("expected a proposal for review, got {other:?}"),
        }
    }
}

#[test]
fn bootstrap_auto_adopts_when_no_allowlist() {
    let mut p = setup(ProposalPolicy::BootstrapOnly);
    let req = p.request(vec![entry(1000, 0xAA), entry(1001, 0xBB)]);
    let plan = match p.decide(&req).expect("propose ok") {
        ProposalDecision::Adopt(plan) => plan,
        other => panic!("expected adoption, got {other:?}"),
    };
    let signed = sign_plan(&plan, &p.svc.domain, &p.svc.sk);
    let (audits, r) = adopt_proposal(&mut p.svc.st, &plan, Ok(signed));
    let (issued_at, not_after) = r.unwrap();
    assert!(not_after > issued_at);
    assert!(matches!(audits[0], AuditEvent::AllowlistAutoAdopted { .. }));

    // The adopted allowlist is now served and verifies under the enrollment key.
    let got = get_allowlist(&p.svc.st, &p.host).unwrap();
    let doc = open_plan(&got, &p.svc.pk);
    assert_eq!(doc["entries"].as_array().unwrap().len(), 2);

    // Re-proposing the same set is a no-op.
    let again = p.request(vec![entry(1001, 0xBB), entry(1000, 0xAA)]);
    assert!(matches!(
        p.decide(&again).unwrap(),
        ProposalDecision::Unchanged
    ));
}

#[test]
fn existing_allowlist_queues_proposal_for_review() {
    let mut p = setup(ProposalPolicy::BootstrapOnly);
    let host = p.host.clone();
    // An operator has already provisioned an allowlist.
    p.svc.set(&host, vec![entry(1, 0x01)], 3600).unwrap();

    // A proposal with new callers must not auto-adopt; it queues.
    let d = p.decide(&p.request(vec![entry(1000, 0xAA)])).unwrap();
    p.queue(d);

    let pending = list_proposals(&p.svc.st);
    assert_eq!(pending.len(), 1);
    assert_eq!(pending[0].host_uuid, host);
    assert_eq!(pending[0].entries.len(), 1);
    assert_eq!(pending[0].entries[0].uid, Some(1000));
    assert_eq!(pending[0].proposed_at, NOW);

    // The live allowlist is untouched while the proposal waits.
    let got = get_allowlist(&p.svc.st, &host).unwrap();
    assert_eq!(doc_of(&got).entries[0].uid, Some(1));

    // Rejecting drops it.
    let (audits, existed) = delete_proposal(&mut p.svc.st, &host);
    assert!(existed.unwrap());
    assert!(matches!(
        audits[0],
        AuditEvent::AllowlistProposalRejected { .. }
    ));
    assert!(list_proposals(&p.svc.st).is_empty());
}

#[test]
fn off_policy_never_auto_adopts() {
    let mut p = setup(ProposalPolicy::Off);
    let d = p.decide(&p.request(vec![entry(1000, 0xAA)])).unwrap();
    p.queue(d);
    // Nothing was served.
    assert!(get_allowlist(&p.svc.st, &p.host).unwrap().is_empty());
}

#[test]
fn always_policy_adopts_over_an_allowlist() {
    let mut p = setup(ProposalPolicy::Always);
    let host = p.host.clone();
    p.svc.set(&host, vec![entry(1, 0x01)], 3600).unwrap();
    match p.decide(&p.request(vec![entry(1000, 0xAA)])).unwrap() {
        ProposalDecision::Adopt(plan) => {
            assert_eq!(plan.not_after - plan.issued_at, 72 * 3600);
            assert_eq!(plan.entry_count, 1);
        }
        other => panic!("{other:?}"),
    }
}

fn refused(p: &Proposing, req: &ProposalRequest) -> Status {
    p.decide(req).expect_err("refused")
}

#[test]
fn rejects_tampered_signature() {
    let p = setup(ProposalPolicy::BootstrapOnly);
    let mut req = p.request(vec![entry(1000, 0xAA)]);
    req.signature_verifies = false;
    assert_eq!(refused(&p, &req).code, Code::Unauthenticated);
}

#[test]
fn rejects_sep_pub_not_bound_to_svid() {
    let p = setup(ProposalPolicy::BootstrapOnly);
    let mut req = p.request(vec![entry(1000, 0xAA)]);
    req.sep_pub = b"another key".to_vec();
    let status = refused(&p, &req);
    assert_eq!(status.code, Code::Unauthenticated);
    assert_eq!(status.message, "sep_pub does not match svid cnf.jkt");
}

#[test]
fn rejects_host_uuid_mismatch() {
    let p = setup(ProposalPolicy::BootstrapOnly);
    let mut req = p.request(vec![entry(1000, 0xAA)]);
    req.proposal = Some(ProposalDoc {
        host_uuid: "some-other-host-uuid".into(),
        issued_at: NOW,
        entries: vec![entry(1000, 0xAA)],
    });
    assert_eq!(refused(&p, &req).code, Code::PermissionDenied);
}

#[test]
fn rejects_unissued_svid() {
    let p = setup(ProposalPolicy::BootstrapOnly);
    let (other, _) = keypair();
    let mut req = p.request(vec![entry(1000, 0xAA)]);
    req.svid = Some(svid(&other, &p.host, &p.spki));
    let status = refused(&p, &req);
    assert_eq!(status.code, Code::Unauthenticated);
    assert_eq!(status.message, "svid not issued by this cmis");
}

#[test]
fn each_fault_of_a_proposal_has_its_answer() {
    let p = setup(ProposalPolicy::BootstrapOnly);
    let mut req = p.request(vec![]);
    req.svid = None;
    assert_eq!(refused(&p, &req).message, "malformed svid");
    let mut req = p.request(vec![]);
    req.svid.as_mut().unwrap().signature.pop();
    assert_eq!(refused(&p, &req).message, "malformed svid signature");
    let mut req = p.request(vec![]);
    req.svid.as_mut().unwrap().exp = NOW - 1;
    assert_eq!(refused(&p, &req).message, "svid is not currently valid");
    let mut req = p.request(vec![]);
    req.svid.as_mut().unwrap().nbf = NOW + 1;
    assert_eq!(refused(&p, &req).message, "svid is not currently valid");
    let mut req = p.request(vec![]);
    req.svid.as_mut().unwrap().sub = "spiffe://ferrogate.test/".into();
    assert_eq!(refused(&p, &req).message, "svid subject is not a host id");
    let mut req = p.request(vec![]);
    req.proposal = None;
    assert_eq!(refused(&p, &req).message, "malformed proposal body");
    let mut req = p.request(vec![]);
    req.proposal.as_mut().unwrap().issued_at = NOW + 301;
    assert_eq!(
        refused(&p, &req).message,
        "proposal issued_at is in the future"
    );
    let mut req = p.request(vec![]);
    req.proposal.as_mut().unwrap().issued_at = NOW + 300;
    assert!(p.decide(&req).is_ok());
    let mut req = p.request(vec![entry(1, 1)]);
    req.proposal.as_mut().unwrap().entries[0].bin_sha = "x".into();
    assert_eq!(refused(&p, &req).code, Code::InvalidArgument);
}

#[test]
fn allowlists_are_compared_as_bags() {
    let a = vec![entry(1, 1), entry(2, 2)];
    let b = vec![entry(2, 2), entry(1, 1)];
    assert!(entries_match(&a, &b));
    assert!(!entries_match(&a, &vec![entry(1, 1), entry(1, 1)]));
    assert!(!entries_match(&a, &vec![entry(1, 1)]));
    assert_eq!(
        subject_host("spiffe://td/host/a/host/b").as_deref(),
        Some("b")
    );
    assert_eq!(subject_host("spiffe://td/hosts/b"), None);
    assert_eq!(ProposalPolicy::from_env_value(" OFF "), ProposalPolicy::Off);
    assert_eq!(
        ProposalPolicy::from_env_value("Always"),
        ProposalPolicy::Always
    );
    assert_eq!(
        ProposalPolicy::from_env_value(""),
        ProposalPolicy::BootstrapOnly
    );
}

// ---- revocation ----

fn crl_bytes(body: &CrlBody) -> Vec<u8> {
    format!("{body:?}").into_bytes()
}

fn publish(st: &mut CmisState, sk: &CompositeSecretKey, now: i64) -> Result<u64, Status> {
    let body = st.next_crl(now);
    let signature = sk.sign(CRL_CTX, &crl_bytes(&body)).unwrap();
    publish_crl_now(
        st,
        body,
        Ok::<_, ()>(CrlSignature {
            signer_kid: "cmis-test-1".into(),
            signature_b64: signature.to_jws_base64url(),
        }),
    )
}

// The list that the key set carries, checked with the key that the set gives
// for its signer.
fn verified_crl(st: &CmisState) -> CrlBody {
    let jwks = st.published_jwks();
    let crl = jwks.crl.as_ref().expect("CRL present in JWKS");
    let key = jwks.find(&crl.signer_kid).expect("CRL signer in JWKS");
    let pk = CompositePublicKey::from_concat_bytes(&key.public).unwrap();
    let sig = CompositeSignature::from_jws_base64url(&crl.signature_b64).unwrap();
    pk.verify(CRL_CTX, &crl_bytes(&crl.body), &sig)
        .expect("CRL signature verifies");
    crl.body.duplicate()
}

#[test]
fn revoke_svid_appears_in_jwks_crl_and_audit() {
    let (mut st, sk, _pk) = state_of("cmis-test-1", CmisConfig::default());
    assert!(st.published_jwks().crl.is_none());
    let cert_sha = hex::encode([0xAB; 48]);
    let (audits, r) = revoke_svid(&mut st, &cert_sha, "key-compromise", NOW, NOW + 3600);
    r.unwrap();
    assert!(publish(&mut st, &sk, NOW).unwrap() >= 1);
    assert!(verified_crl(&st).revokes_svid(&cert_sha));
    assert_eq!(audits.len(), 1, "one SvidRevoked leaf appended");
    assert!(matches!(audits[0], AuditEvent::SvidRevoked { .. }));
}

#[test]
fn revoke_host_appears_in_jwks_crl() {
    let (mut st, sk, _pk) = state_of("cmis-test-1", CmisConfig::default());
    let spiffe = "spiffe://ferrogate.test/host/deadbeef".to_string();
    let (_, r) = revoke_host(&mut st, &spiffe, "decommissioned", NOW, NOW + 3600);
    r.unwrap();
    publish(&mut st, &sk, NOW).unwrap();
    assert!(verified_crl(&st).revokes_host(&spiffe));
}

#[test]
fn malformed_cert_sha_is_rejected() {
    let mut st = plain_state();
    let (audits, r) = revoke_svid(&mut st, "not-hex", "x", NOW, NOW);
    assert_eq!(r.unwrap_err().code, Code::InvalidArgument);
    assert!(audits.is_empty());
    let (_, r) = revoke_host(&mut st, "", "x", NOW, NOW);
    assert_eq!(r.unwrap_err().message, "empty spiffe_id");
}

#[test]
fn revocations_are_unique_and_run_out() {
    let mut st = plain_state();
    for at in [1, 2] {
        st.revoke(CrlEntry {
            target: RevocationTarget::Host {
                spiffe_id: "h".into(),
            },
            reason: format!("r{at}"),
            revoked_at: at,
            expires_at: 100,
        });
    }
    let body = st.next_crl(99);
    assert_eq!(body.number, 1);
    assert_eq!(body.issued_at, 99);
    assert_eq!(body.entries.len(), 1);
    assert_eq!(body.entries[0].reason, "r2");
    let body = st.next_crl(101);
    assert_eq!(body.number, 2);
    assert!(body.entries.is_empty());
    // A list that could not be signed changes nothing.
    let err = publish_crl_now(&mut st, body, Err::<CrlSignature, ()>(())).unwrap_err();
    assert_eq!(err.code, Code::Unavailable);
    assert!(st.published_jwks().crl.is_none());
}

#[test]
fn the_key_set_carries_the_list_last_published() {
    let (mut st, sk, _pk) = state_of("cmis-test-1", CmisConfig::default());
    let spiffe = "spiffe://ferrogate.test/host/cafe".to_string();
    revoke_host(&mut st, &spiffe, "lost", NOW, NOW + 10).1.unwrap();
    assert_eq!(publish(&mut st, &sk, NOW + 9), Ok(1));
    let body = verified_crl(&st);
    assert_eq!((body.number, body.issued_at), (1, NOW + 9));
    assert!(body.revokes_host(&spiffe));
    // A list that is not signed leaves the last one in the set.
    let unsigned = st.next_crl(NOW + 9);
    assert!(st.publish_crl(unsigned, Err::<CrlSignature, u8>(3)).is_err());
    assert_eq!(verified_crl(&st), body);
    // After the expiry the target is off the list.
    assert_eq!(publish(&mut st, &sk, NOW + 10), Ok(3));
    assert!(verified_crl(&st).entries.is_empty());
}

#[test]
fn listed_digests_can_be_revoked() {
    let (mut st, sk, _pk) = state_of("cmis-test-1", CmisConfig::default());
    st.record(sample_record());
    let listed = list_svids(&st);
    assert_eq!(listed.len(), 1);
    assert_eq!(
        listed[0].cert_sha,
        hex::encode(Sha384::digest("eyJ...".as_bytes()))
    );
    assert_eq!(summary(&sample_record()), listed[0]);
    let upper = listed[0].cert_sha.to_uppercase();
    revoke_svid(&mut st, &upper, "", NOW, NOW + 1).1.unwrap();
    publish(&mut st, &sk, NOW).unwrap();
    let body = verified_crl(&st);
    assert!(body.revokes_svid(&listed[0].cert_sha));
    assert_eq!(body.entries[0].reason, revocation_reason(""));
}

#[test]
fn request_fields_are_checked() {
    assert_eq!(parse_cert_sha(&"ab".repeat(48)).unwrap(), [0xAB; 48]);
    assert!(parse_cert_sha("ab").is_err());
    assert!(parse_cert_sha(&"zz".repeat(48)).is_err());
    assert_eq!(revocation_reason(" gone "), "gone");
    assert!(revocation_reason(&"x".repeat(5000)).len() < 5000);
    assert_eq!(saturating_count(7), 7);
    assert_eq!(saturating_count(usize::MAX), u32::MAX);
}

// ---- root rotation ----

#[test]
fn incoming_root_is_published_newest_first_and_preferred() {
    let (mut state, _sk, _pk) = state_of("root-2025", CmisConfig::default());

    // Before the window the issuer root is the only key, and it is preferred.
    let jwks = state.published_jwks();
    assert_eq!(jwks.keys.len(), 1);
    assert_eq!(jwks.preferred().unwrap().kid, "root-2025");

    // A host child key must stay after the roots.
    let (_csk, child_pk) = CompositeSecretKey::from_seed(&[3u8; 32]);
    state.register_child_key(child_kid(&child_pk), &child_pk);

    // Open a cross-sign window: publish the incoming root with a newer stamp.
    let (_nsk, new_pk) = CompositeSecretKey::from_seed(&[9u8; 32]);
    state.register_root_key(&new_pk, "root-2026".into(), 1_780_000_000);

    let jwks = state.published_jwks();
    assert_eq!(jwks.keys[0].kid, "root-2026");
    assert_eq!(jwks.keys[1].kid, "root-2025");
    assert!(jwks.keys[2].kid.starts_with("host-"));
    assert_eq!(jwks.preferred().unwrap().kid, "root-2026");

    // Both roots and the child remain resolvable by kid through the window.
    assert!(jwks.find("root-2025").is_some());
    assert!(jwks.find("root-2026").is_some());
    assert!(jwks.find(&jwks.keys[2].kid).is_some());

    // Re-registering the same root refreshes its stamp without duplicating.
    state.register_root_key(&new_pk, "root-2026".into(), 1_790_000_000);
    let jwks = state.published_jwks();
    assert_eq!(jwks.keys.iter().filter(|k| k.kid == "root-2026").count(), 1);
}

// ---- the handshake of a host without a TPM ----

struct UnusedCredentialMaker;

impl CredentialMaker for UnusedCredentialMaker {
    fn make_credential(
        &self,
        _ek_pub: &[u8],
        _aik_pub: &[u8],
        _secret: &[u8],
    ) -> Result<WrappedCredential, CredentialError> {
        Err(CredentialError::Wrap("unused".to_string()))
    }
}

fn facts() -> MachineFacts {
    MachineFacts {
        board_serial: "B1".into(),
        platform_uuid: "u-u".into(),
        disk_serial: "D1".into(),
    }
}

fn host_init(key: &[u8]) -> ClientMessage {
    let f = facts();
    ClientMessage::Init(AttestInit {
        ek_cert: vec![],
        ek_intermediates: vec![],
        aik_pub: vec![],
        quote_blob: vec![],
        signature: vec![],
        pcr_values: vec![],
        host_key: Some(HostKeyEvidence {
            fingerprint: f.fingerprint().as_bytes().to_vec(),
            board_serial: f.board_serial,
            platform_uuid: f.platform_uuid,
            disk_serial: f.disk_serial,
            sep_pub: key.to_vec(),
        }),
    })
}

fn csr(pk: &CompositePublicKey) -> ClientMessage {
    ClientMessage::Csr(Csr {
        composite_pub: pk.to_concat_bytes(),
        aik_sig: vec![],
        dpop_jkt: "jkt".into(),
    })
}

fn refusal(a: Action) -> Status {
    match a {
        Action::Refuse(s) => s,
        other => panic!("expected a refusal, got {other:?}"),
    }
}

fn fail_reason(e: &AuditEvent) -> &str {
    match e {
        AuditEvent::AttestFail { reason } => reason,
        other => panic!("{other:?}"),
    }
}

#[test]
fn a_host_without_a_tpm_gets_a_document() {
    let mut st = plain_state();
    let mut h = Handshake::start(NOW).unwrap();
    assert_ne!(h.nonce(), &[0u8; 32]);
    let r = h.on_init(&mut st, &UnusedCredentialMaker, host_init(b"key"), true);
    assert!(matches!(r.action, Action::AwaitCsr));
    assert_eq!(r.audits.len(), 1);
    match &r.audits[0] {
        AuditEvent::AttestStart { ek_sha, policy_id, .. } => {
            assert_eq!(&ek_sha.0, facts().fingerprint().as_bytes());
            assert_eq!(policy_id, HOST_KEY_POLICY_ID);
        }
        other => panic!("{other:?}"),
    }
    let (_, pk) = keypair();
    let r = h.on_csr(&st, csr(&pk), true);
    assert!(r.audits.is_empty());
    match r.action {
        Action::Issue { params, child_key } => {
            assert_eq!(params.ek_cert_sha384, *facts().fingerprint().as_bytes());
            assert_eq!(params.policy_id, "host-key");
            assert_eq!(params.dpop_jkt, "jkt");
            assert_eq!(params.ttl_secs, 3600);
            assert_eq!(child_key.unwrap().to_concat_bytes(), pk.to_concat_bytes());
        }
        other => panic!("{other:?}"),
    }
    let doc = IssuedSvid {
        jws: "a.b.c".into(),
        spiffe_id: "spiffe://td/host/1".into(),
        iat: NOW,
        exp: NOW + 3600,
    };
    let r = h.on_issued(&mut st, Ok::<_, ()>(doc.duplicate()));
    assert!(matches!(r.action, Action::Deliver(ref d) if *d == doc));
    assert!(matches!(r.audits[0], AuditEvent::SvidIssued { .. }));
    assert_eq!(fetch_svid(&st, "spiffe://td/host/1").unwrap(), doc);
    let rec = st.lookup("spiffe://td/host/1").unwrap();
    assert_eq!(rec.last_attestation.at, NOW);
    assert_eq!(rec.child_pub, Some(pk.to_concat_bytes()));
    assert_eq!(
        fetch_svid(&st, "spiffe://td/host/2").unwrap_err().code,
        Code::NotFound
    );
}

#[test]
fn a_handshake_needs_both_random_values() {
    let h = Handshake::from_drawn(Ok([1; 32]), Ok([2; 32]), NOW).unwrap();
    assert_eq!(h.nonce(), &[1u8; 32]);
    let no_nonce = Handshake::from_drawn(Err("nonce".into()), Err("secret".into()), NOW);
    assert!(matches!(no_nonce, Err(ref e) if e == "nonce"));
    let no_secret = Handshake::from_drawn(Ok([1; 32]), Err("secret".into()), NOW);
    assert!(matches!(no_secret, Err(ref e) if e == "secret"));
}

#[test]
fn a_host_without_a_tpm_is_refused() {
    let mut st = plain_state();
    // The machine key's verifier says no.
    let mut h = Handshake::begin([1; 32], [2; 32], NOW);
    let r = h.on_init(&mut st, &UnusedCredentialMaker, host_init(b"key"), false);
    assert_eq!(fail_reason(&r.audits[0]), "host-key-verify-failed");
    assert_eq!(refusal(r.action), Status::denied());
    // Another key for a fingerprint with a pin.
    let mut h = Handshake::begin([1; 32], [2; 32], NOW);
    h.on_init(&mut st, &UnusedCredentialMaker, host_init(b"key"), true);
    let mut h = Handshake::begin([1; 32], [2; 32], NOW);
    let r = h.on_init(&mut st, &UnusedCredentialMaker, host_init(b"other"), true);
    assert!(
        matches!(&r.audits[0], AuditEvent::HostRejected { reason, .. } if reason == "key-rebind")
    );
    assert_eq!(refusal(r.action), Status::denied());
    // Not in the fleet.
    st.fleet.apply(sample(1, &[0xAA]).to_enrolled().unwrap());
    let mut h = Handshake::begin([1; 32], [2; 32], NOW);
    let r = h.on_init(&mut st, &UnusedCredentialMaker, host_init(b"key"), true);
    assert!(
        matches!(&r.audits[0], AuditEvent::HostRejected { reason, .. } if reason == "not-enrolled")
    );
    assert_eq!(refusal(r.action), Status::denied());
}

#[test]
fn strict_services_want_asserted_machine_keys() {
    let config = CmisConfig {
        require_preregistered_host_key: true,
        ..CmisConfig::default()
    };
    let (mut st, _, _) = state_of("k", config);
    let mut h = Handshake::begin([1; 32], [2; 32], NOW);
    let r = h.on_init(&mut st, &UnusedCredentialMaker, host_init(b"key"), true);
    assert!(
        matches!(&r.audits[0], AuditEvent::HostRejected { reason, .. } if reason == "not-preregistered")
    );
}

#[test]
fn a_certificate_request_that_is_not_signed_is_refused() {
    let mut st = plain_state();
    let (_, pk) = keypair();
    let mut h = Handshake::begin([1; 32], [2; 32], NOW);
    h.on_init(&mut st, &UnusedCredentialMaker, host_init(b"key"), true);
    let r = h.on_csr(&st, csr(&pk), false);
    assert_eq!(fail_reason(&r.audits[0]), "host-key-csr-sig-invalid");
    assert_eq!(refusal(r.action), Status::denied());
    // A key that does not decode is not published, but is no obstacle.
    let mut h = Handshake::begin([1; 32], [2; 32], NOW);
    h.on_init(&mut st, &UnusedCredentialMaker, host_init(b"key"), true);
    let odd = ClientMessage::Csr(Csr {
        composite_pub: vec![1, 2, 3],
        aik_sig: vec![],
        dpop_jkt: "jkt".into(),
    });
    let r = h.on_csr(&st, odd, true);
    assert!(matches!(
        r.action,
        Action::Issue {
            child_key: None,
            ..
        }
    ));
    // The issuer fails.
    let r = h.on_issued(&mut st, Err::<IssuedSvid, ()>(()));
    assert_eq!(fail_reason(&r.audits[0]), "issuance-failed");
    assert_eq!(refusal(r.action), Status::issuer_unavailable());
    assert!(list_svids(&st).is_empty());
}

#[test]
fn messages_out_of_turn_are_refused() {
    let mut st = plain_state();
    let mut h = Handshake::begin([1; 32], [2; 32], NOW);
    let msg = ClientMessage::ChallengeResponse(vec![2; 32]);
    let r = h.on_init(&mut st, &UnusedCredentialMaker, msg, true);
    assert_eq!(fail_reason(&r.audits[0]), "init-expected");
    let status = refusal(r.action);
    assert_eq!(
        (status.code, status.message),
        (Code::InvalidArgument, "expected attest init")
    );
    let mut h = Handshake::begin([1; 32], [2; 32], NOW);
    let r = h.on_init(&mut st, &UnusedCredentialMaker, ClientMessage::Closed, true);
    assert_eq!(refusal(r.action).code, Code::Aborted);
    let mut h = Handshake::begin([1; 32], [2; 32], NOW);
    h.on_init(&mut st, &UnusedCredentialMaker, host_init(b"key"), true);
    let r = h.on_csr(&st, ClientMessage::Empty, true);
    assert!(matches!(r.action, Action::Refuse(_)));
}

#[test]
fn refusals_do_not_say_which_check_failed() {
    assert_eq!(
        verifier_status(&RejectReason::NotInRim),
        Status::new(Code::FailedPrecondition, "attestation failed")
    );
    for reason in [RejectReason::NonceMismatch, RejectReason::SignatureInvalid] {
        assert_eq!(verifier_status(&reason), Status::denied());
    }
}

// ---- renewal ----

#[test]
fn renewal_goes_by_the_record() {
    let mut st = plain_state();
    st.record(sample_record());
    let values = vec![(7u32, vec![5u8]), (0, vec![3, 4])];
    let c = check_rotation(&st, Some("spiffe://td/host/x"), &values).unwrap();
    assert_eq!(c.last_attestation.policy_epoch, 7);
    assert_eq!(c.params.policy_id, "fleet-a");
    assert_eq!(c.policy_epoch, 1);
    assert_eq!(
        c.current_digest.to_vec(),
        Sha384::digest([3u8, 4, 5]).to_vec()
    );
    assert_eq!(
        check_rotation(&st, None, &values).unwrap_err().message,
        "malformed SVID"
    );
    assert_eq!(
        check_rotation(&st, Some("x"), &values).unwrap_err().code,
        Code::NotFound
    );
    let fresh = IssuedSvid {
        jws: "new".into(),
        spiffe_id: "spiffe://td/host/x".into(),
        iat: 1,
        exp: 2,
    };
    let r = finish_rotation(
        &mut st,
        "spiffe://td/host/x",
        Renewal::ShortPath(Some(fresh.duplicate())),
    );
    assert_eq!(r.unwrap(), fresh);
    assert_eq!(fetch_svid(&st, "spiffe://td/host/x").unwrap().jws, "new");
    // What was attested stays.
    let rec = st.lookup("spiffe://td/host/x").unwrap();
    assert_eq!(rec.last_attestation.at, 1_700_000_000);
    let r = finish_rotation(&mut st, "spiffe://td/host/x", Renewal::FullReattest);
    assert_eq!(r.unwrap_err().code, Code::FailedPrecondition);
    let r = finish_rotation(&mut st, "spiffe://td/host/x", Renewal::ShortPath(None));
    assert_eq!(r.unwrap_err(), Status::issuer_unavailable());
}

#[test]
fn epochs_advance_by_one() {
    let mut st = plain_state();
    let (audits, epoch) = bump_epoch(&mut st, "rotation");
    assert_eq!(epoch, 2);
    assert_eq!(st.current_epoch(), 2);
    assert_eq!(
        audits[0],
        AuditEvent::PolicyEpochBumped {
            old_epoch: 1,
            new_epoch: 2,
            reason: "rotation".into()
        }
    );
}

// ---- the audit log behind the service ----

struct MemStore {
    leaves: RefCell<BTreeMap<u64, Vec<u8>>>,
    full: bool,
}

impl AuditStore for MemStore {
    fn append_leaf(
        &self,
        index: u64,
        raw_event: &[u8],
        _leaf_hash: &[u8; 48],
    ) -> Result<(), AuditStoreError> {
        if self.full {
            return Err(AuditStoreError::AlreadyExists("full".into()));
        }
        self.leaves.borrow_mut().insert(index, raw_event.to_vec());
        Ok(())
    }
    fn record_sth(&self, _sth: &SignedTreeHead) -> Result<(), AuditStoreError> {
        Ok(())
    }
    fn record_cosigned_sth(&self, _sth: &CoSignedTreeHead) -> Result<(), AuditStoreError> {
        Ok(())
    }
    fn read_leaf(&self, index: u64) -> Result<Vec<u8>, AuditStoreError> {
        match self.leaves.borrow().get(&index) {
            Some(b) => Ok(b.clone()),
            None => Err(AuditStoreError::Io {
                not_found: true,
                message: "none".into(),
            }),
        }
    }
    fn latest_sth(&self) -> Result<Option<SignedTreeHead>, AuditStoreError> {
        Ok(None)
    }
    fn latest_cosigned_sth(&self) -> Result<Option<CoSignedTreeHead>, AuditStoreError> {
        Ok(None)
    }
}

fn log(full: bool) -> (AuditLog<MemStore, InProcessSigner>, CompositePublicKey) {
    let (signer, pk) = InProcessSigner::generate("audit".into()).unwrap();
    let store = MemStore {
        leaves: RefCell::new(BTreeMap::new()),
        full,
    };
    (AuditLog::new(store, signer).unwrap(), pk)
}

#[test]
fn what_is_audited_can_be_proved() {
    let (mut log, pk) = log(false);
    assert_eq!(latest_sth(&log).unwrap_err().code, Code::NotFound);
    let event = AuditEvent::AllowlistDeleted {
        host_uuid: "h".into(),
    };
    assert!(audit_record(&mut log, &event, NOW));
    assert!(audit_record(&mut log, &event, NOW + 1));
    let head = latest_sth(&log).unwrap();
    let sth = SignedTreeHead {
        body_cbor: head.body_cbor.clone(),
        signer_kid: head.signer_kid.clone(),
        signature_b64: URL_SAFE_NO_PAD.encode(&head.signature),
    };
    assert_eq!(verify_sth(&sth, &pk).unwrap().tree_size, 2);
    assert!(inclusion_proof(&log, 1).is_ok());
    assert!(inclusion_proof(&log, 2).is_err());
    assert!(consistency_proof(&log, 1).is_ok());
    assert!(consistency_proof(&log, 3).is_err());
    let cbor = ferrogate::audit::event::encode(&event).unwrap();
    assert_eq!(append_audit_event(&mut log, &cbor, NOW).unwrap(), 2);
    assert_eq!(
        append_audit_event(&mut log, b"\xff", NOW).unwrap_err().code,
        Code::InvalidArgument
    );
}

#[test]
fn a_full_store_does_not_stop_the_service() {
    let (mut log, _pk) = log(true);
    let event = AuditEvent::AllowlistDeleted {
        host_uuid: "h".into(),
    };
    assert!(!audit_record(&mut log, &event, NOW));
    assert_eq!(log.len(), 0);
}

// ---- startup ----

fn env() -> ClusterEnv {
    ClusterEnv {
        data_dir: None,
        peers: None,
        node_id: None,
        raft_addr: None,
        api_addr: None,
        listen: None,
        peer_tls_cert: None,
        peer_tls_key: None,
        peer_tls: None,
        raft_secret: None,
        api_secret: None,
    }
}

fn some(s: &str) -> Option<String> {
    Some(s.to_string())
}

#[test]
fn peers_are_parsed() {
    let peers = parse_peers(" 1=a:1,b:2 ; 2=c:3, d:4;").unwrap();
    assert_eq!(peers.len(), 2);
    assert_eq!(peers[0].id, 1);
    assert_eq!(peers[0].addr_raft, "a:1");
    assert_eq!(peers[0].addr_api, "b:2");
    assert_eq!(peers[1].addr_api, "d:4");
    assert!(matches!(parse_peers(" ; "), Err(StartupError::NoPeers)));
    assert!(matches!(
        parse_peers("1a:1,b:2"),
        Err(StartupError::PeerWithoutEquals { .. })
    ));
    assert!(matches!(
        parse_peers("1=a:1"),
        Err(StartupError::PeerWithoutComma { .. })
    ));
    assert!(matches!(
        parse_peers("x=a:1,b:2"),
        Err(StartupError::PeerId { .. })
    ));
}

#[test]
fn one_node_needs_no_settings_and_several_need_secrets() {
    let plan = cluster_plan(&env()).unwrap();
    assert!(matches!(plan.nodes, Nodes::Single { .. }));
    assert_eq!(plan.peer_tls, None);

    let mut e = env();
    e.peers = some("1=a:1,b:2;2=c:3,d:4");
    assert!(matches!(
        cluster_plan(&e),
        Err(StartupError::NodeIdMissing)
    ));
    e.node_id = some("x");
    assert!(matches!(
        cluster_plan(&e),
        Err(StartupError::NodeIdInvalid)
    ));
    e.node_id = some("3");
    assert!(matches!(
        cluster_plan(&e),
        Err(StartupError::NodeNotListed { node_id: 3 })
    ));
    e.node_id = some("2");
    assert!(matches!(
        cluster_plan(&e),
        Err(StartupError::SecretsMissing)
    ));
    // The certificate and its key are looked at before the secrets.
    e.peer_tls_cert = some("/c.pem");
    assert!(matches!(cluster_plan(&e), Err(StartupError::PeerTlsPair)));
    e.peer_tls_cert = None;
    e.raft_secret = some("r");
    e.api_secret = some("a");
    let plan = cluster_plan(&e).unwrap();
    match plan.nodes {
        Nodes::Listed { node_id, peers, .. } => {
            assert_eq!(node_id, 2);
            assert_eq!(peers.len(), 2);
        }
        other => panic!("{other:?}"),
    }
    assert_eq!(plan.secrets, Some(("r".to_string(), "a".to_string())));
}

#[test]
fn transport_settings_come_in_pairs() {
    assert!(matches!(
        resolve_tls(some("c"), None),
        Err(StartupError::TlsPair)
    ));
    assert_eq!(
        resolve_tls(some("c"), some("k")).unwrap(),
        Some(("c".to_string(), "k".to_string()))
    );
    assert_eq!(resolve_tls(None, None).unwrap(), None);
    assert!(matches!(
        resolve_peer_tls(&some("c"), &some(""), &None),
        Err(StartupError::PeerTlsPair)
    ));
    assert_eq!(
        resolve_peer_tls(&None, &None, &some(" Yes ")).unwrap(),
        Some(PeerTls::SelfSigned)
    );
    assert_eq!(resolve_peer_tls(&None, &None, &some("no")).unwrap(), None);
    assert!(is_truthy("ON"));
    assert!(!is_truthy(""));
}

#[test]
fn lifetimes_are_clamped() {
    assert_eq!(
        ttl_setting(&some("1"), MIN_TTL_SECS, MAX_TTL_SECS),
        Some(MIN_TTL_SECS)
    );
    assert_eq!(
        ttl_setting(&some("99999999"), MIN_TTL_SECS, MAX_TTL_SECS),
        Some(MAX_TTL_SECS)
    );
    assert_eq!(
        ttl_setting(&some("400000"), MIN_TTL_SECS, MAX_TTL_SECS),
        Some(400_000)
    );
    assert_eq!(ttl_setting(&some("x"), MIN_TTL_SECS, MAX_TTL_SECS), None);
    assert_eq!(ttl_setting(&None, MIN_TTL_SECS, MAX_TTL_SECS), None);
    let c = configure(CmisConfig::default(), &some("off"), &some("1"), &None);
    assert_eq!(c.svid_ttl_secs, MIN_TTL_SECS);
    assert_eq!(c.allowlist_proposal_policy, ProposalPolicy::Off);
    assert_eq!(c.allowlist_ttl_secs, 72 * 3600);
}

#[test]
fn one_publisher_key_is_loaded() {
    let (sk, pk) = keypair();
    let hex_key = hex::encode(pk.to_concat_bytes());
    let trust = load_single_key_trust(some("p"), Some(format!(" {hex_key}\n"))).unwrap();
    sign_manifest(sample(1, &[1]), "p", &sk)
        .verify(&trust)
        .unwrap();
    assert!(matches!(
        load_single_key_trust(None, Some(hex_key.clone())),
        Err(StartupError::SignerIdMissing)
    ));
    assert!(matches!(
        load_single_key_trust(some("p"), None),
        Err(StartupError::SignerKeyMissing)
    ));
    assert!(matches!(
        load_single_key_trust(some("p"), some("zz")),
        Err(StartupError::SignerKeyHex(_))
    ));
    assert!(matches!(
        load_single_key_trust(some("p"), some("00")),
        Err(StartupError::SignerKey(_))
    ));
}

// ---- the cluster ----

#[test]
fn rows_that_do_not_decode_are_passed_over() {
    let good = WireIssuedRecord::from_record(&sample_record());
    let mut bad = good.clone();
    bad.pcr_digest_hex = "00".into();
    assert!(matches!(
        decode(&Err("eof".into())),
        Err(WireError::Json(m)) if m == "eof"
    ));
    assert_eq!(decode(&Ok(good.clone())).unwrap(), sample_record());
    let rows = vec![Err("eof".into()), Ok(bad), Ok(good)];
    assert_eq!(list_records(&rows), vec![sample_record()]);
}

#[test]
fn health_tells_roles_only_of_healthy_clusters() {
    assert_eq!(health(None), (true, NodeRole::Unknown, 0));
    let mut c = ClusterState {
        healthy: true,
        role: NodeRole::Leader,
        node_id: 3,
    };
    assert_eq!(health(Some(c)), (true, NodeRole::Leader, 3));
    c.healthy = false;
    assert_eq!(health(Some(c)), (false, NodeRole::Unknown, 3));
}

// ---- the identity of the listener ----

#[test]
fn an_identity_is_read_from_pem() {
    let key = rcgen::KeyPair::generate().unwrap();
    let params = rcgen::CertificateParams::new(vec!["cmis.test".to_string()]).unwrap();
    let cert = params.self_signed(&key).unwrap();
    let chain = format!("{}{}", cert.pem(), cert.pem()).into_bytes();
    let key_pem = key.serialize_pem().into_bytes();
    let id = load_pem_identity("c", Ok(chain.clone()), "k", Ok(key_pem)).unwrap();
    assert_eq!(id.certs, vec![cert.der().to_vec(), cert.der().to_vec()]);
    assert_eq!(id.key_kind, KeyKind::Pkcs8);
    assert_eq!(id.key, key.serialize_der());
    let fails = |c, k| load_pem_identity("c.pem", c, "k.pem", k).unwrap_err();
    assert_eq!(
        fails(Err("gone".into()), Err("gone".into())),
        "reading TLS cert c.pem: gone"
    );
    assert_eq!(
        fails(Ok(vec![]), Err("gone".into())),
        "no certificates found in c.pem"
    );
    assert_eq!(
        fails(Ok(chain.clone()), Err("gone".into())),
        "reading TLS key k.pem: gone"
    );
    assert_eq!(
        fails(Ok(chain.clone()), Ok(chain.clone())),
        "no private key found in k.pem"
    );
    let broken = b"-----BEGIN CERTIFICATE-----\nAAAA".to_vec();
    assert!(fails(Ok(broken.clone()), Ok(vec![])).starts_with("parsing TLS cert c.pem: "));
    assert!(fails(Ok(chain), Ok(broken)).starts_with("parsing TLS key k.pem: "));
    assert_eq!(
        require_certs("p", Err("bad".into())).unwrap_err(),
        "parsing TLS cert p: bad"
    );
    assert_eq!(
        require_key("p", Ok(None)).unwrap_err(),
        "no private key found in p"
    );
}
