use base64::engine::general_purpose::STANDARD;
use base64::Engine;
use ferrogate::attest::aik::{check_aik, AikRejection};
use ferrogate::attest::host_key::{
    host_key_binding, verify_host_key_csr, verify_host_key_evidence, HostKeyRejection,
};
use ferrogate::attest::rim::{
    ApplyError, PolicyId, RimGeneration, RimStore, MAX_GENERATIONS,
};
use ferrogate::attest::rim_bundle::{BundleError, RimBundle, SignedRimBundle, TrustedKeys};
use ferrogate::attest::rim_loader::{ReloadError, ReloadOutcome, RimLoader};
use ferrogate::attest::tpm::{
    EccPublic, EcdsaSignature, ParseError, PcrSelection, QuoteInfo, TPMA_DECRYPT,
    TPMA_FIXED_PARENT, TPMA_FIXED_TPM, TPMA_RESTRICTED, TPMA_SENSITIVE_DATA_ORIGIN, TPMA_SIGN,
    TPMA_USER_WITH_AUTH, TPM_ALG_ECC, TPM_ALG_ECDSA, TPM_ALG_SHA256, TPM_ALG_SHA384,
    TPM_ECC_NIST_P256, TPM_GENERATED_VALUE, TPM_ST_ATTEST_QUOTE,
};
use ferrogate::attest::vendor::{ChainError, Vendor, VendorRoots, VendorTrustStore};
use ferrogate::attest::verify::{
    credential_secret_matches, pad32, verify_aik_signature, PcrSet, QuoteVerification,
    RejectReason, TpmQuoteVerifier,
};
use ferrogate::audit::event::AuditEvent;
use ferrogate::cmis::attest::{Action, AttestInit, ClientMessage, Csr, Handshake};
use ferrogate::cmis::credential::{CredentialError, CredentialMaker, WrappedCredential};
use ferrogate::cmis::keys::Jwk;
use ferrogate::cmis::state::{CmisConfig, CmisState};
use ferrogate::cmis::status::{Code, Status};
use ferrogate::collections::DigestSet;
use ferrogate::crypto::composite::{CompositePublicKey, CompositeSecretKey};
use ferrogate::machineid::MachineFacts;
use p256::ecdsa::signature::hazmat::{PrehashSigner, PrehashVerifier};
use p256::ecdsa::{Signature, SigningKey, VerifyingKey};
use rcgen::{date_time_ymd, BasicConstraints, CertificateParams, IsCa, Issuer, KeyPair};
use serde_json::Value;
use sha2::{Digest, Sha256, Sha384};

fn good_aik() -> EccPublic {
    EccPublic {
        attributes: TPMA_FIXED_TPM
            | TPMA_FIXED_PARENT
            | TPMA_SENSITIVE_DATA_ORIGIN
            | TPMA_USER_WITH_AUTH
            | TPMA_RESTRICTED
            | TPMA_SIGN,
        curve_id: TPM_ECC_NIST_P256,
        scheme: TPM_ALG_ECDSA,
        scheme_hash: TPM_ALG_SHA256,
        x: vec![1u8; 32],
        y: vec![2u8; 32],
    }
}

#[test]
fn accepts_well_formed_aik() {
    check_aik(&good_aik()).expect("valid AIK");
}

#[test]
fn rejects_non_restricted_aik() {
    let mut aik = good_aik();
    aik.attributes &= !TPMA_RESTRICTED;
    assert_eq!(
        check_aik(&aik),
        Err(AikRejection::MissingAttribute("restricted"))
    );
}

#[test]
fn rejects_decrypt_aik() {
    let mut aik = good_aik();
    aik.attributes |= TPMA_DECRYPT;
    assert_eq!(
        check_aik(&aik),
        Err(AikRejection::ForbiddenAttribute("decrypt"))
    );
}

#[test]
fn rejects_wrong_curve() {
    let mut aik = good_aik();
    aik.curve_id = 0x0004; // NIST P-384
    assert_eq!(check_aik(&aik), Err(AikRejection::WrongCurve));
}

// A machine key in software, with the verdict of its verifier.
struct MachineKey(SigningKey);

impl MachineKey {
    fn generate() -> Self {
        MachineKey(SigningKey::random(&mut rand_core::OsRng))
    }
    fn sign(&self, msg: &[u8]) -> Signature {
        self.0.sign_prehash(&Sha256::digest(msg)).unwrap()
    }
    fn public(&self) -> VerifyingKey {
        *self.0.verifying_key()
    }
}

fn machine_key_verifies(key: &VerifyingKey, msg: &[u8], sig: &Signature) -> bool {
    key.verify_prehash(&Sha256::digest(msg), sig).is_ok()
}

fn facts() -> (String, String, String) {
    (
        "WT3QF2J3YL".to_string(),
        "38D33B14-6DDD-51DD-B8CD-9854CAF977D5".to_string(),
        "0ba0206164386025".to_string(),
    )
}

fn fingerprint_of(b: &str, p: &str, d: &str) -> [u8; 48] {
    *MachineFacts {
        board_serial: b.to_string(),
        platform_uuid: p.to_string(),
        disk_serial: d.to_string(),
    }
    .fingerprint()
    .as_bytes()
}

#[test]
fn accepts_valid_evidence() {
    let (b, p, d) = facts();
    let fp = fingerprint_of(&b, &p, &d);
    let key = MachineKey::generate();
    let nonce = [7u8; 32];
    let sig = key.sign(&host_key_binding(&nonce, &fp));
    let ok = machine_key_verifies(&key.public(), &host_key_binding(&nonce, &fp), &sig);
    let v = verify_host_key_evidence(&b, &p, &d, &fp, ok).expect("valid");
    assert_eq!(v.fingerprint, fp);
}

#[test]
fn rejects_forged_fingerprint() {
    let (b, p, d) = facts();
    let key = MachineKey::generate();
    let nonce = [7u8; 32];
    // Claim a fingerprint the facts do not hash to.
    let bogus = [0xAAu8; 48];
    let sig = key.sign(&host_key_binding(&nonce, &bogus));
    let ok = machine_key_verifies(&key.public(), &host_key_binding(&nonce, &bogus), &sig);
    let err = verify_host_key_evidence(&b, &p, &d, &bogus, ok).unwrap_err();
    assert_eq!(err, HostKeyRejection::FingerprintMismatch);
}

#[test]
fn rejects_replayed_nonce() {
    let (b, p, d) = facts();
    let fp = fingerprint_of(&b, &p, &d);
    let key = MachineKey::generate();
    // Signed over a different nonce than the one presented.
    let sig = key.sign(&host_key_binding(&[1u8; 32], &fp));
    let ok = machine_key_verifies(&key.public(), &host_key_binding(&[2u8; 32], &fp), &sig);
    let err = verify_host_key_evidence(&b, &p, &d, &fp, ok).unwrap_err();
    assert_eq!(err, HostKeyRejection::NonceSignatureInvalid);
}

#[test]
fn rejects_wrong_key() {
    let (b, p, d) = facts();
    let fp = fingerprint_of(&b, &p, &d);
    let signer = MachineKey::generate();
    let impostor = MachineKey::generate();
    let nonce = [9u8; 32];
    let sig = signer.sign(&host_key_binding(&nonce, &fp));
    let ok = machine_key_verifies(&impostor.public(), &host_key_binding(&nonce, &fp), &sig);
    let err = verify_host_key_evidence(&b, &p, &d, &fp, ok).unwrap_err();
    assert_eq!(err, HostKeyRejection::NonceSignatureInvalid);
}

#[test]
fn a_fingerprint_of_another_size_is_rejected() {
    let (b, p, d) = facts();
    assert_eq!(
        verify_host_key_evidence(&b, &p, &d, &[0; 47], true),
        Err(HostKeyRejection::BadFingerprintLen)
    );
    assert_eq!(host_key_binding(&[1, 2], &[3]), vec![1, 2, 3]);
}

#[test]
fn csr_binding_roundtrips() {
    let key = MachineKey::generate();
    let composite = vec![0x42u8; 1984];
    let sig = key.sign(&composite);
    verify_host_key_csr(machine_key_verifies(&key.public(), &composite, &sig)).expect("csr ok");
    // A different composite key fails.
    assert!(
        verify_host_key_csr(machine_key_verifies(&key.public(), &[0u8; 1984], &sig)).is_err()
    );
}

fn gen(version: u64, policy: &str, digest: u8, window: (i64, i64)) -> RimGeneration {
    let mut approved = DigestSet::new();
    approved.insert([digest; 48]);
    RimGeneration {
        version,
        policy_id: PolicyId(policy.to_string()),
        not_before: window.0,
        not_after: window.1,
        approved,
    }
}

#[test]
fn manual_approval_back_compat_works() {
    let mut rim = RimStore::new();
    let digest = [7u8; 48];
    rim.approve(digest, PolicyId("2026-05-fleet-a".into()));
    assert_eq!(
        rim.lookup(&digest).map(|p| p.0),
        Some("2026-05-fleet-a".to_string())
    );
    // Manual entries ignore the time window.
    assert_eq!(
        rim.lookup_at(&digest, 0).map(|p| p.0),
        Some("2026-05-fleet-a".to_string())
    );
}

#[test]
fn unknown_digest_is_absent() {
    let rim = RimStore::new();
    assert!(rim.lookup(&[0u8; 48]).is_none());
}

#[test]
fn generation_lookup_respects_window() {
    let mut rim = RimStore::new();
    let g = gen(1, "p1", 0xAA, (100, 200));
    rim.apply(g).unwrap();
    assert!(rim.lookup_at(&[0xAA; 48], 50).is_none());
    assert_eq!(rim.lookup_at(&[0xAA; 48], 150).unwrap().0, "p1");
    // not_after is exclusive.
    assert!(rim.lookup_at(&[0xAA; 48], 200).is_none());
}

#[test]
fn non_monotonic_apply_is_refused() {
    let mut rim = RimStore::new();
    rim.apply(gen(5, "p", 1, (0, 1000))).unwrap();
    let err = rim.apply(gen(5, "p", 2, (0, 1000))).unwrap_err();
    assert!(matches!(
        err,
        ApplyError::NonMonotonic {
            current: 5,
            incoming: 5
        }
    ));
    let err = rim.apply(gen(3, "p", 3, (0, 1000))).unwrap_err();
    assert!(matches!(err, ApplyError::NonMonotonic { .. }));
}

#[test]
fn invalid_window_is_refused() {
    let mut rim = RimStore::new();
    let err = rim.apply(gen(1, "p", 1, (100, 100))).unwrap_err();
    assert!(matches!(err, ApplyError::InvalidWindow { .. }));
}

#[test]
fn retention_prunes_oldest_beyond_six() {
    let mut rim = RimStore::new();
    for v in 1..=8 {
        let outcome = rim.apply(gen(v, "p", v as u8, (0, 1_000_000))).unwrap();
        if v <= MAX_GENERATIONS as u64 {
            assert_eq!(outcome.pruned, 0);
        } else {
            assert_eq!(outcome.pruned, 1);
        }
    }
    // After 8 applies, only versions 3..=8 are retained.
    let gens = rim.generations();
    assert_eq!(gens.len(), MAX_GENERATIONS);
    assert_eq!(gens.first().unwrap().version, 3);
    assert_eq!(gens.last().unwrap().version, 8);
    // The pruned digest (from version 1) no longer resolves.
    assert!(rim.lookup_at(&[1u8; 48], 500).is_none());
    // The newest still does.
    assert_eq!(rim.lookup_at(&[8u8; 48], 500).unwrap().0, "p");
    assert_eq!(rim.len(), 6);
    assert!(!rim.is_empty());
}

#[test]
fn newer_generation_wins_when_both_active() {
    let mut rim = RimStore::new();
    let mut g1 = gen(1, "p1", 0xAA, (0, 1_000_000));
    // Same digest also approved in newer generation under a fresher policy.
    g1.approved.insert([0xBB; 48]);
    rim.apply(g1).unwrap();
    let mut g2 = RimGeneration {
        version: 2,
        policy_id: PolicyId("p2".into()),
        not_before: 0,
        not_after: 1_000_000,
        approved: DigestSet::new(),
    };
    g2.approved.insert([0xAA; 48]);
    rim.apply(g2).unwrap();
    // Shared digest -> newer policy_id wins.
    assert_eq!(rim.lookup_at(&[0xAA; 48], 500).unwrap().0, "p2");
    // Old-only digest -> still resolves under old policy.
    assert_eq!(rim.lookup_at(&[0xBB; 48], 500).unwrap().0, "p1");
}

fn keypair() -> (CompositeSecretKey, CompositePublicKey) {
    CompositeSecretKey::generate().unwrap()
}

fn sample_bundle(version: u64) -> RimBundle {
    RimBundle {
        version,
        policy_id: format!("fleet-{version}"),
        not_before: 1_700_000_000,
        not_after: 1_700_086_400,
        approved_digests_hex: vec![hex::encode([version as u8; 48])],
    }
}

fn text_of(v: &Value) -> String {
    v.as_str().unwrap().to_string()
}

fn bundle_to_json(s: &SignedRimBundle) -> Vec<u8> {
    let mut b = serde_json::Map::new();
    b.insert("version".into(), Value::from(s.bundle.version));
    b.insert("policy_id".into(), Value::from(s.bundle.policy_id.clone()));
    b.insert("not_before".into(), Value::from(s.bundle.not_before));
    b.insert("not_after".into(), Value::from(s.bundle.not_after));
    b.insert(
        "approved_digests_hex".into(),
        Value::from(s.bundle.approved_digests_hex.clone()),
    );
    let mut m = serde_json::Map::new();
    m.insert("bundle".into(), Value::Object(b));
    m.insert("signer_kid".into(), Value::from(s.signer_kid.clone()));
    m.insert("signature_b64".into(), Value::from(s.signature_b64.clone()));
    serde_json::to_vec(&Value::Object(m)).unwrap()
}

fn bundle_from_json(bytes: &[u8]) -> SignedRimBundle {
    let v: Value = serde_json::from_slice(bytes).unwrap();
    let b = &v["bundle"];
    SignedRimBundle {
        bundle: RimBundle {
            version: b["version"].as_u64().unwrap(),
            policy_id: text_of(&b["policy_id"]),
            not_before: b["not_before"].as_i64().unwrap(),
            not_after: b["not_after"].as_i64().unwrap(),
            approved_digests_hex: b["approved_digests_hex"]
                .as_array()
                .unwrap()
                .iter()
                .map(text_of)
                .collect(),
        },
        signer_kid: text_of(&v["signer_kid"]),
        signature_b64: text_of(&v["signature_b64"]),
    }
}

#[test]
fn rim_bundle_sign_then_verify_roundtrips() {
    let (sk, pk) = keypair();
    let signed = SignedRimBundle::sign(sample_bundle(1), "publisher-1".to_string(), &sk).unwrap();
    let mut trust = TrustedKeys::new();
    trust.add("publisher-1".to_string(), pk);
    let verified = signed.verify(&trust).expect("verify ok");
    assert_eq!(verified.version, 1);
    assert_eq!(verified.policy_id, "fleet-1");
}

#[test]
fn rim_bundle_unknown_kid_is_refused_before_crypto() {
    let (sk, _pk) = keypair();
    let signed = SignedRimBundle::sign(sample_bundle(1), "evil".to_string(), &sk).unwrap();
    let trust = TrustedKeys::new();
    let err = signed.verify(&trust).unwrap_err();
    assert!(matches!(err, BundleError::UnknownKid(_)));
}

#[test]
fn tampered_bundle_fails_signature() {
    let (sk, pk) = keypair();
    let mut signed =
        SignedRimBundle::sign(sample_bundle(1), "publisher-1".to_string(), &sk).unwrap();
    signed.bundle.policy_id = "fleet-evil".to_string();
    let mut trust = TrustedKeys::new();
    trust.add("publisher-1".to_string(), pk);
    let err = signed.verify(&trust).unwrap_err();
    assert!(matches!(err, BundleError::BadSignature(_)));
}

#[test]
fn tampered_signature_fails() {
    let (sk, pk) = keypair();
    let mut signed =
        SignedRimBundle::sign(sample_bundle(1), "publisher-1".to_string(), &sk).unwrap();
    // Flip a single base64url char.
    let last = signed.signature_b64.pop().unwrap();
    signed
        .signature_b64
        .push(if last == 'A' { 'B' } else { 'A' });
    let mut trust = TrustedKeys::new();
    trust.add("publisher-1".to_string(), pk);
    assert!(matches!(
        signed.verify(&trust),
        Err(BundleError::BadSignature(_))
    ));
}

#[test]
fn rim_bundle_json_roundtrip_preserves_signature() {
    let (sk, pk) = keypair();
    let signed = SignedRimBundle::sign(sample_bundle(5), "p".to_string(), &sk).unwrap();
    let blob = bundle_to_json(&signed);
    let back = bundle_from_json(&blob);
    let mut trust = TrustedKeys::new();
    trust.add("p".to_string(), pk);
    back.verify(&trust).expect("verify after json roundtrip");
}

#[test]
fn to_generation_decodes_digests() {
    let bundle = sample_bundle(3);
    let g = bundle.to_generation().unwrap();
    assert_eq!(g.version, 3);
    assert_eq!(g.policy_id.as_str(), "fleet-3");
    assert!(g.approved.contains(&[3u8; 48]));
}

#[test]
fn to_generation_rejects_bad_hex() {
    let mut b = sample_bundle(1);
    b.approved_digests_hex[0] = "not-hex".to_string();
    assert!(matches!(b.to_generation(), Err(BundleError::BadDigest(_))));
}

#[test]
fn the_signed_form_of_a_bundle_is_compact_json() {
    let mut b = sample_bundle(2);
    b.policy_id = "a\"b\\c\n".to_string();
    b.approved_digests_hex = vec!["00".into(), "ff".into()];
    assert_eq!(
        String::from_utf8(b.canonical_json().unwrap()).unwrap(),
        "{\"version\":2,\"policy_id\":\"a\\\"b\\\\c\\n\",\"not_before\":1700000000,\
         \"not_after\":1700086400,\"approved_digests_hex\":[\"00\",\"ff\"]}"
    );
}

fn bundle(version: u64, digest: u8) -> RimBundle {
    RimBundle {
        version,
        policy_id: format!("fleet-{version}"),
        not_before: 0,
        not_after: 1_000_000,
        approved_digests_hex: vec![hex::encode([digest; 48])],
    }
}

fn published(bundle: RimBundle, kid: &str, sk: &CompositeSecretKey) -> SignedRimBundle {
    let signed = SignedRimBundle::sign(bundle, kid.to_string(), sk).unwrap();
    bundle_from_json(&bundle_to_json(&signed))
}

#[test]
fn reload_applies_then_reports_up_to_date() {
    let (sk, pk) = CompositeSecretKey::generate().unwrap();
    let mut trust = TrustedKeys::new();
    trust.add("pub".to_string(), pk);
    let mut loader = RimLoader::new("rim.json".to_string(), trust, RimStore::new());

    match loader
        .try_reload(Ok(published(bundle(1, 0xAA), "pub", &sk)))
        .unwrap()
    {
        ReloadOutcome::Applied(o) => assert_eq!(o.version, 1),
        ReloadOutcome::UpToDate { version } => {
            panic!("expected Applied, got UpToDate {version}")
        }
    }
    assert_eq!(loader.store().current_version(), 1);
    assert_eq!(
        loader.store().lookup_at(&[0xAA; 48], 500).unwrap().0,
        "fleet-1"
    );

    // Re-reading the same bundle is a no-op.
    match loader
        .try_reload(Ok(published(bundle(1, 0xAA), "pub", &sk)))
        .unwrap()
    {
        ReloadOutcome::UpToDate { version } => assert_eq!(version, 1),
        ReloadOutcome::Applied(o) => panic!("expected UpToDate, got Applied {o:?}"),
    }
}

#[test]
fn reload_swaps_in_new_generation_atomically() {
    let (sk, pk) = CompositeSecretKey::generate().unwrap();
    let mut trust = TrustedKeys::new();
    trust.add("pub".to_string(), pk);
    let mut loader = RimLoader::new("rim.json".to_string(), trust, RimStore::new());
    loader
        .try_reload(Ok(published(bundle(1, 0xAA), "pub", &sk)))
        .unwrap();

    // Publish a fresher bundle with a *different* digest.
    loader
        .try_reload(Ok(published(bundle(2, 0xBB), "pub", &sk)))
        .unwrap();
    let store = loader.store();
    // Newest gen approves 0xBB under fleet-2.
    assert_eq!(store.lookup_at(&[0xBB; 48], 500).unwrap().0, "fleet-2");
    // Older gen still approves 0xAA under fleet-1 (within retention).
    assert_eq!(store.lookup_at(&[0xAA; 48], 500).unwrap().0, "fleet-1");
}

#[test]
fn reload_rejects_non_monotonic_version_on_disk() {
    let (sk, pk) = CompositeSecretKey::generate().unwrap();
    let mut trust = TrustedKeys::new();
    trust.add("pub".to_string(), pk);
    let mut loader = RimLoader::new("rim.json".to_string(), trust, RimStore::new());
    loader
        .try_reload(Ok(published(bundle(5, 0xAA), "pub", &sk)))
        .unwrap();

    match loader
        .try_reload(Ok(published(bundle(3, 0xBB), "pub", &sk)))
        .unwrap()
    {
        ReloadOutcome::UpToDate { version } => assert_eq!(version, 5),
        ReloadOutcome::Applied(o) => panic!("expected UpToDate, got Applied {o:?}"),
    }
    // The rollback digest was never admitted.
    assert!(loader.store().lookup_at(&[0xBB; 48], 500).is_none());
}

#[test]
fn reload_with_unknown_publisher_is_refused() {
    let (sk, _pk) = CompositeSecretKey::generate().unwrap();
    let mut loader = RimLoader::new("rim.json".to_string(), TrustedKeys::new(), RimStore::new());
    let err = loader
        .try_reload(Ok(published(bundle(1, 0xAA), "evil", &sk)))
        .unwrap_err();
    assert!(matches!(
        err,
        ReloadError::Bundle(BundleError::UnknownKid(_))
    ));
    assert_eq!(loader.store().current_version(), 0);
}

#[test]
fn reload_hands_on_what_could_not_be_read_and_refuses_empty_windows() {
    let (sk, pk) = CompositeSecretKey::generate().unwrap();
    let mut trust = TrustedKeys::new();
    trust.add("pub".to_string(), pk);
    let mut loader = RimLoader::new("rim.json".to_string(), trust, RimStore::new());
    let io = ReloadError::Io {
        path: loader.path().to_string(),
        message: "gone".to_string(),
    };
    assert!(matches!(
        loader.try_reload(Err(io)),
        Err(ReloadError::Io { .. })
    ));
    let mut empty = bundle(1, 0xAA);
    empty.not_after = empty.not_before;
    assert!(matches!(
        loader.try_reload(Ok(published(empty, "pub", &sk))),
        Err(ReloadError::Apply(ApplyError::InvalidWindow { .. }))
    ));
    assert_eq!(loader.store().current_version(), 0);
}

#[test]
fn pcr_selection_bitmap_decodes_indices() {
    // bits for PCRs 0,1,2,3,4,7 in byte0; 8,9,10,11 in byte1; 14 in byte2.
    let sel = PcrSelection {
        hash_alg: TPM_ALG_SHA384,
        bitmap: vec![0b1001_1111, 0b0000_1111, 0b0100_0000],
    };
    assert_eq!(
        sel.selected_indices(),
        vec![0, 1, 2, 3, 4, 7, 8, 9, 10, 11, 22]
    );
}

#[test]
fn truncated_attest_is_rejected() {
    assert!(matches!(
        QuoteInfo::parse(&[0xFF, 0x54]),
        Err(ParseError::Truncated(_))
    ));
}

#[test]
fn an_attestation_of_another_type_is_rejected() {
    // A complete structure of type TPM_ST_ATTEST_CERTIFY.
    let mut certify = vec![0xFF, 0x54, 0x43, 0x47, 0x80, 0x17];
    certify.extend_from_slice(&[0u8; 35]);
    assert!(matches!(
        QuoteInfo::parse(&certify),
        Err(ParseError::Unexpected {
            field: "TPMS_ATTEST.type",
            got: 0x8017
        })
    ));
    certify[5] = 0x18;
    assert!(QuoteInfo::parse(&certify).is_ok());
}

#[test]
fn ecc_public_rejects_non_ecc_type() {
    // type = TPM_ALG_RSA (0x0001).
    assert!(matches!(
        EccPublic::parse(&[0x00, 0x01]),
        Err(ParseError::Unexpected { .. })
    ));
}

#[test]
fn signature_rejects_non_ecdsa() {
    // sigAlg = TPM_ALG_RSASSA (0x0014).
    assert!(matches!(
        EcdsaSignature::parse(&[0x00, 0x14]),
        Err(ParseError::Unexpected { .. })
    ));
}

#[test]
fn empty_store_rejects_any_chain() {
    let store = VendorTrustStore::new();
    let err = store.verify_ek_chain(&[0u8; 4], &[], 0).unwrap_err();
    assert_eq!(err, ChainError::EmptyStore);
}

#[test]
fn bundled_store_loads_without_error() {
    let store = VendorTrustStore::bundled(&VendorRoots::none()).unwrap();
    assert!(store.is_empty());
}

fn pem_of(der: &[u8]) -> String {
    let text = STANDARD.encode(der);
    let mut pem = String::from("-----BEGIN CERTIFICATE-----\n");
    let mut rest = text.as_str();
    while rest.len() > 64 {
        pem.push_str(&rest[..64]);
        pem.push('\n');
        rest = &rest[64..];
    }
    pem.push_str(rest);
    pem.push_str("\n-----END CERTIFICATE-----");
    pem
}

#[test]
fn provisioned_roots_are_trusted_for_their_vendor() {
    let ek = build_ek_chain();
    let other = build_ek_chain();
    let mut roots = VendorRoots::none();
    // Neither text ends its last line; the next begins a line of its own.
    roots.provision(Vendor::Nuvoton, &pem_of(&other.root_der));
    roots.provision(Vendor::Nuvoton, &pem_of(&ek.root_der));
    assert!(roots.pem(Vendor::Nuvoton).ends_with("-----END CERTIFICATE-----\n"));
    assert_eq!(roots.pem(Vendor::St), "");

    let all = VendorTrustStore::bundled(&roots).unwrap();
    assert_eq!(
        all.verify_ek_chain(&ek.leaf_der, &[], NOW)
            .map(|m| m.vendor),
        Ok(Vendor::Nuvoton)
    );
    let nuvoton = VendorTrustStore::with_vendor(&roots, Vendor::Nuvoton).unwrap();
    assert_eq!(
        nuvoton
            .verify_ek_chain(&other.leaf_der, &[], NOW)
            .map(|m| m.vendor),
        Ok(Vendor::Nuvoton)
    );
    let st = VendorTrustStore::with_vendor(&roots, Vendor::St).unwrap();
    assert_eq!(
        st.verify_ek_chain(&ek.leaf_der, &[], NOW).map(|m| m.vendor),
        Err(ChainError::EmptyStore)
    );

    // What is no certificate is refused, and ends the loading.
    roots.provision(Vendor::Infineon, &pem_of(b"no certificate"));
    assert!(matches!(
        VendorTrustStore::bundled(&roots),
        Err(ChainError::Malformed(_))
    ));
}

#[test]
fn provisioned_texts_end_their_line() {
    let mut roots = VendorRoots::none();
    roots.provision(Vendor::IntelPtt, "");
    assert_eq!(roots.pem(Vendor::IntelPtt), "\n");
    roots.provision(Vendor::IntelPtt, "a\n");
    roots.provision(Vendor::IntelPtt, "b");
    assert_eq!(roots.pem(Vendor::IntelPtt), "\na\nb\n");
}

#[test]
fn a_single_vendor_store_loads_without_error() {
    let store = VendorTrustStore::with_vendor(&VendorRoots::none(), Vendor::Infineon).unwrap();
    assert!(store.is_empty());
}

#[test]
fn vendor_names_are_stable() {
    assert_eq!(Vendor::Infineon.name(), "infineon");
    assert_eq!(Vendor::IntelPtt.name(), "intel-ptt");
}

#[test]
fn rejects_garbage_root() {
    let mut store = VendorTrustStore::new();
    assert!(matches!(
        store.add_root_der(&[1, 2, 3], Vendor::St),
        Err(ChainError::Malformed(_))
    ));
}

#[test]
fn pad32_left_pads_short_scalar() {
    let p = pad32(&[0xAB, 0xCD]);
    assert_eq!(p[30], 0xAB);
    assert_eq!(p[31], 0xCD);
    assert!(p[..30].iter().all(|&b| b == 0));
}

#[test]
fn pad32_trims_leading_zero_of_oversized() {
    let mut oversized = vec![0u8; 33];
    oversized[1] = 0xFF;
    let p = pad32(&oversized);
    assert_eq!(p[0], 0xFF);
}

#[test]
fn credential_compare_is_value_correct() {
    assert!(credential_secret_matches(b"abc", b"abc"));
    assert!(!credential_secret_matches(b"abc", b"abd"));
    assert!(!credential_secret_matches(b"abc", b"ab"));
}

fn push_u16(buf: &mut Vec<u8>, v: u16) {
    buf.extend_from_slice(&v.to_be_bytes());
}
fn push_u32(buf: &mut Vec<u8>, v: u32) {
    buf.extend_from_slice(&v.to_be_bytes());
}
fn push_tpm2b(buf: &mut Vec<u8>, data: &[u8]) {
    push_u16(buf, data.len() as u16);
    buf.extend_from_slice(data);
}

const PCR_INDICES: [u8; 11] = [0, 1, 2, 3, 4, 7, 8, 9, 10, 11, 14];

fn marshal_aik_public(x: &[u8], y: &[u8], attributes: u32, scheme: u16) -> Vec<u8> {
    let mut b = Vec::new();
    push_u16(&mut b, TPM_ALG_ECC);
    push_u16(&mut b, TPM_ALG_SHA256); // nameAlg
    push_u32(&mut b, attributes);
    push_tpm2b(&mut b, &[]); // authPolicy
    push_u16(&mut b, 0x0010); // symmetric = TPM_ALG_NULL
    push_u16(&mut b, scheme); // scheme
    if scheme != 0x0010 {
        push_u16(&mut b, TPM_ALG_SHA256); // scheme hashAlg
    }
    push_u16(&mut b, TPM_ECC_NIST_P256); // curveID
    push_u16(&mut b, 0x0010); // kdf = TPM_ALG_NULL
    push_tpm2b(&mut b, x);
    push_tpm2b(&mut b, y);
    b
}

fn pcr_bitmap() -> Vec<u8> {
    let mut bm = vec![0u8; 3];
    for &i in &PCR_INDICES {
        bm[(i / 8) as usize] |= 1 << (i % 8);
    }
    bm
}

struct QuoteParts {
    blob: Vec<u8>,
    pcrs: PcrSet,
    pcr_digest: [u8; 48],
}

fn build_quote(nonce: &[u8]) -> QuoteParts {
    let mut pcrs = PcrSet::new();
    let mut agg = Sha384::new();
    for &i in &PCR_INDICES {
        let value = [i; 48];
        pcrs.insert(i, value.to_vec());
        agg.update(value);
    }
    let mut pcr_digest = [0u8; 48];
    pcr_digest.copy_from_slice(&agg.finalize());

    let mut b = Vec::new();
    push_u32(&mut b, TPM_GENERATED_VALUE);
    push_u16(&mut b, TPM_ST_ATTEST_QUOTE);
    push_tpm2b(&mut b, b"qualified-signer-name"); // qualifiedSigner
    push_tpm2b(&mut b, nonce); // extraData
    b.extend_from_slice(&0u64.to_be_bytes()); // clock
    push_u32(&mut b, 1); // resetCount
    push_u32(&mut b, 0); // restartCount
    b.push(1); // safe
    b.extend_from_slice(&0u64.to_be_bytes()); // firmwareVersion
    push_u32(&mut b, 1); // pcrSelect.count
    push_u16(&mut b, TPM_ALG_SHA384); // hash
    let bm = pcr_bitmap();
    b.push(bm.len() as u8); // sizeofSelect
    b.extend_from_slice(&bm);
    push_tpm2b(&mut b, &pcr_digest);

    QuoteParts {
        blob: b,
        pcrs,
        pcr_digest,
    }
}

fn marshal_signature(r: &[u8], s: &[u8]) -> Vec<u8> {
    let mut b = Vec::new();
    push_u16(&mut b, TPM_ALG_ECDSA); // sigAlg
    push_u16(&mut b, TPM_ALG_SHA256); // hash
    push_tpm2b(&mut b, r);
    push_tpm2b(&mut b, s);
    b
}

fn sign_quote(key: &SigningKey, blob: &[u8]) -> Vec<u8> {
    let digest = Sha256::digest(blob);
    let sig: Signature = key.sign_prehash(&digest).expect("sign prehash");
    let bytes = sig.to_bytes();
    marshal_signature(&bytes[..32], &bytes[32..])
}

const GOOD_AIK_ATTRS: u32 = TPMA_FIXED_TPM
    | TPMA_FIXED_PARENT
    | TPMA_SENSITIVE_DATA_ORIGIN
    | TPMA_USER_WITH_AUTH
    | TPMA_RESTRICTED
    | TPMA_SIGN;

struct Ek {
    leaf_der: Vec<u8>,
    root_der: Vec<u8>,
}

fn build_ek_chain() -> Ek {
    let ca_key = KeyPair::generate().unwrap();
    let mut ca_params = CertificateParams::new(Vec::<String>::new()).unwrap();
    ca_params.is_ca = IsCa::Ca(BasicConstraints::Unconstrained);
    ca_params.not_before = date_time_ymd(2020, 1, 1);
    ca_params.not_after = date_time_ymd(2035, 1, 1);
    let ca_cert = ca_params.self_signed(&ca_key).unwrap();

    let leaf_key = KeyPair::generate().unwrap();
    let mut leaf_params = CertificateParams::new(vec!["ek.host".to_string()]).unwrap();
    leaf_params.not_before = date_time_ymd(2020, 1, 1);
    leaf_params.not_after = date_time_ymd(2035, 1, 1);
    let ca_issuer = Issuer::from_params(&ca_params, &ca_key);
    let leaf_cert = leaf_params.signed_by(&leaf_key, &ca_issuer).unwrap();

    Ek {
        leaf_der: leaf_cert.der().to_vec(),
        root_der: ca_cert.der().to_vec(),
    }
}

/// Reference time inside the cert validity window (2026-ish, Unix seconds).
const NOW: i64 = 1_770_000_000;

fn verifier_for(ek: &Ek, pcr_digest: [u8; 48]) -> TpmQuoteVerifier {
    let mut trust = VendorTrustStore::new();
    trust.add_root_der(&ek.root_der, Vendor::Infineon).unwrap();
    let mut rim = RimStore::new();
    rim.approve(pcr_digest, PolicyId("test-fleet".into()));
    TpmQuoteVerifier::new(trust, rim)
}

struct Fixture {
    aik: SigningKey,
    aik_pub: Vec<u8>,
    quote: QuoteParts,
    ek: Ek,
    nonce: [u8; 32],
}

fn fixture() -> Fixture {
    let nonce = [0x5Au8; 32];
    let aik = SigningKey::random(&mut rand_core::OsRng);
    let pt = aik.verifying_key().to_encoded_point(false);
    let aik_pub = marshal_aik_public(
        pt.x().unwrap(),
        pt.y().unwrap(),
        GOOD_AIK_ATTRS,
        TPM_ALG_ECDSA,
    );
    let quote = build_quote(&nonce);
    let ek = build_ek_chain();
    Fixture {
        aik,
        aik_pub,
        quote,
        ek,
        nonce,
    }
}

fn evidence<'a>(f: &'a Fixture, sig: &'a [u8]) -> QuoteVerification<'a> {
    QuoteVerification {
        ek_cert_der: &f.ek.leaf_der,
        ek_intermediates: &[],
        aik_pub: &f.aik_pub,
        quote_blob: &f.quote.blob,
        signature: sig,
        nonce: &f.nonce,
        pcrs: &f.quote.pcrs,
        now: NOW,
    }
}

#[test]
fn full_quote_verifies_end_to_end() {
    let f = fixture();
    let sig = sign_quote(&f.aik, &f.quote.blob);
    let verifier = verifier_for(&f.ek, f.quote.pcr_digest);
    let result = verifier
        .verify_quote(&evidence(&f, &sig))
        .expect("quote must verify");
    assert_eq!(result.vendor, Vendor::Infineon);
    assert_eq!(result.policy_id.as_str(), "test-fleet");
    assert_eq!(result.pcr_digest, f.quote.pcr_digest);
}

#[test]
fn tampered_quote_is_rejected() {
    let f = fixture();
    let sig = sign_quote(&f.aik, &f.quote.blob);
    // Flip a byte in the quote body *after* signing: signature no longer covers it.
    let mut blob = f.quote.blob.clone();
    let last = blob.len() - 1;
    blob[last] ^= 0x01;
    let verifier = verifier_for(&f.ek, f.quote.pcr_digest);
    let mut v = evidence(&f, &sig);
    v.quote_blob = &blob;
    // Tampering the pcrDigest tail breaks the signature check.
    assert_eq!(
        verifier.verify_quote(&v),
        Err(RejectReason::SignatureInvalid)
    );
}

#[test]
fn wrong_nonce_is_rejected() {
    let f = fixture();
    let sig = sign_quote(&f.aik, &f.quote.blob);
    let verifier = verifier_for(&f.ek, f.quote.pcr_digest);
    let bad_nonce = [0x00u8; 32];
    let mut v = evidence(&f, &sig);
    v.nonce = &bad_nonce;
    assert_eq!(verifier.verify_quote(&v), Err(RejectReason::NonceMismatch));
}

#[test]
fn missing_pcr_value_is_rejected() {
    let f = fixture();
    let sig = sign_quote(&f.aik, &f.quote.blob);
    let verifier = verifier_for(&f.ek, f.quote.pcr_digest);
    // Drop PCR 7 from the reported set; the quote still selects it.
    let mut pcrs = PcrSet::new();
    for &i in &PCR_INDICES {
        if i != 7 {
            pcrs.insert(i, [i; 48].to_vec());
        }
    }
    let mut v = evidence(&f, &sig);
    v.pcrs = &pcrs;
    assert_eq!(verifier.verify_quote(&v), Err(RejectReason::MissingPcr(7)));
}

#[test]
fn non_restricted_aik_is_rejected() {
    let f = fixture();
    // Re-marshal the AIK pub with the restricted bit cleared.
    let pt = f.aik.verifying_key().to_encoded_point(false);
    let attrs = GOOD_AIK_ATTRS & !TPMA_RESTRICTED;
    let aik_pub = marshal_aik_public(pt.x().unwrap(), pt.y().unwrap(), attrs, TPM_ALG_ECDSA);
    let sig = sign_quote(&f.aik, &f.quote.blob);
    let verifier = verifier_for(&f.ek, f.quote.pcr_digest);
    let mut v = evidence(&f, &sig);
    v.aik_pub = &aik_pub;
    assert!(matches!(
        verifier.verify_quote(&v),
        Err(RejectReason::AikAttributes(_))
    ));
}

#[test]
fn untrusted_ek_root_is_rejected() {
    let f = fixture();
    let sig = sign_quote(&f.aik, &f.quote.blob);
    // Trust store has a *different* root than the one that signed the EK.
    let other_ek = build_ek_chain();
    let verifier = verifier_for(&other_ek, f.quote.pcr_digest);
    assert!(matches!(
        verifier.verify_quote(&evidence(&f, &sig)),
        Err(RejectReason::EkChain(_))
    ));
}

#[test]
fn unknown_pcr_state_not_in_rim_is_rejected() {
    let f = fixture();
    let sig = sign_quote(&f.aik, &f.quote.blob);
    // Trust the EK root, but approve a *different* digest in the RIM.
    let mut trust = VendorTrustStore::new();
    trust.add_root_der(&f.ek.root_der, Vendor::Nuvoton).unwrap();
    let mut rim = RimStore::new();
    rim.approve([0xEE; 48], PolicyId("other".into()));
    let verifier = TpmQuoteVerifier::new(trust, rim);
    assert_eq!(
        verifier.verify_quote(&evidence(&f, &sig)),
        Err(RejectReason::NotInRim)
    );
}

#[test]
fn a_root_added_later_is_trusted() {
    let f = fixture();
    let sig = sign_quote(&f.aik, &f.quote.blob);
    let mut rim = RimStore::new();
    rim.approve(f.quote.pcr_digest, PolicyId("late".into()));
    let mut verifier = TpmQuoteVerifier::new(VendorTrustStore::new(), rim);
    assert!(matches!(
        verifier.verify_quote(&evidence(&f, &sig)),
        Err(RejectReason::EkChain(_))
    ));
    verifier
        .trust_mut()
        .add_root_der(&f.ek.root_der, Vendor::Nuvoton)
        .unwrap();
    assert!(verifier.verify_quote(&evidence(&f, &sig)).is_ok());
}

#[test]
fn signature_from_wrong_key_is_rejected() {
    let f = fixture();
    let attacker = SigningKey::random(&mut rand_core::OsRng);
    let sig = sign_quote(&attacker, &f.quote.blob);
    let verifier = verifier_for(&f.ek, f.quote.pcr_digest);
    assert_eq!(
        verifier.verify_quote(&evidence(&f, &sig)),
        Err(RejectReason::SignatureInvalid)
    );
}

#[test]
fn credential_activation_mismatch_is_rejected() {
    let secret = [0x11u8; 32];
    assert!(credential_secret_matches(&secret, &secret));
    let mut tampered = secret;
    tampered[31] ^= 0x01;
    assert!(!credential_secret_matches(&secret, &tampered));
}

#[test]
fn each_check_of_a_quote_has_its_reason() {
    let f = fixture();
    let verifier = verifier_for(&f.ek, f.quote.pcr_digest);

    let mut not_tpm = f.quote.blob.clone();
    not_tpm[0] ^= 0x01;
    let sig = sign_quote(&f.aik, &not_tpm);
    let mut v = evidence(&f, &sig);
    v.quote_blob = &not_tpm;
    assert_eq!(verifier.verify_quote(&v), Err(RejectReason::BadMagic));

    let mut not_quote = f.quote.blob.clone();
    not_quote[5] ^= 0x01;
    let sig = sign_quote(&f.aik, &not_quote);
    let mut v = evidence(&f, &sig);
    v.quote_blob = &not_quote;
    assert_eq!(verifier.verify_quote(&v), Err(RejectReason::NotAQuote));
    not_quote[0] ^= 0x01;
    let sig = sign_quote(&f.aik, &not_quote);
    let mut v = evidence(&f, &sig);
    v.quote_blob = &not_quote;
    assert_eq!(verifier.verify_quote(&v), Err(RejectReason::BadMagic));

    let sig = sign_quote(&f.aik, &f.quote.blob);
    let mut pcrs = PcrSet::new();
    for &i in &PCR_INDICES {
        pcrs.insert(i, [i ^ 1; 48].to_vec());
    }
    let mut v = evidence(&f, &sig);
    v.pcrs = &pcrs;
    assert_eq!(
        verifier.verify_quote(&v),
        Err(RejectReason::PcrDigestMismatch)
    );

    let mut other_hash = sig.clone();
    other_hash[3] = 0x04;
    let mut v = evidence(&f, &sig);
    v.signature = &other_hash;
    assert_eq!(
        verifier.verify_quote(&v),
        Err(RejectReason::UnsupportedSigHash(0x0004))
    );

    let mut v = evidence(&f, &sig);
    v.now = 0;
    assert_eq!(
        verifier.verify_quote(&v),
        Err(RejectReason::EkChain(ChainError::Expired))
    );
}

#[test]
fn messages_are_verified_under_the_attestation_key() {
    let f = fixture();
    let sig = sign_quote(&f.aik, b"csr");
    assert_eq!(verify_aik_signature(&f.aik_pub, b"csr", &sig), Ok(()));
    assert_eq!(
        verify_aik_signature(&f.aik_pub, b"other", &sig),
        Err(RejectReason::SignatureInvalid)
    );
}

// ---- the handshake of a host with a TPM ----

/// Hands the secret out as it is.
struct OpenCredentialMaker;

impl CredentialMaker for OpenCredentialMaker {
    fn make_credential(
        &self,
        ek_pub: &[u8],
        _aik_pub: &[u8],
        secret: &[u8],
    ) -> Result<WrappedCredential, CredentialError> {
        if ek_pub.is_empty() {
            return Err(CredentialError::Wrap("no key".into()));
        }
        Ok(WrappedCredential {
            credential_blob: secret.to_vec(),
            secret_blob: vec![],
        })
    }
}

/// Wraps nothing.
struct BrokenCredentialMaker;

impl CredentialMaker for BrokenCredentialMaker {
    fn make_credential(
        &self,
        _ek_pub: &[u8],
        _aik_pub: &[u8],
        _secret: &[u8],
    ) -> Result<WrappedCredential, CredentialError> {
        Err(CredentialError::Wrap("broken".into()))
    }
}

fn service(verifier: TpmQuoteVerifier) -> CmisState {
    let (_, pk) = CompositeSecretKey::generate().unwrap();
    CmisState::new(
        Jwk::from_public_key("issuer".to_string(), &pk),
        verifier,
        CmisConfig::default(),
    )
}

fn tpm_init(f: &Fixture) -> ClientMessage {
    ClientMessage::Init(AttestInit {
        ek_cert: f.ek.leaf_der.clone(),
        ek_intermediates: vec![],
        aik_pub: f.aik_pub.clone(),
        quote_blob: f.quote.blob.clone(),
        signature: sign_quote(&f.aik, &f.quote.blob),
        pcr_values: PCR_INDICES
            .iter()
            .map(|&i| (u32::from(i), [i; 48].to_vec()))
            .collect(),
        host_key: None,
    })
}

#[test]
fn a_host_with_a_tpm_gets_a_document() {
    let f = fixture();
    let mut st = service(verifier_for(&f.ek, f.quote.pcr_digest));
    let mut h = Handshake::begin(f.nonce, [0x77; 32], NOW);
    assert_eq!(h.nonce(), &f.nonce);
    let r = h.on_init(&mut st, &OpenCredentialMaker, tpm_init(&f), false);
    let secret = match r.action {
        Action::SendChallenge(w) => w.credential_blob,
        other => panic!("{other:?}"),
    };
    assert_eq!(secret, vec![0x77; 32]);
    assert!(matches!(
        &r.audits[0],
        AuditEvent::AttestStart { policy_id, .. } if policy_id == "test-fleet"
    ));
    let r = h.on_challenge_response(ClientMessage::ChallengeResponse(secret));
    assert!(matches!(r.action, Action::AwaitCsr));
    let (_, pk) = CompositeSecretKey::generate().unwrap();
    let composite_pub = pk.to_concat_bytes();
    let r = h.on_csr(
        &st,
        ClientMessage::Csr(Csr {
            aik_sig: sign_quote(&f.aik, &composite_pub),
            composite_pub,
            dpop_jkt: "jkt".into(),
        }),
        false,
    );
    match r.action {
        Action::Issue { params, .. } => {
            assert_eq!(params.pcr_digest, f.quote.pcr_digest);
            assert_eq!(params.policy_id, "test-fleet");
            assert_eq!(
                params.ek_cert_sha384.to_vec(),
                Sha384::digest(&f.ek.leaf_der).to_vec()
            );
        }
        other => panic!("{other:?}"),
    }
}

#[test]
fn a_host_with_a_tpm_is_refused_at_each_step() {
    let f = fixture();
    let mut st = service(verifier_for(&f.ek, f.quote.pcr_digest));
    // A quote on another nonce.
    let mut h = Handshake::begin([0; 32], [0x77; 32], NOW);
    let r = h.on_init(&mut st, &OpenCredentialMaker, tpm_init(&f), false);
    assert!(matches!(r.action, Action::Refuse(s) if s == Status::denied()));
    // The secret cannot be wrapped.
    let mut h = Handshake::begin(f.nonce, [0x77; 32], NOW);
    let r = h.on_init(&mut st, &BrokenCredentialMaker, tpm_init(&f), false);
    assert!(matches!(r.action, Action::Refuse(s) if s == Status::issuer_unavailable()));
    // Another secret comes back.
    let mut h = Handshake::begin(f.nonce, [0x77; 32], NOW);
    h.on_init(&mut st, &OpenCredentialMaker, tpm_init(&f), false);
    let r = h.on_challenge_response(ClientMessage::ChallengeResponse(vec![0x78; 32]));
    assert!(matches!(r.action, Action::Refuse(s) if s == Status::denied()));
    assert!(matches!(
        &r.audits[0],
        AuditEvent::AttestFail { reason } if reason == "credential-mismatch"
    ));
    // Another key signed the certificate request.
    let mut h = Handshake::begin(f.nonce, [0x77; 32], NOW);
    h.on_init(&mut st, &OpenCredentialMaker, tpm_init(&f), false);
    h.on_challenge_response(ClientMessage::ChallengeResponse(vec![0x77; 32]));
    let other = SigningKey::random(&mut rand_core::OsRng);
    let r = h.on_csr(
        &st,
        ClientMessage::Csr(Csr {
            composite_pub: vec![1],
            aik_sig: sign_quote(&other, &[1]),
            dpop_jkt: "jkt".into(),
        }),
        false,
    );
    assert!(matches!(
        &r.audits[0],
        AuditEvent::AttestFail { reason } if reason == "aik-sig-invalid"
    ));
    assert!(matches!(r.action, Action::Refuse(s) if s == Status::denied()));
    // A boot state that is not approved is told apart.
    let mut st = service(verifier_for(&f.ek, [0xEE; 48]));
    let mut h = Handshake::begin(f.nonce, [0x77; 32], NOW);
    let r = h.on_init(&mut st, &OpenCredentialMaker, tpm_init(&f), false);
    assert!(matches!(r.action, Action::Refuse(s) if s.code == Code::FailedPrecondition));
}
