use ferrogate::crypto::composite::{
    transcript_hash, CompositeError, CompositePublicKey, CompositeSecretKey, CompositeSignature,
    COMPOSITE_JOSE_ALG, COMPOSITE_OID, COMPOSITE_PK_LEN, COMPOSITE_SIG_LEN, DOMAIN_TAG,
    ED25519_SIG_LEN, MLDSA65_PK_LEN, MLDSA65_SIG_LEN,
};
use ferrogate::crypto::der::{push_element, TAG_OCTET_STRING, TAG_OID, TAG_SEQUENCE};
use ferrogate::crypto::pin::{PinError, SpkiPin, SpkiPinVerifier, SPKI_PIN_LEN};
use ferrogate::crypto::tls::{kx_groups, ProviderMode, FERROGATE_CIPHER_SUITES};
use ferrogate::crypto::transport::{group_label, is_hybrid_group, HYBRID_GROUP};
use ferrogate::crypto::CRATE_NAME;
use rustls::NamedGroup;
use sha3::Digest;

fn ctx() -> &'static [u8] {
    b"ferrogate-svid-v1"
}

#[test]
fn crate_name_is_set() {
    assert_eq!(CRATE_NAME, "ferro-crypto");
}

#[test]
fn composite_sign_then_verify_roundtrips() {
    let (sk, pk) = CompositeSecretKey::generate().unwrap();
    let sig = sk.sign(ctx(), b"hello world").unwrap();
    pk.verify(ctx(), b"hello world", &sig).expect("verify ok");
}

#[test]
fn signature_has_expected_lengths() {
    let (sk, _pk) = CompositeSecretKey::generate().unwrap();
    let sig = sk.sign(ctx(), b"any").unwrap();
    assert_eq!(sig.classical.len(), ED25519_SIG_LEN);
    assert_eq!(sig.pqc.len(), MLDSA65_SIG_LEN);
    assert_eq!(sig.to_concat_bytes().len(), COMPOSITE_SIG_LEN);
}

#[test]
fn changing_message_breaks_verify() {
    let (sk, pk) = CompositeSecretKey::generate().unwrap();
    let sig = sk.sign(ctx(), b"original").unwrap();
    let res = pk.verify(ctx(), b"tampered", &sig);
    assert!(res.is_err());
}

#[test]
fn changing_context_breaks_verify() {
    let (sk, pk) = CompositeSecretKey::generate().unwrap();
    let sig = sk.sign(b"ctx-a", b"msg").unwrap();
    assert!(pk.verify(b"ctx-b", b"msg", &sig).is_err());
}

#[test]
fn flipping_classical_byte_breaks_verify_with_classical_error() {
    let (sk, pk) = CompositeSecretKey::generate().unwrap();
    let mut sig = sk.sign(ctx(), b"msg").unwrap();
    sig.classical[0] ^= 0x01;
    let err = pk.verify(ctx(), b"msg", &sig).unwrap_err();
    assert!(matches!(err, CompositeError::ClassicalFailed));
    assert_eq!(err.message(), "classical signature did not verify");
}

#[test]
fn flipping_pqc_byte_breaks_verify_with_pqc_error() {
    let (sk, pk) = CompositeSecretKey::generate().unwrap();
    let mut sig = sk.sign(ctx(), b"msg").unwrap();
    sig.pqc[0] ^= 0x01;
    let err = pk.verify(ctx(), b"msg", &sig).unwrap_err();
    assert!(matches!(err, CompositeError::PqcFailed));
    assert_eq!(err.message(), "pqc signature did not verify");
}

#[test]
fn truncated_pqc_is_rejected_as_pqc_failure() {
    let (sk, pk) = CompositeSecretKey::generate().unwrap();
    let mut sig = sk.sign(ctx(), b"msg").unwrap();
    sig.pqc.truncate(MLDSA65_SIG_LEN - 1);
    assert!(matches!(
        pk.verify(ctx(), b"msg", &sig),
        Err(CompositeError::PqcFailed)
    ));
}

#[test]
fn concat_bytes_roundtrip() {
    let (sk, _) = CompositeSecretKey::generate().unwrap();
    let sig = sk.sign(ctx(), b"msg").unwrap();
    let bytes = sig.to_concat_bytes();
    let back = CompositeSignature::from_concat_bytes(&bytes).unwrap();
    assert_eq!(sig, back);
}

#[test]
fn der_roundtrip_preserves_signature() {
    let (sk, pk) = CompositeSecretKey::generate().unwrap();
    let sig = sk.sign(ctx(), b"hello").unwrap();
    let der_bytes = sig.to_der().unwrap();
    let back = CompositeSignature::from_der(&der_bytes).unwrap();
    assert_eq!(sig, back);
    pk.verify(ctx(), b"hello", &back).unwrap();
}

#[test]
fn der_rejects_wrong_oid() {
    // ecdsa-with-SHA384, 1.2.840.10045.4.3.3.
    let oid = [0x2a, 0x86, 0x48, 0xce, 0x3d, 0x04, 0x03, 0x03];
    let mut body = Vec::new();
    push_element(&mut body, TAG_OID, &oid);
    push_element(&mut body, TAG_OCTET_STRING, &vec![0u8; ED25519_SIG_LEN]);
    push_element(&mut body, TAG_OCTET_STRING, &vec![0u8; MLDSA65_SIG_LEN]);
    let mut der_bytes = Vec::new();
    push_element(&mut der_bytes, TAG_SEQUENCE, &body);
    let err = CompositeSignature::from_der(&der_bytes).unwrap_err();
    assert!(matches!(err, CompositeError::Decode(_)));
    assert!(matches!(
        err,
        CompositeError::Decode(ref m) if m == "unexpected algorithm OID: 1.2.840.10045.4.3.3"
    ));
}

#[test]
fn der_rejects_a_malformed_oid() {
    let mut body = Vec::new();
    push_element(&mut body, TAG_OID, &[0x2a, 0x86, 0x80]);
    push_element(&mut body, TAG_OCTET_STRING, &vec![0u8; ED25519_SIG_LEN]);
    push_element(&mut body, TAG_OCTET_STRING, &vec![0u8; MLDSA65_SIG_LEN]);
    let mut der_bytes = Vec::new();
    push_element(&mut der_bytes, TAG_SEQUENCE, &body);
    let err = CompositeSignature::from_der(&der_bytes).unwrap_err();
    assert!(matches!(err, CompositeError::Decode(ref m) if m.starts_with("der: ")));
}

#[test]
fn jws_base64url_roundtrip() {
    let (sk, _) = CompositeSecretKey::generate().unwrap();
    let sig = sk.sign(ctx(), b"jose").unwrap();
    let s = sig.to_jws_base64url();
    assert!(!s.contains('='));
    assert!(s
        .chars()
        .all(|c| c.is_ascii_alphanumeric() || c == '-' || c == '_'));
    let back = CompositeSignature::from_jws_base64url(&s).unwrap();
    assert_eq!(sig, back);
}

#[test]
fn public_key_concat_roundtrip() {
    let (_, pk) = CompositeSecretKey::generate().unwrap();
    let bytes = pk.to_concat_bytes();
    assert_eq!(bytes.len(), COMPOSITE_PK_LEN);
    let back = CompositePublicKey::from_concat_bytes(&bytes).unwrap();
    assert_eq!(back.to_concat_bytes(), bytes);
}

#[test]
fn public_key_concat_rejects_wrong_length() {
    assert!(matches!(
        CompositePublicKey::from_concat_bytes(&[0u8; 64]),
        Err(CompositeError::Decode(_))
    ));
}

#[test]
fn transcript_hash_is_length_prefixed() {
    let h1 = transcript_hash(b"a", b"bc");
    let h2 = transcript_hash(b"ab", b"c");
    assert_ne!(h1, h2);
}

#[test]
fn transcript_hash_covers_tag_length_context_and_message() {
    let mut input = DOMAIN_TAG.as_bytes().to_vec();
    input.extend_from_slice(&[0, 0, 0, 0, 0, 0, 0, 1]);
    input.extend_from_slice(b"abc");
    assert_eq!(
        transcript_hash(b"a", b"bc").to_vec(),
        sha3::Sha3_384::digest(&input).to_vec()
    );
}

#[test]
fn secret_key_debug_is_redacted() {
    let (sk, _) = CompositeSecretKey::generate().unwrap();
    let s = sk.redacted();
    assert!(s.contains("redacted"));
}

#[test]
fn oid_string_matches_design_doc() {
    assert_eq!(COMPOSITE_OID.to_string(), "2.16.840.1.114027.80.8.1.7");
}

#[test]
fn oid_octets_are_those_of_the_oid() {
    let oid = der::asn1::ObjectIdentifier::new(COMPOSITE_OID).unwrap();
    assert_eq!(
        oid.as_bytes(),
        &ferrogate::crypto::composite::COMPOSITE_OID_OCTETS[..]
    );
}

#[test]
fn jose_alg_matches_design_doc() {
    assert_eq!(COMPOSITE_JOSE_ALG, "MLDSA65+Ed25519");
}

#[test]
fn ml_dsa_65_sizes_match_fips_204() {
    assert_eq!(
        MLDSA65_PK_LEN, 1952,
        "ML-DSA-65 public key must be 1952 bytes"
    );
    assert_eq!(
        MLDSA65_SIG_LEN, 3309,
        "ML-DSA-65 signature must be 3309 bytes"
    );
}

#[test]
fn composite_sizes_match_design_doc() {
    assert_eq!(ED25519_SIG_LEN, 64);
    assert_eq!(COMPOSITE_SIG_LEN, 64 + 3309);
}

#[test]
fn fips204_live_keygen_sign_verify_roundtrip() {
    let (sk, pk) = CompositeSecretKey::generate().expect("composite keygen");
    let sig = sk.sign(b"ctx", b"message").expect("sign");
    pk.verify(b"ctx", b"message", &sig).expect("verify");
}

#[test]
fn der_encoding_roundtrip_does_not_alter_signature_bytes() {
    let (sk, pk) = CompositeSecretKey::generate().unwrap();
    let sig = sk.sign(b"svid-v1", b"payload").unwrap();
    let der_bytes = sig.to_der().unwrap();
    let back = CompositeSignature::from_der(&der_bytes).unwrap();
    assert_eq!(sig, back);
    pk.verify(b"svid-v1", b"payload", &back).unwrap();
}

#[test]
fn jws_encoding_roundtrip_does_not_alter_signature_bytes() {
    let (sk, pk) = CompositeSecretKey::generate().unwrap();
    let sig = sk.sign(b"svid-v1", b"payload").unwrap();
    let s = sig.to_jws_base64url();
    let back = CompositeSignature::from_jws_base64url(&s).unwrap();
    assert_eq!(sig, back);
    pk.verify(b"svid-v1", b"payload", &back).unwrap();
}

#[test]
fn cross_key_verification_fails() {
    let (sk_a, _pk_a) = CompositeSecretKey::generate().unwrap();
    let (_, pk_b) = CompositeSecretKey::generate().unwrap();
    let sig = sk_a.sign(b"ctx", b"msg").unwrap();
    assert!(pk_b.verify(b"ctx", b"msg", &sig).is_err());
}

#[test]
fn forging_classical_against_real_pqc_fails() {
    let (sk_real, pk_real) = CompositeSecretKey::generate().unwrap();
    let real_sig = sk_real.sign(b"ctx", b"msg").unwrap();

    let (sk_forge, _) = CompositeSecretKey::generate().unwrap();
    let forged_classical_sig = sk_forge.sign(b"ctx", b"msg").unwrap();

    let frankensig = CompositeSignature {
        classical: forged_classical_sig.classical,
        pqc: real_sig.pqc.clone(),
    };
    assert!(pk_real.verify(b"ctx", b"msg", &frankensig).is_err());
}

#[test]
fn forging_pqc_against_real_classical_fails() {
    let (sk_real, pk_real) = CompositeSecretKey::generate().unwrap();
    let real_sig = sk_real.sign(b"ctx", b"msg").unwrap();

    let (sk_forge, _) = CompositeSecretKey::generate().unwrap();
    let forged_pqc_sig = sk_forge.sign(b"ctx", b"msg").unwrap();

    let frankensig = CompositeSignature {
        classical: real_sig.classical,
        pqc: forged_pqc_sig.pqc,
    };
    assert!(pk_real.verify(b"ctx", b"msg", &frankensig).is_err());
}

#[test]
fn keys_from_one_seed_are_one_key() {
    let (_, a) = CompositeSecretKey::from_seed(&[7; 32]);
    let (_, b) = CompositeSecretKey::from_seed(&[7; 32]);
    let (_, c) = CompositeSecretKey::from_seed(&[8; 32]);
    assert_eq!(a.to_concat_bytes(), b.to_concat_bytes());
    assert_ne!(a.to_concat_bytes(), c.to_concat_bytes());
}

#[test]
fn composite_decoding_says_what_is_wrong() {
    let e = CompositeSignature::from_concat_bytes(&[0; 10]).unwrap_err();
    assert!(e.message().contains("composite signature"));
    let e = CompositeSignature::from_jws_base64url("!!!").unwrap_err();
    assert!(matches!(e, CompositeError::Decode(_)));
    let e = CompositeSignature::from_der(&[0x30, 0x00]).unwrap_err();
    assert!(matches!(e, CompositeError::Decode(_)));
    let mut key = CompositeSecretKey::from_seed(&[1; 32]).1.to_concat_bytes();
    // Not a point of the curve.
    key[..32].copy_from_slice(&[2; 32]);
    let r = CompositePublicKey::from_concat_bytes(&key);
    match r {
        Err(CompositeError::Decode(m)) => assert!(m.starts_with("ed25519 pk: ")),
        _ => panic!("expected a key that does not decode"),
    }
}

fn sample_cert() -> rcgen::CertifiedKey<rcgen::KeyPair> {
    rcgen::generate_simple_self_signed(vec!["test.ferrogate.invalid".to_string()])
        .expect("rcgen self-signed cert")
}

#[test]
fn pin_from_certificate_der_is_stable() {
    let ck = sample_cert();
    let der = ck.cert.der();
    let pin1 = SpkiPin::from_certificate_der(der.as_ref()).unwrap();
    let pin2 = SpkiPin::from_certificate_der(der.as_ref()).unwrap();
    assert_eq!(pin1, pin2, "SPKI pin must be deterministic for one cert");
    assert_eq!(pin1.as_bytes().len(), SPKI_PIN_LEN);
}

#[test]
fn different_certs_have_different_pins() {
    let a = SpkiPin::from_certificate_der(sample_cert().cert.der().as_ref()).unwrap();
    let b = SpkiPin::from_certificate_der(sample_cert().cert.der().as_ref()).unwrap();
    assert_ne!(a, b, "two freshly generated certs must differ in SPKI");
}

#[test]
fn hex_roundtrip() {
    let ck = sample_cert();
    let pin = SpkiPin::from_certificate_der(ck.cert.der().as_ref()).unwrap();
    let s = pin.to_hex();
    let back = SpkiPin::from_hex(&s).unwrap();
    assert_eq!(pin, back);
}

#[test]
fn hex_rejects_wrong_length() {
    let too_short = "deadbeef";
    assert!(matches!(
        SpkiPin::from_hex(too_short),
        Err(PinError::HexDecode(_))
    ));
}

#[test]
fn from_certificate_der_rejects_garbage() {
    assert!(matches!(
        SpkiPin::from_certificate_der(b"this is not DER"),
        Err(PinError::CertParse(_))
    ));
}

#[test]
fn verifier_matches_known_pin_in_constant_time() {
    let ck = sample_cert();
    let pin = SpkiPin::from_certificate_der(ck.cert.der().as_ref()).unwrap();
    let verifier = SpkiPinVerifier::new(vec![pin]);
    assert!(verifier.matches(&pin));

    let other = SpkiPin::from_certificate_der(sample_cert().cert.der().as_ref()).unwrap();
    assert!(!verifier.matches(&other));
}

#[test]
fn a_pin_is_the_digest_of_the_public_key_information() {
    let ck = sample_cert();
    let der = ck.cert.der();
    let (_, parsed) = x509_parser::parse_x509_certificate(der.as_ref()).unwrap();
    let expected = sha2::Sha384::digest(parsed.tbs_certificate.subject_pki.raw);
    let pin = SpkiPin::from_certificate_der(der.as_ref()).unwrap();
    assert_eq!(pin.as_bytes().to_vec(), expected.to_vec());
}

#[test]
fn servers_are_accepted_by_pin_alone() {
    let a = sample_cert();
    let b = sample_cert();
    let pin_b = SpkiPin::from_certificate_der(b.cert.der().as_ref()).unwrap();
    let verifier = SpkiPinVerifier::new(vec![SpkiPin::from_bytes([0; 48]), pin_b]);
    assert_eq!(verifier.verify_server_cert(b.cert.der().as_ref()), Ok(()));
    assert_eq!(
        verifier.verify_server_cert(a.cert.der().as_ref()),
        Err("SPKI pin mismatch".to_string())
    );
    let e = verifier.verify_server_cert(b"garbage").unwrap_err();
    assert!(e.starts_with("SPKI parse failed: certificate DER parse failed: "));
}

#[test]
fn pins_are_read_in_either_case_and_with_space() {
    let pin = SpkiPin::from_bytes([0xab; 48]);
    assert_eq!(pin.to_hex(), "ab".repeat(48));
    assert_eq!(pin.label(), "SpkiPin(abababababababab\u{2026})");
    let text = format!("  {}\n", "AB".repeat(48));
    assert_eq!(SpkiPin::from_hex(&text).unwrap(), pin);
    match SpkiPin::from_hex("zz") {
        Err(e) => assert!(e.message().starts_with("invalid SHA-384 hex pin: ")),
        Ok(_) => panic!("expected an error"),
    }
}

#[test]
fn hybrid_only_lists_exactly_one_kx_group() {
    let groups = kx_groups(ProviderMode::HybridOnly);
    assert_eq!(groups.len(), 1, "hybrid-only must advertise only one group");
    assert_eq!(
        NamedGroup::from(groups[0]),
        NamedGroup::from(0x11ECu16),
        "the single advertised group must be X25519MLKEM768",
    );
}

#[test]
fn fallback_mode_lists_hybrid_first_then_x25519() {
    let groups = kx_groups(ProviderMode::HybridPreferredWithX25519Fallback);
    assert_eq!(groups.len(), 2);
    assert_eq!(NamedGroup::from(groups[0]), NamedGroup::from(0x11ECu16));
    assert_eq!(NamedGroup::from(groups[1]), NamedGroup::X25519);
}

#[test]
fn provider_uses_only_ferrogate_cipher_suites() {
    let all = rustls::crypto::aws_lc_rs::ALL_CIPHER_SUITES;
    assert_eq!(FERROGATE_CIPHER_SUITES.len(), 2);
    for code in FERROGATE_CIPHER_SUITES {
        let cs = all
            .iter()
            .find(|cs| u16::from(cs.suite()) == code)
            .expect("a known suite");
        assert_eq!(cs.version().version, rustls::ProtocolVersion::TLSv1_3);
    }
}

#[test]
fn provider_hybrid_only_does_not_contain_plain_x25519() {
    for g in kx_groups(ProviderMode::HybridOnly) {
        assert_ne!(
            NamedGroup::from(g),
            NamedGroup::X25519,
            "plain X25519 must not appear in HybridOnly mode",
        );
    }
}

#[test]
fn hybrid_group_constant_matches_codepoint() {
    assert_eq!(NamedGroup::from(HYBRID_GROUP), NamedGroup::from(0x11ECu16));
    assert_eq!(NamedGroup::from(HYBRID_GROUP), NamedGroup::X25519MLKEM768);
}

#[test]
fn is_hybrid_group_classifies() {
    assert!(is_hybrid_group(Some(HYBRID_GROUP)));
    assert!(!is_hybrid_group(Some(u16::from(NamedGroup::X25519))));
    assert!(!is_hybrid_group(None));
}

#[test]
fn group_label_is_friendly_for_hybrid() {
    assert_eq!(group_label(Some(HYBRID_GROUP)), "X25519MLKEM768");
    assert_eq!(group_label(None), "none");
}

#[test]
fn other_groups_are_labelled_by_name() {
    assert_eq!(group_label(Some(0x001d)), "X25519");
    assert_eq!(group_label(Some(0x0017)), "secp256r1");
}
