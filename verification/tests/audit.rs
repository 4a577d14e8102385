use ferrogate::audit::anchor::{
    enqueue, enqueued_at, enqueued_text, pending_order, queue_key, Anchor, AnchorError,
    AnchorPublisher, AnchorQueue, AnchorQueueError, AnchorReceipt, Drain, DrainAction,
    DrainOutcome, PendingEntry, QueueRow,
};
use ferrogate::audit::bytes::{Bytes16, Hash384};
use ferrogate::audit::cosign::{
    verify_cosigned, CoSignature, CoSignedTreeHead, QuorumError, QuorumSigner, VerifyingKeyset,
};
use ferrogate::audit::event::{decode, encode, AuditEvent};
use ferrogate::audit::log::{AuditLog, AuditLogError};
use ferrogate::audit::merkle::{
    leaf_hash, node_hash, verify_consistency, verify_inclusion, MerkleTree,
};
use ferrogate::audit::store::{
    latest_record, number_of, record_path, AuditStore, AuditStoreError, LocalDiskWormStore,
};
use ferrogate::audit::sth::{
    decode_body, encode_body, sign_body, verify_sth, InProcessSigner, SignedTreeHead, SthBody,
    SthError, SthSigner, STH_SIGNING_CONTEXT,
};
use ferrogate::crypto::composite::{CompositePublicKey, CompositeSecretKey};
use ferrogate::primitives::cbor::CborItem;
use sha3::Digest;
use std::cell::{Cell, RefCell};
use std::collections::BTreeMap;
use std::rc::Rc;

const HASH_LEN: usize = 48;

fn leaves(n: usize) -> Vec<[u8; HASH_LEN]> {
    (0..n)
        .map(|i| leaf_hash(format!("event-{i}").as_bytes()))
        .collect()
}

fn tree_of(n: usize) -> MerkleTree {
    let mut t = MerkleTree::new();
    for l in leaves(n) {
        t.append(l);
    }
    t
}

#[test]
fn empty_tree_has_no_root() {
    assert!(MerkleTree::new().root().is_none());
}

#[test]
fn single_leaf_root_is_leaf_hash() {
    let mut t = MerkleTree::new();
    let l = leaf_hash(b"only");
    t.append(l);
    assert_eq!(t.root().unwrap(), l);
}

#[test]
fn inclusion_proof_is_verifiable_for_each_leaf() {
    for n in 1..=17 {
        let t = tree_of(n);
        let root = t.root().unwrap();
        for i in 0..n {
            let p = t.inclusion_proof(i).unwrap();
            assert!(
                verify_inclusion(t.leaf(i).unwrap(), i, n, &root, &p),
                "incl proof for ({i}, {n}) must verify"
            );
        }
    }
}

#[test]
fn consistency_proof_is_verifiable_for_every_prefix() {
    for n in 1..=17 {
        let t = tree_of(n);
        let new_root = t.root().unwrap();
        for m in 1..=n {
            let t_old = tree_of(m);
            let old_root = t_old.root().unwrap();
            let p = t.consistency_proof(m, n).unwrap();
            assert!(
                verify_consistency(m, n, &old_root, &new_root, &p),
                "cons proof ({m},{n}) must verify"
            );
        }
    }
}

#[test]
fn inclusion_proof_rejects_wrong_root() {
    let t = tree_of(8);
    let p = t.inclusion_proof(3).unwrap();
    let wrong = [0u8; HASH_LEN];
    assert!(!verify_inclusion(t.leaf(3).unwrap(), 3, 8, &wrong, &p));
}

#[test]
fn inclusion_proof_rejects_wrong_leaf() {
    let t = tree_of(8);
    let p = t.inclusion_proof(3).unwrap();
    let wrong_leaf = leaf_hash(b"forged");
    assert!(!verify_inclusion(&wrong_leaf, 3, 8, &t.root().unwrap(), &p));
}

#[test]
fn consistency_proof_rejects_diverging_history() {
    let t_a = tree_of(5);
    let mut t_b = MerkleTree::new();
    for (i, l) in leaves(5).into_iter().enumerate() {
        if i == 2 {
            t_b.append(leaf_hash(b"tampered"));
        } else {
            t_b.append(l);
        }
    }
    let p = t_a.consistency_proof(3, 5).unwrap();
    let old_root = tree_of(3).root().unwrap();
    // Verifying against the *tampered* new root must fail.
    assert!(!verify_consistency(
        3,
        5,
        &old_root,
        &t_b.root().unwrap(),
        &p
    ));
}

#[test]
fn consistency_at_equal_sizes_requires_empty_proof_and_equal_root() {
    let t = tree_of(7);
    let r = t.root().unwrap();
    assert!(verify_consistency(7, 7, &r, &r, &[]));
    assert!(!verify_consistency(7, 7, &r, &r, &[r]));
}

#[test]
fn the_root_of_three_leaves_is_built_from_the_left() {
    let l = leaves(3);
    let expected = node_hash(&node_hash(&l[0], &l[1]), &l[2]);
    assert_eq!(tree_of(3).root().unwrap(), expected);
    let mut input = vec![0u8];
    input.extend_from_slice(b"event-0");
    assert_eq!(l[0].to_vec(), sha3::Sha3_384::digest(&input).to_vec());
    let mut input = vec![1u8];
    input.extend_from_slice(&l[0]);
    input.extend_from_slice(&l[1]);
    assert_eq!(
        node_hash(&l[0], &l[1]).to_vec(),
        sha3::Sha3_384::digest(&input).to_vec()
    );
}

#[test]
fn proofs_out_of_range_are_none() {
    let t = tree_of(4);
    assert!(t.inclusion_proof(4).is_none());
    assert!(t.consistency_proof(0, 4).is_none());
    assert!(t.consistency_proof(2, 3).is_none());
    assert!(t.leaf(4).is_none());
    assert!(!verify_inclusion(t.leaf(0).unwrap(), 4, 4, &t.root().unwrap(), &[]));
}

fn generate(kid: &str) -> (InProcessSigner, CompositePublicKey) {
    InProcessSigner::generate(kid.to_string()).unwrap()
}

#[test]
fn sign_and_verify_roundtrip() {
    let (signer, pk) = generate("sth-1");
    let body = SthBody {
        tree_size: 42,
        root_hash: Hash384([0x7E; 48]),
        timestamp: 1_770_000_000,
    };
    let sth = signer.sign(&body).unwrap();
    let verified = verify_sth(&sth, &pk).unwrap();
    assert_eq!(verified, body);
    assert_eq!(sth.signer_kid, "sth-1");
}

#[test]
fn a_body_signed_with_a_bare_key_verifies() {
    let (sk, pk) = CompositeSecretKey::generate().unwrap();
    let sig = sign_body(&small_body(), &sk).unwrap();
    let bytes = encode_body(&small_body()).unwrap();
    let context = STH_SIGNING_CONTEXT.as_bytes();
    assert!(pk.verify(context, &bytes, &sig).is_ok());
    assert!(pk.verify(context, &bytes[1..], &sig).is_err());
}

fn small_body() -> SthBody {
    SthBody {
        tree_size: 1,
        root_hash: Hash384([1u8; 48]),
        timestamp: 0,
    }
}

#[test]
fn tampered_body_fails_verify() {
    let (signer, pk) = generate("k");
    let mut sth = signer.sign(&small_body()).unwrap();
    // Flip a byte in the CBOR body.
    sth.body_cbor[0] ^= 0x01;
    assert!(matches!(
        verify_sth(&sth, &pk),
        Err(SthError::SignatureInvalid)
    ));
}

#[test]
fn tampered_signature_fails_verify() {
    let (signer, pk) = generate("k");
    let mut sth = signer.sign(&small_body()).unwrap();
    let last = sth.signature_b64.pop().unwrap();
    sth.signature_b64.push(if last == 'A' { 'B' } else { 'A' });
    assert!(verify_sth(&sth, &pk).is_err());
}

#[test]
fn wrong_key_fails_verify() {
    let (signer, _pk) = generate("k");
    let (_, other_pk) = CompositeSecretKey::generate().unwrap();
    let sth = signer.sign(&small_body()).unwrap();
    assert!(matches!(
        verify_sth(&sth, &other_pk),
        Err(SthError::SignatureInvalid)
    ));
}

#[test]
fn tree_heads_are_cbor_maps_that_read_back() {
    let body = SthBody {
        tree_size: 3,
        root_hash: Hash384([9; 48]),
        timestamp: -5,
    };
    let cbor = encode_body(&body).unwrap();
    let v: ciborium::Value = ciborium::from_reader(cbor.as_slice()).unwrap();
    let m = v.as_map().unwrap();
    assert_eq!(m[0].0.as_text(), Some("tree_size"));
    assert_eq!(m[1].0.as_text(), Some("root_hash"));
    assert_eq!(m[1].1.as_bytes().unwrap(), &vec![9u8; 48]);
    assert_eq!(m[2].0.as_text(), Some("timestamp"));
    assert_eq!(decode_body(&cbor).unwrap(), body);
    assert!(matches!(decode_body(b"\xff"), Err(SthError::Decode(_))));
    let mut not_b64 = generate("k").0.sign(&body).unwrap();
    not_b64.signature_b64 = "***".to_string();
    let (_, pk) = CompositeSecretKey::generate().unwrap();
    assert!(matches!(
        verify_sth(&not_b64, &pk),
        Err(SthError::SignatureB64(_))
    ));
}

fn sample() -> AuditEvent {
    AuditEvent::SvidIssued {
        cert_sha: Hash384([0xAB; 48]),
        spiffe_id: "spiffe://ferrogate.test/host/abc".to_string(),
    }
}

#[test]
fn cbor_roundtrip_preserves_event() {
    let e = sample();
    let bytes = encode(&e).unwrap();
    let back = decode(&bytes).unwrap();
    assert_eq!(e, back);
}

#[test]
fn encoding_is_deterministic() {
    let e = sample();
    let a = encode(&e).unwrap();
    let b = encode(&e).unwrap();
    assert_eq!(a, b);
}

#[test]
fn different_variants_have_different_encodings() {
    let a = encode(&AuditEvent::AttestFail {
        reason: "rim".into(),
    })
    .unwrap();
    let b = encode(&AuditEvent::SvidRevoked {
        cert_sha: Hash384([0u8; 48]),
        reason: "rim".into(),
    })
    .unwrap();
    assert_ne!(a, b);
}

#[test]
fn decode_rejects_garbage() {
    assert!(decode(&[0xFF, 0xFF, 0xFF]).is_err());
}

#[test]
fn every_kind_of_event_reads_back() {
    let h = Hash384([3; 48]);
    let all = vec![
        AuditEvent::AttestStart {
            ek_sha: h,
            aik_sha: Hash384([4; 48]),
            policy_id: "p".into(),
        },
        AuditEvent::AttestFail { reason: "r".into() },
        sample(),
        AuditEvent::SvidRevoked {
            cert_sha: h,
            reason: "r".into(),
        },
        AuditEvent::HostRevoked {
            spiffe_id: "s".into(),
            reason: "r".into(),
        },
        AuditEvent::KeyShareUsed {
            share_idx: 255,
            mrenclave: h,
        },
        AuditEvent::LocalGrant {
            pid: 1,
            uid: 2,
            bin_sha: h,
            jti: Bytes16([7; 16]),
        },
        AuditEvent::LocalDenied {
            pid: u32::MAX,
            uid: 0,
            bin_sha: h,
            reason: "r".into(),
        },
        AuditEvent::HostEnrolled { ek_sha: h },
        AuditEvent::HostRejected {
            ek_sha: h,
            reason: "not-enrolled".into(),
        },
        AuditEvent::PolicyEpochBumped {
            old_epoch: u64::MAX - 1,
            new_epoch: u64::MAX,
            reason: "r".into(),
        },
        AuditEvent::AllowlistSet {
            host_uuid: "h".into(),
            entry_count: 3,
            not_after: i64::MIN,
        },
        AuditEvent::AllowlistDeleted {
            host_uuid: "h".into(),
        },
        AuditEvent::AllowlistProposed {
            host_uuid: "h".into(),
            entry_count: 0,
            proposer_spiffe_id: "s".into(),
        },
        AuditEvent::AllowlistAutoAdopted {
            host_uuid: "h".into(),
            entry_count: 1,
            not_after: 9,
        },
        AuditEvent::AllowlistProposalRejected {
            host_uuid: "h".into(),
        },
    ];
    let mut seen: Vec<Vec<u8>> = Vec::new();
    for e in all {
        let b = encode(&e).unwrap();
        assert_eq!(decode(&b).unwrap(), e);
        assert!(!seen.contains(&b));
        seen.push(b);
    }
}

#[test]
fn events_are_maps_with_a_type() {
    let b = encode(&AuditEvent::AttestFail {
        reason: "rim".into(),
    })
    .unwrap();
    let v: ciborium::Value = ciborium::from_reader(b.as_slice()).unwrap();
    let m = v.as_map().unwrap();
    assert_eq!(m.len(), 2);
    assert_eq!(m[0].0.as_text(), Some("type"));
    assert_eq!(m[1].0.as_text(), Some("reason"));
    assert_eq!(m[1].1.as_text(), Some("rim"));
}

fn cbor_of(v: &ciborium::Value) -> Vec<u8> {
    let mut b = Vec::new();
    ciborium::into_writer(v, &mut b).unwrap();
    b
}

fn text_value(s: &str) -> ciborium::Value {
    ciborium::Value::Text(s.to_owned())
}

fn map_value(entries: Vec<(ciborium::Value, ciborium::Value)>) -> Vec<u8> {
    cbor_of(&ciborium::Value::Map(entries))
}

#[test]
fn an_event_reads_by_names_positions_and_order() {
    let sha = ciborium::Value::Bytes(vec![7; 48]);
    let rejected = AuditEvent::HostRejected {
        ek_sha: Hash384([7; 48]),
        reason: "gr\u{fc}n".into(),
    };
    let kind = (text_value("type"), text_value("HostRejected"));
    let reason = text_value("gr\u{fc}n");
    let by_name = vec![
        kind.clone(),
        (text_value("ek_sha"), sha.clone()),
        (text_value("reason"), reason.clone()),
    ];
    assert_eq!(decode(&map_value(by_name)), Ok(rejected.clone()));
    // A position stands for the field there; one past the last for none.
    let by_position = vec![
        (ciborium::Value::from(1), reason.clone()),
        (ciborium::Value::from(7), text_value("passed over")),
        (ciborium::Value::from(0), sha.clone()),
        kind.clone(),
    ];
    assert_eq!(decode(&map_value(by_position)), Ok(rejected.clone()));
    // The bytes of a text are the text.
    let as_bytes = vec![
        kind.clone(),
        (ciborium::Value::Bytes(b"ek_sha".to_vec()), sha.clone()),
        (
            text_value("reason"),
            ciborium::Value::Bytes("gr\u{fc}n".as_bytes().to_vec()),
        ),
    ];
    assert_eq!(decode(&map_value(as_bytes)), Ok(rejected.clone()));
    // An array holds the kind and its fields in their order.
    let mut in_order = vec![text_value("HostRejected"), sha.clone(), reason.clone()];
    assert_eq!(
        decode(&cbor_of(&ciborium::Value::Array(in_order.clone()))),
        Ok(rejected)
    );
    in_order.push(ciborium::Value::Null);
    assert!(decode(&cbor_of(&ciborium::Value::Array(in_order))).is_err());
    assert!(decode(&cbor_of(&ciborium::Value::Array(Vec::new()))).is_err());
    assert!(decode(&cbor_of(&text_value("HostRejected"))).is_err());
}

#[test]
fn an_event_is_refused_over_a_key_or_a_doubled_field() {
    let fail = (text_value("type"), text_value("AttestFail"));
    let reason = (text_value("reason"), text_value("rim"));
    let good = vec![fail.clone(), reason.clone()];
    assert!(decode(&map_value(good.clone())).is_ok());
    for key in [
        ciborium::Value::Null,
        ciborium::Value::Bool(true),
        ciborium::Value::from(-1),
        ciborium::Value::Array(Vec::new()),
    ] {
        let mut m = good.clone();
        m.push((key, ciborium::Value::Null));
        assert!(decode(&map_value(m)).is_err());
    }
    // Once by name and once by position.
    let mut twice = good.clone();
    twice.push((ciborium::Value::from(0), text_value("rim")));
    assert!(decode(&map_value(twice)).is_err());
    // Bytes that are no text.
    let no_text = vec![
        fail.clone(),
        (
            text_value("reason"),
            ciborium::Value::Bytes(vec![0xC3, 0x28]),
        ),
    ];
    assert!(decode(&map_value(no_text)).is_err());
}

#[test]
fn a_body_goes_by_names_alone() {
    let entries = vec![
        (text_value("tree_size"), ciborium::Value::from(9)),
        (text_value("root_hash"), ciborium::Value::Bytes(vec![0xAB; 48])),
        (
            text_value("timestamp"),
            ciborium::Value::from(1_770_000_000),
        ),
    ];
    assert_eq!(decode_body(&map_value(entries.clone())).unwrap(), fixed_body());
    let mut more = entries.clone();
    more.push((text_value("more"), ciborium::Value::Null));
    assert_eq!(decode_body(&map_value(more)).unwrap(), fixed_body());
    let mut position = entries.clone();
    position.push((ciborium::Value::from(3), ciborium::Value::Null));
    assert!(matches!(
        decode_body(&map_value(position)),
        Err(SthError::Decode(m)) if m == "expected str or bytes"
    ));
    let fields: Vec<ciborium::Value> = entries.into_iter().map(|(_, v)| v).collect();
    assert!(matches!(
        decode_body(&cbor_of(&ciborium::Value::Array(fields))),
        Err(SthError::Decode(m)) if m == "expected map"
    ));
}

#[test]
fn cbor_roundtrip_via_byte_string() {
    let h = Hash384([0xAB; 48]);
    let item = match h.to_item() {
        CborItem::Bytes(b) => ciborium::Value::Bytes(b),
        _ => panic!("expected a byte string"),
    };
    let mut buf = Vec::new();
    ciborium::into_writer(&item, &mut buf).unwrap();
    assert_eq!(
        buf[0] & 0xE0,
        0x40,
        "first byte indicates major type 2 (bytes)"
    );
    let back: ciborium::Value = ciborium::from_reader(buf.as_slice()).unwrap();
    let back = Hash384::from_item(&CborItem::Bytes(back.into_bytes().unwrap())).unwrap();
    assert_eq!(back, h);
    assert!(Hash384::from_item(&CborItem::Bytes(vec![0; 47])).is_none());
}

fn fixed_body() -> SthBody {
    SthBody {
        tree_size: 9,
        root_hash: Hash384([0xAB; 48]),
        timestamp: 1_770_000_000,
    }
}

fn three_signers() -> (Vec<InProcessSigner>, Vec<(String, CompositePublicKey)>) {
    let mut signers = Vec::new();
    let mut keys = Vec::new();
    for kid in ["peer-a", "peer-b", "peer-c"] {
        let (s, pk) = generate(kid);
        signers.push(s);
        keys.push((kid.to_owned(), pk));
    }
    (signers, keys)
}

#[test]
fn three_of_three_verifies() {
    let (signers, keys) = three_signers();
    let q = QuorumSigner::new(signers, 2).unwrap();
    let sth = q.sign(&fixed_body()).unwrap();
    let ks = VerifyingKeyset::new(keys, 2).unwrap();
    assert_eq!(ks.key_count(), 3);
    let body = verify_cosigned(&sth, &ks).unwrap();
    assert_eq!(body.tree_size, 9);
    assert_eq!(sth.signatures.len(), 3);
}

#[test]
fn quorum_holds_when_minority_keys_unknown() {
    let (signers, mut keys) = three_signers();
    let q = QuorumSigner::new(signers, 2).unwrap();
    let sth = q.sign(&fixed_body()).unwrap();
    keys.pop();
    let ks = VerifyingKeyset::new(keys, 2).unwrap();
    verify_cosigned(&sth, &ks).expect("quorum still met with two known signers");
}

#[test]
fn quorum_fails_when_minority_keys_known() {
    let (signers, mut keys) = three_signers();
    let q = QuorumSigner::new(signers, 2).unwrap();
    let sth = q.sign(&fixed_body()).unwrap();
    keys.truncate(1);
    let ks = VerifyingKeyset::new(keys, 1).unwrap();
    // threshold 1 still verifies
    verify_cosigned(&sth, &ks).unwrap();

    let (single_signer, single_pk) = generate("only");
    let q2 = QuorumSigner::new(vec![single_signer], 1).unwrap();
    let sth2 = q2.sign(&fixed_body()).unwrap();
    assert_eq!(sth2.signatures.len(), 1);
    let (_outsider_sk, outsider_pk) = CompositeSecretKey::generate().unwrap();
    let ks2 = VerifyingKeyset::new(
        vec![("only".into(), single_pk), ("outsider".into(), outsider_pk)],
        2,
    )
    .unwrap();
    let err = verify_cosigned(&sth2, &ks2).unwrap_err();
    assert!(
        matches!(
            err,
            QuorumError::QuorumNotMet {
                accepted: 1,
                threshold: 2
            }
        ),
        "{err:?}"
    );
}

#[test]
fn tampered_body_fails_every_signature() {
    let (signers, keys) = three_signers();
    let q = QuorumSigner::new(signers, 2).unwrap();
    let mut sth = q.sign(&fixed_body()).unwrap();
    sth.body_cbor[0] ^= 0x01;
    let ks = VerifyingKeyset::new(keys, 2).unwrap();
    let err = verify_cosigned(&sth, &ks).unwrap_err();
    assert!(matches!(
        err,
        QuorumError::QuorumNotMet {
            accepted: 0,
            threshold: 2,
        }
    ));
}

#[test]
fn tampered_single_signature_still_meets_quorum() {
    let (signers, keys) = three_signers();
    let q = QuorumSigner::new(signers, 2).unwrap();
    let mut sth = q.sign(&fixed_body()).unwrap();
    // Corrupt one signature; remaining two must still satisfy threshold=2.
    let s = &mut sth.signatures[0];
    let last = s.signature_b64.pop().unwrap();
    s.signature_b64.push(if last == 'A' { 'B' } else { 'A' });
    let ks = VerifyingKeyset::new(keys, 2).unwrap();
    let body = verify_cosigned(&sth, &ks).unwrap();
    assert_eq!(body.tree_size, 9);
}

#[test]
fn duplicate_kids_only_count_once_toward_quorum() {
    let (mut signers, keys) = three_signers();
    signers.truncate(1);
    let q = QuorumSigner::new(signers, 1).unwrap();
    let mut sth = q.sign(&fixed_body()).unwrap();
    let again = sth.signatures[0].clone();
    sth.signatures.push(again);
    let ks = VerifyingKeyset::new(keys, 2).unwrap();
    let err = verify_cosigned(&sth, &ks).unwrap_err();
    assert!(matches!(
        err,
        QuorumError::QuorumNotMet {
            accepted: 1,
            threshold: 2
        }
    ));
}

#[test]
fn unknown_signer_does_not_fail_verify_outright() {
    let (signers, keys) = three_signers();
    let q = QuorumSigner::new(signers, 2).unwrap();
    let mut sth = q.sign(&fixed_body()).unwrap();
    sth.signatures.push(CoSignature {
        signer_kid: "outsider".into(),
        signature_b64: "AAAA".into(),
    });
    let ks = VerifyingKeyset::new(keys, 2).unwrap();
    verify_cosigned(&sth, &ks).unwrap();
}

#[test]
fn invalid_threshold_is_refused() {
    let (signers, _keys) = three_signers();
    let err = QuorumSigner::new(signers, 0).err().expect("zero threshold");
    assert!(matches!(err, QuorumError::InvalidThreshold { .. }));

    let (signers, _keys) = three_signers();
    let err = QuorumSigner::new(signers, 4).err().expect("over-threshold");
    assert!(matches!(err, QuorumError::InvalidThreshold { .. }));
}

#[test]
fn duplicate_signers_refused_at_build_time() {
    let (sk1, _) = CompositeSecretKey::generate().unwrap();
    let (sk2, _) = CompositeSecretKey::generate().unwrap();
    let s1 = InProcessSigner::new("same-kid".to_string(), sk1);
    let s2 = InProcessSigner::new("same-kid".to_string(), sk2);
    let err = QuorumSigner::new(vec![s1, s2], 1)
        .err()
        .expect("duplicate kid");
    assert!(matches!(err, QuorumError::DuplicateSigner(k) if k == "same-kid"));
}

#[test]
fn as_single_extracts_a_per_replica_view() {
    let (signers, keys) = three_signers();
    let q = QuorumSigner::new(signers, 2).unwrap();
    let sth = q.sign(&fixed_body()).unwrap();
    let one = sth.as_single(1).unwrap();
    let kid = &sth.signatures[1].signer_kid;
    let pk = keys
        .iter()
        .find(|(k, _)| k == kid)
        .map(|(_, pk)| pk)
        .unwrap();
    let body = verify_sth(&one, pk).unwrap();
    assert_eq!(body.tree_size, 9);
    assert!(sth.as_single(3).is_none());
}

// A disk in memory, with the names that the library gives to records.
#[derive(Clone)]
struct MemDisk {
    layout: LocalDiskWormStore,
    files: Rc<RefCell<BTreeMap<String, Vec<u8>>>>,
}

fn sth_json(sth: &SignedTreeHead) -> Vec<u8> {
    let mut m = serde_json::Map::new();
    m.insert("body_cbor".into(), sth.body_cbor.clone().into());
    m.insert("signer_kid".into(), sth.signer_kid.clone().into());
    m.insert("signature_b64".into(), sth.signature_b64.clone().into());
    serde_json::to_vec(&serde_json::Value::Object(m)).unwrap()
}

fn bytes_of(v: &serde_json::Value) -> Vec<u8> {
    v.as_array()
        .unwrap()
        .iter()
        .map(|b| b.as_u64().unwrap() as u8)
        .collect()
}

fn text_of(v: &serde_json::Value) -> String {
    v.as_str().unwrap().to_string()
}

fn sth_from_json(b: &[u8]) -> SignedTreeHead {
    let v: serde_json::Value = serde_json::from_slice(b).unwrap();
    SignedTreeHead {
        body_cbor: bytes_of(&v["body_cbor"]),
        signer_kid: text_of(&v["signer_kid"]),
        signature_b64: text_of(&v["signature_b64"]),
    }
}

fn cosigned_json(sth: &CoSignedTreeHead) -> Vec<u8> {
    let sigs: Vec<serde_json::Value> = sth
        .signatures
        .iter()
        .map(|s| {
            let mut m = serde_json::Map::new();
            m.insert("signer_kid".into(), s.signer_kid.clone().into());
            m.insert("signature_b64".into(), s.signature_b64.clone().into());
            serde_json::Value::Object(m)
        })
        .collect();
    let mut m = serde_json::Map::new();
    m.insert("body_cbor".into(), sth.body_cbor.clone().into());
    m.insert("signatures".into(), sigs.into());
    serde_json::to_vec(&serde_json::Value::Object(m)).unwrap()
}

fn cosigned_from_json(b: &[u8]) -> CoSignedTreeHead {
    let v: serde_json::Value = serde_json::from_slice(b).unwrap();
    CoSignedTreeHead {
        body_cbor: bytes_of(&v["body_cbor"]),
        signatures: v["signatures"]
            .as_array()
            .unwrap()
            .iter()
            .map(|s| CoSignature {
                signer_kid: text_of(&s["signer_kid"]),
                signature_b64: text_of(&s["signature_b64"]),
            })
            .collect(),
    }
}

impl MemDisk {
    fn open(root: &str) -> Self {
        MemDisk {
            layout: LocalDiskWormStore::new(root.to_string()),
            files: Rc::new(RefCell::new(BTreeMap::new())),
        }
    }

    fn write_once(&self, path: String, bytes: Vec<u8>) -> Result<(), AuditStoreError> {
        let mut files = self.files.borrow_mut();
        if files.contains_key(&path) {
            return Err(AuditStoreError::AlreadyExists(path));
        }
        files.insert(path, bytes);
        Ok(())
    }

    fn latest(&self, dir: &str) -> Option<Vec<u8>> {
        let prefix = format!("{}/{}", self.layout.root(), dir);
        let files = self.files.borrow();
        let names: Vec<String> = files
            .keys()
            .filter_map(|p| p.strip_prefix(&prefix).map(|n| n.to_string()))
            .collect();
        latest_record(&names, ".json").map(|(_, i)| files[&format!("{prefix}{}", names[i])].clone())
    }
}

impl AuditStore for MemDisk {
    fn append_leaf(
        &self,
        index: u64,
        raw_event: &[u8],
        leaf_hash: &[u8; 48],
    ) -> Result<(), AuditStoreError> {
        self.write_once(self.layout.leaf_path(index), raw_event.to_vec())?;
        self.write_once(self.layout.hash_path(index), leaf_hash.to_vec())
    }
    fn record_sth(&self, sth: &SignedTreeHead) -> Result<(), AuditStoreError> {
        self.write_once(self.layout.sth_record(sth)?, sth_json(sth))
    }
    fn record_cosigned_sth(&self, sth: &CoSignedTreeHead) -> Result<(), AuditStoreError> {
        self.write_once(self.layout.cosigned_record(sth)?, cosigned_json(sth))
    }
    fn read_leaf(&self, index: u64) -> Result<Vec<u8>, AuditStoreError> {
        match self.files.borrow().get(&self.layout.leaf_path(index)) {
            Some(b) => Ok(b.clone()),
            None => Err(AuditStoreError::Io {
                not_found: true,
                message: "no such record".to_string(),
            }),
        }
    }
    fn latest_sth(&self) -> Result<Option<SignedTreeHead>, AuditStoreError> {
        Ok(self.latest("sth/").map(|b| sth_from_json(&b)))
    }
    fn latest_cosigned_sth(&self) -> Result<Option<CoSignedTreeHead>, AuditStoreError> {
        Ok(self.latest("cosigned/").map(|b| cosigned_from_json(&b)))
    }
}

fn event(i: u8) -> AuditEvent {
    AuditEvent::SvidIssued {
        cert_sha: Hash384([i; 48]),
        spiffe_id: format!("spiffe://x/host/{i}"),
    }
}

fn fresh_log() -> (AuditLog<MemDisk, InProcessSigner>, MemDisk) {
    let disk = MemDisk::open("/log");
    let (signer, _pk) = generate("kid");
    let log = AuditLog::new(disk.clone(), signer).unwrap();
    (log, disk)
}

#[test]
fn reopening_a_populated_store_resumes_appends_and_sth() {
    let (mut log, disk) = fresh_log();
    for i in 0..3u8 {
        log.append(&event(i)).unwrap();
    }
    let sth_before = log.produce_sth(1_770_000_000).unwrap();
    drop(log);

    // "Restart": fresh log over the same backing store.
    let (signer, _pk) = generate("kid");
    let mut log = AuditLog::new(disk, signer).unwrap();
    assert_eq!(log.len(), 3, "tree must be rebuilt from persisted leaves");
    assert_eq!(
        log.latest_sth().unwrap().body().unwrap().root_hash,
        sth_before.body().unwrap().root_hash,
        "latest STH must be seeded from the store"
    );
    assert_eq!(
        log.append(&event(3)).unwrap(),
        3,
        "append must continue at the next index"
    );
    let p = log.inclusion_proof(0).unwrap();
    assert!(verify_inclusion(
        &p.leaf_hash,
        0,
        4,
        &log.produce_sth(1_770_000_001)
            .unwrap()
            .body()
            .unwrap()
            .root_hash
            .0,
        &p.audit_path
    ));
}

#[test]
fn reopening_refuses_a_tampered_leaf() {
    let (mut log, disk) = fresh_log();
    for i in 0..3u8 {
        log.append(&event(i)).unwrap();
    }
    log.produce_sth(1_770_000_000).unwrap();
    drop(log);

    // Tamper with leaf 1 behind the WORM store's back.
    let raw = encode(&event(9)).unwrap();
    disk.files
        .borrow_mut()
        .insert(format!("/log/leaves/{:020}.cbor", 1), raw);

    let (signer, _pk) = generate("kid");
    let Err(err) = AuditLog::new(disk, signer) else {
        panic!("resume over a tampered leaf must refuse");
    };
    assert!(matches!(err, AuditLogError::Resume(_)), "got: {err:?}");
}

#[test]
fn appended_events_get_sequential_indices() {
    let (mut log, _disk) = fresh_log();
    for i in 0..5u8 {
        assert_eq!(log.append(&event(i)).unwrap(), u64::from(i));
    }
}

#[test]
fn cosigned_sth_matches_tree_and_verifies() {
    let (mut log, _disk) = fresh_log();
    for i in 0..4u8 {
        log.append(&event(i)).unwrap();
    }
    let (signers, keys) = three_signers();
    let q = QuorumSigner::new(signers, 2).unwrap();
    let sth = log.produce_cosigned_sth(1_770_000_001, &q).unwrap();
    let ks = VerifyingKeyset::new(keys, 2).unwrap();
    let body = verify_cosigned(&sth, &ks).unwrap();
    assert_eq!(body.tree_size, 4);
    assert!(log.latest_cosigned_sth().is_some());
}

#[test]
fn produced_sth_matches_tree_state() {
    let (mut log, _disk) = fresh_log();
    for i in 0..3u8 {
        log.append(&event(i)).unwrap();
    }
    let sth = log.produce_sth(1_770_000_000).unwrap();
    let body = sth.body().unwrap();
    assert_eq!(body.tree_size, 3);
}

#[test]
fn inclusion_and_consistency_hold_for_all_pairs() {
    let n = 9usize;
    let (mut log, _disk) = fresh_log();
    let mut roots = Vec::new();
    for i in 0..n {
        let idx = log.append(&event(i as u8)).unwrap();
        assert_eq!(idx, i as u64);
        let sth = log.produce_sth(i as i64).unwrap();
        roots.push(sth.body().unwrap().root_hash);
    }
    let final_root = *roots.last().unwrap();
    for i in 0..n {
        let p = log.inclusion_proof(i as u64).unwrap();
        assert!(verify_inclusion(
            &p.leaf_hash,
            i,
            n,
            &final_root.0,
            &p.audit_path
        ));
    }
    for m in 1..=n {
        let p = log.consistency_proof(m as u64).unwrap();
        assert!(verify_consistency(
            m,
            n,
            &roots[m - 1].0,
            &final_root.0,
            &p.audit_path,
        ));
    }
    assert!(matches!(
        log.inclusion_proof(9),
        Err(AuditLogError::Range(_))
    ));
    assert!(matches!(
        log.consistency_proof(0),
        Err(AuditLogError::Range(_))
    ));
}

#[test]
fn a_store_that_refuses_leaves_the_log_as_it_was() {
    let (mut log, disk) = fresh_log();
    log.append(&event(0)).unwrap();
    // Someone else wrote leaf 1.
    disk.append_leaf(1, b"other", &[0; 48]).unwrap();
    assert!(matches!(
        log.append(&event(1)),
        Err(AuditLogError::Store(AuditStoreError::AlreadyExists(_)))
    ));
    assert_eq!(log.len(), 1);
}

#[test]
fn latest_sth_returns_highest_tree_size() {
    let store = MemDisk::open("/log");
    let (signer, _pk) = generate("k");
    for n in [1u64, 5, 3] {
        let sth = signer
            .sign(&SthBody {
                tree_size: n,
                root_hash: Hash384([n as u8; 48]),
                timestamp: 0,
            })
            .unwrap();
        store.record_sth(&sth).unwrap();
    }
    let latest = store.latest_sth().unwrap().unwrap();
    assert_eq!(latest.body().unwrap().tree_size, 5);
}

#[test]
fn records_are_named_by_twenty_digits() {
    assert_eq!(
        record_path("leaves/", 7, ".cbor"),
        "leaves/00000000000000000007.cbor"
    );
    assert_eq!(number_of("00000000000000000007.cbor", ".cbor"), Some(7));
    assert_eq!(number_of("x.cbor", ".cbor"), None);
    assert_eq!(number_of("7.json", ".cbor"), None);
    let names = vec!["00012.json".to_string(), "a".into(), "3.json".into()];
    assert_eq!(latest_record(&names, ".json"), Some((12, 0)));
    assert_eq!(latest_record(&vec![], ".json"), None);
}

fn make_sth(tree_size: u64) -> CoSignedTreeHead {
    let (s, _pk) = generate("k");
    let q = QuorumSigner::new(vec![s], 1).unwrap();
    q.sign(&SthBody {
        tree_size,
        root_hash: Hash384([(tree_size & 0xFF) as u8; 48]),
        timestamp: 1_770_000_000 + tree_size as i64,
    })
    .unwrap()
}

#[derive(Clone, Copy)]
enum AnchorMode {
    Succeed,
    Transient,
    Permanent,
}

/// In-memory anchor whose behaviour can be flipped between drains.
#[derive(Clone)]
struct ScriptedAnchor {
    name: String,
    next_index: Rc<Cell<u64>>,
    submissions: Rc<Cell<usize>>,
    mode: Rc<Cell<AnchorMode>>,
    log: Rc<RefCell<Vec<u64>>>,
}

impl ScriptedAnchor {
    fn new(name: &str) -> Self {
        Self {
            name: name.into(),
            next_index: Rc::new(Cell::new(1)),
            submissions: Rc::new(Cell::new(0)),
            mode: Rc::new(Cell::new(AnchorMode::Succeed)),
            log: Rc::new(RefCell::new(Vec::new())),
        }
    }
    fn set(&self, mode: AnchorMode) {
        self.mode.set(mode);
    }
    fn submissions(&self) -> usize {
        self.submissions.get()
    }
    fn anchored(&self) -> Vec<u64> {
        self.log.borrow().clone()
    }
}

impl Anchor for ScriptedAnchor {
    fn name(&self) -> &str {
        &self.name
    }
    fn submit(&self, sth: &CoSignedTreeHead) -> Result<AnchorReceipt, AnchorError> {
        self.submissions.set(self.submissions.get() + 1);
        match self.mode.get() {
            AnchorMode::Succeed => {
                let body = sth.body().unwrap();
                let idx = self.next_index.get();
                self.next_index.set(idx + 1);
                self.log.borrow_mut().push(body.tree_size);
                Ok(AnchorReceipt {
                    anchor_name: self.name.clone(),
                    tree_size: body.tree_size,
                    log_index: idx,
                    receipt_bytes: format!("receipt-{}", body.tree_size).into_bytes(),
                    anchored_at_unix: body.timestamp,
                })
            }
            AnchorMode::Transient => Err(AnchorError::Transient("upstream blip".into())),
            AnchorMode::Permanent => Err(AnchorError::Permanent("malformed body".into())),
        }
    }
}

// The queue's directory in memory.
struct MemQueue {
    layout: AnchorQueue,
    files: BTreeMap<String, Vec<u8>>,
    receipts: BTreeMap<u64, AnchorReceipt>,
}

impl MemQueue {
    fn open() -> Self {
        MemQueue {
            layout: AnchorQueue::new("/queue".to_string()),
            files: BTreeMap::new(),
            receipts: BTreeMap::new(),
        }
    }

    fn enqueue(&mut self, sth: &CoSignedTreeHead, now: i64) -> bool {
        let n = queue_key(sth).unwrap();
        let waits = self.files.contains_key(&self.layout.pending_sth_path(n));
        let done = self.receipts.contains_key(&n);
        if !enqueue(waits, done) {
            return false;
        }
        self.files
            .insert(self.layout.pending_sth_path(n), cosigned_json(sth));
        self.files.insert(
            self.layout.pending_enq_path(n),
            enqueued_text(now).into_bytes(),
        );
        true
    }

    fn pending(&self) -> Vec<PendingEntry> {
        let prefix = "/queue/pending/";
        let names: Vec<String> = self
            .files
            .keys()
            .rev()
            .filter_map(|p| p.strip_prefix(prefix).map(|n| n.to_string()))
            .collect();
        let rows: Vec<QueueRow> = pending_order(&names)
            .into_iter()
            .map(|(n, _)| QueueRow {
                tree_size: n,
                sth: Some(cosigned_from_json(
                    &self.files[&self.layout.pending_sth_path(n)],
                )),
                enqueued: self
                    .files
                    .get(&self.layout.pending_enq_path(n))
                    .map(|b| String::from_utf8(b.clone()).unwrap()),
            })
            .collect();
        self.layout.pending(&rows)
    }

    fn times(&self) -> Vec<i64> {
        self.pending().iter().map(|e| e.enqueued_at_unix).collect()
    }

    fn drain(&mut self, publisher: &AnchorPublisher<ScriptedAnchor>, now: i64) -> DrainOutcome {
        let entries = self.pending();
        let mut pass = Drain::new(entries.len());
        while let Some((n, action)) = publisher.drain_once(&mut pass, &entries) {
            match action {
                DrainAction::Record(r) => {
                    self.receipts.insert(n, r);
                    self.files.remove(&self.layout.pending_sth_path(n));
                    self.files.remove(&self.layout.pending_enq_path(n));
                }
                DrainAction::Stop => {}
                DrainAction::Quarantine(reason) => {
                    let sth = self.files.remove(&self.layout.pending_sth_path(n)).unwrap();
                    self.files.remove(&self.layout.pending_enq_path(n));
                    self.files.insert(self.layout.dead_sth_path(n), sth);
                    self.files
                        .insert(self.layout.dead_err_path(n), reason.into_bytes());
                }
            }
        }
        pass.outcome(&self.times(), now)
    }
}

fn publisher(anchor: &ScriptedAnchor) -> AnchorPublisher<ScriptedAnchor> {
    AnchorPublisher::new(AnchorQueue::new("/queue".to_string()), anchor.clone())
}

#[test]
fn enqueue_then_drain_publishes_in_order() {
    let mut queue = MemQueue::open();
    for n in [1u64, 2, 3] {
        assert!(queue.enqueue(&make_sth(n), 1_770_000_000));
    }
    let anchor = ScriptedAnchor::new("sigsum");
    let out = queue.drain(&publisher(&anchor), 1_770_000_060);
    assert_eq!(out.published, 3);
    assert_eq!(out.transient_failures, 0);
    assert_eq!(out.quarantined, 0);
    assert_eq!(out.backlog_seconds_after, None);
    assert!(out.made_progress());
    assert_eq!(anchor.anchored(), vec![1, 2, 3]);
    for n in [1u64, 2, 3] {
        let r = &queue.receipts[&n];
        assert_eq!(r.tree_size, n);
        assert_eq!(r.anchor_name, "sigsum");
    }
}

#[test]
fn enqueue_is_idempotent_per_tree_size() {
    let mut queue = MemQueue::open();
    assert!(queue.enqueue(&make_sth(7), 1_770_000_000));
    // Second enqueue at a later time is a no-op; the original
    // enqueued_at must be preserved.
    assert!(!queue.enqueue(&make_sth(7), 1_770_000_999));
    let pending = queue.pending();
    assert_eq!(pending.len(), 1);
    assert_eq!(pending[0].enqueued_at_unix, 1_770_000_000);
}

#[test]
fn transient_failure_stops_drain_and_preserves_queue() {
    let mut queue = MemQueue::open();
    for n in [1u64, 2, 3] {
        queue.enqueue(&make_sth(n), 1_770_000_000);
    }
    let anchor = ScriptedAnchor::new("rekor");
    anchor.set(AnchorMode::Transient);
    let out = queue.drain(&publisher(&anchor), 1_770_000_120);
    assert_eq!(out.published, 0);
    assert_eq!(out.transient_failures, 1);
    assert_eq!(out.quarantined, 0);
    assert_eq!(anchor.submissions(), 1);
    // Backlog is measured from the earliest enqueue.
    assert_eq!(out.backlog_seconds_after, Some(120));
    // All three still pending.
    assert_eq!(queue.pending().len(), 3);
    // Flip the anchor to success; next drain catches up entirely.
    anchor.set(AnchorMode::Succeed);
    let out = queue.drain(&publisher(&anchor), 1_770_000_180);
    assert_eq!(out.published, 3);
    assert_eq!(out.backlog_seconds_after, None);
    assert_eq!(anchor.anchored(), vec![1, 2, 3]);
}

#[test]
fn permanent_failure_quarantines_and_drain_continues() {
    let mut queue = MemQueue::open();
    for n in [1u64, 2] {
        queue.enqueue(&make_sth(n), 1_770_000_000);
    }
    let anchor = ScriptedAnchor::new("anchor");
    anchor.set(AnchorMode::Permanent);
    let out = queue.drain(&publisher(&anchor), 1_770_000_005);
    assert_eq!(out.quarantined, 2);
    assert_eq!(out.published, 0);
    assert_eq!(out.backlog_seconds_after, None);
    // Both pending entries are gone; both dead artefacts exist.
    assert!(queue.pending().is_empty());
    for n in [1u64, 2] {
        assert!(queue.files.contains_key(&queue.layout.dead_sth_path(n)));
        let reason = String::from_utf8(queue.files[&queue.layout.dead_err_path(n)].clone());
        assert!(reason.unwrap().contains("malformed body"));
    }
}

#[test]
fn already_anchored_tree_size_is_not_re_enqueued() {
    let mut queue = MemQueue::open();
    queue.enqueue(&make_sth(9), 1_770_000_000);
    let anchor = ScriptedAnchor::new("a");
    queue.drain(&publisher(&anchor), 1_770_000_050);
    assert!(!queue.enqueue(&make_sth(9), 1_770_000_400));
    assert_eq!(anchor.submissions(), 1);
}

#[test]
fn backlog_seconds_tracks_earliest_pending_entry() {
    let mut queue = MemQueue::open();
    queue.enqueue(&make_sth(1), 1_770_000_000);
    queue.enqueue(&make_sth(2), 1_770_000_100);
    assert_eq!(
        queue.layout.backlog_seconds(&queue.times(), 1_770_000_300),
        Some(300)
    );
    assert_eq!(queue.layout.backlog_seconds(&vec![], 5), None);
}

#[test]
fn the_queue_is_walked_by_tree_size() {
    let mut queue = MemQueue::open();
    for n in [12u64, 3, 100] {
        queue.enqueue(&make_sth(n), 5);
    }
    let sizes: Vec<u64> = queue.pending().iter().map(|e| e.tree_size).collect();
    assert_eq!(sizes, vec![3, 12, 100]);
    assert!(matches!(
        enqueued_at("soon"),
        Err(AnchorQueueError::Malformed(_))
    ));
    assert_eq!(enqueued_at(" -7\n"), Ok(-7));
}

#[test]
fn a_head_without_a_body_has_no_record() {
    let store = LocalDiskWormStore::new("/log".into());
    // A list, and a map without fields.
    for (body, fault) in [(0x80u8, "expected map"), (0xa0, "no field tree_size")] {
        let head = SignedTreeHead {
            body_cbor: vec![body],
            signer_kid: "k".into(),
            signature_b64: String::new(),
        };
        assert_eq!(
            store.sth_record(&head),
            Err(AuditStoreError::Encode(format!("cbor decode: {fault}")))
        );
    }
}

#[test]
fn malformed_queue_entries_are_skipped() {
    let queue = AnchorQueue::new("/queue".to_string());
    let head = CoSignedTreeHead {
        body_cbor: vec![1, 2],
        signatures: vec![CoSignature {
            signer_kid: "k".into(),
            signature_b64: "s".into(),
        }],
    };
    let row = |tree_size: u64, sth: Option<CoSignedTreeHead>, since: Option<&str>| QueueRow {
        tree_size,
        sth,
        enqueued: since.map(|t| t.to_string()),
    };
    let entries = queue.pending(&vec![
        row(9, Some(head.clone()), Some("90")),
        row(3, None, Some("30")),
        row(5, Some(head.clone()), None),
        row(4, Some(head.clone()), Some("soon")),
        row(2, Some(head.clone()), Some(" 20\n")),
    ]);
    let got: Vec<(u64, i64)> = entries
        .iter()
        .map(|e| (e.tree_size, e.enqueued_at_unix))
        .collect();
    assert_eq!(got, vec![(2, 20), (9, 90)]);
    assert_eq!(entries[0].sth.body_cbor, head.body_cbor);
    assert_eq!(entries[1].sth.signatures[0].signature_b64, "s");
}

struct FaultyStore {
    leaf: AuditStoreError,
}

impl AuditStore for FaultyStore {
    fn append_leaf(&self, _: u64, _: &[u8], _: &[u8; 48]) -> Result<(), AuditStoreError> {
        Err(AuditStoreError::Unsupported("append"))
    }
    fn record_sth(&self, _: &SignedTreeHead) -> Result<(), AuditStoreError> {
        Ok(())
    }
    fn read_leaf(&self, _: u64) -> Result<Vec<u8>, AuditStoreError> {
        Err(self.leaf.clone())
    }
    fn latest_sth(&self) -> Result<Option<SignedTreeHead>, AuditStoreError> {
        Ok(None)
    }
}

#[test]
fn only_a_missing_leaf_ends_the_walk() {
    let absent = AuditStoreError::Io {
        not_found: true,
        message: "none".into(),
    };
    let broken = AuditStoreError::Io {
        not_found: false,
        message: "disk".into(),
    };
    let log = AuditLog::new(FaultyStore { leaf: absent }, generate("s").0).unwrap();
    assert!(log.is_empty());
    assert!(matches!(
        AuditLog::new(FaultyStore { leaf: broken.clone() }, generate("s").0),
        Err(AuditLogError::Store(e)) if e == broken
    ));
}

#[test]
fn a_recorded_quorum_head_carries_every_signature() {
    let (mut log, disk) = fresh_log();
    log.append(&event(1)).unwrap();
    let (signers, keys) = three_signers();
    let q = QuorumSigner::new(signers, 2).unwrap();
    let head = log.produce_cosigned_sth(7, &q).unwrap();
    // All three must have signed.
    let ks = VerifyingKeyset::new(keys, 3).unwrap();
    assert_eq!(verify_cosigned(&head, &ks).unwrap().timestamp, 7);
    let recorded = disk.latest_cosigned_sth().unwrap().unwrap();
    assert_eq!(recorded, head);
    assert_eq!(log.latest_cosigned_sth(), Some(&head));
}
