use base64::engine::general_purpose::STANDARD;
use base64::Engine;
use ferrogate::ceremony::crosssign::{CrossSignBundle, CrossSignDirection, DEFAULT_WINDOW_SECS};
use ferrogate::ceremony::destruction::{destroy_media, verify_destruction, zeros};
use ferrogate::ceremony::error::{CeremonyError, ROOT_SEED_LEN};
use ferrogate::ceremony::media::{RootSeed, SealedShare, SealedShareSet, Share};
use ferrogate::ceremony::minutes::{
    ArtefactDigest, CeremonyKind, CeremonyMinutes, Participant, SignedMinutes, MINUTES_CONTEXT,
};
use ferrogate::crypto::composite::{CompositeError, CompositePublicKey, CompositeSecretKey};
use serde_json::Value;

fn keypair(tag: u8) -> (CompositeSecretKey, CompositePublicKey) {
    CompositeSecretKey::from_seed(&[tag; 32])
}

fn text(v: &Value) -> String {
    v.as_str().unwrap().to_string()
}

// ---- cross-signing ----

fn bundle() -> CrossSignBundle {
    let (old_sk, old_pk) = keypair(1);
    let (new_sk, new_pk) = keypair(2);
    CrossSignBundle::create(
        &old_sk,
        "root-2025".into(),
        &old_pk,
        &new_sk,
        "root-2026".into(),
        &new_pk,
        1000,
        DEFAULT_WINDOW_SECS,
    )
    .unwrap()
}

fn bundle_json(b: &CrossSignBundle) -> Vec<u8> {
    let mut m = serde_json::Map::new();
    m.insert("version".into(), b.version.into());
    m.insert("old_kid".into(), b.old_kid.clone().into());
    m.insert("old_pub".into(), b.old_pub.clone().into());
    m.insert("new_kid".into(), b.new_kid.clone().into());
    m.insert("new_pub".into(), b.new_pub.clone().into());
    m.insert("window_start".into(), b.window_start.into());
    m.insert("window_end".into(), b.window_end.into());
    m.insert("old_signs_new".into(), b.old_signs_new.clone().into());
    m.insert("new_signs_old".into(), b.new_signs_old.clone().into());
    serde_json::to_vec_pretty(&Value::Object(m)).unwrap()
}

fn bundle_from_json(b: &[u8]) -> CrossSignBundle {
    let v: Value = serde_json::from_slice(b).unwrap();
    CrossSignBundle {
        version: v["version"].as_u64().unwrap() as u32,
        old_kid: text(&v["old_kid"]),
        old_pub: text(&v["old_pub"]),
        new_kid: text(&v["new_kid"]),
        new_pub: text(&v["new_pub"]),
        window_start: v["window_start"].as_i64().unwrap(),
        window_end: v["window_end"].as_i64().unwrap(),
        old_signs_new: text(&v["old_signs_new"]),
        new_signs_old: text(&v["new_signs_old"]),
    }
}

#[test]
fn both_directions_verify() {
    let bundle = bundle();
    bundle.verify().unwrap();
    assert_eq!(bundle.window_end, 1000 + DEFAULT_WINDOW_SECS);
    let parsed = bundle_from_json(&bundle_json(&bundle));
    parsed.verify().unwrap();
}

#[test]
fn a_tampered_window_breaks_both_signatures() {
    let mut bundle = bundle();
    bundle.window_end += 1;
    assert!(bundle
        .verify_direction(CrossSignDirection::OldSignsNew)
        .is_err());
    assert!(bundle
        .verify_direction(CrossSignDirection::NewSignsOld)
        .is_err());
}

#[test]
fn a_swapped_signature_does_not_verify() {
    let mut bundle = bundle();
    // Put the new-signs-old signature into the old-signs-new slot.
    bundle.old_signs_new = bundle.new_signs_old.clone();
    assert!(bundle.verify().is_err());
}

#[test]
fn bundles_that_do_not_decode_are_malformed() {
    let mut b = bundle();
    b.old_pub = "***".into();
    assert!(matches!(
        b.verify(),
        Err(CeremonyError::Malformed { .. })
    ));
    let mut b = bundle();
    b.new_signs_old = STANDARD.encode([0u8; 5]);
    b.verify_direction(CrossSignDirection::OldSignsNew).unwrap();
    assert!(b
        .verify_direction(CrossSignDirection::NewSignsOld)
        .is_err());
    let mut b = bundle();
    b.window_start -= 1;
    assert!(matches!(b.verify(), Err(CeremonyError::Signature(_))));
    for change in 0..4 {
        let mut b = bundle();
        match change {
            0 => b.old_kid.push('x'),
            1 => b.new_kid.push('x'),
            2 => b.old_pub = STANDARD.encode(keypair(7).1.to_concat_bytes()),
            _ => b.new_pub = STANDARD.encode(keypair(7).1.to_concat_bytes()),
        }
        assert!(b.verify_direction(CrossSignDirection::OldSignsNew).is_err());
        assert!(b.verify_direction(CrossSignDirection::NewSignsOld).is_err());
    }
}

// ---- Shamir's sharing over the field with 256 elements ----

fn mul(mut a: u8, mut b: u8) -> u8 {
    let mut p = 0u8;
    while b != 0 {
        if b & 1 == 1 {
            p ^= a;
        }
        let high = a & 0x80;
        a <<= 1;
        if high != 0 {
            a ^= 0x1b;
        }
        b >>= 1;
    }
    p
}

fn inverse(a: u8) -> u8 {
    (0..=255u8).find(|&b| mul(a, b) == 1).unwrap()
}

fn split(secret: &[u8], threshold: usize, total: usize) -> Result<Vec<Share>, String> {
    let mut shares = Vec::new();
    for x in 1..=total as u8 {
        let y = secret
            .iter()
            .enumerate()
            .map(|(i, &s)| {
                let mut v = s;
                let mut power = x;
                for k in 1..threshold {
                    let coefficient = (i * 31 + k * 17 + 5) as u8;
                    v ^= mul(coefficient, power);
                    power = mul(power, x);
                }
                v
            })
            .collect();
        shares.push(Share { x, y });
    }
    Ok(shares)
}

fn recover(shares: &[Share], threshold: usize) -> Result<Vec<u8>, String> {
    if shares.len() < threshold {
        return Err("too few shares".into());
    }
    Ok((0..shares[0].y.len())
        .map(|i| {
            shares.iter().fold(0u8, |acc, s| {
                let mut weight = 1u8;
                for o in shares {
                    if o.x != s.x {
                        weight = mul(weight, mul(o.x, inverse(o.x ^ s.x)));
                    }
                }
                acc ^ mul(s.y[i], weight)
            })
        })
        .collect())
}

fn seed() -> [u8; ROOT_SEED_LEN] {
    let mut s = [0u8; ROOT_SEED_LEN];
    for (i, b) in s.iter_mut().enumerate() {
        *b = u8::try_from(i).unwrap().wrapping_add(1);
    }
    s
}

fn holders() -> Vec<String> {
    (1..=5).map(|i| format!("op-{i}")).collect()
}

fn sealed(root: &str) -> SealedShareSet {
    SealedShareSet::seal(root, split(&seed(), 3, 5), 3, &holders(), 1000).unwrap()
}

fn combine(shares: &[SealedShare]) -> Result<RootSeed, CeremonyError> {
    let raw = SealedShareSet::open_shares(shares)?;
    SealedShareSet::combine(shares, recover(&raw, 3))
}

#[test]
fn three_of_five_round_trips_through_sealed_media() {
    let set = sealed("root-2026");
    assert_eq!(set.shares.len(), 5);
    // Any 3 reconstruct.
    let recovered = combine(&set.shares[..3]).unwrap();
    assert_eq!(*recovered.as_bytes(), seed());
    // A different 3 also reconstruct.
    let recovered2 = combine(&set.shares[2..5]).unwrap();
    assert_eq!(*recovered2.as_bytes(), seed());
}

#[test]
fn a_wiped_seed_is_zero() {
    let mut recovered = combine(&sealed("root-2026").shares[1..4]).unwrap();
    assert_eq!(*recovered.as_bytes(), seed());
    recovered.wipe();
    assert_eq!(*recovered.as_bytes(), [0u8; ROOT_SEED_LEN]);
}

#[test]
fn two_shares_do_not_reconstruct() {
    let set = sealed("root-2026");
    let raw: Vec<Share> = set.shares[..2]
        .iter()
        .map(|s| s.to_share().unwrap())
        .collect();
    let err = SealedShareSet::combine(&set.shares[..2], recover(&raw, 3)).unwrap_err();
    assert!(matches!(err, CeremonyError::Shamir(_)));
}

fn share_json(s: &SealedShare) -> Vec<u8> {
    let mut m = serde_json::Map::new();
    m.insert("format".into(), s.format.clone().into());
    m.insert("version".into(), s.version.into());
    m.insert("root_kid".into(), s.root_kid.clone().into());
    m.insert("threshold".into(), s.threshold.into());
    m.insert("total".into(), s.total.into());
    m.insert("index".into(), s.index.into());
    m.insert("holder".into(), s.holder.clone().into());
    m.insert("created_at".into(), s.created_at.into());
    m.insert("share".into(), s.share.clone().into());
    m.insert("tag".into(), s.tag.clone().into());
    serde_json::to_vec_pretty(&Value::Object(m)).unwrap()
}

fn share_from_json(b: &[u8]) -> Option<SealedShare> {
    let v: Value = serde_json::from_slice(b).ok()?;
    Some(SealedShare {
        format: text(&v["format"]),
        version: v["version"].as_u64()? as u32,
        root_kid: text(&v["root_kid"]),
        threshold: v["threshold"].as_u64()? as usize,
        total: v["total"].as_u64()? as usize,
        index: v["index"].as_u64()? as u8,
        holder: text(&v["holder"]),
        created_at: v["created_at"].as_i64()?,
        share: text(&v["share"]),
        tag: text(&v["tag"]),
    })
}

#[test]
fn json_round_trip_preserves_share() {
    let set = sealed("root-2026");
    let json = share_json(&set.shares[0]);
    let parsed = share_from_json(&json).unwrap();
    assert_eq!(parsed, set.shares[0]);
    parsed.verify_integrity().unwrap();
}

#[test]
fn tampering_with_any_field_breaks_the_tag() {
    let set = sealed("root-2026");
    let mut tampered = set.shares[0].clone();
    tampered.holder = "attacker".to_string();
    assert!(matches!(
        tampered.verify_integrity(),
        Err(CeremonyError::Integrity(_))
    ));

    let mut tampered = set.shares[0].clone();
    tampered.index = tampered.index.wrapping_add(1);
    assert!(tampered.verify_integrity().is_err());

    for n in 0..6 {
        let mut t = set.shares[0].clone();
        match n {
            0 => t.root_kid.push('x'),
            1 => t.threshold += 1,
            2 => t.total += 1,
            3 => t.created_at += 1,
            4 => t.version = 2,
            _ => t.format = "other".into(),
        }
        assert!(t.verify_integrity().is_err(), "{n}");
    }
}

#[test]
fn combine_rejects_mixed_roots() {
    let a = sealed("root-a");
    let b = sealed("root-b");
    let mixed = vec![
        a.shares[0].clone(),
        a.shares[1].clone(),
        b.shares[2].clone(),
    ];
    assert!(combine(&mixed).is_err());
    assert!(SealedShareSet::open_shares(&[]).is_err());
}

#[test]
fn a_seed_of_another_size_is_refused() {
    let set = sealed("root-a");
    match SealedShareSet::combine(&set.shares[..3], Ok(vec![0; 31])) {
        Err(CeremonyError::Malformed { what, detail }) => {
            assert_eq!(what, "reconstructed seed");
            assert_eq!(detail, "expected 32 bytes, got 31");
        }
        other => panic!("{other:?}"),
    }
    assert!(matches!(
        SealedShareSet::seal("r", Err("bad".into()), 3, &holders(), 0),
        Err(CeremonyError::Shamir(m)) if m == "bad"
    ));
}

// ---- destruction ----

#[test]
fn destroy_zeroizes_and_verifies() {
    let set = SealedShareSet::seal(
        "root-x",
        split(&[7u8; 32], 3, 3),
        3,
        &["a".to_string(), "b".to_string(), "c".to_string()],
        1000,
    )
    .unwrap();
    let json = share_json(&set.shares[0]);
    let mut medium = json.clone();

    // Intact share reconstructs through verify_integrity before destruction.
    set.shares[0].to_share().unwrap();

    let before = share_from_json(&medium);
    medium = zeros(medium.len());
    let parsed = share_from_json(&medium);
    let record = destroy_media("ok.json", &before, json.len(), &medium, &parsed, 2000).unwrap();
    assert!(record.verified);
    assert_eq!(record.root_kid, "root-x");
    assert_eq!(record.bytes_zeroized, json.len());
    assert_eq!(record.destroyed_at, 2000);

    // Independent re-audit passes, and the bytes no longer parse as a share.
    verify_destruction("ok.json", &medium, &parsed).unwrap();
    assert!(medium.iter().all(|&b| b == 0));
    assert!(parsed.is_none());
}

#[test]
fn verify_destruction_rejects_a_live_share() {
    let set = SealedShareSet::seal(
        "root-y",
        split(&[9u8; 32], 3, 3),
        3,
        &["a".to_string(), "b".to_string(), "c".to_string()],
        1000,
    )
    .unwrap();
    let medium = share_json(&set.shares[0]);
    assert!(matches!(
        verify_destruction("live.json", &medium, &share_from_json(&medium)),
        Err(CeremonyError::NotDestroyed(_))
    ));
}

#[test]
fn one_byte_that_is_left_is_found() {
    let mut medium = zeros(10);
    medium[7] = 1;
    match verify_destruction("m", &medium, &None) {
        Err(e) => assert!(e.message().contains('m'), "{}", e.message()),
        Ok(()) => panic!("a byte is left"),
    }
}

// ---- minutes ----

struct Op {
    kid: String,
    sk: CompositeSecretKey,
    participant: Participant,
}

fn op(n: u8, role: &str) -> Op {
    let (sk, pk) = CompositeSecretKey::from_seed(&[n; 32]);
    let kid = format!("op-{n}");
    Op {
        participant: Participant {
            name: format!("operator-{n}"),
            role: role.to_string(),
            kid: kid.clone(),
            pubkey: STANDARD.encode(pk.to_concat_bytes()),
        },
        kid,
        sk,
    }
}

fn minutes(ops: &[Op]) -> CeremonyMinutes {
    CeremonyMinutes {
        version: 1,
        ceremony_id: "rotation-2026".to_string(),
        kind: CeremonyKind::Rotation,
        occurred_at: 1000,
        location: "Faraday room".to_string(),
        trust_domain: "ferrogate.prod".to_string(),
        old_root_kid: Some("root-2025".to_string()),
        new_root_kid: Some("root-2026".to_string()),
        threshold: 3,
        total: 5,
        participants: ops.iter().map(|o| o.participant.clone()).collect(),
        artefacts: Vec::new(),
        notes: String::new(),
    }
}

#[test]
fn all_participants_must_sign() {
    let ops: Vec<Op> = (1..=3).map(|n| op(n, "share-holder")).collect();
    let mut signed = SignedMinutes::new(minutes(&ops));
    // Missing signatures fail.
    assert!(signed.verify_all().is_err());
    for o in &ops {
        signed.sign(&o.kid, &o.sk).unwrap();
    }
    assert_eq!(signed.signed_count(), 3);
    signed.verify_all().unwrap();
    // What was signed is JSON that reads back.
    let v: Value = serde_json::from_slice(&signed.minutes.signing_bytes()).unwrap();
    assert_eq!(v["ceremony_id"].as_str(), Some("rotation-2026"));
    assert_eq!(v["participants"].as_array().unwrap().len(), 3);
    let parsed = signed.clone();
    parsed.verify_all().unwrap();
}

#[test]
fn wrong_key_for_a_participant_is_rejected_at_signing() {
    let ops: Vec<Op> = (1..=2).map(|n| op(n, "share-holder")).collect();
    let mut signed = SignedMinutes::new(minutes(&ops));
    // op-2 tries to sign as op-1.
    let err = signed.sign(&ops[0].kid, &ops[1].sk).unwrap_err();
    assert!(matches!(err, CeremonyError::Malformed { .. }));
}

#[test]
fn double_signing_is_rejected() {
    let ops: Vec<Op> = (1..=2).map(|n| op(n, "share-holder")).collect();
    let mut signed = SignedMinutes::new(minutes(&ops));
    signed.sign(&ops[0].kid, &ops[0].sk).unwrap();
    assert!(signed.sign(&ops[0].kid, &ops[0].sk).is_err());
}

#[test]
fn a_second_entry_of_a_participant_is_rejected() {
    let ops: Vec<Op> = (1..=2).map(|n| op(n, "share-holder")).collect();
    let mut signed = SignedMinutes::new(minutes(&ops));
    for o in &ops {
        signed.sign(&o.kid, &o.sk).unwrap();
    }
    signed.verify_all().unwrap();
    let mut twice = signed.clone();
    twice.signatures.push(signed.signatures[0].clone());
    assert!(matches!(
        twice.verify_all(),
        Err(CeremonyError::Signature(ref m)) if m.starts_with("more than one signature from ")
    ));
    signed.signatures[1].kid = "nobody".to_string();
    assert!(signed.verify_all().is_err());
}

#[test]
fn what_signing_gave_decides() {
    let ops: Vec<Op> = (1..=2).map(|n| op(n, "share-holder")).collect();
    let mut signed = SignedMinutes::new(minutes(&ops));
    let failed = signed.take_signature(&ops[0].kid, Err(CompositeError::Sign("no luck")));
    assert!(matches!(
        failed,
        Err(CeremonyError::Signature(ref m)) if m == "ML-DSA sign failed: no luck"
    ));
    assert_eq!(signed.signed_count(), 0);
    let msg = signed.minutes.signing_bytes();
    let made = ops[0].sk.sign(MINUTES_CONTEXT.as_bytes(), &msg);
    signed.take_signature(&ops[0].kid, made).unwrap();
    assert_eq!(signed.signed_count(), 1);

    let (_, old_pk) = keypair(1);
    let (new_sk, new_pk) = keypair(2);
    let made = new_sk.sign(b"c", b"m");
    let r = CrossSignBundle::assemble(
        "old".into(),
        &old_pk,
        "new".into(),
        &new_pk,
        0,
        1,
        Err(CompositeError::Sign("no luck")),
        made,
    );
    assert!(matches!(r, Err(CeremonyError::Signature(_))));
}

#[test]
fn unknown_signer_is_rejected() {
    let ops: Vec<Op> = (1..=2).map(|n| op(n, "share-holder")).collect();
    let mut signed = SignedMinutes::new(minutes(&ops));
    let stranger = op(9, "intruder");
    assert!(signed.sign(&stranger.kid, &stranger.sk).is_err());
}

#[test]
fn editing_the_body_after_signing_breaks_verification() {
    let ops: Vec<Op> = (1..=2).map(|n| op(n, "share-holder")).collect();
    let mut signed = SignedMinutes::new(minutes(&ops));
    for o in &ops {
        signed.sign(&o.kid, &o.sk).unwrap();
    }
    signed.verify_all().unwrap();
    signed.minutes.notes = "tampered".to_string();
    assert!(signed.verify_all().is_err());
}

#[test]
fn the_signed_form_of_minutes_is_compact_json() {
    let mut m = minutes(&[]);
    m.new_root_kid = None;
    m.artefacts = vec![ArtefactDigest {
        label: "a".into(),
        sha3_256: "00".into(),
    }];
    m.notes = "x\ny".into();
    let text = String::from_utf8(m.signing_bytes()).unwrap();
    assert_eq!(
        text,
        "{\"version\":1,\"ceremony_id\":\"rotation-2026\",\"kind\":\"rotation\",\
         \"occurred_at\":1000,\"location\":\"Faraday room\",\
         \"trust_domain\":\"ferrogate.prod\",\"old_root_kid\":\"root-2025\",\
         \"threshold\":3,\"total\":5,\"participants\":[],\
         \"artefacts\":[{\"label\":\"a\",\"sha3_256\":\"00\"}],\"notes\":\"x\\ny\"}"
    );
}
