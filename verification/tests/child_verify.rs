use base64::engine::general_purpose::URL_SAFE_NO_PAD;
use base64::Engine;
use ed25519_dalek::{Signer, SigningKey};
use ferrogate::child_verify::{
    claims_json, header_json, jwk_thumbprint_ed25519, verify, verify_bound, verify_dpop_proof,
    ChildClaims, Cnf, DpopClaims, DpopExpectation, DpopHeader, DpopJwk, FerrogateClaim, Header,
    Jwk, JwkSet, PresentedProof, Verified, VerifyError, CHILD_ALG, CHILD_SIGNING_CONTEXT,
    CHILD_TYP,
};
use ferrogate::crypto::composite::{CompositePublicKey, CompositeSecretKey};
use serde_json::Value;

const KID: &str = "host-deadbeefdeadbeef";
const HTM: &str = "POST";
const HTU: &str = "https://api.example.com/resource";

fn b64(bytes: &[u8]) -> String {
    URL_SAFE_NO_PAD.encode(bytes)
}

fn object(fields: Vec<(&str, Value)>) -> Value {
    let mut m = serde_json::Map::new();
    for (k, v) in fields {
        m.insert(k.to_string(), v);
    }
    Value::Object(m)
}

fn text(v: &Value, key: &str) -> Result<String, String> {
    v[key]
        .as_str()
        .map(String::from)
        .ok_or_else(|| format!("missing field `{key}`"))
}

fn number(v: &Value, key: &str) -> Result<i64, String> {
    v[key]
        .as_i64()
        .ok_or_else(|| format!("missing field `{key}`"))
}

fn json(bytes: Result<Vec<u8>, String>) -> Result<Value, String> {
    serde_json::from_slice(&bytes?).map_err(|e| e.to_string())
}

fn header_of(jws: &str) -> Result<Header, String> {
    let v = json(header_json(jws))?;
    Ok(Header {
        alg: text(&v, "alg")?,
        typ: text(&v, "typ")?,
        kid: text(&v, "kid")?,
    })
}

fn claims_of(jws: &str) -> Result<ChildClaims, String> {
    let v = json(claims_json(jws))?;
    Ok(ChildClaims {
        iss: text(&v, "iss")?,
        sub: text(&v, "sub")?,
        aud: text(&v, "aud")?,
        exp: number(&v, "exp")?,
        iat: number(&v, "iat")?,
        jti: text(&v, "jti")?,
        cnf: Cnf {
            jkt: text(&v["cnf"], "jkt")?,
        },
        ferrogate: FerrogateClaim {
            parent_svid: text(&v["ferrogate"], "parent_svid")?,
            actor_pid: number(&v["ferrogate"], "actor_pid")? as u32,
            actor_uid: number(&v["ferrogate"], "actor_uid")? as u32,
            actor_bin: text(&v["ferrogate"], "actor_bin")?,
        },
    })
}

fn proof_of(jws: &str) -> PresentedProof {
    let header = json(header_json(jws)).and_then(|v| {
        Ok(DpopHeader {
            typ: text(&v, "typ")?,
            alg: text(&v, "alg")?,
            jwk: DpopJwk {
                kty: text(&v["jwk"], "kty")?,
                crv: text(&v["jwk"], "crv")?,
                x: text(&v["jwk"], "x")?,
            },
        })
    });
    let claims = json(claims_json(jws)).and_then(|v| {
        Ok(DpopClaims {
            htm: text(&v, "htm")?,
            htu: text(&v, "htu")?,
            iat: number(&v, "iat")?,
        })
    });
    PresentedProof {
        jws: jws.to_string(),
        header,
        claims,
    }
}

fn check(jws: &str, jwks: &JwkSet, now: i64, leeway: i64) -> Result<Verified, VerifyError> {
    verify(jws, header_of(jws), claims_of(jws), jwks, now, leeway)
}

fn check_bound(
    jws: &str,
    jwks: &JwkSet,
    proof: Option<&str>,
    now: i64,
) -> Result<Verified, VerifyError> {
    verify_bound(
        jws,
        header_of(jws),
        claims_of(jws),
        jwks,
        &proof.map(proof_of),
        &expect(),
        now,
        30,
    )
}

struct Fixture {
    sk: CompositeSecretKey,
    jws: String,
    jwks: JwkSet,
    dpop_proof: String,
    dpop_jkt: String,
}

fn compact(header: &Value, claims: &Value) -> String {
    format!(
        "{}.{}",
        b64(&serde_json::to_vec(header).unwrap()),
        b64(&serde_json::to_vec(claims).unwrap())
    )
}

fn mint_as(
    sk: &CompositeSecretKey,
    alg: &str,
    typ: &str,
    kid: &str,
    dpop_jkt: &str,
    exp: i64,
) -> String {
    let header = object(vec![
        ("alg", alg.into()),
        ("typ", typ.into()),
        ("kid", kid.into()),
    ]);
    let claims = object(vec![
        ("iss", "spiffe://ferrogate.test/host/abc".into()),
        (
            "sub",
            "spiffe://ferrogate.test/host/abc#app:abababababababab".into(),
        ),
        ("aud", HTU.into()),
        ("exp", exp.into()),
        ("iat", 1000.into()),
        ("jti", "0123456789abcdef0123456789abcdef".into()),
        ("cnf", object(vec![("jkt", dpop_jkt.into())])),
        (
            "ferrogate",
            object(vec![
                ("parent_svid", "33".repeat(48).into()),
                ("actor_pid", 1234.into()),
                ("actor_uid", 1001.into()),
                ("actor_bin", "ab".repeat(48).into()),
            ]),
        ),
    ]);
    let signing_input = compact(&header, &claims);
    let sig = sk
        .sign(CHILD_SIGNING_CONTEXT.as_bytes(), signing_input.as_bytes())
        .unwrap();
    format!("{signing_input}.{}", b64(&sig.to_concat_bytes()))
}

fn mint(sk: &CompositeSecretKey, kid: &str, dpop_jkt: &str, exp: i64) -> String {
    mint_as(sk, CHILD_ALG, CHILD_TYP, kid, dpop_jkt, exp)
}

fn dpop_proof(ed_sk: &SigningKey, htm: &str, htu: &str, iat: i64) -> (String, String) {
    let x = b64(ed_sk.verifying_key().as_bytes());
    let jkt = jwk_thumbprint_ed25519(&x);
    let header = object(vec![
        ("typ", "dpop+jwt".into()),
        ("alg", "EdDSA".into()),
        (
            "jwk",
            object(vec![
                ("kty", "OKP".into()),
                ("crv", "Ed25519".into()),
                ("x", x.into()),
            ]),
        ),
    ]);
    let claims = object(vec![
        ("jti", "dpop-jti-0001".into()),
        ("htm", htm.into()),
        ("htu", htu.into()),
        ("iat", iat.into()),
    ]);
    let signing_input = compact(&header, &claims);
    let sig = ed_sk.sign(signing_input.as_bytes());
    (format!("{signing_input}.{}", b64(&sig.to_bytes())), jkt)
}

fn jwks_for(kid: &str, pk: &CompositePublicKey) -> JwkSet {
    JwkSet {
        keys: vec![Jwk {
            kty: "FERROGATE-COMPOSITE".into(),
            kid: kid.into(),
            public: b64(&pk.to_concat_bytes()),
        }],
    }
}

/// Token at iat=1000 exp=1600, DPoP proof at iat=1000.
fn fixture() -> Fixture {
    let (sk, pk) = CompositeSecretKey::generate().unwrap();
    let ed_sk = SigningKey::from_bytes(&[7u8; 32]);
    let (dpop_proof, dpop_jkt) = dpop_proof(&ed_sk, HTM, HTU, 1000);
    let jws = mint(&sk, KID, &dpop_jkt, 1600);
    Fixture {
        sk,
        jws,
        jwks: jwks_for(KID, &pk),
        dpop_proof,
        dpop_jkt,
    }
}

fn expect() -> DpopExpectation<'static> {
    DpopExpectation {
        htm: HTM,
        htu: HTU,
        max_age_secs: 60,
    }
}

#[test]
fn valid_token_verifies_against_jwks() {
    let f = fixture();
    let v = check(&f.jws, &f.jwks, 1100, 30).expect("token verifies");
    assert_eq!(v.kid, KID);
    assert_eq!(v.claims.cnf.jkt, f.dpop_jkt);
    assert_eq!(v.claims.aud, HTU);
}

#[test]
fn bound_verification_accepts_matching_dpop_proof() {
    let f = fixture();
    let v = check_bound(&f.jws, &f.jwks, Some(&f.dpop_proof), 1010)
        .expect("token + matching DPoP proof verify");
    assert_eq!(v.claims.cnf.jkt, f.dpop_jkt);
}

#[test]
fn token_without_dpop_proof_is_rejected() {
    let f = fixture();
    assert!(check(&f.jws, &f.jwks, 1100, 30).is_ok());
    let err = check_bound(&f.jws, &f.jwks, None, 1010).unwrap_err();
    assert_eq!(err, VerifyError::MissingDpopProof);
}

#[test]
fn dpop_proof_for_a_different_key_is_rejected() {
    let f = fixture();
    let attacker = SigningKey::from_bytes(&[9u8; 32]);
    let (other_proof, _) = dpop_proof(&attacker, HTM, HTU, 1010);
    let err = check_bound(&f.jws, &f.jwks, Some(&other_proof), 1010).unwrap_err();
    assert_eq!(err, VerifyError::DpopThumbprintMismatch);
}

#[test]
fn dpop_proof_for_a_different_request_is_rejected() {
    let f = fixture();
    let ed_sk = SigningKey::from_bytes(&[7u8; 32]);
    let (wrong_uri, _) = dpop_proof(&ed_sk, HTM, "https://evil.example.com/x", 1010);
    let err = check_bound(&f.jws, &f.jwks, Some(&wrong_uri), 1010).unwrap_err();
    assert_eq!(err, VerifyError::DpopBindingMismatch);
}

#[test]
fn stale_dpop_proof_is_rejected() {
    let f = fixture();
    let long_lived = mint(&f.sk, KID, &f.dpop_jkt, 100_000);
    let err = check_bound(&long_lived, &f.jwks, Some(&f.dpop_proof), 2000).unwrap_err();
    assert_eq!(err, VerifyError::DpopStale);
}

#[test]
fn expired_token_is_rejected() {
    let f = fixture();
    let err = check(&f.jws, &f.jwks, 5000, 30).unwrap_err();
    assert_eq!(err, VerifyError::Expired);
}

#[test]
fn unknown_kid_is_rejected() {
    let f = fixture();
    let (_sk, other_pk) = CompositeSecretKey::generate().unwrap();
    let wrong_jwks = jwks_for("host-some-other-kid", &other_pk);
    let err = check(&f.jws, &wrong_jwks, 1100, 30).unwrap_err();
    assert_eq!(err, VerifyError::UnknownKid(KID.to_string()));
    assert_eq!(err.message(), format!("no key for kid {KID}"));
}

#[test]
fn tampered_signature_is_rejected() {
    let f = fixture();
    let sig_start = f.jws.rfind('.').unwrap() + 1;
    let mut bytes = f.jws.into_bytes();
    bytes[sig_start] = if bytes[sig_start] == b'A' { b'B' } else { b'A' };
    let tampered = String::from_utf8(bytes).unwrap();
    let err = check(&tampered, &f.jwks, 1100, 30).unwrap_err();
    assert_eq!(err, VerifyError::BadSignature);
}

#[test]
fn wrong_key_does_not_verify() {
    let f = fixture();
    let (_sk, other_pk) = CompositeSecretKey::generate().unwrap();
    let mismatched = jwks_for(KID, &other_pk);
    let err = check(&f.jws, &mismatched, 1100, 30).unwrap_err();
    assert_eq!(err, VerifyError::BadSignature);
}

#[test]
fn leeway_reaches_just_past_the_end() {
    let f = fixture();
    assert!(check(&f.jws, &f.jwks, 1629, 30).is_ok());
    assert_eq!(
        check(&f.jws, &f.jwks, 1630, 30).unwrap_err(),
        VerifyError::Expired
    );
}

#[test]
fn tokens_of_another_form_are_refused() {
    let f = fixture();
    for token in ["", "a.b", "a.b.c.d", "*.b.c"] {
        assert!(
            matches!(
                check(token, &f.jwks, 1100, 30),
                Err(VerifyError::Malformed(_))
            ),
            "{token}"
        );
    }
    let odd = mint_as(&f.sk, "none", CHILD_TYP, KID, &f.dpop_jkt, 1600);
    assert!(matches!(
        check(&odd, &f.jwks, 1100, 30),
        Err(VerifyError::UnexpectedHeader(_))
    ));
    let odd = mint_as(&f.sk, CHILD_ALG, "jwt", KID, &f.dpop_jkt, 1600);
    assert!(matches!(
        check(&odd, &f.jwks, 1100, 30),
        Err(VerifyError::UnexpectedHeader(_))
    ));
}

#[test]
fn proofs_of_another_form_are_refused() {
    let p = proof_of("a.b.c");
    assert!(matches!(
        verify_dpop_proof(&p.jws, &p.header, &p.claims, &expect(), 1010, 30),
        Err(VerifyError::DpopProofInvalid(_))
    ));
    let ed_sk = SigningKey::from_bytes(&[7u8; 32]);
    let (good, jkt) = dpop_proof(&ed_sk, HTM, HTU, 1000);
    let p = proof_of(&good);
    let ok = verify_dpop_proof(&p.jws, &p.header, &p.claims, &expect(), 1010, 30).unwrap();
    assert_eq!(ok.jkt, jkt);
    let mut bad = proof_of(&good);
    bad.header.as_mut().unwrap().alg = "HS256".into();
    assert!(matches!(
        verify_dpop_proof(&bad.jws, &bad.header, &bad.claims, &expect(), 1010, 30),
        Err(VerifyError::DpopProofInvalid(_))
    ));
    // From the future.
    let (early, _) = dpop_proof(&ed_sk, HTM, HTU, 1041);
    let p = proof_of(&early);
    assert_eq!(
        verify_dpop_proof(&p.jws, &p.header, &p.claims, &expect(), 1010, 30).unwrap_err(),
        VerifyError::DpopStale
    );
}

#[test]
fn the_thumbprint_is_of_the_canonical_key() {
    // The key and thumbprint of RFC 8037, appendix A.3.
    assert_eq!(
        jwk_thumbprint_ed25519("11qYAYKxCrfVS_7TyWQHOg7hcvPapiMlrwIaaPcHURo"),
        "kPrK_qmxVWaYVA9wwBF6Iuo3vVzz7TxHCTwXBygrS4k"
    );
}
