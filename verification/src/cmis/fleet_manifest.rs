//! The fleet manifest: which hosts may attest at all.
//!
//! A manifest lists hosts by 48-byte digests, of endorsement certificates or of
//! hardware. It is applied only if a trusted publisher's composite signature
//! covers its canonical JSON, under a context of its own.

use vstd::prelude::*;
use vstd::slice::slice_to_vec;
use vstd::string::StringExecFns;
use crate::attest::rim_bundle;
use crate::attest::rim_bundle::{EnvelopeFault, TrustedKeys};
use crate::collections::{DigestSet, KeyMap};
use crate::crypto::composite::{
    CompositeError, CompositeSecretKey, PublicKeyModel, SecretKeyModel,
};
use crate::crypto::{composite, envelope};
use crate::primitives::bytes::take_array;
use crate::primitives::{bytes, encoding, json, text};

verus! {

/// Context of manifest signatures.
pub const FLEET_SIGNING_CONTEXT: &'static str = "ferrogate-fleet-v1";

/// Length of a digest in hexadecimal.
pub const EK_SHA_HEX_LEN: usize = 96;

/// A host fingerprint and the machine key that an operator asserts for it.
#[derive(Debug, Clone, PartialEq, Eq)]
pub struct MachinePubkey {
    /// Fingerprint, 96 hexadecimal digits.
    pub fingerprint: String,
    /// The machine key, in unpadded URL-safe Base64.
    pub sep_pub_b64: String,
}

/// The publishable contents of one manifest.
#[derive(Debug, Clone, PartialEq, Eq)]
pub struct FleetManifest {
    /// Version, above that of every manifest before.
    pub version: u64,
    /// The trust domain that hosts are admitted to.
    pub trust_domain: String,
    /// When it was signed, Unix seconds.
    pub issued_at: i64,
    /// Digests of endorsement certificates, 96 hexadecimal digits each.
    pub enrolled_ek_sha384: Vec<String>,
    /// Fingerprints of hosts without a TPM, 96 hexadecimal digits each.
    pub enrolled_machine_id: Vec<String>,
    /// Fingerprints whose machine key is known beforehand.
    pub enrolled_machine_pubkey: Vec<MachinePubkey>,
}

/// Failure modes of manifests.
#[derive(Debug)]
pub enum FleetError {
    /// JSON could not be written or read.
    Json(String),
    /// Signing failed.
    Sign(CompositeError),
    /// The signer is not trusted.
    UnknownKid(String),
    /// The signature does not verify.
    BadSignature(String),
    /// A digest or a key in the manifest does not decode.
    BadEkHash(String),
}

/// The JSON text of one asserted key.
pub open spec fn pubkey_text(k: MachinePubkey) -> Seq<char> {
    "{\"fingerprint\":"@ + json::json_string_text(k.fingerprint@) + ",\"sep_pub_b64\":"@
        + json::json_string_text(k.sep_pub_b64@) + "}"@
}

/// The JSON text of asserted keys.
pub open spec fn pubkeys_text(keys: Seq<MachinePubkey>) -> Seq<char> {
    json::json_array(keys.map_values(|k: MachinePubkey| pubkey_text(k)))
}

/// The canonical JSON text of a manifest. Lists of hosts without a TPM are left
/// out where they are empty.
pub open spec fn manifest_text(m: FleetManifest) -> Seq<char> {
    "{\"version\":"@ + text::decimal(m.version as nat) + ",\"trust_domain\":"@
        + json::json_string_text(m.trust_domain@) + ",\"issued_at\":"@ + text::signed_decimal(
        m.issued_at as int,
    ) + ",\"enrolled_ek_sha384\":"@ + json::json_strings(m.enrolled_ek_sha384@) + (
    if m.enrolled_machine_id@.len() == 0 {
        ""@
    } else {
        ",\"enrolled_machine_id\":"@ + json::json_strings(m.enrolled_machine_id@)
    }) + (if m.enrolled_machine_pubkey@.len() == 0 {
        ""@
    } else {
        ",\"enrolled_machine_pubkey\":"@ + pubkeys_text(m.enrolled_machine_pubkey@)
    }) + "}"@
}

/// The bytes that the signature of a manifest covers.
pub open spec fn manifest_bytes(m: FleetManifest) -> Seq<u8> {
    vstd::utf8::encode_utf8(manifest_text(m))
}

/// The bytes of a digest's text, without the white space around it.
pub open spec fn digest_bytes(h: Seq<char>) -> Seq<u8> {
    vstd::utf8::encode_utf8(text::trimmed(h))
}

/// Which entry of which list is meant.
pub open spec fn entry_label(kind: Seq<char>, i: nat) -> Seq<char> {
    kind + "["@ + text::decimal(i) + "]"@
}

/// What is wrong with a digest in a list.
pub open spec fn digest_fault(h: Seq<char>, kind: Seq<char>, i: nat) -> Option<Seq<char>> {
    let b = digest_bytes(h);
    if b.len() != EK_SHA_HEX_LEN {
        Some(
            entry_label(kind, i) + ": expected 96 hex chars, got "@ + text::decimal(b.len()),
        )
    } else if !encoding::is_hex(b) {
        Some(entry_label(kind, i) + ": "@ + encoding::hex_fault_text(b))
    } else {
        None
    }
}

/// Whether a digest is the one that a text stands for.
pub open spec fn names_digest(d: [u8; 48], h: Seq<char>) -> bool {
    d@ == encoding::hex_value(digest_bytes(h))
}

/// What is said of the first digest, from position `i` on, that is none.
pub open spec fn first_fault(list: Seq<String>, kind: Seq<char>, i: nat) -> Option<Seq<char>>
    decreases list.len() - i,
{
    if i >= list.len() {
        None
    } else {
        match digest_fault(list[i as int]@, kind, i) {
            Some(f) => Some(f),
            None => first_fault(list, kind, i + 1),
        }
    }
}

/// Whether one of the first `n` texts stands for a digest.
pub open spec fn listed(d: [u8; 48], list: Seq<String>, n: int) -> bool {
    exists|i: int| 0 <= i < n && names_digest(d, (#[trigger] list[i])@)
}

/// The value of an asserted key's text.
pub open spec fn key_value(k: MachinePubkey) -> Result<Seq<u8>, Seq<char>> {
    encoding::base64url_value(vstd::utf8::encode_utf8(text::trimmed(k.sep_pub_b64@)))
}

/// What is wrong with an asserted key.
pub open spec fn pubkey_fault(k: MachinePubkey, i: nat) -> Option<Seq<char>> {
    match digest_fault(k.fingerprint@, "machine_pubkey"@, i) {
        Some(f) => Some(f),
        None => match key_value(k) {
            Err(e) => Some(entry_label("machine_pubkey"@, i) + " key: "@ + e),
            Ok(b) => if b.len() == 0 {
                Some(entry_label("machine_pubkey"@, i) + ": empty key"@)
            } else {
                None
            },
        },
    }
}

/// What is said of the first asserted key, from position `i` on, that is none.
pub open spec fn first_pubkey_fault(keys: Seq<MachinePubkey>, i: nat) -> Option<Seq<char>>
    decreases keys.len() - i,
{
    if i >= keys.len() {
        None
    } else {
        match pubkey_fault(keys[i as int], i) {
            Some(f) => Some(f),
            None => first_pubkey_fault(keys, i + 1),
        }
    }
}

/// The key that the first `n` assertions give a fingerprint; of several the
/// last.
pub open spec fn asserted_key(keys: Seq<MachinePubkey>, n: int, fp: [u8; 48]) -> Option<Seq<u8>>
    decreases n,
{
    if n <= 0 {
        None
    } else if names_digest(fp, keys[n - 1].fingerprint@) {
        Some(key_value(keys[n - 1])->Ok_0)
    } else {
        asserted_key(keys, n - 1, fp)
    }
}

/// What is wrong with a manifest's lists: the first fault of the first list
/// that has one.
pub open spec fn manifest_fault(m: FleetManifest) -> Option<Seq<char>> {
    match first_fault(m.enrolled_ek_sha384@, "ek"@, 0) {
        Some(f) => Some(f),
        None => match first_fault(m.enrolled_machine_id@, "machine"@, 0) {
            Some(f) => Some(f),
            None => first_pubkey_fault(m.enrolled_machine_pubkey@, 0),
        },
    }
}

/// Whether a manifest enrols a host: its digest is in one of the three lists.
pub open spec fn enrols(m: FleetManifest, d: [u8; 48]) -> bool {
    ||| listed(d, m.enrolled_ek_sha384@, m.enrolled_ek_sha384@.len() as int)
    ||| listed(d, m.enrolled_machine_id@, m.enrolled_machine_id@.len() as int)
    ||| asserted_key(
        m.enrolled_machine_pubkey@,
        m.enrolled_machine_pubkey@.len() as int,
        d,
    ) is Some
}

/// The hosts that are enrolled, as the admission check needs them.
#[derive(Debug)]
pub struct EnrolledHosts {
    version: u64,
    enforced: bool,
    hashes: DigestSet,
    prereg: KeyMap<[u8; 48], Vec<u8>>,
}

/// The contents of [`EnrolledHosts`].
#[verifier::ext_equal]
pub struct EnrolledModel {
    pub version: u64,
    pub enforced: bool,
    pub hashes: Set<[u8; 48]>,
    pub prereg: Map<[u8; 48], Seq<u8>>,
}

/// What becomes of a host at the door.
#[derive(Debug, Clone, Copy, PartialEq, Eq, Structural)]
pub enum EnrollmentDecision {
    /// No manifest is in force: the host goes on.
    NotEnforced,
    /// The host is enrolled and goes on.
    Enrolled,
    /// The host is not enrolled and is turned away.
    Rejected,
}

/// What becomes of a host at the door.
pub open spec fn decision(e: EnrolledModel, d: [u8; 48]) -> EnrollmentDecision {
    if !e.enforced {
        EnrollmentDecision::NotEnforced
    } else if e.hashes.contains(d) {
        EnrollmentDecision::Enrolled
    } else {
        EnrollmentDecision::Rejected
    }
}

/// No manifest.
pub open spec fn no_manifest() -> EnrolledModel {
    EnrolledModel { version: 0, enforced: false, hashes: Set::empty(), prereg: Map::empty() }
}

/// Whether enrolled hosts are those of a manifest.
pub open spec fn resolves(e: EnrolledModel, m: FleetManifest) -> bool {
    &&& e.version == m.version
    &&& e.enforced
    &&& forall|d: [u8; 48]| #[trigger] e.hashes.contains(d) <==> enrols(m, d)
    &&& forall|d: [u8; 48]|
        (#[trigger] e.prereg.dom().contains(d) <==> asserted_key(
            m.enrolled_machine_pubkey@,
            m.enrolled_machine_pubkey@.len() as int,
            d,
        ) is Some) && (e.prereg.dom().contains(d) ==> asserted_key(
            m.enrolled_machine_pubkey@,
            m.enrolled_machine_pubkey@.len() as int,
            d,
        ) == Some(e.prereg[d]))
}

impl View for EnrolledHosts {
    type V = EnrolledModel;

    closed spec fn view(&self) -> EnrolledModel {
        EnrolledModel {
            version: self.version,
            enforced: self.enforced,
            hashes: self.hashes@,
            prereg: self.prereg@.map_values(|k: Vec<u8>| k@),
        }
    }
}

impl EnrolledHosts {
    /// No manifest: every host goes on.
    pub fn unenforced() -> (r: Self)
        ensures
            r@ == no_manifest(),
    {
        let r = EnrolledHosts {
            version: 0,
            enforced: false,
            hashes: DigestSet::new(),
            prereg: KeyMap::new(),
        };
        assert(r@.prereg =~= Map::<[u8; 48], Seq<u8>>::empty());
        r
    }

    /// The machine key that an operator asserts for a fingerprint.
    pub fn preregistered(&self, fp: &[u8; 48]) -> (r: Option<&[u8]>)
        ensures
            match r {
                Some(k) => self@.prereg.dom().contains(*fp) && self@.prereg[*fp] == k@,
                None => !self@.prereg.dom().contains(*fp),
            },
    {
        match self.prereg.get(fp) {
            Some(k) => Some(k.as_slice()),
            None => None,
        }
    }

    /// Whether a manifest is in force.
    pub fn is_enforced(&self) -> (r: bool)
        ensures
            r == self@.enforced,
    {
        self.enforced
    }

    /// The manifest's version.
    pub fn version(&self) -> (r: u64)
        ensures
            r == self@.version,
    {
        self.version
    }

    /// Whether a host is enrolled.
    pub fn contains(&self, ek_sha: &[u8; 48]) -> (r: bool)
        ensures
            r == self@.hashes.contains(*ek_sha),
    {
        self.hashes.contains(ek_sha)
    }

    /// The number of enrolled hosts.
    pub fn len(&self) -> (r: usize)
        ensures
            self@.hashes.finite(),
            r == self@.hashes.len(),
    {
        self.hashes.len()
    }

    /// Whether no host is enrolled.
    pub fn is_empty(&self) -> (r: bool)
        ensures
            r == (self@.hashes.len() == 0),
    {
        self.hashes.len() == 0
    }

    /// What becomes of a host.
    pub fn decide(&self, ek_sha: &[u8; 48]) -> (r: EnrollmentDecision)
        ensures
            r == decision(self@, *ek_sha),
    {
        if !self.enforced {
            EnrollmentDecision::NotEnforced
        } else if self.contains(ek_sha) {
            EnrollmentDecision::Enrolled
        } else {
            EnrollmentDecision::Rejected
        }
    }
}

fn label(kind: &str, i: usize) -> (r: String)
    ensures
        r@ == entry_label(kind@, i as nat),
{
    let mut m = text::joined(kind, "[");
    m.append(text::decimal_text(i as u64).as_str());
    m.append("]");
    m
}

/// Decode a digest of a list.
pub fn decode_host_digest(h: &str, kind: &str, i: usize) -> (r: Result<[u8; 48], FleetError>)
    ensures
        match r {
            Ok(d) => digest_fault(h@, kind@, i as nat) is None && names_digest(d, h@),
            Err(e) => e matches FleetError::BadEkHash(m) && digest_fault(h@, kind@, i as nat)
                == Some(m@),
        },
{
    let trimmed = text::trim(h);
    let b = trimmed.as_bytes();
    if b.len() != EK_SHA_HEX_LEN {
        let mut m = label(kind, i);
        m.append(": expected 96 hex chars, got ");
        m.append(text::decimal_text(b.len() as u64).as_str());
        return Err(FleetError::BadEkHash(m));
    }
    match encoding::hex_decode(b) {
        Ok(v) => {
            let d: [u8; 48] = take_array::<48>(v.as_slice(), 0);
            assert(d@ =~= v@);
            Ok(d)
        },
        Err(e) => {
            let mut m = label(kind, i);
            m.append(": ");
            m.append(e.as_str());
            Err(FleetError::BadEkHash(m))
        },
    }
}

fn collect(list: &Vec<String>, kind: &str, hashes: &mut DigestSet) -> (r: Result<(), FleetError>)
    ensures
        match r {
            Ok(_) => first_fault(list@, kind@, 0) is None && forall|d: [u8; 48]| #[trigger]
                final(hashes)@.contains(d) <==> old(hashes)@.contains(d) || listed(
                    d,
                    list@,
                    list@.len() as int,
                ),
            Err(e) => e matches FleetError::BadEkHash(m) && first_fault(list@, kind@, 0) == Some(
                m@,
            ),
        },
{
    let mut i: usize = 0;
    while i < list.len()
        invariant
            i <= list@.len(),
            first_fault(list@, kind@, 0) == first_fault(list@, kind@, i as nat),
            forall|d: [u8; 48]| #[trigger]
                hashes@.contains(d) <==> old(hashes)@.contains(d) || listed(d, list@, i as int),
        decreases list@.len() - i,
    {
        let digest = decode_host_digest(list[i].as_str(), kind, i)?;
        let ghost before = hashes@;
        hashes.insert(digest);
        proof {
            assert forall|d: [u8; 48]| #[trigger] hashes@.contains(d) <==> old(hashes)@.contains(d)
                || listed(d, list@, i + 1) by {
                if listed(d, list@, i as int) {
                    let j = choose|j: int|
                        0 <= j < i && names_digest(d, (#[trigger] list@[j])@);
                    assert(names_digest(d, list@[j]@));
                }
                assert(names_digest(digest, list@[i as int]@));
                if names_digest(d, list@[i as int]@) {
                    bytes::lemma_array_view_injective::<48>(d, digest);
                }
            }
        }
        i += 1;
    }
    Ok(())
}

impl MachinePubkey {
    /// The fingerprint and the key, if both decode.
    fn decode(&self, i: usize) -> (r: Result<([u8; 48], Vec<u8>), FleetError>)
        ensures
            match r {
                Ok((fp, pk)) => pubkey_fault(*self, i as nat) is None && names_digest(
                    fp,
                    self.fingerprint@,
                ) && key_value(*self) == Ok::<_, Seq<char>>(pk@),
                Err(e) => e matches FleetError::BadEkHash(m) && pubkey_fault(*self, i as nat)
                    == Some(m@),
            },
    {
        let fp: [u8; 48] = decode_host_digest(self.fingerprint.as_str(), "machine_pubkey", i)?;
        let trimmed = text::trim(self.sep_pub_b64.as_str());
        let pk = match encoding::base64url_decode(trimmed.as_bytes()) {
            Ok(pk) => pk,
            Err(e) => {
                let mut m = label("machine_pubkey", i);
                m.append(" key: ");
                m.append(e.as_str());
                return Err(FleetError::BadEkHash(m));
            },
        };
        if pk.len() == 0 {
            let mut m = label("machine_pubkey", i);
            m.append(": empty key");
            return Err(FleetError::BadEkHash(m));
        }
        Ok((fp, pk))
    }
}

fn pubkey_texts(keys: &Vec<MachinePubkey>) -> (r: String)
    ensures
        r@ == pubkeys_text(keys@),
{
    let mut items: Vec<String> = Vec::new();
    let mut i: usize = 0;
    while i < keys.len()
        invariant
            i <= keys@.len(),
            items@.len() == i,
            forall|j: int| 0 <= j < i ==> (#[trigger] items@[j])@ == pubkey_text(keys@[j]),
        decreases keys@.len() - i,
    {
        let mut s = "{\"fingerprint\":".to_owned();
        s.append(json::json_string(keys[i].fingerprint.as_str()).as_str());
        s.append(",\"sep_pub_b64\":");
        s.append(json::json_string(keys[i].sep_pub_b64.as_str()).as_str());
        s.append("}");
        items.push(s);
        i += 1;
    }
    assert(items@.map_values(|s: String| s@) =~= keys@.map_values(
        |k: MachinePubkey| pubkey_text(k),
    ));
    json::array_text(&items)
}

impl FleetManifest {
    /// The canonical JSON that the signature covers.
    pub fn canonical_json(&self) -> (r: Result<Vec<u8>, FleetError>)
        ensures
            r matches Ok(b) && b@ == manifest_bytes(*self),
    {
        let mut s = "{\"version\":".to_owned();
        s.append(text::decimal_text(self.version).as_str());
        s.append(",\"trust_domain\":");
        s.append(json::json_string(self.trust_domain.as_str()).as_str());
        s.append(",\"issued_at\":");
        s.append(text::signed_decimal_text(self.issued_at).as_str());
        s.append(",\"enrolled_ek_sha384\":");
        s.append(json::strings_text(&self.enrolled_ek_sha384).as_str());
        let mut machines = String::new();
        proof {
            reveal_strlit("");
        }
        if self.enrolled_machine_id.len() != 0 {
            machines = ",\"enrolled_machine_id\":".to_owned();
            machines.append(json::strings_text(&self.enrolled_machine_id).as_str());
        }
        assert(machines@ =~= if self.enrolled_machine_id@.len() == 0 {
            ""@
        } else {
            ",\"enrolled_machine_id\":"@ + json::json_strings(self.enrolled_machine_id@)
        });
        s.append(machines.as_str());
        let mut keys = String::new();
        if self.enrolled_machine_pubkey.len() != 0 {
            keys = ",\"enrolled_machine_pubkey\":".to_owned();
            keys.append(pubkey_texts(&self.enrolled_machine_pubkey).as_str());
        }
        assert(keys@ =~= if self.enrolled_machine_pubkey@.len() == 0 {
            ""@
        } else {
            ",\"enrolled_machine_pubkey\":"@ + pubkeys_text(self.enrolled_machine_pubkey@)
        });
        s.append(keys.as_str());
        s.append("}");
        Ok(slice_to_vec(s.as_str().as_bytes()))
    }

    /// The hosts that the manifest enrols, if every digest and key decodes.
    pub fn to_enrolled(&self) -> (r: Result<EnrolledHosts, FleetError>)
        ensures
            match r {
                Ok(e) => manifest_fault(*self) is None && resolves(e@, *self),
                Err(e) => e matches FleetError::BadEkHash(m) && manifest_fault(*self) == Some(m@),
            },
    {
        let mut hashes = DigestSet::new();
        collect(&self.enrolled_ek_sha384, "ek", &mut hashes)?;
        collect(&self.enrolled_machine_id, "machine", &mut hashes)?;
        let ghost base = hashes@;
        let mut prereg: KeyMap<[u8; 48], Vec<u8>> = KeyMap::new();
        let ghost keys = self.enrolled_machine_pubkey@;
        let mut i: usize = 0;
        while i < self.enrolled_machine_pubkey.len()
            invariant
                i <= keys.len(),
                keys == self.enrolled_machine_pubkey@,
                first_pubkey_fault(keys, 0) == first_pubkey_fault(keys, i as nat),
                first_fault(self.enrolled_ek_sha384@, "ek"@, 0) is None,
                first_fault(self.enrolled_machine_id@, "machine"@, 0) is None,
                forall|d: [u8; 48]| #[trigger]
                    hashes@.contains(d) <==> base.contains(d) || asserted_key(keys, i as int, d)
                        is Some,
                forall|d: [u8; 48]| #[trigger]
                    prereg@.dom().contains(d) <==> asserted_key(keys, i as int, d) is Some,
                forall|d: [u8; 48]| #[trigger]
                    prereg@.dom().contains(d) ==> asserted_key(keys, i as int, d) == Some(
                        prereg@[d]@,
                    ),
            decreases keys.len() - i,
        {
            let (fp, pk) = self.enrolled_machine_pubkey[i].decode(i)?;
            hashes.insert(fp);
            prereg.insert(fp, pk);
            proof {
                assert forall|d: [u8; 48]|
                    names_digest(d, keys[i as int].fingerprint@) implies d == fp by {
                    bytes::lemma_array_view_injective::<48>(d, fp);
                }
                assert(names_digest(fp, keys[i as int].fingerprint@));
            }
            i += 1;
        }
        let r = EnrolledHosts { version: self.version, enforced: true, hashes, prereg };
        assert(forall|d: [u8; 48]| #[trigger]
            r@.prereg.dom().contains(d) <==> prereg@.dom().contains(d));
        Ok(r)
    }
}

/// A manifest with a publisher's signature.
#[derive(Debug)]
pub struct SignedFleetManifest {
    /// The manifest.
    pub manifest: FleetManifest,
    /// Key id of the publisher.
    pub signer_kid: String,
    /// The composite signature in unpadded URL-safe Base64.
    pub signature_b64: String,
}

/// The context of manifest signatures as bytes.
pub open spec fn fleet_context() -> Seq<u8> {
    vstd::utf8::encode_utf8(FLEET_SIGNING_CONTEXT@)
}

impl SignedFleetManifest {
    /// What verification says.
    pub open spec fn verdict(self, trust: Map<Seq<char>, PublicKeyModel>) -> Result<
        (),
        EnvelopeFault,
    > {
        rim_bundle::envelope_verdict(
            trust,
            self.signer_kid@,
            self.signature_b64@,
            fleet_context(),
            manifest_bytes(self.manifest),
        )
    }

    /// Sign a manifest.
    pub fn sign(manifest: FleetManifest, signer_kid: String, signer: &CompositeSecretKey) -> (r:
        Result<Self, FleetError>)
        ensures
            match r {
                Ok(s) => {
                    &&& s.manifest == manifest
                    &&& s.signer_kid == signer_kid
                    &&& envelope::sealed_by(
                        signer@,
                        fleet_context(),
                        manifest_bytes(manifest),
                        s.signature_b64@,
                    )
                },
                Err(e) => e matches FleetError::Sign(c) && composite::sign_failed(
                    signer@,
                    fleet_context(),
                    manifest_bytes(manifest),
                    c,
                ),
            },
    {
        let payload = manifest.canonical_json()?;
        match envelope::seal(signer, FLEET_SIGNING_CONTEXT.as_bytes(), payload.as_slice()) {
            Ok(signature_b64) => Ok(SignedFleetManifest { manifest, signer_kid, signature_b64 }),
            Err(e) => Err(FleetError::Sign(e)),
        }
    }

    /// Verify the signature under a trusted key. The manifest is handed out
    /// only if it is authentic.
    pub fn verify<'a>(&'a self, trust: &TrustedKeys) -> (r: Result<&'a FleetManifest, FleetError>)
        ensures
            match (r, self.verdict(trust@)) {
                (Ok(m), Ok(_)) => *m == self.manifest,
                (Err(FleetError::UnknownKid(k)), Err(EnvelopeFault::UnknownKid(kid))) => k@ == kid,
                (Err(FleetError::BadSignature(m)), Err(EnvelopeFault::BadSignature(fault))) => m@
                    == fault,
                _ => false,
            },
    {
        let pk = match trust.get(self.signer_kid.as_str()) {
            Some(k) => k,
            None => return Err(FleetError::UnknownKid(self.signer_kid.clone())),
        };
        let payload = self.manifest.canonical_json()?;
        match envelope::check_signature(
            pk,
            FLEET_SIGNING_CONTEXT.as_bytes(),
            payload.as_slice(),
            self.signature_b64.as_str(),
        ) {
            Ok(()) => Ok(&self.manifest),
            Err(e) => Err(FleetError::BadSignature(e)),
        }
    }
}

/// The enrolled hosts in force.
#[derive(Debug)]
pub struct FleetStore {
    hosts: EnrolledHosts,
}

impl View for FleetStore {
    type V = EnrolledModel;

    closed spec fn view(&self) -> EnrolledModel {
        self.hosts@
    }
}

impl Default for FleetStore {
    fn default() -> (r: Self)
        ensures
            r@ == no_manifest(),
    {
        FleetStore::unenforced()
    }
}

impl FleetStore {
    /// No manifest: every host is admitted.
    pub fn unenforced() -> (r: Self)
        ensures
            r@ == no_manifest(),
    {
        FleetStore { hosts: EnrolledHosts::unenforced() }
    }

    /// A store with enrolled hosts.
    pub fn with_enrolled(hosts: EnrolledHosts) -> (r: Self)
        ensures
            r@ == hosts@,
    {
        FleetStore { hosts }
    }

    /// The hosts in force.
    pub fn snapshot(&self) -> (r: &EnrolledHosts)
        ensures
            r@ == self@,
    {
        &self.hosts
    }

    /// Put other hosts in force, in place of those before.
    pub fn apply(&mut self, hosts: EnrolledHosts)
        ensures
            final(self)@ == hosts@,
    {
        self.hosts = hosts;
    }

    /// The version in force.
    pub fn current_version(&self) -> (r: u64)
        ensures
            r == self@.version,
    {
        self.hosts.version()
    }

    /// What becomes of a host.
    pub fn decide(&self, ek_sha: &[u8; 48]) -> (r: EnrollmentDecision)
        ensures
            r == decision(self@, *ek_sha),
    {
        self.hosts.decide(ek_sha)
    }

    /// The machine key that an operator asserts for a fingerprint.
    pub fn preregistered(&self, fp: &[u8; 48]) -> (r: Option<&[u8]>)
        ensures
            match r {
                Some(k) => self@.prereg.dom().contains(*fp) && self@.prereg[*fp] == k@,
                None => !self@.prereg.dom().contains(*fp),
            },
    {
        self.hosts.preregistered(fp)
    }
}

/// What a reload did.
#[derive(Debug, Clone, PartialEq, Eq)]
pub enum FleetReloadOutcome {
    /// The manifest was applied.
    Applied {
        /// Its version.
        version: u64,
        /// The number of hosts that it enrols.
        enrolled: usize,
    },
    /// The manifest is not newer than the one in force; nothing changed.
    UpToDate {
        /// The version in force.
        version: u64,
    },
}

/// What a reload does: `before` and `after` are the hosts in force.
pub open spec fn fleet_reloaded(
    signed: SignedFleetManifest,
    trust: Map<Seq<char>, PublicKeyModel>,
    before: EnrolledModel,
    after: EnrolledModel,
    r: Result<FleetReloadOutcome, FleetError>,
) -> bool {
    match r {
        Ok(FleetReloadOutcome::Applied { version, enrolled }) => {
            &&& signed.verdict(trust) is Ok
            &&& signed.manifest.version > before.version
            &&& manifest_fault(signed.manifest) is None
            &&& resolves(after, signed.manifest)
            &&& version == signed.manifest.version
            &&& enrolled == after.hashes.len()
        },
        Ok(FleetReloadOutcome::UpToDate { version }) => {
            &&& signed.verdict(trust) is Ok
            &&& signed.manifest.version <= before.version
            &&& version == before.version
            &&& after == before
        },
        Err(e) => {
            &&& after == before
            &&& match signed.verdict(trust) {
                Err(EnvelopeFault::UnknownKid(kid)) => e matches FleetError::UnknownKid(k) && k@
                    == kid,
                Err(EnvelopeFault::BadSignature(f)) => e matches FleetError::BadSignature(m) && m@
                    == f,
                Ok(_) => signed.manifest.version > before.version && (
                e matches FleetError::BadEkHash(m) && manifest_fault(signed.manifest) == Some(m@)),
            }
        },
    }
}

/// Bring a manifest that was read into force: verify it, and apply it if it is
/// newer than the one in force. A manifest that is not newer is no error.
pub fn reload_manifest(
    signed: &SignedFleetManifest,
    trust: &TrustedKeys,
    store: &mut FleetStore,
) -> (r: Result<FleetReloadOutcome, FleetError>)
    ensures
        fleet_reloaded(*signed, trust@, old(store)@, final(store)@, r),
{
    let manifest = signed.verify(trust)?;
    let current: u64 = store.current_version();
    if manifest.version <= current {
        return Ok(FleetReloadOutcome::UpToDate { version: current });
    }
    let hosts = manifest.to_enrolled()?;
    let outcome = FleetReloadOutcome::Applied { version: hosts.version(), enrolled: hosts.len() };
    store.apply(hosts);
    Ok(outcome)
}

/// Why a manifest was not taken up.
#[derive(Debug)]
pub enum FleetReloadError {
    /// The manifest could not be read.
    Io {
        /// Where it was to be read from.
        path: String,
        /// What went wrong.
        message: String,
    },
    /// The manifest does not decode, or is not to be trusted.
    Manifest(FleetError),
}

/// Where manifests come from and who may publish them.
#[derive(Debug)]
pub struct FleetManifestLoader {
    path: String,
    trust: TrustedKeys,
}

impl FleetManifestLoader {
    /// Where manifests are read from.
    pub closed spec fn source(&self) -> Seq<char> {
        self.path@
    }

    /// The trusted publisher keys.
    pub closed spec fn trusted(&self) -> Map<Seq<char>, PublicKeyModel> {
        self.trust@
    }

    /// A loader.
    pub fn new(path: String, trust: TrustedKeys) -> (r: Self)
        ensures
            r.source() == path@,
            r.trusted() == trust@,
    {
        FleetManifestLoader { path, trust }
    }

    /// Where manifests are read from.
    pub fn path(&self) -> (r: &str)
        ensures
            r@ == self.source(),
    {
        self.path.as_str()
    }

    /// Apply the manifest that was read from the path, or hand on why it did
    /// not decode.
    pub fn try_reload(
        &self,
        read: Result<SignedFleetManifest, FleetReloadError>,
        store: &mut FleetStore,
    ) -> (r: Result<FleetReloadOutcome, FleetReloadError>)
        ensures
            match read {
                Ok(signed) => match r {
                    Ok(outcome) => fleet_reloaded(
                        signed,
                        self.trusted(),
                        old(store)@,
                        final(store)@,
                        Ok(outcome),
                    ),
                    Err(FleetReloadError::Manifest(e)) => fleet_reloaded(
                        signed,
                        self.trusted(),
                        old(store)@,
                        final(store)@,
                        Err(e),
                    ),
                    Err(FleetReloadError::Io { .. }) => false,
                },
                Err(e) => r == Err::<FleetReloadOutcome, _>(e) && final(store)@ == old(store)@,
            },
    {
        match read {
            Ok(signed) => match reload_manifest(&signed, &self.trust, store) {
                Ok(outcome) => Ok(outcome),
                Err(e) => Err(FleetReloadError::Manifest(e)),
            },
            Err(e) => Err(e),
        }
    }
}

/// A manifest that was signed with `secret` verifies wherever the key id stands
/// for the public key of `secret`, unless the classical half of the signature
/// is degenerate.
pub proof fn law_signed_manifest_verifies(
    s: SignedFleetManifest,
    secret: SecretKeyModel,
    trust: Map<Seq<char>, PublicKeyModel>,
)
    requires
        envelope::sealed_by(
            secret,
            fleet_context(),
            manifest_bytes(s.manifest),
            s.signature_b64@,
        ),
        !composite::degenerate(envelope::opened(s.signature_b64@)->Ok_0),
        trust.dom().contains(s.signer_kid@),
        trust[s.signer_kid@] == composite::public_of(secret),
    ensures
        s.verdict(trust) is Ok,
{
    envelope::law_sealed_checks(
        secret,
        fleet_context(),
        manifest_bytes(s.manifest),
        s.signature_b64@,
    );
}

/// Whether two lists assert the same keys in the same order.
pub open spec fn same_pubkeys(a: Seq<MachinePubkey>, b: Seq<MachinePubkey>) -> bool {
    a.len() == b.len() && forall|i: int|
        0 <= i < a.len() ==> (#[trigger] a[i]).fingerprint@ == b[i].fingerprint@
            && a[i].sep_pub_b64@ == b[i].sep_pub_b64@
}

/// Whether two manifests say the same: version, trust domain, time, and the
/// three lists entry by entry.
pub open spec fn same_manifest(a: FleetManifest, b: FleetManifest) -> bool {
    &&& a.version == b.version
    &&& a.trust_domain@ == b.trust_domain@
    &&& a.issued_at == b.issued_at
    &&& json::same_texts(a.enrolled_ek_sha384@, b.enrolled_ek_sha384@)
    &&& json::same_texts(a.enrolled_machine_id@, b.enrolled_machine_id@)
    &&& same_pubkeys(a.enrolled_machine_pubkey@, b.enrolled_machine_pubkey@)
}

proof fn lemma_pubkeys_apart(a: MachinePubkey, b: MachinePubkey)
    ensures
        json::apart(pubkey_text(a), pubkey_text(b)),
        pubkey_text(a) == pubkey_text(b) ==> a.fingerprint@ == b.fingerprint@ && a.sep_pub_b64@
            == b.sep_pub_b64@,
        pubkey_text(a).len() > 0,
        pubkey_text(a)[0] == '{',
{
    reveal_strlit("{\"fingerprint\":");
    let first = "{\"fingerprint\":"@;
    let second = ",\"sep_pub_b64\":"@;
    let fa = json::json_string_text(a.fingerprint@);
    let fb = json::json_string_text(b.fingerprint@);
    let ka = json::json_string_text(a.sep_pub_b64@);
    let kb = json::json_string_text(b.sep_pub_b64@);
    assert(pubkey_text(a) =~= first + (fa + (second + (ka + "}"@))));
    assert(pubkey_text(b) =~= first + (fb + (second + (kb + "}"@))));
    json::lemma_strings_apart(a.fingerprint@, b.fingerprint@);
    json::lemma_strings_apart(a.sep_pub_b64@, b.sep_pub_b64@);
    json::lemma_apart_fields(ka, "}"@, kb, "}"@);
    json::lemma_apart_fields(second, ka + "}"@, second, kb + "}"@);
    json::lemma_apart_fields(fa, second + (ka + "}"@), fb, second + (kb + "}"@));
    json::lemma_apart_fields(
        first,
        fa + (second + (ka + "}"@)),
        first,
        fb + (second + (kb + "}"@)),
    );
}

/// The end of a manifest's text: the asserted keys, if there are any.
spec fn keys_tail(m: FleetManifest) -> Seq<char> {
    (if m.enrolled_machine_pubkey@.len() == 0 {
        ""@
    } else {
        ",\"enrolled_machine_pubkey\":"@ + pubkeys_text(m.enrolled_machine_pubkey@)
    }) + "}"@
}

/// The end of a manifest's text from the hosts without a TPM on.
spec fn machines_tail(m: FleetManifest) -> Seq<char> {
    (if m.enrolled_machine_id@.len() == 0 {
        ""@
    } else {
        ",\"enrolled_machine_id\":"@ + json::json_strings(m.enrolled_machine_id@)
    }) + keys_tail(m)
}

proof fn lemma_keys_tail(a: FleetManifest, b: FleetManifest)
    requires
        keys_tail(a) == keys_tail(b),
    ensures
        same_pubkeys(a.enrolled_machine_pubkey@, b.enrolled_machine_pubkey@),
{
    reveal_strlit("");
    reveal_strlit("}");
    reveal_strlit(",\"enrolled_machine_pubkey\":");
    let name = ",\"enrolled_machine_pubkey\":"@;
    let (p, q) = (a.enrolled_machine_pubkey@, b.enrolled_machine_pubkey@);
    assert(keys_tail(a)[0] == (if p.len() == 0 {
        '}'
    } else {
        ','
    }));
    assert(keys_tail(b)[0] == (if q.len() == 0 {
        '}'
    } else {
        ','
    }));
    if p.len() > 0 {
        let f = |k: MachinePubkey| pubkey_text(k);
        let (u, v) = (p.map_values(f), q.map_values(f));
        assert(keys_tail(a) =~= name + (pubkeys_text(p) + "}"@));
        assert(keys_tail(b) =~= name + (pubkeys_text(q) + "}"@));
        json::lemma_literal(name, pubkeys_text(p) + "}"@, pubkeys_text(q) + "}"@);
        assert forall|i: int, j: int| 0 <= i < u.len() && 0 <= j < v.len() implies json::apart(
            #[trigger] u[i],
            #[trigger] v[j],
        ) by {
            lemma_pubkeys_apart(p[i], q[j]);
        }
        assert forall|i: int| 0 <= i < u.len() implies (#[trigger] u[i]).len() > 0 && u[i][0]
            != ']' by {
            lemma_pubkeys_apart(p[i], p[i]);
        }
        assert forall|i: int| 0 <= i < v.len() implies (#[trigger] v[i]).len() > 0 && v[i][0]
            != ']' by {
            lemma_pubkeys_apart(q[i], q[i]);
        }
        json::lemma_array_field(u, "}"@, v, "}"@);
        assert forall|i: int| 0 <= i < p.len() implies (#[trigger] p[i]).fingerprint@
            == q[i].fingerprint@ && p[i].sep_pub_b64@ == q[i].sep_pub_b64@ by {
            assert(u[i] == v[i]);
            lemma_pubkeys_apart(p[i], q[i]);
        }
    }
}

proof fn lemma_machines_tail(a: FleetManifest, b: FleetManifest)
    requires
        machines_tail(a) == machines_tail(b),
    ensures
        json::same_texts(a.enrolled_machine_id@, b.enrolled_machine_id@),
        same_pubkeys(a.enrolled_machine_pubkey@, b.enrolled_machine_pubkey@),
{
    reveal_strlit("");
    reveal_strlit("}");
    reveal_strlit(",\"enrolled_machine_pubkey\":");
    reveal_strlit(",\"enrolled_machine_id\":");
    let name = ",\"enrolled_machine_id\":"@;
    let (p, q) = (a.enrolled_machine_id@, b.enrolled_machine_id@);
    let (x, y) = (keys_tail(a), keys_tail(b));
    assert(x.len() <= 19 || x[19] == 'p');
    assert(y.len() <= 19 || y[19] == 'p');
    assert(name[19] == 'i');
    if p.len() == 0 {
        assert(machines_tail(a) =~= x);
    } else {
        assert(machines_tail(a) =~= name + (json::json_strings(p) + x));
        assert(machines_tail(a)[19] == 'i');
    }
    if q.len() == 0 {
        assert(machines_tail(b) =~= y);
    } else {
        assert(machines_tail(b) =~= name + (json::json_strings(q) + y));
        assert(machines_tail(b)[19] == 'i');
    }
    if p.len() > 0 {
        json::lemma_literal(name, json::json_strings(p) + x, json::json_strings(q) + y);
        json::lemma_strings_field(p, x, q, y);
    }
    lemma_keys_tail(a, b);
}

/// The end of a manifest's text from the first list on.
spec fn lists_tail(m: FleetManifest) -> Seq<char> {
    json::json_strings(m.enrolled_ek_sha384@) + machines_tail(m)
}

/// The end of a manifest's text from the time on.
spec fn time_tail(m: FleetManifest) -> Seq<char> {
    text::signed_decimal(m.issued_at as int) + (",\"enrolled_ek_sha384\":"@ + lists_tail(m))
}

/// The end of a manifest's text from the trust domain on.
spec fn domain_tail(m: FleetManifest) -> Seq<char> {
    json::json_string_text(m.trust_domain@) + (",\"issued_at\":"@ + time_tail(m))
}

/// The end of a manifest's text from the version on.
spec fn version_tail(m: FleetManifest) -> Seq<char> {
    text::decimal(m.version as nat) + (",\"trust_domain\":"@ + domain_tail(m))
}

proof fn lemma_manifest_layout(m: FleetManifest)
    ensures
        manifest_text(m) == "{\"version\":"@ + version_tail(m),
{
    let p1 = "{\"version\":"@;
    let p2 = text::decimal(m.version as nat);
    let p3 = ",\"trust_domain\":"@;
    let p4 = json::json_string_text(m.trust_domain@);
    let p5 = ",\"issued_at\":"@;
    let p6 = text::signed_decimal(m.issued_at as int);
    let p7 = ",\"enrolled_ek_sha384\":"@;
    let p8 = json::json_strings(m.enrolled_ek_sha384@);
    let p9 = if m.enrolled_machine_id@.len() == 0 {
        ""@
    } else {
        ",\"enrolled_machine_id\":"@ + json::json_strings(m.enrolled_machine_id@)
    };
    let p10 = if m.enrolled_machine_pubkey@.len() == 0 {
        ""@
    } else {
        ",\"enrolled_machine_pubkey\":"@ + pubkeys_text(m.enrolled_machine_pubkey@)
    };
    let p11 = "}"@;
    let s2 = p1 + p2;
    let s3 = s2 + p3;
    let s4 = s3 + p4;
    let s5 = s4 + p5;
    let s6 = s5 + p6;
    let s7 = s6 + p7;
    let s8 = s7 + p8;
    let s9 = s8 + p9;
    json::lemma_grouping(s9, p10, p11);
    let r10 = p10 + p11;
    json::lemma_grouping(s8, p9, r10);
    let r9 = p9 + r10;
    json::lemma_grouping(s7, p8, r9);
    let r8 = p8 + r9;
    json::lemma_grouping(s6, p7, r8);
    let r7 = p7 + r8;
    json::lemma_grouping(s5, p6, r7);
    let r6 = p6 + r7;
    json::lemma_grouping(s4, p5, r6);
    let r5 = p5 + r6;
    json::lemma_grouping(s3, p4, r5);
    let r4 = p4 + r5;
    json::lemma_grouping(s2, p3, r4);
    let r3 = p3 + r4;
    json::lemma_grouping(p1, p2, r3);
}

/// The signed form determines the manifest: manifests with one canonical form
/// say the same in every field and in every entry of the three lists.
pub proof fn law_canonical_form_binds(a: FleetManifest, b: FleetManifest)
    requires
        manifest_bytes(a) == manifest_bytes(b),
    ensures
        same_manifest(a, b),
{
    json::lemma_utf8_injective(manifest_text(a), manifest_text(b));
    reveal_strlit(",\"trust_domain\":");
    reveal_strlit(",\"enrolled_ek_sha384\":");
    let trust_domain = ",\"trust_domain\":"@;
    let issued_at = ",\"issued_at\":"@;
    let ek = ",\"enrolled_ek_sha384\":"@;
    lemma_manifest_layout(a);
    lemma_manifest_layout(b);
    json::lemma_literal("{\"version\":"@, version_tail(a), version_tail(b));
    json::lemma_number_field(
        a.version as nat,
        trust_domain + domain_tail(a),
        b.version as nat,
        trust_domain + domain_tail(b),
    );
    json::lemma_literal(trust_domain, domain_tail(a), domain_tail(b));
    json::lemma_string_field(
        a.trust_domain@,
        issued_at + time_tail(a),
        b.trust_domain@,
        issued_at + time_tail(b),
    );
    json::lemma_literal(issued_at, time_tail(a), time_tail(b));
    json::lemma_signed_field(
        a.issued_at,
        ek + lists_tail(a),
        b.issued_at,
        ek + lists_tail(b),
    );
    json::lemma_literal(ek, lists_tail(a), lists_tail(b));
    json::lemma_strings_field(
        a.enrolled_ek_sha384@,
        machines_tail(a),
        b.enrolled_ek_sha384@,
        machines_tail(b),
    );
    lemma_machines_tail(a, b);
}

/// A manifest that was altered anywhere does not verify under the signature of
/// the one before, unless one signature is accepted on two different messages:
/// if both verify, the publisher's key accepts the signature on both forms, and
/// these differ.
pub proof fn law_altered_manifest_refused(
    a: SignedFleetManifest,
    b: SignedFleetManifest,
    trust: Map<Seq<char>, PublicKeyModel>,
)
    requires
        a.signer_kid@ == b.signer_kid@,
        a.signature_b64@ == b.signature_b64@,
        !same_manifest(a.manifest, b.manifest),
        a.verdict(trust) is Ok,
        b.verdict(trust) is Ok,
    ensures
        trust.dom().contains(a.signer_kid@),
        envelope::opened(a.signature_b64@) is Ok,
        ({
            let key = trust[a.signer_kid@];
            let sig = envelope::opened(a.signature_b64@)->Ok_0;
            let (m, n) = (manifest_bytes(a.manifest), manifest_bytes(b.manifest));
            m != n && composite::accepts(key, fleet_context(), m, sig) && composite::accepts(
                key,
                fleet_context(),
                n,
                sig,
            )
        }),
{
    if manifest_bytes(a.manifest) == manifest_bytes(b.manifest) {
        law_canonical_form_binds(a.manifest, b.manifest);
    }
}

/// A reload never takes the fleet back: the version in force does not fall, and
/// a manifest that does not verify changes nothing.
pub proof fn law_fleet_reload_monotone(
    signed: SignedFleetManifest,
    trust: Map<Seq<char>, PublicKeyModel>,
    before: EnrolledModel,
    after: EnrolledModel,
    r: Result<FleetReloadOutcome, FleetError>,
)
    requires
        fleet_reloaded(signed, trust, before, after, r),
    ensures
        after.version >= before.version,
        r is Err || r->Ok_0 is UpToDate ==> after == before,
        signed.verdict(trust) is Err ==> after == before,
        before.enforced ==> after.enforced,
{
}

/// Without a manifest every host goes on; with one, exactly the hosts go on
/// that it enrols.
pub proof fn law_admission(e: EnrolledModel, m: FleetManifest, d: [u8; 48])
    ensures
        decision(no_manifest(), d) is NotEnforced,
        resolves(e, m) ==> (decision(e, d) is Enrolled <==> enrols(m, d)) && (decision(e, d)
            is Rejected <==> !enrols(m, d)),
{
}

/// Whether a text is a digest as lists hold it: 96 hexadecimal digits, with
/// white space around them or not.
pub open spec fn is_digest_text(h: Seq<char>) -> bool {
    let b = vstd::utf8::encode_utf8(text::trimmed(h));
    b.len() == 96 && encoding::is_hex(b)
}

/// Whether a text is a machine key as lists hold it: Base64 of at least one
/// byte, with white space around it or not.
pub open spec fn is_key_text(k: Seq<char>) -> bool {
    encoding::base64url_value(vstd::utf8::encode_utf8(text::trimmed(k))) matches Ok(b) && b.len()
        > 0
}

proof fn lemma_first_fault(list: Seq<String>, kind: Seq<char>, i: nat)
    ensures
        first_fault(list, kind, i) is None <==> forall|k: int|
            i <= k < list.len() ==> is_digest_text((#[trigger] list[k])@),
    decreases list.len() - i,
{
    if i < list.len() {
        lemma_first_fault(list, kind, i + 1);
        assert(digest_fault(list[i as int]@, kind, i) is None <==> is_digest_text(
            list[i as int]@,
        ));
    }
}

proof fn lemma_first_pubkey_fault(keys: Seq<MachinePubkey>, i: nat)
    ensures
        first_pubkey_fault(keys, i) is None <==> forall|k: int|
            i <= k < keys.len() ==> is_digest_text((#[trigger] keys[k]).fingerprint@)
                && is_key_text(keys[k].sep_pub_b64@),
    decreases keys.len() - i,
{
    if i < keys.len() {
        lemma_first_pubkey_fault(keys, i + 1);
        assert(pubkey_fault(keys[i as int], i) is None <==> is_digest_text(
            keys[i as int].fingerprint@,
        ) && is_key_text(keys[i as int].sep_pub_b64@));
    }
}

/// A manifest can be applied exactly if every entry of its three lists decodes:
/// one entry that does not spoils all of it.
pub proof fn law_manifest_decodes(m: FleetManifest)
    ensures
        manifest_fault(m) is None <==> {
            &&& forall|k: int|
                0 <= k < m.enrolled_ek_sha384@.len() ==> is_digest_text(
                    (#[trigger] m.enrolled_ek_sha384@[k])@,
                )
            &&& forall|k: int|
                0 <= k < m.enrolled_machine_id@.len() ==> is_digest_text(
                    (#[trigger] m.enrolled_machine_id@[k])@,
                )
            &&& forall|k: int|
                0 <= k < m.enrolled_machine_pubkey@.len() ==> is_digest_text(
                    (#[trigger] m.enrolled_machine_pubkey@[k]).fingerprint@,
                ) && is_key_text(m.enrolled_machine_pubkey@[k].sep_pub_b64@)
        },
{
    lemma_first_fault(m.enrolled_ek_sha384@, "ek"@, 0);
    lemma_first_fault(m.enrolled_machine_id@, "machine"@, 0);
    lemma_first_pubkey_fault(m.enrolled_machine_pubkey@, 0);
}

proof fn lemma_asserted_key(keys: Seq<MachinePubkey>, n: int, fp: [u8; 48])
    requires
        0 <= n <= keys.len(),
    ensures
        match asserted_key(keys, n, fp) {
            Some(b) => exists|k: int|
                0 <= k < n && names_digest(fp, (#[trigger] keys[k]).fingerprint@) && b == key_value(
                    keys[k],
                )->Ok_0 && forall|j: int|
                    k < j < n ==> !names_digest(fp, (#[trigger] keys[j]).fingerprint@),
            None => forall|k: int|
                0 <= k < n ==> !names_digest(fp, (#[trigger] keys[k]).fingerprint@),
        },
    decreases n,
{
    if n > 0 {
        lemma_asserted_key(keys, n - 1, fp);
        if names_digest(fp, keys[n - 1].fingerprint@) {
            assert(names_digest(fp, keys[n - 1].fingerprint@));
        } else if asserted_key(keys, n - 1, fp) is Some {
            let k = choose|k: int|
                0 <= k < n - 1 && names_digest(fp, (#[trigger] keys[k]).fingerprint@)
                    && asserted_key(keys, n - 1, fp)->0 == key_value(keys[k])->Ok_0 && forall|
                    j: int,
                |
                    k < j < n - 1 ==> !names_digest(fp, (#[trigger] keys[j]).fingerprint@);
            assert(names_digest(fp, keys[k].fingerprint@));
        }
    }
}

/// Every entry of every list counts: a host whose digest stands in one of the
/// three lists, in lowercase hexadecimal, is admitted under the manifest.
pub proof fn law_listed_host_admitted(e: EnrolledModel, m: FleetManifest, d: [u8; 48], k: int)
    requires
        resolves(e, m),
        ({
            let h = encoding::hex_text(d@);
            ||| 0 <= k < m.enrolled_ek_sha384@.len() && m.enrolled_ek_sha384@[k]@ == h
            ||| 0 <= k < m.enrolled_machine_id@.len() && m.enrolled_machine_id@[k]@ == h
            ||| 0 <= k < m.enrolled_machine_pubkey@.len()
                && m.enrolled_machine_pubkey@[k].fingerprint@ == h
        }),
    ensures
        decision(e, d) is Enrolled,
{
    let h = encoding::hex_text(d@);
    encoding::lemma_hex_roundtrip(d@);
    encoding::lemma_hex_untrimmed(d@);
    assert(names_digest(d, h));
    lemma_asserted_key(
        m.enrolled_machine_pubkey@,
        m.enrolled_machine_pubkey@.len() as int,
        d,
    );
    assert(enrols(m, d)) by {
        if 0 <= k < m.enrolled_ek_sha384@.len() && m.enrolled_ek_sha384@[k]@ == h {
            assert(names_digest(d, m.enrolled_ek_sha384@[k]@));
        } else if 0 <= k < m.enrolled_machine_id@.len() && m.enrolled_machine_id@[k]@ == h {
            assert(names_digest(d, m.enrolled_machine_id@[k]@));
        } else {
            assert(names_digest(d, m.enrolled_machine_pubkey@[k].fingerprint@));
        }
    }
    assert(e.hashes.contains(d));
}

/// A host that no entry of the three lists stands for is turned away.
pub proof fn law_unlisted_host_rejected(e: EnrolledModel, m: FleetManifest, d: [u8; 48])
    requires
        resolves(e, m),
        forall|k: int|
            0 <= k < m.enrolled_ek_sha384@.len() ==> encoding::hex_value(
                vstd::utf8::encode_utf8(text::trimmed((#[trigger] m.enrolled_ek_sha384@[k])@)),
            ) != d@,
        forall|k: int|
            0 <= k < m.enrolled_machine_id@.len() ==> encoding::hex_value(
                vstd::utf8::encode_utf8(text::trimmed((#[trigger] m.enrolled_machine_id@[k])@)),
            ) != d@,
        forall|k: int|
            0 <= k < m.enrolled_machine_pubkey@.len() ==> encoding::hex_value(
                vstd::utf8::encode_utf8(
                    text::trimmed((#[trigger] m.enrolled_machine_pubkey@[k]).fingerprint@),
                ),
            ) != d@,
    ensures
        decision(e, d) is Rejected,
{
    lemma_asserted_key(
        m.enrolled_machine_pubkey@,
        m.enrolled_machine_pubkey@.len() as int,
        d,
    );
    assert(!e.hashes.contains(d));
}

/// The key that an operator asserts for a fingerprint is in force: that of its
/// last entry.
pub proof fn law_asserted_key_in_force(e: EnrolledModel, m: FleetManifest, d: [u8; 48], k: int)
    requires
        resolves(e, m),
        0 <= k < m.enrolled_machine_pubkey@.len(),
        m.enrolled_machine_pubkey@[k].fingerprint@ == encoding::hex_text(d@),
        is_key_text(m.enrolled_machine_pubkey@[k].sep_pub_b64@),
        forall|j: int|
            k < j < m.enrolled_machine_pubkey@.len() ==> encoding::hex_value(
                vstd::utf8::encode_utf8(
                    text::trimmed((#[trigger] m.enrolled_machine_pubkey@[j]).fingerprint@),
                ),
            ) != d@,
    ensures
        e.prereg.dom().contains(d),
        encoding::base64url_value(
            vstd::utf8::encode_utf8(text::trimmed(m.enrolled_machine_pubkey@[k].sep_pub_b64@)),
        ) == Ok::<_, Seq<char>>(e.prereg[d]),
{
    let keys = m.enrolled_machine_pubkey@;
    encoding::lemma_hex_roundtrip(d@);
    encoding::lemma_hex_untrimmed(d@);
    assert(names_digest(d, keys[k].fingerprint@));
    lemma_asserted_key(keys, keys.len() as int, d);
    let i = choose|i: int|
        0 <= i < keys.len() && names_digest(d, (#[trigger] keys[i]).fingerprint@)
            && asserted_key(keys, keys.len() as int, d)->0 == key_value(keys[i])->Ok_0
            && forall|j: int|
            i < j < keys.len() ==> !names_digest(d, (#[trigger] keys[j]).fingerprint@);
    assert(i == k) by {
        if i < k {
            assert(!names_digest(d, keys[k].fingerprint@));
        }
        if k < i {
            assert(names_digest(d, keys[i].fingerprint@));
        }
    }
    assert(e.prereg.dom().contains(d));
}

/// A reload takes up every manifest that verifies, is newer, and decodes; and
/// one that verifies but is not newer is no error.
pub proof fn law_newer_manifest_applied(
    signed: SignedFleetManifest,
    trust: Map<Seq<char>, PublicKeyModel>,
    before: EnrolledModel,
    after: EnrolledModel,
    r: Result<FleetReloadOutcome, FleetError>,
)
    requires
        fleet_reloaded(signed, trust, before, after, r),
        signed.verdict(trust) is Ok,
    ensures
        signed.manifest.version > before.version && manifest_fault(signed.manifest) is None
            ==> resolves(after, signed.manifest) && after.enforced && after.version
            == signed.manifest.version && r is Ok,
        signed.manifest.version <= before.version ==> after == before && r is Ok,
{
}

} // verus!
