//! Minutes of a ceremony, which every participant signs.

use vstd::prelude::*;
use crate::ceremony::error::{CeremonyError, CeremonyFault};
use crate::crypto::composite;
use crate::crypto::composite::{
    CompositeError, CompositePublicKey, CompositeSecretKey, CompositeSignature, PublicKeyModel,
    SignatureModel,
};
use crate::primitives::json;
use crate::primitives::{encoding, text};
use vstd::string::StringExecFns;

verus! {

/// Context of signatures on minutes.
pub const MINUTES_CONTEXT: &'static str = "ferrogate-ceremony-minutes-v1";

/// Kinds of ceremony.
#[derive(Debug, Clone, Copy, PartialEq, Eq, Structural)]
pub enum CeremonyKind {
    /// A new root is made and cross-signed.
    Rotation,
    /// The root is split anew.
    ShareRefresh,
    /// The outgoing root's shares are destroyed.
    Destruction,
}

/// A participant.
#[derive(Debug, Clone, PartialEq, Eq)]
pub struct Participant {
    /// Name.
    pub name: String,
    /// Function.
    pub role: String,
    /// Key id.
    pub kid: String,
    /// Public key, in Base64.
    pub pubkey: String,
}

/// The digest of something that a ceremony produced.
#[derive(Debug, Clone, PartialEq, Eq)]
pub struct ArtefactDigest {
    /// What it is.
    pub label: String,
    /// Its digest, in hexadecimal.
    pub sha3_256: String,
}

/// Minutes of a ceremony.
#[derive(Debug, Clone, PartialEq, Eq)]
pub struct CeremonyMinutes {
    /// Version of the format.
    pub version: u32,
    /// The ceremony.
    pub ceremony_id: String,
    /// Its kind.
    pub kind: CeremonyKind,
    /// When it took place, Unix seconds.
    pub occurred_at: i64,
    /// Where it took place.
    pub location: String,
    /// Trust domain of the root.
    pub trust_domain: String,
    /// Key id of the outgoing root.
    pub old_root_kid: Option<String>,
    /// Key id of the incoming root.
    pub new_root_kid: Option<String>,
    /// How many shares are needed.
    pub threshold: usize,
    /// How many shares there are.
    pub total: usize,
    /// Who must sign.
    pub participants: Vec<Participant>,
    /// What was produced.
    pub artefacts: Vec<ArtefactDigest>,
    /// Notes.
    pub notes: String,
}

/// A participant's signature.
#[derive(Debug, Clone, PartialEq, Eq)]
pub struct ParticipantSignature {
    /// Key id.
    pub kid: String,
    /// The signature, in Base64.
    pub sig: String,
}

/// Minutes with signatures.
#[derive(Debug, Clone, PartialEq, Eq)]
pub struct SignedMinutes {
    /// The minutes.
    pub minutes: CeremonyMinutes,
    /// The signatures so far.
    pub signatures: Vec<ParticipantSignature>,
}

/// The name of a kind of ceremony.
pub open spec fn kind_text(kind: CeremonyKind) -> Seq<char> {
    match kind {
        CeremonyKind::Rotation => "\"rotation\""@,
        CeremonyKind::ShareRefresh => "\"share-refresh\""@,
        CeremonyKind::Destruction => "\"destruction\""@,
    }
}

/// The JSON text of a participant.
pub open spec fn participant_text(p: Participant) -> Seq<char> {
    "{\"name\":"@ + json::json_string_text(p.name@) + ",\"role\":"@ + json::json_string_text(
        p.role@,
    ) + ",\"kid\":"@ + json::json_string_text(p.kid@) + ",\"pubkey\":"@ + json::json_string_text(
        p.pubkey@,
    ) + "}"@
}

/// The JSON text of a digest.
pub open spec fn artefact_text(a: ArtefactDigest) -> Seq<char> {
    "{\"label\":"@ + json::json_string_text(a.label@) + ",\"sha3_256\":"@ + json::json_string_text(
        a.sha3_256@,
    ) + "}"@
}

/// A field of the JSON text that is left out where there is no value.
pub open spec fn optional_field(name: Seq<char>, value: Option<String>) -> Seq<char> {
    match value {
        Some(v) => name + json::json_string_text(v@),
        None => Seq::empty(),
    }
}

/// The JSON text of minutes, compact and with the fields in a fixed order.
pub open spec fn minutes_text(m: CeremonyMinutes) -> Seq<char> {
    "{\"version\":"@ + text::decimal(m.version as nat) + ",\"ceremony_id\":"@
        + json::json_string_text(m.ceremony_id@) + ",\"kind\":"@ + kind_text(m.kind)
        + ",\"occurred_at\":"@ + text::signed_decimal(m.occurred_at as int) + ",\"location\":"@
        + json::json_string_text(m.location@) + ",\"trust_domain\":"@ + json::json_string_text(
        m.trust_domain@,
    ) + optional_field(",\"old_root_kid\":"@, m.old_root_kid) + optional_field(
        ",\"new_root_kid\":"@,
        m.new_root_kid,
    ) + ",\"threshold\":"@ + text::decimal(m.threshold as nat) + ",\"total\":"@ + text::decimal(
        m.total as nat,
    ) + ",\"participants\":"@ + json::json_array(
        m.participants@.map_values(|p: Participant| participant_text(p)),
    ) + ",\"artefacts\":"@ + json::json_array(
        m.artefacts@.map_values(|a: ArtefactDigest| artefact_text(a)),
    ) + ",\"notes\":"@ + json::json_string_text(m.notes@) + "}"@
}

/// The bytes that participants sign.
pub open spec fn minutes_bytes(m: CeremonyMinutes) -> Seq<u8> {
    vstd::utf8::encode_utf8(minutes_text(m))
}

fn kind_name(kind: CeremonyKind) -> (r: &'static str)
    ensures
        r@ == kind_text(kind),
{
    match kind {
        CeremonyKind::Rotation => "\"rotation\"",
        CeremonyKind::ShareRefresh => "\"share-refresh\"",
        CeremonyKind::Destruction => "\"destruction\"",
    }
}

fn participant_json(p: &Participant) -> (r: String)
    ensures
        r@ == participant_text(*p),
{
    let mut s = text::joined("{\"name\":", json::json_string(p.name.as_str()).as_str());
    s.append(",\"role\":");
    s.append(json::json_string(p.role.as_str()).as_str());
    s.append(",\"kid\":");
    s.append(json::json_string(p.kid.as_str()).as_str());
    s.append(",\"pubkey\":");
    s.append(json::json_string(p.pubkey.as_str()).as_str());
    s.append("}");
    s
}

fn artefact_json(a: &ArtefactDigest) -> (r: String)
    ensures
        r@ == artefact_text(*a),
{
    let mut s = text::joined("{\"label\":", json::json_string(a.label.as_str()).as_str());
    s.append(",\"sha3_256\":");
    s.append(json::json_string(a.sha3_256.as_str()).as_str());
    s.append("}");
    s
}

fn participants_json(participants: &Vec<Participant>) -> (r: String)
    ensures
        r@ == json::json_array(participants@.map_values(|p: Participant| participant_text(p))),
{
    let mut items: Vec<String> = Vec::new();
    let mut i: usize = 0;
    while i < participants.len()
        invariant
            i <= participants@.len(),
            items@.len() == i,
            forall|j: int| 0 <= j < i ==> (#[trigger] items@[j])@ == participant_text(participants@[j]),
        decreases participants@.len() - i,
    {
        items.push(participant_json(&participants[i]));
        i += 1;
    }
    assert(items@.map_values(|s: String| s@) =~= participants@.map_values(
        |p: Participant| participant_text(p),
    ));
    json::array_text(&items)
}

fn artefacts_json(artefacts: &Vec<ArtefactDigest>) -> (r: String)
    ensures
        r@ == json::json_array(artefacts@.map_values(|a: ArtefactDigest| artefact_text(a))),
{
    let mut items: Vec<String> = Vec::new();
    let mut i: usize = 0;
    while i < artefacts.len()
        invariant
            i <= artefacts@.len(),
            items@.len() == i,
            forall|j: int| 0 <= j < i ==> (#[trigger] items@[j])@ == artefact_text(artefacts@[j]),
        decreases artefacts@.len() - i,
    {
        items.push(artefact_json(&artefacts[i]));
        i += 1;
    }
    assert(items@.map_values(|s: String| s@) =~= artefacts@.map_values(
        |a: ArtefactDigest| artefact_text(a),
    ));
    json::array_text(&items)
}

fn push_optional(out: &mut String, name: &str, value: &Option<String>)
    ensures
        final(out)@ == old(out)@ + optional_field(name@, *value),
{
    if let Some(v) = value {
        out.append(name);
        out.append(json::json_string(v.as_str()).as_str());
        assert(out@ =~= old(out)@ + optional_field(name@, *value));
    } else {
        assert(out@ =~= old(out)@ + optional_field(name@, *value));
    }
}

/// The position of the first participant with a key id, at or after `i`.
pub open spec fn participant_from(ps: Seq<Participant>, kid: Seq<char>, i: int) -> Option<int>
    decreases ps.len() - i,
{
    if i < 0 || i >= ps.len() {
        None
    } else if ps[i].kid@ == kid {
        Some(i)
    } else {
        participant_from(ps, kid, i + 1)
    }
}

/// The position of the first signature with a key id, at or after `i`.
pub open spec fn signature_from(ss: Seq<ParticipantSignature>, kid: Seq<char>, i: int) -> Option<int>
    decreases ss.len() - i,
{
    if i < 0 || i >= ss.len() {
        None
    } else if ss[i].kid@ == kid {
        Some(i)
    } else {
        signature_from(ss, kid, i + 1)
    }
}

impl CeremonyMinutes {
    /// The bytes that participants sign: the compact JSON text.
    pub fn signing_bytes(&self) -> (r: Vec<u8>)
        ensures
            r@ == minutes_bytes(*self),
    {
        let mut s = text::joined("{\"version\":", text::decimal_text(self.version as u64).as_str());
        s.append(",\"ceremony_id\":");
        s.append(json::json_string(self.ceremony_id.as_str()).as_str());
        s.append(",\"kind\":");
        s.append(kind_name(self.kind));
        s.append(",\"occurred_at\":");
        s.append(text::signed_decimal_text(self.occurred_at).as_str());
        s.append(",\"location\":");
        s.append(json::json_string(self.location.as_str()).as_str());
        s.append(",\"trust_domain\":");
        s.append(json::json_string(self.trust_domain.as_str()).as_str());
        push_optional(&mut s, ",\"old_root_kid\":", &self.old_root_kid);
        push_optional(&mut s, ",\"new_root_kid\":", &self.new_root_kid);
        s.append(",\"threshold\":");
        s.append(text::decimal_text(self.threshold as u64).as_str());
        s.append(",\"total\":");
        s.append(text::decimal_text(self.total as u64).as_str());
        s.append(",\"participants\":");
        s.append(participants_json(&self.participants).as_str());
        s.append(",\"artefacts\":");
        s.append(artefacts_json(&self.artefacts).as_str());
        s.append(",\"notes\":");
        s.append(json::json_string(self.notes.as_str()).as_str());
        s.append("}");
        assert(s@ == minutes_text(*self));
        vstd::slice::slice_to_vec(s.as_str().as_bytes())
    }

    /// The first participant with a key id.
    pub fn participant(&self, kid: &str) -> (r: Option<&Participant>)
        ensures
            match r {
                Some(p) => participant_from(self.participants@, kid@, 0) matches Some(i) && *p
                    == self.participants@[i],
                None => participant_from(self.participants@, kid@, 0) is None,
            },
    {
        let mut i: usize = 0;
        while i < self.participants.len()
            invariant
                i <= self.participants@.len(),
                participant_from(self.participants@, kid@, 0) == participant_from(
                    self.participants@,
                    kid@,
                    i as int,
                ),
            decreases self.participants@.len() - i,
        {
            if text::same_text(self.participants[i].kid.as_str(), kid) {
                return Some(&self.participants[i]);
            }
            i += 1;
        }
        None
    }
}

fn find_signature<'a>(ss: &'a Vec<ParticipantSignature>, kid: &str) -> (r: Option<
    &'a ParticipantSignature,
>)
    ensures
        match r {
            Some(s) => signature_from(ss@, kid@, 0) matches Some(i) && *s == ss@[i],
            None => signature_from(ss@, kid@, 0) is None,
        },
{
    let mut i: usize = 0;
    while i < ss.len()
        invariant
            i <= ss@.len(),
            signature_from(ss@, kid@, 0) == signature_from(ss@, kid@, i as int),
        decreases ss@.len() - i,
    {
        if text::same_text(ss[i].kid.as_str(), kid) {
            return Some(&ss[i]);
        }
        i += 1;
    }
    None
}

fn repeats(ss: &Vec<ParticipantSignature>, k: usize) -> (r: bool)
    requires
        k < ss@.len(),
    ensures
        r == (signature_from(ss@, ss@[k as int].kid@, 0) != Some(k as int)),
{
    let mut i: usize = 0;
    while i < k
        invariant
            i <= k < ss@.len(),
            signature_from(ss@, ss@[k as int].kid@, 0) == signature_from(
                ss@,
                ss@[k as int].kid@,
                i as int,
            ),
        decreases k - i,
    {
        if text::same_text(ss[i].kid.as_str(), ss[k].kid.as_str()) {
            return true;
        }
        i += 1;
    }
    false
}

/// The public key that a text holds, or why it holds none.
pub open spec fn public_key(t: Seq<char>) -> Result<PublicKeyModel, CeremonyFault> {
    match encoding::base64_value(vstd::utf8::encode_utf8(t)) {
        Err(e) => Err(CeremonyFault::Malformed { what: "participant public key"@, detail: e }),
        Ok(b) => match composite::key_from(b) {
            Err(e) => Err(
                CeremonyFault::Malformed {
                    what: "participant public key"@,
                    detail: "malformed encoded form: "@ + e,
                },
            ),
            Ok(k) => Ok(k),
        },
    }
}

fn decode_pub(field: &str) -> (r: Result<CompositePublicKey, CeremonyError>)
    ensures
        match r {
            Ok(k) => public_key(field@) == Ok::<_, CeremonyFault>(k@),
            Err(e) => public_key(field@) == Err::<PublicKeyModel, _>(e@),
        },
{
    let b = match encoding::base64_decode(field.as_bytes()) {
        Ok(b) => b,
        Err(detail) => return Err(
            CeremonyError::Malformed { what: "participant public key", detail },
        ),
    };
    match CompositePublicKey::from_concat_bytes(b.as_slice()) {
        Ok(k) => Ok(k),
        Err(e) => Err(
            CeremonyError::Malformed { what: "participant public key", detail: e.message() },
        ),
    }
}

/// The signature that a text holds, or why it holds none.
pub open spec fn signature_value(t: Seq<char>) -> Result<SignatureModel, CeremonyFault> {
    match encoding::base64_value(vstd::utf8::encode_utf8(t)) {
        Err(e) => Err(CeremonyFault::Malformed { what: "participant signature"@, detail: e }),
        Ok(b) => if b.len() != composite::COMPOSITE_SIG_LEN {
            Err(
                CeremonyFault::Malformed {
                    what: "participant signature"@,
                    detail: "malformed encoded form: "@ + composite::length_fault(
                        "composite signature"@,
                        composite::COMPOSITE_SIG_LEN as nat,
                        b.len(),
                    ),
                },
            )
        } else {
            Ok(composite::signature_from(b))
        },
    }
}

fn decode_sig(field: &str) -> (r: Result<CompositeSignature, CeremonyError>)
    ensures
        match r {
            Ok(s) => signature_value(field@) == Ok::<_, CeremonyFault>(s@),
            Err(e) => signature_value(field@) == Err::<SignatureModel, _>(e@),
        },
{
    let b = match encoding::base64_decode(field.as_bytes()) {
        Ok(b) => b,
        Err(detail) => return Err(
            CeremonyError::Malformed { what: "participant signature", detail },
        ),
    };
    match CompositeSignature::from_concat_bytes(b.as_slice()) {
        Ok(s) => Ok(s),
        Err(e) => Err(
            CeremonyError::Malformed { what: "participant signature", detail: e.message() },
        ),
    }
}

/// The context of signatures on minutes as bytes.
pub open spec fn minutes_context() -> Seq<u8> {
    vstd::utf8::encode_utf8(MINUTES_CONTEXT@)
}

/// What is wrong with a participant's signature, if anything is.
pub open spec fn participant_fault(
    p: Participant,
    signatures: Seq<ParticipantSignature>,
    msg: Seq<u8>,
) -> Option<CeremonyFault> {
    match signature_from(signatures, p.kid@, 0) {
        None => Some(
            CeremonyFault::Signature("missing signature from "@ + text::debug_text(p.kid@)),
        ),
        Some(i) => match public_key(p.pubkey@) {
            Err(f) => Some(f),
            Ok(key) => match signature_value(signatures[i].sig@) {
                Err(f) => Some(f),
                Ok(sig) => if composite::accepts(key, minutes_context(), msg, sig) {
                    None
                } else {
                    Some(
                        CeremonyFault::Signature(
                            text::debug_text(p.kid@) + ": "@ + composite::refusal(
                                key,
                                minutes_context(),
                                msg,
                                sig,
                            ).text(),
                        ),
                    )
                },
            },
        },
    }
}

/// What is wrong with the signatures of the participants from `i` on, if
/// anything is.
pub open spec fn participants_fault(m: SignedMinutes, i: int) -> Option<CeremonyFault>
    decreases m.minutes.participants@.len() - i,
{
    if i < 0 || i >= m.minutes.participants@.len() {
        None
    } else {
        match participant_fault(
            m.minutes.participants@[i],
            m.signatures@,
            minutes_bytes(m.minutes),
        ) {
            Some(f) => Some(f),
            None => participants_fault(m, i + 1),
        }
    }
}

/// The first entry from `i` on that is no participant's, or not the first of
/// its participant.
pub open spec fn entries_fault(m: SignedMinutes, i: int) -> Option<CeremonyFault>
    decreases m.signatures@.len() - i,
{
    if i < 0 || i >= m.signatures@.len() {
        None
    } else if participant_from(m.minutes.participants@, m.signatures@[i].kid@, 0) is None {
        Some(
            CeremonyFault::Signature(
                "signature from unlisted participant "@ + text::debug_text(m.signatures@[i].kid@),
            ),
        )
    } else if signature_from(m.signatures@, m.signatures@[i].kid@, 0) != Some(i) {
        Some(
            CeremonyFault::Signature(
                "more than one signature from "@ + text::debug_text(m.signatures@[i].kid@),
            ),
        )
    } else {
        entries_fault(m, i + 1)
    }
}

/// What is wrong with signed minutes, if anything is: every participant must
/// have signed once, and nobody else.
pub open spec fn minutes_fault(m: SignedMinutes) -> Option<CeremonyFault> {
    match participants_fault(m, 0) {
        Some(f) => Some(f),
        None => entries_fault(m, 0),
    }
}

/// How many of the first `n` participants have signed.
pub open spec fn signed_among(m: SignedMinutes, n: int) -> nat
    decreases n,
{
    if n <= 0 {
        0
    } else {
        signed_among(m, n - 1) + if signature_from(
            m.signatures@,
            m.minutes.participants@[n - 1].kid@,
            0,
        ) is Some {
            1nat
        } else {
            0nat
        }
    }
}

/// Whether signing under a key id is refused before a signature is made, and
/// why.
pub open spec fn signing_fault(m: SignedMinutes, kid: Seq<char>) -> Option<CeremonyFault> {
    match participant_from(m.minutes.participants@, kid, 0) {
        None => Some(
            CeremonyFault::Malformed {
                what: "minutes signature"@,
                detail: text::debug_text(kid) + " is not a listed participant"@,
            },
        ),
        Some(i) => if signature_from(m.signatures@, kid, 0) is Some {
            Some(
                CeremonyFault::Malformed {
                    what: "minutes signature"@,
                    detail: text::debug_text(kid) + " has already signed"@,
                },
            )
        } else {
            match public_key(m.minutes.participants@[i].pubkey@) {
                Err(f) => Some(f),
                Ok(_) => None,
            }
        },
    }
}

/// The key that a participant's signature must verify under.
pub open spec fn recorded_key(m: SignedMinutes, kid: Seq<char>) -> PublicKeyModel {
    public_key(
        m.minutes.participants@[participant_from(m.minutes.participants@, kid, 0)->0].pubkey@,
    )->Ok_0
}

/// What is said where a signature does not verify under the recorded key.
pub open spec fn wrong_key_fault(kid: Seq<char>) -> CeremonyFault {
    CeremonyFault::Malformed {
        what: "minutes signature"@,
        detail: "key does not match recorded public key for "@ + text::debug_text(kid),
    }
}

/// Whether a result, and minutes before and after, are those of taking what
/// signing gave a participant.
pub open spec fn takes(
    before: SignedMinutes,
    after: SignedMinutes,
    kid: Seq<char>,
    made: Result<CompositeSignature, CompositeError>,
    r: Result<(), CeremonyError>,
) -> bool {
    let refused = match (signing_fault(before, kid), made) {
        (Some(f), _) => Some(f),
        (None, Err(e)) => Some(CeremonyFault::Signature(e.text())),
        (None, Ok(sig)) => if composite::accepts(
            recorded_key(before, kid),
            minutes_context(),
            minutes_bytes(before.minutes),
            sig@,
        ) {
            None
        } else {
            Some(wrong_key_fault(kid))
        },
    };
    match refused {
        Some(f) => r matches Err(e) && e@ == f && after == before,
        None => {
            &&& r is Ok
            &&& after.minutes == before.minutes
            &&& signs_as(before.signatures@, after.signatures@, kid, made->Ok_0@)
        },
    }
}

impl SignedMinutes {
    /// Minutes without signatures.
    pub fn new(minutes: CeremonyMinutes) -> (r: Self)
        ensures
            r.minutes == minutes,
            r.signatures@.len() == 0,
    {
        SignedMinutes { minutes, signatures: Vec::new() }
    }

    /// The key that the minutes record for a participant who may sign, or why
    /// they may not.
    fn signer_key(&self, participant_kid: &str) -> (r: Result<CompositePublicKey, CeremonyError>)
        ensures
            match r {
                Ok(k) => signing_fault(*self, participant_kid@) is None && k@ == recorded_key(
                    *self,
                    participant_kid@,
                ),
                Err(e) => signing_fault(*self, participant_kid@) == Some(e@),
            },
    {
        match self.minutes.participant(participant_kid) {
            None => {
                let mut m = text::quoted(participant_kid);
                m.append(" is not a listed participant");
                Err(CeremonyError::Malformed { what: "minutes signature", detail: m })
            },
            Some(p) => {
                if find_signature(&self.signatures, participant_kid).is_some() {
                    let mut m = text::quoted(participant_kid);
                    m.append(" has already signed");
                    return Err(CeremonyError::Malformed { what: "minutes signature", detail: m });
                }
                decode_pub(p.pubkey.as_str())
            },
        }
    }

    /// Take what signing the minutes gave a participant. They must be listed
    /// and not have signed before, and the signature must verify under the key
    /// that the minutes record; whatever is refused changes nothing.
    pub fn take_signature(
        &mut self,
        participant_kid: &str,
        made: Result<CompositeSignature, CompositeError>,
    ) -> (r: Result<(), CeremonyError>)
        ensures
            takes(*old(self), *final(self), participant_kid@, made, r),
    {
        let recorded = self.signer_key(participant_kid)?;
        let msg = self.minutes.signing_bytes();
        let sig = match made {
            Ok(s) => s,
            Err(e) => return Err(CeremonyError::Signature(e.message())),
        };
        if recorded.verify(MINUTES_CONTEXT.as_bytes(), msg.as_slice(), &sig).is_err() {
            let q = text::quoted(participant_kid);
            return Err(
                CeremonyError::Malformed {
                    what: "minutes signature",
                    detail: text::joined("key does not match recorded public key for ", q.as_str()),
                },
            );
        }
        let entry = ParticipantSignature {
            kid: participant_kid.to_owned(),
            sig: encoding::base64_encode(sig.to_concat_bytes().as_slice()),
        };
        self.signatures.push(entry);
        assert(self.signatures@.drop_last() =~= old(self).signatures@);
        Ok(())
    }

    /// Sign as a participant, who must not have signed before, and with the
    /// key that the minutes record.
    pub fn sign(&mut self, participant_kid: &str, sk: &CompositeSecretKey) -> (r: Result<
        (),
        CeremonyError,
    >)
        ensures
            match signing_fault(*old(self), participant_kid@) {
                Some(f) => {
                    &&& r matches Err(e) && e@ == f
                    &&& *final(self) == *old(self)
                },
                None => exists|made: Result<CompositeSignature, CompositeError>| #[trigger]
                    takes(*old(self), *final(self), participant_kid@, made, r) && match made {
                        Ok(sig) => composite::made_by(
                            sk@,
                            minutes_context(),
                            minutes_bytes(old(self).minutes),
                            sig@,
                        ),
                        Err(e) => composite::sign_failed(
                            sk@,
                            minutes_context(),
                            minutes_bytes(old(self).minutes),
                            e,
                        ),
                    },
            },
    {
        if let Err(e) = self.signer_key(participant_kid) {
            return Err(e);
        }
        let msg = self.minutes.signing_bytes();
        let made = sk.sign(MINUTES_CONTEXT.as_bytes(), msg.as_slice());
        let ghost given = made;
        let r = self.take_signature(participant_kid, made);
        assert(takes(*old(self), *self, participant_kid@, given, r));
        r
    }

    /// Check that every participant has signed exactly once, and nobody else.
    pub fn verify_all(&self) -> (r: Result<(), CeremonyError>)
        ensures
            match r {
                Ok(_) => minutes_fault(*self) is None,
                Err(e) => minutes_fault(*self) == Some(e@),
            },
    {
        let msg = self.minutes.signing_bytes();
        let mut i: usize = 0;
        while i < self.minutes.participants.len()
            invariant
                i <= self.minutes.participants@.len(),
                msg@ == minutes_bytes(self.minutes),
                participants_fault(*self, 0) == participants_fault(*self, i as int),
            decreases self.minutes.participants@.len() - i,
        {
            let p = &self.minutes.participants[i];
            let entry = match find_signature(&self.signatures, p.kid.as_str()) {
                Some(s) => s,
                None => {
                    let q = text::quoted(p.kid.as_str());
                    return Err(
                        CeremonyError::Signature(
                            text::joined("missing signature from ", q.as_str()),
                        ),
                    );
                },
            };
            let pk = decode_pub(p.pubkey.as_str())?;
            let sig = decode_sig(entry.sig.as_str())?;
            if let Err(e) = pk.verify(MINUTES_CONTEXT.as_bytes(), msg.as_slice(), &sig) {
                let mut m = text::quoted(p.kid.as_str());
                m.append(": ");
                m.append(e.message().as_str());
                return Err(CeremonyError::Signature(m));
            }
            i += 1;
        }
        let mut k: usize = 0;
        while k < self.signatures.len()
            invariant
                k <= self.signatures@.len(),
                participants_fault(*self, 0) is None,
                entries_fault(*self, 0) == entries_fault(*self, k as int),
            decreases self.signatures@.len() - k,
        {
            if self.minutes.participant(self.signatures[k].kid.as_str()).is_none() {
                let q = text::quoted(self.signatures[k].kid.as_str());
                return Err(
                    CeremonyError::Signature(
                        text::joined("signature from unlisted participant ", q.as_str()),
                    ),
                );
            }
            if repeats(&self.signatures, k) {
                let q = text::quoted(self.signatures[k].kid.as_str());
                return Err(
                    CeremonyError::Signature(
                        text::joined("more than one signature from ", q.as_str()),
                    ),
                );
            }
            k += 1;
        }
        Ok(())
    }

    /// How many participants have signed.
    pub fn signed_count(&self) -> (r: usize)
        ensures
            r == signed_among(*self, self.minutes.participants@.len() as int),
    {
        let mut n: usize = 0;
        let mut i: usize = 0;
        while i < self.minutes.participants.len()
            invariant
                i <= self.minutes.participants@.len(),
                n <= i,
                n == signed_among(*self, i as int),
            decreases self.minutes.participants@.len() - i,
        {
            if find_signature(
                &self.signatures,
                self.minutes.participants[i].kid.as_str(),
            ).is_some() {
                n += 1;
            }
            i += 1;
        }
        n
    }
}

/// Whether signatures are others with one more, under a key id.
pub open spec fn signs_as(
    before: Seq<ParticipantSignature>,
    after: Seq<ParticipantSignature>,
    kid: Seq<char>,
    sig: SignatureModel,
) -> bool {
    &&& after.len() == before.len() + 1
    &&& after.drop_last() == before
    &&& after.last().kid@ == kid
    &&& after.last().sig@ == encoding::base64_text(composite::signature_bytes(sig))
    &&& encoding::base64_value(vstd::utf8::encode_utf8(after.last().sig@)) == Ok::<_, Seq<char>>(
        composite::signature_bytes(sig),
    )
}

proof fn lemma_signature_from_found(ss: Seq<ParticipantSignature>, kid: Seq<char>, i: int)
    requires
        0 <= i <= ss.len(),
    ensures
        match signature_from(ss, kid, i) {
            Some(k) => i <= k < ss.len() && ss[k].kid@ == kid,
            None => forall|k: int| i <= k < ss.len() ==> (#[trigger] ss[k]).kid@ != kid,
        },
    decreases ss.len() - i,
{
    if i < ss.len() && ss[i].kid@ != kid {
        lemma_signature_from_found(ss, kid, i + 1);
    }
}

proof fn lemma_participants_fault(m: SignedMinutes, from: int, i: int)
    requires
        0 <= from <= i < m.minutes.participants@.len(),
        participants_fault(m, from) is None,
    ensures
        participant_fault(
            m.minutes.participants@[i],
            m.signatures@,
            minutes_bytes(m.minutes),
        ) is None,
    decreases i - from,
{
    if from < i {
        lemma_participants_fault(m, from + 1, i);
    }
}

proof fn lemma_all_signed(m: SignedMinutes, n: int)
    requires
        0 <= n <= m.minutes.participants@.len(),
        participants_fault(m, 0) is None,
    ensures
        signed_among(m, n) == n,
    decreases n,
{
    if n > 0 {
        lemma_all_signed(m, n - 1);
        lemma_participants_fault(m, 0, n - 1);
    }
}

proof fn lemma_entries_fault(m: SignedMinutes, from: int, k: int)
    requires
        0 <= from <= k < m.signatures@.len(),
        entries_fault(m, from) is None,
    ensures
        participant_from(m.minutes.participants@, m.signatures@[k].kid@, 0) is Some,
        signature_from(m.signatures@, m.signatures@[k].kid@, 0) == Some(k),
    decreases k - from,
{
    if from < k {
        lemma_entries_fault(m, from + 1, k);
    }
}

/// In minutes that pass no two signatures are of one participant, and none is
/// of anybody else.
pub proof fn law_one_signature_each(m: SignedMinutes, j: int, k: int)
    requires
        minutes_fault(m) is None,
        0 <= j < m.signatures@.len(),
        0 <= k < m.signatures@.len(),
    ensures
        m.signatures@[j].kid@ == m.signatures@[k].kid@ ==> j == k,
        exists|i: int|
            0 <= i < m.minutes.participants@.len() && (#[trigger] m.minutes.participants@[i]).kid@
                == m.signatures@[k].kid@,
{
    lemma_entries_fault(m, 0, j);
    lemma_entries_fault(m, 0, k);
    lemma_participant_from_found(m.minutes.participants@, m.signatures@[k].kid@, 0);
    let i = participant_from(m.minutes.participants@, m.signatures@[k].kid@, 0)->0;
    assert(m.minutes.participants@[i].kid@ == m.signatures@[k].kid@);
}

/// Minutes that pass carry a signature of every participant, which verifies
/// under the recorded key and covers the minutes as they are; and the count of
/// those who signed is that of the participants.
pub proof fn law_minutes_signed_by_all(m: SignedMinutes, i: int)
    requires
        minutes_fault(m) is None,
        0 <= i < m.minutes.participants@.len(),
    ensures
        exists|k: int|
            0 <= k < m.signatures@.len() && (#[trigger] m.signatures@[k]).kid@
                == m.minutes.participants@[i].kid@ && (signature_value(
                m.signatures@[k].sig@,
            ) matches Ok(sig) && (public_key(m.minutes.participants@[i].pubkey@) matches Ok(key)
                && composite::accepts(key, minutes_context(), minutes_bytes(m.minutes), sig))),
        signed_among(m, m.minutes.participants@.len() as int) == m.minutes.participants@.len(),
{
    lemma_participants_fault(m, 0, i);
    lemma_all_signed(m, m.minutes.participants@.len() as int);
    let p = m.minutes.participants@[i];
    lemma_signature_from_found(m.signatures@, p.kid@, 0);
    let k = signature_from(m.signatures@, p.kid@, 0)->0;
    assert(m.signatures@[k].kid@ == p.kid@);
}

/// Nobody can sign twice: after a signature under a key id was taken, signing
/// under it is refused.
pub proof fn law_no_double_signing(
    before: SignedMinutes,
    after: SignedMinutes,
    kid: Seq<char>,
    sig: SignatureModel,
)
    requires
        after.minutes == before.minutes,
        signs_as(before.signatures@, after.signatures@, kid, sig),
    ensures
        signing_fault(after, kid) is Some,
{
    lemma_signature_from_found(after.signatures@, kid, 0);
    assert(after.signatures@[after.signatures@.len() - 1].kid@ == kid);
}

/// A signature that was taken verifies, whatever participants sign after it.
pub proof fn law_taken_signature_verifies(
    before: SignedMinutes,
    after: SignedMinutes,
    kid: Seq<char>,
    sig: SignatureModel,
)
    requires
        signing_fault(before, kid) is None,
        after.minutes == before.minutes,
        signs_as(before.signatures@, after.signatures@, kid, sig),
        composite::accepts(
            recorded_key(before, kid),
            minutes_context(),
            minutes_bytes(before.minutes),
            sig,
        ),
        sig.classical.len() == composite::ED25519_SIG_LEN,
        sig.pqc.len() == composite::MLDSA65_SIG_LEN,
    ensures
        ({
            let i = participant_from(before.minutes.participants@, kid, 0)->0;
            participant_fault(
                after.minutes.participants@[i],
                after.signatures@,
                minutes_bytes(after.minutes),
            ) is None
        }),
{
    composite::law_concat_roundtrip(sig);
    let n = before.signatures@.len() as int;
    lemma_signature_from_found(before.signatures@, kid, 0);
    lemma_signature_from_found(after.signatures@, kid, 0);
    let k = signature_from(after.signatures@, kid, 0)->0;
    assert(after.signatures@[n].kid@ == kid);
    assert(k == n) by {
        if k < n {
            assert(after.signatures@.drop_last()[k] == after.signatures@[k]);
            assert(before.signatures@[k].kid@ == kid);
        }
    }
    let i = participant_from(before.minutes.participants@, kid, 0)->0;
    lemma_participant_from_found(before.minutes.participants@, kid, 0);
    assert(before.minutes.participants@[i].kid@ == kid);
}

proof fn lemma_participant_from_found(ps: Seq<Participant>, kid: Seq<char>, i: int)
    requires
        0 <= i <= ps.len(),
    ensures
        match participant_from(ps, kid, i) {
            Some(k) => i <= k < ps.len() && ps[k].kid@ == kid,
            None => true,
        },
    decreases ps.len() - i,
{
    if i < ps.len() && ps[i].kid@ != kid {
        lemma_participant_from_found(ps, kid, i + 1);
    }
}

/// Whether two participants are the same.
pub open spec fn same_participant(a: Participant, b: Participant) -> bool {
    &&& a.name@ == b.name@
    &&& a.role@ == b.role@
    &&& a.kid@ == b.kid@
    &&& a.pubkey@ == b.pubkey@
}

/// Whether two digests are the same.
pub open spec fn same_artefact(a: ArtefactDigest, b: ArtefactDigest) -> bool {
    &&& a.label@ == b.label@
    &&& a.sha3_256@ == b.sha3_256@
}

/// Whether two minutes say the same, field by field.
pub open spec fn same_minutes(a: CeremonyMinutes, b: CeremonyMinutes) -> bool {
    &&& a.version == b.version
    &&& a.ceremony_id@ == b.ceremony_id@
    &&& a.kind == b.kind
    &&& a.occurred_at == b.occurred_at
    &&& a.location@ == b.location@
    &&& a.trust_domain@ == b.trust_domain@
    &&& text::option_view(a.old_root_kid) == text::option_view(b.old_root_kid)
    &&& text::option_view(a.new_root_kid) == text::option_view(b.new_root_kid)
    &&& a.threshold == b.threshold
    &&& a.total == b.total
    &&& a.participants@.len() == b.participants@.len()
    &&& forall|i: int|
        0 <= i < a.participants@.len() ==> same_participant(
            #[trigger] a.participants@[i],
            b.participants@[i],
        )
    &&& a.artefacts@.len() == b.artefacts@.len()
    &&& forall|i: int|
        0 <= i < a.artefacts@.len() ==> same_artefact(#[trigger] a.artefacts@[i], b.artefacts@[i])
    &&& a.notes@ == b.notes@
}

proof fn lemma_participant_apart(a: Participant, b: Participant)
    ensures
        json::apart(participant_text(a), participant_text(b)),
        participant_text(a) == participant_text(b) ==> same_participant(a, b),
        participant_text(a).len() > 0,
        participant_text(a)[0] == '{',
{
    reveal_strlit("{\"name\":");
    let l0 = "{\"name\":"@;
    let l1 = ",\"role\":"@;
    let l2 = ",\"kid\":"@;
    let l3 = ",\"pubkey\":"@;
    let end = "}"@;
    let a3 = json::json_string_text(a.pubkey@) + end;
    let a2 = json::json_string_text(a.kid@) + (l3 + a3);
    let a1 = json::json_string_text(a.role@) + (l2 + a2);
    let a0 = json::json_string_text(a.name@) + (l1 + a1);
    let b3 = json::json_string_text(b.pubkey@) + end;
    let b2 = json::json_string_text(b.kid@) + (l3 + b3);
    let b1 = json::json_string_text(b.role@) + (l2 + b2);
    let b0 = json::json_string_text(b.name@) + (l1 + b1);
    assert(participant_text(a) =~= l0 + a0);
    assert(participant_text(b) =~= l0 + b0);
    json::lemma_strings_apart(a.name@, b.name@);
    json::lemma_strings_apart(a.role@, b.role@);
    json::lemma_strings_apart(a.kid@, b.kid@);
    json::lemma_strings_apart(a.pubkey@, b.pubkey@);
    json::lemma_apart_fields(
        json::json_string_text(a.pubkey@),
        end,
        json::json_string_text(b.pubkey@),
        end,
    );
    json::lemma_apart_fields(l3, a3, l3, b3);
    json::lemma_apart_fields(
        json::json_string_text(a.kid@),
        l3 + a3,
        json::json_string_text(b.kid@),
        l3 + b3,
    );
    json::lemma_apart_fields(l2, a2, l2, b2);
    json::lemma_apart_fields(
        json::json_string_text(a.role@),
        l2 + a2,
        json::json_string_text(b.role@),
        l2 + b2,
    );
    json::lemma_apart_fields(l1, a1, l1, b1);
    json::lemma_apart_fields(
        json::json_string_text(a.name@),
        l1 + a1,
        json::json_string_text(b.name@),
        l1 + b1,
    );
    json::lemma_apart_fields(l0, a0, l0, b0);
}

proof fn lemma_artefact_apart(a: ArtefactDigest, b: ArtefactDigest)
    ensures
        json::apart(artefact_text(a), artefact_text(b)),
        artefact_text(a) == artefact_text(b) ==> same_artefact(a, b),
        artefact_text(a).len() > 0,
        artefact_text(a)[0] == '{',
{
    reveal_strlit("{\"label\":");
    let l0 = "{\"label\":"@;
    let l1 = ",\"sha3_256\":"@;
    let end = "}"@;
    let a1 = json::json_string_text(a.sha3_256@) + end;
    let a0 = json::json_string_text(a.label@) + (l1 + a1);
    let b1 = json::json_string_text(b.sha3_256@) + end;
    let b0 = json::json_string_text(b.label@) + (l1 + b1);
    assert(artefact_text(a) =~= l0 + a0);
    assert(artefact_text(b) =~= l0 + b0);
    json::lemma_strings_apart(a.label@, b.label@);
    json::lemma_strings_apart(a.sha3_256@, b.sha3_256@);
    json::lemma_apart_fields(
        json::json_string_text(a.sha3_256@),
        end,
        json::json_string_text(b.sha3_256@),
        end,
    );
    json::lemma_apart_fields(l1, a1, l1, b1);
    json::lemma_apart_fields(
        json::json_string_text(a.label@),
        l1 + a1,
        json::json_string_text(b.label@),
        l1 + b1,
    );
    json::lemma_apart_fields(l0, a0, l0, b0);
}

proof fn lemma_participants_field(p: Seq<Participant>, x: Seq<char>, q: Seq<Participant>, y: Seq<char>)
    requires
        json::json_array(p.map_values(|e: Participant| participant_text(e))) + x == json::json_array(
            q.map_values(|e: Participant| participant_text(e)),
        ) + y,
    ensures
        p.len() == q.len(),
        forall|i: int| 0 <= i < p.len() ==> same_participant(#[trigger] p[i], q[i]),
        x == y,
{
    let f = |e: Participant| participant_text(e);
    let (u, v) = (p.map_values(f), q.map_values(f));
    assert forall|i: int, j: int| 0 <= i < u.len() && 0 <= j < v.len() implies json::apart(
        #[trigger] u[i],
        #[trigger] v[j],
    ) by {
        lemma_participant_apart(p[i], q[j]);
    }
    assert forall|i: int| 0 <= i < u.len() implies (#[trigger] u[i]).len() > 0 && u[i][0]
        != ']' by {
        lemma_participant_apart(p[i], p[i]);
    }
    assert forall|i: int| 0 <= i < v.len() implies (#[trigger] v[i]).len() > 0 && v[i][0]
        != ']' by {
        lemma_participant_apart(q[i], q[i]);
    }
    json::lemma_array_field(u, x, v, y);
    assert forall|i: int| 0 <= i < p.len() implies same_participant(#[trigger] p[i], q[i]) by {
        assert(u[i] == v[i]);
        lemma_participant_apart(p[i], q[i]);
    }
}

proof fn lemma_artefacts_field(p: Seq<ArtefactDigest>, x: Seq<char>, q: Seq<ArtefactDigest>, y: Seq<char>)
    requires
        json::json_array(p.map_values(|e: ArtefactDigest| artefact_text(e))) + x == json::json_array(
            q.map_values(|e: ArtefactDigest| artefact_text(e)),
        ) + y,
    ensures
        p.len() == q.len(),
        forall|i: int| 0 <= i < p.len() ==> same_artefact(#[trigger] p[i], q[i]),
        x == y,
{
    let f = |e: ArtefactDigest| artefact_text(e);
    let (u, v) = (p.map_values(f), q.map_values(f));
    assert forall|i: int, j: int| 0 <= i < u.len() && 0 <= j < v.len() implies json::apart(
        #[trigger] u[i],
        #[trigger] v[j],
    ) by {
        lemma_artefact_apart(p[i], q[j]);
    }
    assert forall|i: int| 0 <= i < u.len() implies (#[trigger] u[i]).len() > 0 && u[i][0]
        != ']' by {
        lemma_artefact_apart(p[i], p[i]);
    }
    assert forall|i: int| 0 <= i < v.len() implies (#[trigger] v[i]).len() > 0 && v[i][0]
        != ']' by {
        lemma_artefact_apart(q[i], q[i]);
    }
    json::lemma_array_field(u, x, v, y);
    assert forall|i: int| 0 <= i < p.len() implies same_artefact(#[trigger] p[i], q[i]) by {
        assert(u[i] == v[i]);
        lemma_artefact_apart(p[i], q[i]);
    }
}

proof fn lemma_kinds_apart(a: CeremonyKind, b: CeremonyKind)
    ensures
        json::apart(kind_text(a), kind_text(b)),
        kind_text(a) == kind_text(b) ==> a == b,
{
    reveal_strlit("\"rotation\"");
    reveal_strlit("\"share-refresh\"");
    reveal_strlit("\"destruction\"");
    if a != b {
        assert(kind_text(a)[1] != kind_text(b)[1]);
    }
}

proof fn lemma_optional_field(
    name: Seq<char>,
    a: Option<String>,
    x: Seq<char>,
    b: Option<String>,
    y: Seq<char>,
)
    requires
        optional_field(name, a) + x == optional_field(name, b) + y,
        name.len() > 2,
        x.len() > 2 && x[2] != name[2],
        y.len() > 2 && y[2] != name[2],
    ensures
        text::option_view(a) == text::option_view(b),
        x == y,
{
    let (u, v) = (optional_field(name, a) + x, optional_field(name, b) + y);
    match a {
        Some(s) => {
            assert(u =~= name + (json::json_string_text(s@) + x));
            assert(u[2] == name[2]);
        },
        None => {
            assert(u =~= x);
        },
    }
    match b {
        Some(s) => {
            assert(v =~= name + (json::json_string_text(s@) + y));
            assert(v[2] == name[2]);
        },
        None => {
            assert(v =~= y);
        },
    }
    if let (Some(s), Some(t)) = (a, b) {
        json::lemma_literal(
            name,
            json::json_string_text(s@) + x,
            json::json_string_text(t@) + y,
        );
        json::lemma_string_field(s@, x, t@, y);
    }
}

/// The end of the text from the notes on.
spec fn notes_tail(m: CeremonyMinutes) -> Seq<char> {
    json::json_string_text(m.notes@) + "}"@
}

/// The end of the text from the artefacts on.
spec fn artefacts_tail(m: CeremonyMinutes) -> Seq<char> {
    json::json_array(
        m.artefacts@.map_values(|a: ArtefactDigest| artefact_text(a)),
    ) + (",\"notes\":"@ + notes_tail(m))
}

/// The end of the text from the participants on.
spec fn participants_tail(m: CeremonyMinutes) -> Seq<char> {
    json::json_array(
        m.participants@.map_values(|p: Participant| participant_text(p)),
    ) + (",\"artefacts\":"@ + artefacts_tail(m))
}

/// The end of the text from the number of shares on.
spec fn total_tail(m: CeremonyMinutes) -> Seq<char> {
    text::decimal(m.total as nat) + (",\"participants\":"@ + participants_tail(m))
}

/// The end of the text from the threshold on.
spec fn threshold_tail(m: CeremonyMinutes) -> Seq<char> {
    text::decimal(m.threshold as nat) + (",\"total\":"@ + total_tail(m))
}

/// The end of the text from the incoming root on.
spec fn incoming_tail(m: CeremonyMinutes) -> Seq<char> {
    optional_field(",\"new_root_kid\":"@, m.new_root_kid) + (",\"threshold\":"@ + threshold_tail(m))
}

/// The end of the text from the outgoing root on.
spec fn outgoing_tail(m: CeremonyMinutes) -> Seq<char> {
    optional_field(",\"old_root_kid\":"@, m.old_root_kid) + incoming_tail(m)
}

/// The end of the text from the trust domain on.
spec fn domain_tail(m: CeremonyMinutes) -> Seq<char> {
    json::json_string_text(m.trust_domain@) + outgoing_tail(m)
}

/// The end of the text from the place on.
spec fn location_tail(m: CeremonyMinutes) -> Seq<char> {
    json::json_string_text(m.location@) + (",\"trust_domain\":"@ + domain_tail(m))
}

/// The end of the text from the time on.
spec fn time_tail(m: CeremonyMinutes) -> Seq<char> {
    text::signed_decimal(m.occurred_at as int) + (",\"location\":"@ + location_tail(m))
}

/// The end of the text from the kind on.
spec fn kind_tail(m: CeremonyMinutes) -> Seq<char> {
    kind_text(m.kind) + (",\"occurred_at\":"@ + time_tail(m))
}

/// The end of the text from the identifier on.
spec fn id_tail(m: CeremonyMinutes) -> Seq<char> {
    json::json_string_text(m.ceremony_id@) + (",\"kind\":"@ + kind_tail(m))
}

/// The end of the text from the version on.
spec fn version_tail(m: CeremonyMinutes) -> Seq<char> {
    text::decimal(m.version as nat) + (",\"ceremony_id\":"@ + id_tail(m))
}

proof fn lemma_minutes_layout(m: CeremonyMinutes)
    ensures
        minutes_text(m) == "{\"version\":"@ + version_tail(m),
{
    let p1 = "{\"version\":"@;
    let p2 = text::decimal(m.version as nat);
    let p3 = ",\"ceremony_id\":"@;
    let p4 = json::json_string_text(m.ceremony_id@);
    let p5 = ",\"kind\":"@;
    let p6 = kind_text(m.kind);
    let p7 = ",\"occurred_at\":"@;
    let p8 = text::signed_decimal(m.occurred_at as int);
    let p9 = ",\"location\":"@;
    let p10 = json::json_string_text(m.location@);
    let p11 = ",\"trust_domain\":"@;
    let p12 = json::json_string_text(m.trust_domain@);
    let p13 = optional_field(",\"old_root_kid\":"@, m.old_root_kid);
    let p14 = optional_field(",\"new_root_kid\":"@, m.new_root_kid);
    let p15 = ",\"threshold\":"@;
    let p16 = text::decimal(m.threshold as nat);
    let p17 = ",\"total\":"@;
    let p18 = text::decimal(m.total as nat);
    let p19 = ",\"participants\":"@;
    let p20 = json::json_array(
        m.participants@.map_values(|p: Participant| participant_text(p)),
    );
    let p21 = ",\"artefacts\":"@;
    let p22 = json::json_array(
        m.artefacts@.map_values(|a: ArtefactDigest| artefact_text(a)),
    );
    let p23 = ",\"notes\":"@;
    let p24 = json::json_string_text(m.notes@);
    let p25 = "}"@;
    let s2 = p1 + p2;
    let s3 = s2 + p3;
    let s4 = s3 + p4;
    let s5 = s4 + p5;
    let s6 = s5 + p6;
    let s7 = s6 + p7;
    let s8 = s7 + p8;
    let s9 = s8 + p9;
    let s10 = s9 + p10;
    let s11 = s10 + p11;
    let s12 = s11 + p12;
    let s13 = s12 + p13;
    let s14 = s13 + p14;
    let s15 = s14 + p15;
    let s16 = s15 + p16;
    let s17 = s16 + p17;
    let s18 = s17 + p18;
    let s19 = s18 + p19;
    let s20 = s19 + p20;
    let s21 = s20 + p21;
    let s22 = s21 + p22;
    let s23 = s22 + p23;
    json::lemma_grouping(s23, p24, p25);
    let r24 = p24 + p25;
    json::lemma_grouping(s22, p23, r24);
    let r23 = p23 + r24;
    json::lemma_grouping(s21, p22, r23);
    let r22 = p22 + r23;
    json::lemma_grouping(s20, p21, r22);
    let r21 = p21 + r22;
    json::lemma_grouping(s19, p20, r21);
    let r20 = p20 + r21;
    json::lemma_grouping(s18, p19, r20);
    let r19 = p19 + r20;
    json::lemma_grouping(s17, p18, r19);
    let r18 = p18 + r19;
    json::lemma_grouping(s16, p17, r18);
    let r17 = p17 + r18;
    json::lemma_grouping(s15, p16, r17);
    let r16 = p16 + r17;
    json::lemma_grouping(s14, p15, r16);
    let r15 = p15 + r16;
    json::lemma_grouping(s13, p14, r15);
    let r14 = p14 + r15;
    json::lemma_grouping(s12, p13, r14);
    let r13 = p13 + r14;
    json::lemma_grouping(s11, p12, r13);
    let r12 = p12 + r13;
    json::lemma_grouping(s10, p11, r12);
    let r11 = p11 + r12;
    json::lemma_grouping(s9, p10, r11);
    let r10 = p10 + r11;
    json::lemma_grouping(s8, p9, r10);
    let r9 = p9 + r10;
    json::lemma_grouping(s7, p8, r9);
    let r8 = p8 + r9;
    json::lemma_grouping(s6, p7, r8);
    let r7 = p7 + r8;
    json::lemma_grouping(s5, p6, r7);
    let r6 = p6 + r7;
    json::lemma_grouping(s4, p5, r6);
    let r5 = p5 + r6;
    json::lemma_grouping(s3, p4, r5);
    let r4 = p4 + r5;
    json::lemma_grouping(s2, p3, r4);
    let r3 = p3 + r4;
    json::lemma_grouping(p1, p2, r3);
}

proof fn lemma_heading_binds(a: CeremonyMinutes, b: CeremonyMinutes)
    requires
        version_tail(a) == version_tail(b),
    ensures
        a.version == b.version,
        a.ceremony_id@ == b.ceremony_id@,
        a.kind == b.kind,
        a.occurred_at == b.occurred_at,
        a.location@ == b.location@,
        a.trust_domain@ == b.trust_domain@,
        outgoing_tail(a) == outgoing_tail(b),
{
    reveal_strlit(",\"ceremony_id\":");
    reveal_strlit(",\"location\":");
    json::lemma_number_field(
        a.version as nat,
        ",\"ceremony_id\":"@ + id_tail(a),
        b.version as nat,
        ",\"ceremony_id\":"@ + id_tail(b),
    );
    json::lemma_literal(",\"ceremony_id\":"@, id_tail(a), id_tail(b));
    json::lemma_string_field(
        a.ceremony_id@,
        ",\"kind\":"@ + kind_tail(a),
        b.ceremony_id@,
        ",\"kind\":"@ + kind_tail(b),
    );
    json::lemma_literal(",\"kind\":"@, kind_tail(a), kind_tail(b));
    lemma_kinds_apart(a.kind, b.kind);
    json::lemma_split(
        kind_text(a.kind),
        ",\"occurred_at\":"@ + time_tail(a),
        kind_text(b.kind),
        ",\"occurred_at\":"@ + time_tail(b),
    );
    json::lemma_literal(",\"occurred_at\":"@, time_tail(a), time_tail(b));
    json::lemma_signed_field(
        a.occurred_at,
        ",\"location\":"@ + location_tail(a),
        b.occurred_at,
        ",\"location\":"@ + location_tail(b),
    );
    json::lemma_literal(",\"location\":"@, location_tail(a), location_tail(b));
    json::lemma_string_field(
        a.location@,
        ",\"trust_domain\":"@ + domain_tail(a),
        b.location@,
        ",\"trust_domain\":"@ + domain_tail(b),
    );
    json::lemma_literal(",\"trust_domain\":"@, domain_tail(a), domain_tail(b));
    json::lemma_string_field(
        a.trust_domain@,
        outgoing_tail(a),
        b.trust_domain@,
        outgoing_tail(b),
    );
}

proof fn lemma_roots_bind(a: CeremonyMinutes, b: CeremonyMinutes)
    requires
        outgoing_tail(a) == outgoing_tail(b),
    ensures
        text::option_view(a.old_root_kid) == text::option_view(b.old_root_kid),
        text::option_view(a.new_root_kid) == text::option_view(b.new_root_kid),
        threshold_tail(a) == threshold_tail(b),
{
    reveal_strlit(",\"old_root_kid\":");
    reveal_strlit(",\"new_root_kid\":");
    reveal_strlit(",\"threshold\":");
    let (x, y) = (incoming_tail(a), incoming_tail(b));
    assert(x[2] == (if a.new_root_kid is Some {
        'n'
    } else {
        't'
    }));
    assert(y[2] == (if b.new_root_kid is Some {
        'n'
    } else {
        't'
    }));
    lemma_optional_field(",\"old_root_kid\":"@, a.old_root_kid, x, b.old_root_kid, y);
    lemma_optional_field(
        ",\"new_root_kid\":"@,
        a.new_root_kid,
        ",\"threshold\":"@ + threshold_tail(a),
        b.new_root_kid,
        ",\"threshold\":"@ + threshold_tail(b),
    );
    json::lemma_literal(",\"threshold\":"@, threshold_tail(a), threshold_tail(b));
}

proof fn lemma_body_binds(a: CeremonyMinutes, b: CeremonyMinutes)
    requires
        threshold_tail(a) == threshold_tail(b),
    ensures
        a.threshold == b.threshold,
        a.total == b.total,
        a.participants@.len() == b.participants@.len(),
        forall|i: int|
            0 <= i < a.participants@.len() ==> same_participant(
                #[trigger] a.participants@[i],
                b.participants@[i],
            ),
        a.artefacts@.len() == b.artefacts@.len(),
        forall|i: int|
            0 <= i < a.artefacts@.len() ==> same_artefact(
                #[trigger] a.artefacts@[i],
                b.artefacts@[i],
            ),
        a.notes@ == b.notes@,
{
    reveal_strlit(",\"total\":");
    reveal_strlit(",\"participants\":");
    json::lemma_number_field(
        a.threshold as nat,
        ",\"total\":"@ + total_tail(a),
        b.threshold as nat,
        ",\"total\":"@ + total_tail(b),
    );
    json::lemma_literal(",\"total\":"@, total_tail(a), total_tail(b));
    json::lemma_number_field(
        a.total as nat,
        ",\"participants\":"@ + participants_tail(a),
        b.total as nat,
        ",\"participants\":"@ + participants_tail(b),
    );
    json::lemma_literal(",\"participants\":"@, participants_tail(a), participants_tail(b));
    lemma_participants_field(
        a.participants@,
        ",\"artefacts\":"@ + artefacts_tail(a),
        b.participants@,
        ",\"artefacts\":"@ + artefacts_tail(b),
    );
    json::lemma_literal(",\"artefacts\":"@, artefacts_tail(a), artefacts_tail(b));
    lemma_artefacts_field(
        a.artefacts@,
        ",\"notes\":"@ + notes_tail(a),
        b.artefacts@,
        ",\"notes\":"@ + notes_tail(b),
    );
    json::lemma_literal(",\"notes\":"@, notes_tail(a), notes_tail(b));
    json::lemma_string_field(a.notes@, "}"@, b.notes@, "}"@);
}

/// The signed form determines the minutes: minutes with one signed form say the
/// same in every field, both root key ids included.
pub proof fn law_signed_form_binds(a: CeremonyMinutes, b: CeremonyMinutes)
    requires
        minutes_bytes(a) == minutes_bytes(b),
    ensures
        same_minutes(a, b),
{
    json::lemma_utf8_injective(minutes_text(a), minutes_text(b));
    lemma_minutes_layout(a);
    lemma_minutes_layout(b);
    json::lemma_literal("{\"version\":"@, version_tail(a), version_tail(b));
    lemma_heading_binds(a, b);
    lemma_roots_bind(a, b);
    lemma_body_binds(a, b);
}

/// Minutes that pass and are then altered in any field no longer do, unless a
/// signature is accepted on two different messages: if both pass with the same
/// signatures, each signature is accepted on both forms, and these differ.
pub proof fn law_altered_minutes_refused(
    a: SignedMinutes,
    b: SignedMinutes,
    k: int,
    i: int,
    j: int,
)
    requires
        minutes_fault(a) is None,
        minutes_fault(b) is None,
        a.signatures@ == b.signatures@,
        !same_minutes(a.minutes, b.minutes),
        0 <= k < a.signatures@.len(),
        0 <= i < a.minutes.participants@.len(),
        a.minutes.participants@[i].kid@ == a.signatures@[k].kid@,
        0 <= j < b.minutes.participants@.len(),
        b.minutes.participants@[j].kid@ == b.signatures@[k].kid@,
    ensures
        minutes_bytes(a.minutes) != minutes_bytes(b.minutes),
        signature_value(a.signatures@[k].sig@) is Ok,
        public_key(a.minutes.participants@[i].pubkey@) matches Ok(key) && composite::accepts(
            key,
            minutes_context(),
            minutes_bytes(a.minutes),
            signature_value(a.signatures@[k].sig@)->Ok_0,
        ),
        public_key(b.minutes.participants@[j].pubkey@) matches Ok(key) && composite::accepts(
            key,
            minutes_context(),
            minutes_bytes(b.minutes),
            signature_value(a.signatures@[k].sig@)->Ok_0,
        ),
{
    if minutes_bytes(a.minutes) == minutes_bytes(b.minutes) {
        law_signed_form_binds(a.minutes, b.minutes);
    }
    lemma_participants_fault(a, 0, i);
    lemma_participants_fault(b, 0, j);
    lemma_entries_fault(a, 0, k);
    lemma_entries_fault(b, 0, k);
}

/// Whether a signature entry is a participant's and verifies under the key that
/// the minutes record for them.
pub open spec fn vouches(m: SignedMinutes, k: int, i: int) -> bool {
    &&& m.signatures@[k].kid@ == m.minutes.participants@[i].kid@
    &&& public_key(m.minutes.participants@[i].pubkey@) matches Ok(key) && (signature_value(
        m.signatures@[k].sig@,
    ) matches Ok(sig) && composite::accepts(key, minutes_context(), minutes_bytes(m.minutes), sig))
}

/// Whether a participant has signed validly.
pub open spec fn vouched_for(m: SignedMinutes, i: int) -> bool {
    exists|k: int| 0 <= k < m.signatures@.len() && #[trigger] vouches(m, k, i)
}

/// Whether a signature entry is a participant's.
pub open spec fn is_listed(m: SignedMinutes, k: int) -> bool {
    exists|i: int|
        0 <= i < m.minutes.participants@.len() && (#[trigger] m.minutes.participants@[i]).kid@
            == m.signatures@[k].kid@
}

proof fn lemma_no_participants_fault(m: SignedMinutes, from: int)
    requires
        0 <= from <= m.minutes.participants@.len(),
        forall|k: int, l: int|
            0 <= k < l < m.signatures@.len() ==> (#[trigger] m.signatures@[k]).kid@
                != (#[trigger] m.signatures@[l]).kid@,
        forall|i: int|
            0 <= i < m.minutes.participants@.len() ==> #[trigger] vouched_for(m, i),
    ensures
        participants_fault(m, from) is None,
    decreases m.minutes.participants@.len() - from,
{
    if from < m.minutes.participants@.len() {
        let p = m.minutes.participants@[from];
        assert(vouched_for(m, from));
        let k = choose|k: int| 0 <= k < m.signatures@.len() && #[trigger] vouches(m, k, from);
        lemma_signature_from_found(m.signatures@, p.kid@, 0);
        let f = signature_from(m.signatures@, p.kid@, 0)->0;
        assert(m.signatures@[k].kid@ == p.kid@);
        assert(f == k) by {
            if f < k {
                assert(m.signatures@[f].kid@ != m.signatures@[k].kid@);
            }
            if k < f {
                assert(m.signatures@[k].kid@ != m.signatures@[f].kid@);
            }
        }
        lemma_no_participants_fault(m, from + 1);
    }
}

proof fn lemma_participant_found(ps: Seq<Participant>, kid: Seq<char>, from: int, i: int)
    requires
        0 <= from <= i < ps.len(),
        ps[i].kid@ == kid,
    ensures
        participant_from(ps, kid, from) is Some,
    decreases i - from,
{
    if from < i {
        lemma_participant_found(ps, kid, from + 1, i);
    }
}

proof fn lemma_no_entries_fault(m: SignedMinutes, from: int)
    requires
        0 <= from <= m.signatures@.len(),
        forall|k: int, l: int|
            0 <= k < l < m.signatures@.len() ==> (#[trigger] m.signatures@[k]).kid@
                != (#[trigger] m.signatures@[l]).kid@,
        forall|k: int| 0 <= k < m.signatures@.len() ==> #[trigger] is_listed(m, k),
    ensures
        entries_fault(m, from) is None,
    decreases m.signatures@.len() - from,
{
    if from < m.signatures@.len() {
        let kid = m.signatures@[from].kid@;
        assert(is_listed(m, from));
        let i = choose|i: int|
            0 <= i < m.minutes.participants@.len() && (#[trigger] m.minutes.participants@[i]).kid@
                == kid;
        lemma_participant_found(m.minutes.participants@, kid, 0, i);
        lemma_signature_from_found(m.signatures@, kid, 0);
        let f = signature_from(m.signatures@, kid, 0)->0;
        assert(m.signatures@[from].kid@ == kid);
        assert(f == from) by {
            if f < from {
                assert(m.signatures@[f].kid@ != m.signatures@[from].kid@);
            }
            if from < f {
                assert(m.signatures@[from].kid@ != m.signatures@[f].kid@);
            }
        }
        lemma_no_entries_fault(m, from + 1);
    }
}

/// Minutes pass if every participant has signed once and validly, and nobody
/// else has signed.
pub proof fn law_signed_minutes_pass(m: SignedMinutes)
    requires
        forall|k: int, l: int|
            0 <= k < l < m.signatures@.len() ==> (#[trigger] m.signatures@[k]).kid@
                != (#[trigger] m.signatures@[l]).kid@,
        forall|i: int|
            0 <= i < m.minutes.participants@.len() ==> #[trigger] vouched_for(m, i),
        forall|k: int| 0 <= k < m.signatures@.len() ==> #[trigger] is_listed(m, k),
    ensures
        minutes_fault(m) is None,
{
    lemma_no_participants_fault(m, 0);
    lemma_no_entries_fault(m, 0);
}

/// Whether somebody has signed under a key id.
pub open spec fn has_signed(ss: Seq<ParticipantSignature>, kid: Seq<char>) -> bool {
    exists|k: int| 0 <= k < ss.len() && (#[trigger] ss[k]).kid@ == kid
}

proof fn lemma_signed_among(m: SignedMinutes, n: int)
    requires
        0 <= n <= m.minutes.participants@.len(),
    ensures
        signed_among(m, n) == m.minutes.participants@.take(n).filter(
            |p: Participant| has_signed(m.signatures@, p.kid@),
        ).len(),
    decreases n,
{
    let f = |p: Participant| has_signed(m.signatures@, p.kid@);
    let taken = m.minutes.participants@.take(n);
    reveal(Seq::filter);
    if n > 0 {
        lemma_signed_among(m, n - 1);
        let p = m.minutes.participants@[n - 1];
        assert(taken.drop_last() =~= m.minutes.participants@.take(n - 1));
        assert(taken.last() == p);
        lemma_signature_from_found(m.signatures@, p.kid@, 0);
        assert(f(p) == (signature_from(m.signatures@, p.kid@, 0) is Some)) by {
            if let Some(k) = signature_from(m.signatures@, p.kid@, 0) {
                assert(m.signatures@[k].kid@ == p.kid@);
            }
        }
    }
}

/// The count of those who signed is the number of participants under whose key
/// id there is a signature.
pub proof fn law_signed_count(m: SignedMinutes)
    ensures
        signed_among(m, m.minutes.participants@.len() as int) == m.minutes.participants@.filter(
            |p: Participant| has_signed(m.signatures@, p.kid@),
        ).len(),
{
    lemma_signed_among(m, m.minutes.participants@.len() as int);
    assert(m.minutes.participants@.take(m.minutes.participants@.len() as int)
        =~= m.minutes.participants@);
}

/// Whoever is listed and has not signed may sign, and a signature that verifies
/// under the key that is recorded for them is taken: the minutes stay as they
/// are, and the signature comes behind those that were there.
pub proof fn law_participant_may_sign(
    before: SignedMinutes,
    after: SignedMinutes,
    i: int,
    key: PublicKeyModel,
    sig: CompositeSignature,
    r: Result<(), CeremonyError>,
)
    requires
        0 <= i < before.minutes.participants@.len(),
        forall|j: int|
            0 <= j < i ==> (#[trigger] before.minutes.participants@[j]).kid@
                != before.minutes.participants@[i].kid@,
        !has_signed(before.signatures@, before.minutes.participants@[i].kid@),
        public_key(before.minutes.participants@[i].pubkey@) == Ok::<_, CeremonyFault>(key),
        composite::accepts(key, minutes_context(), minutes_bytes(before.minutes), sig@),
        takes(
            before,
            after,
            before.minutes.participants@[i].kid@,
            Ok::<_, CompositeError>(sig),
            r,
        ),
    ensures
        r is Ok,
        after.minutes == before.minutes,
        after.signatures@.len() == before.signatures@.len() + 1,
        before.signatures@.is_prefix_of(after.signatures@),
        after.signatures@.last().kid@ == before.minutes.participants@[i].kid@,
        after.signatures@.last().sig@ == encoding::base64_text(composite::signature_bytes(sig@)),
{
    let kid = before.minutes.participants@[i].kid@;
    lemma_first_participant(before.minutes.participants@, kid, 0, i);
    lemma_signature_from_found(before.signatures@, kid, 0);
    if let Some(k) = signature_from(before.signatures@, kid, 0) {
        assert(before.signatures@[k].kid@ == kid);
    }
    assert(after.signatures@.drop_last() == before.signatures@);
    assert(after.signatures@.take(before.signatures@.len() as int) =~= before.signatures@);
}

proof fn lemma_first_participant(ps: Seq<Participant>, kid: Seq<char>, from: int, i: int)
    requires
        0 <= from <= i < ps.len(),
        ps[i].kid@ == kid,
        forall|j: int| from <= j < i ==> (#[trigger] ps[j]).kid@ != kid,
    ensures
        participant_from(ps, kid, from) == Some(i),
    decreases i - from,
{
    if from < i {
        assert(ps[from].kid@ != kid);
        lemma_first_participant(ps, kid, from + 1, i);
    }
}

/// Nobody else can sign, and no signature is taken that does not verify under
/// the recorded key: the minutes then stay as they were.
pub proof fn law_others_cannot_sign(
    before: SignedMinutes,
    after: SignedMinutes,
    kid: Seq<char>,
    made: Result<CompositeSignature, CompositeError>,
    r: Result<(), CeremonyError>,
)
    requires
        takes(before, after, kid, made, r),
        (forall|i: int|
            0 <= i < before.minutes.participants@.len() ==> (
            #[trigger] before.minutes.participants@[i]).kid@ != kid) || has_signed(
            before.signatures@,
            kid,
        ) || made is Err || !composite::accepts(
            recorded_key(before, kid),
            minutes_context(),
            minutes_bytes(before.minutes),
            made->Ok_0@,
        ),
    ensures
        r is Err,
        after == before,
{
    lemma_participant_from_found(before.minutes.participants@, kid, 0);
    lemma_signature_from_found(before.signatures@, kid, 0);
    if has_signed(before.signatures@, kid) {
        let k = choose|k: int|
            0 <= k < before.signatures@.len() && (#[trigger] before.signatures@[k]).kid@ == kid;
        assert(before.signatures@[k].kid@ == kid);
    }
    if let Some(i) = participant_from(before.minutes.participants@, kid, 0) {
        assert(before.minutes.participants@[i].kid@ == kid);
    }
}

} // verus!
