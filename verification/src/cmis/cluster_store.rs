//! The form in which issued records are replicated: every byte field is written
//! in hexadecimal.

use vstd::prelude::*;
use crate::cmis::record::{IssueParams, IssuedRecord, IssuedSvid, LastAttestation, RecordModel};
use crate::primitives::bytes::{lemma_array_view_injective, take_array};
use crate::primitives::{encoding, text};

verus! {

/// Failure modes of the replicated form.
#[derive(Debug, Clone, PartialEq, Eq)]
pub enum WireError {
    /// JSON could not be written or read.
    Json(String),
    /// A byte field does not decode.
    Hex {
        /// Which field.
        field: &'static str,
        /// What is wrong with it.
        reason: String,
    },
}

/// The replicated form of an issued record.
#[derive(Debug, Clone, PartialEq, Eq)]
pub struct WireIssuedRecord {
    /// Digest that identifies the host.
    pub ek_cert_sha384_hex: String,
    /// Aggregate PCR digest.
    pub pcr_digest_hex: String,
    /// The policy that the boot state was approved under.
    pub policy_id: String,
    /// Thumbprint of the host's proof-of-possession key.
    pub dpop_jkt: String,
    /// Lifetime in seconds.
    pub ttl_secs: u64,
    /// Evidence of the issuing enclave.
    pub tee_evidence_id: Option<String>,
    /// When the host last attested in full, Unix seconds.
    pub last_attestation_at: i64,
    /// Aggregate PCR digest of that attestation.
    pub last_pcr_digest_hex: String,
    /// Policy epoch of that attestation.
    pub last_policy_epoch: u64,
    /// The document in compact form.
    pub jws: String,
    /// Its subject.
    pub spiffe_id: String,
    /// Start of validity, Unix seconds.
    pub iat: i64,
    /// End of validity, Unix seconds.
    pub exp: i64,
    /// The host's name, if it gave one.
    pub hostname: Option<String>,
    /// The host's key for child tokens, if it is kept.
    pub child_pub_hex: Option<String>,
}

/// What is wrong with a byte field, if anything.
pub open spec fn field_fault(s: Seq<char>) -> Option<Seq<char>> {
    let b = vstd::utf8::encode_utf8(s);
    if !encoding::is_hex(b) {
        Some(encoding::hex_fault_text(b))
    } else if encoding::hex_value(b).len() != 48 {
        Some("expected 48 bytes, got "@ + text::decimal(encoding::hex_value(b).len()))
    } else {
        None
    }
}

/// The bytes that hexadecimal digits stand for.
pub open spec fn field_value(s: Seq<char>) -> Seq<u8> {
    encoding::hex_value(vstd::utf8::encode_utf8(s))
}

fn hex_48(field: &'static str, s: &str) -> (r: Result<[u8; 48], WireError>)
    ensures
        match r {
            Ok(d) => field_fault(s@) is None && d@ == field_value(s@),
            Err(e) => e matches WireError::Hex { field: f, reason } && f == field && field_fault(s@)
                == Some(reason@),
        },
{
    let v = match encoding::hex_decode(s.as_bytes()) {
        Ok(v) => v,
        Err(reason) => return Err(WireError::Hex { field, reason }),
    };
    if v.len() != 48 {
        let reason = text::joined(
            "expected 48 bytes, got ",
            text::decimal_text(v.len() as u64).as_str(),
        );
        return Err(WireError::Hex { field, reason });
    }
    let d: [u8; 48] = take_array::<48>(v.as_slice(), 0);
    assert(d@ =~= v@);
    Ok(d)
}

/// Whether a replicated form is that of a record.
pub open spec fn is_wire_of(w: WireIssuedRecord, r: RecordModel) -> bool {
    &&& w.ek_cert_sha384_hex@ == encoding::hex_text(r.params.ek_cert_sha384@)
    &&& w.pcr_digest_hex@ == encoding::hex_text(r.params.pcr_digest@)
    &&& w.policy_id@ == r.params.policy_id
    &&& w.dpop_jkt@ == r.params.dpop_jkt
    &&& w.ttl_secs == r.params.ttl_secs
    &&& text::option_view(w.tee_evidence_id) == r.params.tee_evidence_id
    &&& w.last_attestation_at == r.last_attestation.at
    &&& w.last_pcr_digest_hex@ == encoding::hex_text(r.last_attestation.pcr_digest@)
    &&& w.last_policy_epoch == r.last_attestation.policy_epoch
    &&& w.jws@ == r.bundle.jws
    &&& w.spiffe_id@ == r.bundle.spiffe_id
    &&& w.iat == r.bundle.iat
    &&& w.exp == r.bundle.exp
    &&& text::option_view(w.hostname) == r.hostname
    &&& match r.child_pub {
        Some(b) => w.child_pub_hex matches Some(h) && h@ == encoding::hex_text(b),
        None => w.child_pub_hex is None,
    }
}

/// Whether a record is what a replicated form stands for.
pub open spec fn is_record_of(r: RecordModel, w: WireIssuedRecord) -> bool {
    &&& r.params.ek_cert_sha384@ == field_value(w.ek_cert_sha384_hex@)
    &&& r.params.pcr_digest@ == field_value(w.pcr_digest_hex@)
    &&& r.params.policy_id == w.policy_id@
    &&& r.params.dpop_jkt == w.dpop_jkt@
    &&& r.params.ttl_secs == w.ttl_secs
    &&& r.params.tee_evidence_id == text::option_view(w.tee_evidence_id)
    &&& r.last_attestation.at == w.last_attestation_at
    &&& r.last_attestation.pcr_digest@ == field_value(w.last_pcr_digest_hex@)
    &&& r.last_attestation.policy_epoch == w.last_policy_epoch
    &&& r.bundle.jws == w.jws@
    &&& r.bundle.spiffe_id == w.spiffe_id@
    &&& r.bundle.iat == w.iat
    &&& r.bundle.exp == w.exp
    &&& r.hostname == text::option_view(w.hostname)
    &&& match w.child_pub_hex {
        Some(h) => r.child_pub == Some(field_value(h@)),
        None => r.child_pub is None,
    }
}

/// The first byte field that does not decode, and what is wrong with it.
pub open spec fn wire_fault(w: WireIssuedRecord) -> Option<(Seq<char>, Seq<char>)> {
    if field_fault(w.ek_cert_sha384_hex@) is Some {
        Some(("ek_cert_sha384_hex"@, field_fault(w.ek_cert_sha384_hex@)->0))
    } else if field_fault(w.pcr_digest_hex@) is Some {
        Some(("pcr_digest_hex"@, field_fault(w.pcr_digest_hex@)->0))
    } else if field_fault(w.last_pcr_digest_hex@) is Some {
        Some(("last_pcr_digest_hex"@, field_fault(w.last_pcr_digest_hex@)->0))
    } else {
        match w.child_pub_hex {
            Some(h) => if encoding::is_hex(vstd::utf8::encode_utf8(h@)) {
                None
            } else {
                Some(
                    (
                        "child_pub_hex"@,
                        encoding::hex_fault_text(vstd::utf8::encode_utf8(h@)),
                    ),
                )
            },
            None => None,
        }
    }
}

impl WireIssuedRecord {
    /// The replicated form of a record.
    pub fn from_record(r: &IssuedRecord) -> (w: Self)
        ensures
            is_wire_of(w, r@),
    {
        WireIssuedRecord {
            ek_cert_sha384_hex: encoding::hex_encode(r.params.ek_cert_sha384.as_slice()),
            pcr_digest_hex: encoding::hex_encode(r.params.pcr_digest.as_slice()),
            policy_id: r.params.policy_id.clone(),
            dpop_jkt: r.params.dpop_jkt.clone(),
            ttl_secs: r.params.ttl_secs,
            tee_evidence_id: text::copy_option(&r.params.tee_evidence_id),
            last_attestation_at: r.last_attestation.at,
            last_pcr_digest_hex: encoding::hex_encode(r.last_attestation.pcr_digest.as_slice()),
            last_policy_epoch: r.last_attestation.policy_epoch,
            jws: r.bundle.jws.clone(),
            spiffe_id: r.bundle.spiffe_id.clone(),
            iat: r.bundle.iat,
            exp: r.bundle.exp,
            hostname: text::copy_option(&r.hostname),
            child_pub_hex: match &r.child_pub {
                Some(b) => Some(encoding::hex_encode(b.as_slice())),
                None => None,
            },
        }
    }

    /// The record that a replicated form stands for.
    pub fn into_record(self) -> (r: Result<IssuedRecord, WireError>)
        ensures
            match r {
                Ok(rec) => wire_fault(self) is None && is_record_of(rec@, self),
                Err(WireError::Hex { field, reason }) => wire_fault(self) == Some(
                    (field@, reason@),
                ),
                Err(_) => false,
            },
    {
        record_of(&self)
    }
}

fn record_of(w: &WireIssuedRecord) -> (r: Result<IssuedRecord, WireError>)
    ensures
        match r {
            Ok(rec) => wire_fault(*w) is None && is_record_of(rec@, *w),
            Err(WireError::Hex { field, reason }) => wire_fault(*w) == Some((field@, reason@)),
            Err(_) => false,
        },
{
    let ek_cert_sha384: [u8; 48] = hex_48("ek_cert_sha384_hex", w.ek_cert_sha384_hex.as_str())?;
    let pcr_digest: [u8; 48] = hex_48("pcr_digest_hex", w.pcr_digest_hex.as_str())?;
    let last_digest: [u8; 48] = hex_48("last_pcr_digest_hex", w.last_pcr_digest_hex.as_str())?;
    let child_pub: Option<Vec<u8>> = match &w.child_pub_hex {
        Some(h) => match encoding::hex_decode(h.as_str().as_bytes()) {
            Ok(b) => Some(b),
            Err(reason) => {
                return Err(WireError::Hex { field: "child_pub_hex", reason });
            },
        },
        None => None,
    };
    Ok(
        IssuedRecord {
            params: IssueParams {
                ek_cert_sha384,
                pcr_digest,
                policy_id: w.policy_id.clone(),
                dpop_jkt: w.dpop_jkt.clone(),
                ttl_secs: w.ttl_secs,
                tee_evidence_id: text::copy_option(&w.tee_evidence_id),
            },
            last_attestation: LastAttestation {
                at: w.last_attestation_at,
                pcr_digest: last_digest,
                policy_epoch: w.last_policy_epoch,
            },
            bundle: IssuedSvid {
                jws: w.jws.clone(),
                spiffe_id: w.spiffe_id.clone(),
                iat: w.iat,
                exp: w.exp,
            },
            hostname: text::copy_option(&w.hostname),
            child_pub,
        },
    )
}

/// The record in a row of the replicated store, given what its JSON was read
/// as.
pub fn decode(parsed: &Result<WireIssuedRecord, String>) -> (r: Result<IssuedRecord, WireError>)
    ensures
        match parsed {
            Err(m) => r matches Err(WireError::Json(e)) && e@ == m@,
            Ok(w) => match r {
                Ok(rec) => wire_fault(*w) is None && is_record_of(rec@, *w),
                Err(WireError::Hex { field, reason }) => wire_fault(*w) == Some((field@, reason@)),
                Err(WireError::Json(_)) => false,
            },
        },
{
    match parsed {
        Err(m) => Err(WireError::Json(m.clone())),
        Ok(w) => record_of(w),
    }
}

/// Whether a row of the replicated store holds a record.
pub open spec fn readable(row: Result<WireIssuedRecord, String>) -> bool {
    row matches Ok(w) && wire_fault(w) is None
}

/// The rows that hold a record, among the first `n`.
pub open spec fn readable_rows(rows: Seq<Result<WireIssuedRecord, String>>, n: int) -> Seq<int>
    decreases n,
{
    if n <= 0 {
        Seq::empty()
    } else if readable(rows[n - 1]) {
        readable_rows(rows, n - 1).push(n - 1)
    } else {
        readable_rows(rows, n - 1)
    }
}

/// The records in the rows of the replicated store, in their order; rows that
/// hold none are passed over.
pub fn list_records(rows: &Vec<Result<WireIssuedRecord, String>>) -> (r: Vec<IssuedRecord>)
    ensures
        r@.len() == readable_rows(rows@, rows@.len() as int).len(),
        forall|i: int|
            0 <= i < r@.len() ==> is_record_of(
                (#[trigger] r@[i])@,
                rows@[readable_rows(rows@, rows@.len() as int)[i]]->Ok_0,
            ),
{
    let mut out: Vec<IssuedRecord> = Vec::new();
    let mut k: usize = 0;
    while k < rows.len()
        invariant
            k <= rows@.len(),
            out@.len() == readable_rows(rows@, k as int).len(),
            forall|i: int|
                0 <= i < out@.len() ==> is_record_of(
                    (#[trigger] out@[i])@,
                    rows@[readable_rows(rows@, k as int)[i]]->Ok_0,
                ),
        decreases rows@.len() - k,
    {
        let ghost before = out@;
        if let Ok(rec) = decode(&rows[k]) {
            out.push(rec);
        }
        assert forall|i: int| 0 <= i < out@.len() implies is_record_of(
            (#[trigger] out@[i])@,
            rows@[readable_rows(rows@, k + 1)[i]]->Ok_0,
        ) by {
            if i < before.len() {
                assert(out@[i] == before[i]);
                assert(readable_rows(rows@, k + 1)[i] == readable_rows(rows@, k as int)[i]);
            }
        }
        k += 1;
    }
    out
}

/// A record that was written is read back: its replicated form has no fault,
/// and stands for this record and no other.
pub proof fn law_record_roundtrip(w: WireIssuedRecord, r: RecordModel, back: RecordModel)
    requires
        is_wire_of(w, r),
    ensures
        wire_fault(w) is None,
        is_record_of(r, w),
        is_record_of(back, w) ==> back == r,
{
    encoding::lemma_hex_roundtrip(r.params.ek_cert_sha384@);
    encoding::lemma_hex_roundtrip(r.params.pcr_digest@);
    encoding::lemma_hex_roundtrip(r.last_attestation.pcr_digest@);
    if let Some(b) = r.child_pub {
        encoding::lemma_hex_roundtrip(b);
    }
    if is_record_of(back, w) {
        lemma_array_view_injective::<48>(r.params.ek_cert_sha384, back.params.ek_cert_sha384);
        lemma_array_view_injective::<48>(r.params.pcr_digest, back.params.pcr_digest);
        lemma_array_view_injective::<48>(
            r.last_attestation.pcr_digest,
            back.last_attestation.pcr_digest,
        );
    }
}

/// Every row that holds a record is listed once, in order, and no other.
pub proof fn law_every_record_listed(rows: Seq<Result<WireIssuedRecord, String>>, n: int)
    requires
        0 <= n <= rows.len(),
    ensures
        forall|k: int|
            0 <= k < n ==> (readable_rows(rows, n).contains(k) <==> (#[trigger] rows[k] is Ok
                && wire_fault(rows[k]->Ok_0) is None)),
        forall|i: int, j: int|
            0 <= i < j < readable_rows(rows, n).len() ==> #[trigger] readable_rows(rows, n)[i]
                < #[trigger] readable_rows(rows, n)[j],
        forall|i: int|
            0 <= i < readable_rows(rows, n).len() ==> 0 <= #[trigger] readable_rows(rows, n)[i] < n,
    decreases n,
{
    if n > 0 {
        law_every_record_listed(rows, n - 1);
        let before = readable_rows(rows, n - 1);
        let all = readable_rows(rows, n);
        assert forall|k: int| 0 <= k < n implies (all.contains(k) <==> (#[trigger] rows[k] is Ok
            && wire_fault(rows[k]->Ok_0) is None)) by {
            if k < n - 1 && before.contains(k) {
                let i = choose|i: int| 0 <= i < before.len() && before[i] == k;
                assert(all[i] == k);
            }
            if all.contains(k) && k < n - 1 {
                let i = choose|i: int| 0 <= i < all.len() && all[i] == k;
                assert(before[i] == k);
            }
            if k == n - 1 && readable(rows[k]) {
                assert(all[before.len() as int] == k);
            }
        }
    }
}

/// A byte field is read where it is the hexadecimal text of 48 bytes, and as
/// these bytes; the text of any other number of bytes is refused.
pub proof fn law_byte_field(b: Seq<u8>)
    ensures
        field_fault(encoding::hex_text(b)) is None <==> b.len() == 48,
        field_value(encoding::hex_text(b)) == b,
{
    encoding::lemma_hex_roundtrip(b);
}

} // verus!
