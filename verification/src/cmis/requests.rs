//! Checks that several requests share.

use vstd::prelude::*;
use crate::cmis::status::{Code, Status};
use crate::primitives::bytes::take_array;
use crate::primitives::{encoding, text};

verus! {

/// The bytes of a digest's text, without the white space around it.
pub open spec fn sha_text_bytes(s: Seq<char>) -> Seq<u8> {
    vstd::utf8::encode_utf8(text::trimmed(s))
}

/// Whether a text is a digest of 48 bytes in hexadecimal.
pub open spec fn is_sha_text(s: Seq<char>) -> bool {
    encoding::is_hex(sha_text_bytes(s)) && encoding::hex_value(sha_text_bytes(s)).len() == 48
}

/// The answer to a text that is no digest.
pub open spec fn sha_refusal(s: Seq<char>) -> Status {
    if !encoding::is_hex(sha_text_bytes(s)) {
        Status { code: Code::InvalidArgument, message: "cert_sha is not hex" }
    } else {
        Status { code: Code::InvalidArgument, message: "cert_sha must be 48 bytes (SHA-384)" }
    }
}

/// Decode a digest in hexadecimal, in either case and with white space around
/// it.
pub fn parse_cert_sha(s: &str) -> (r: Result<[u8; 48], Status>)
    ensures
        match r {
            Ok(d) => is_sha_text(s@) && d@ == encoding::hex_value(sha_text_bytes(s@)),
            Err(e) => !is_sha_text(s@) && e == sha_refusal(s@),
        },
{
    let trimmed = text::trim(s);
    let v = match encoding::hex_decode(trimmed.as_bytes()) {
        Ok(v) => v,
        Err(_) => return Err(Status::new(Code::InvalidArgument, "cert_sha is not hex")),
    };
    if v.len() != 48 {
        return Err(Status::new(Code::InvalidArgument, "cert_sha must be 48 bytes (SHA-384)"));
    }
    let d: [u8; 48] = take_array::<48>(v.as_slice(), 0);
    assert(d@ =~= v@);
    Ok(d)
}

/// A reason as it is kept: without white space around it, at most 64
/// characters, and never empty.
pub open spec fn bounded_reason(raw: Seq<char>) -> Seq<char> {
    let t = text::trimmed(raw);
    if t.len() == 0 {
        "unspecified"@
    } else if t.len() <= 64 {
        t
    } else {
        t.take(64)
    }
}

/// Bring an operator's reason to a bounded form.
pub fn revocation_reason(raw: &str) -> (r: String)
    ensures
        r@ == bounded_reason(raw@),
{
    let trimmed = text::trim(raw);
    if trimmed.unicode_len() == 0 {
        return "unspecified".to_owned();
    }
    text::first_chars(trimmed, 64).to_owned()
}

/// Reasons in the audit log and in revocation lists are bounded, and there
/// always is one.
pub proof fn law_reason_bounded(raw: Seq<char>)
    ensures
        0 < bounded_reason(raw).len() <= 64,
{
    reveal_strlit("unspecified");
}

/// Refuse a host identifier that is blank.
pub fn require_host_uuid(host_uuid: &str) -> (r: Result<(), Status>)
    ensures
        match r {
            Ok(_) => text::trimmed(host_uuid@).len() > 0,
            Err(s) => text::trimmed(host_uuid@).len() == 0 && s == (Status {
                code: Code::InvalidArgument,
                message: "empty host_uuid",
            }),
        },
{
    if text::trim(host_uuid).unicode_len() == 0 {
        return Err(Status::new(Code::InvalidArgument, "empty host_uuid"));
    }
    Ok(())
}

/// A time so many seconds later, or the end of time.
pub open spec fn later(now: i64, secs: int) -> i64 {
    if now + secs > i64::MAX {
        i64::MAX
    } else if now + secs < i64::MIN {
        i64::MIN
    } else {
        (now + secs) as i64
    }
}

/// A time so many seconds later, or the end of time.
pub fn saturating_later(now: i64, secs: i64) -> (r: i64)
    ensures
        r == later(now, secs as int),
{
    match now.checked_add(secs) {
        Some(t) => t,
        None => if secs > 0 {
            i64::MAX
        } else {
            i64::MIN
        },
    }
}

/// A length as a count of 32 bits, or the largest.
pub open spec fn count_u32(n: nat) -> u32 {
    if n <= u32::MAX {
        n as u32
    } else {
        u32::MAX
    }
}

/// A length as a count of 32 bits, or the largest.
pub fn saturating_count(n: usize) -> (r: u32)
    ensures
        r == count_u32(n as nat),
{
    if n as u64 <= 0xffff_ffff {
        n as u32
    } else {
        u32::MAX
    }
}

/// A digest in hexadecimal is read as that digest, and nothing that has not 96
/// digits is read at all.
pub proof fn law_digest_is_read(d: [u8; 48], s: Seq<char>)
    ensures
        is_sha_text(encoding::hex_text(d@)),
        encoding::hex_value(sha_text_bytes(encoding::hex_text(d@))) == d@,
        is_sha_text(s) ==> vstd::utf8::encode_utf8(text::trimmed(s)).len() == 96,
{
    encoding::lemma_hex_roundtrip(d@);
    encoding::lemma_hex_untrimmed(d@);
    if is_sha_text(s) {
        assert(encoding::hex_value(sha_text_bytes(s)).len() == sha_text_bytes(s).len() / 2);
    }
}

/// A reason that is not blank is kept from its first character on, and as a
/// whole if it is not too long.
pub proof fn law_reason_kept(raw: Seq<char>)
    requires
        text::trimmed(raw).len() > 0,
    ensures
        bounded_reason(raw).is_prefix_of(text::trimmed(raw)),
        text::trimmed(raw).len() <= 64 ==> bounded_reason(raw) == text::trimmed(raw),
        text::trimmed(raw).len() > 64 ==> bounded_reason(raw).len() == 64,
{
}

/// Times are added exactly where the sum is a time, and never wrap.
pub proof fn law_later(now: i64, secs: i64)
    ensures
        i64::MIN <= now + secs <= i64::MAX ==> later(now, secs as int) == now + secs,
        secs >= 0 ==> later(now, secs as int) >= now,
        secs <= 0 ==> later(now, secs as int) <= now,
        now + secs > i64::MAX ==> later(now, secs as int) == i64::MAX,
{
}

/// A count is exact where it fits, and the largest where it does not.
pub proof fn law_count(n: nat)
    ensures
        n <= 0xffff_ffff ==> count_u32(n) == n,
        n > 0xffff_ffff ==> count_u32(n) == 0xffff_ffff,
{
}

} // verus!
