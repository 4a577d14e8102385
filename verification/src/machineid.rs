//! The hardware fingerprint of a machine without a TPM.
//!
//! ```text
//! H = SHA-384( board_serial || 0x1f || platform_uuid || 0x1f || disk_serial )
//! ```
//!
//! over the normalised identifiers. `H` is the host's enrolled identity, not
//! key material. Reading the identifiers is the business of a platform backend;
//! what they say is decided here.

use vstd::prelude::*;
use vstd::string::StringExecFns;
use crate::primitives::{encoding, hash, text};

verus! {

/// The byte between the components of a fingerprint.
pub const SEP: u8 = 0x1f;

/// The hardware identifiers that a fingerprint is made of.
#[derive(Debug, Clone, PartialEq, Eq)]
pub struct MachineFacts {
    /// Board or machine serial number.
    pub board_serial: String,
    /// Platform hardware UUID.
    pub platform_uuid: String,
    /// Hardware serial of the boot disk; may be empty.
    pub disk_serial: String,
}

/// The contents of a [`MachineFacts`].
pub struct FactsModel {
    pub board_serial: Seq<char>,
    pub platform_uuid: Seq<char>,
    pub disk_serial: Seq<char>,
}

impl View for MachineFacts {
    type V = FactsModel;

    open spec fn view(&self) -> FactsModel {
        FactsModel {
            board_serial: self.board_serial@,
            platform_uuid: self.platform_uuid@,
            disk_serial: self.disk_serial@,
        }
    }
}

/// An identifier in canonical form: trimmed, ASCII letters in uppercase.
pub open spec fn normal(s: Seq<char>) -> Seq<char> {
    text::ascii_upper(text::trimmed(s))
}

impl FactsModel {
    /// All identifiers in canonical form.
    pub open spec fn normalised(self) -> FactsModel {
        FactsModel {
            board_serial: normal(self.board_serial),
            platform_uuid: normal(self.platform_uuid),
            disk_serial: normal(self.disk_serial),
        }
    }

    /// Whether board serial and platform UUID are there.
    pub open spec fn complete(self) -> bool {
        normal(self.board_serial).len() > 0 && normal(self.platform_uuid).len() > 0
    }
}

/// The hash input of normalised identifiers.
pub open spec fn fingerprint_input(n: FactsModel) -> Seq<u8> {
    vstd::utf8::encode_utf8(n.board_serial) + seq![SEP] + vstd::utf8::encode_utf8(n.platform_uuid)
        + seq![SEP] + vstd::utf8::encode_utf8(n.disk_serial)
}

/// The fingerprint of a machine.
pub open spec fn fingerprint_of(facts: FactsModel) -> [u8; 48] {
    hash::sha384_of(fingerprint_input(facts.normalised()))
}

fn normalise(s: &str) -> (r: String)
    ensures
        r@ == normal(s@),
{
    text::trim(s).to_ascii_uppercase()
}

impl MachineFacts {
    /// The identifiers in canonical form, so that formatting never changes the
    /// fingerprint.
    pub fn normalised(&self) -> (r: Self)
        ensures
            r@ == self@.normalised(),
    {
        MachineFacts {
            board_serial: normalise(self.board_serial.as_str()),
            platform_uuid: normalise(self.platform_uuid.as_str()),
            disk_serial: normalise(self.disk_serial.as_str()),
        }
    }

    /// The fingerprint over the canonical identifiers.
    pub fn fingerprint(&self) -> (r: Fingerprint)
        ensures
            r.0 == fingerprint_of(self@),
    {
        let n = self.normalised();
        let mut input: Vec<u8> = Vec::new();
        input.extend_from_slice(n.board_serial.as_str().as_bytes());
        input.push(SEP);
        input.extend_from_slice(n.platform_uuid.as_str().as_bytes());
        input.push(SEP);
        input.extend_from_slice(n.disk_serial.as_str().as_bytes());
        assert(input@ =~= fingerprint_input(n@));
        let d = hash::sha384(input.as_slice());
        assert(d =~= fingerprint_of(self@));
        Fingerprint(d)
    }

    /// Whether the machine is identified well enough: board serial and
    /// platform UUID are required, the disk serial is not.
    pub fn is_complete(&self) -> (r: bool)
        ensures
            r == self@.complete(),
    {
        let n = self.normalised();
        !n.board_serial.as_str().is_empty() && !n.platform_uuid.as_str().is_empty()
    }
}

/// A machine fingerprint.
#[derive(Debug, Clone, Copy, PartialEq, Eq, Hash)]
pub struct Fingerprint(pub [u8; 48]);

impl Fingerprint {
    /// The raw bytes.
    pub fn as_bytes(&self) -> (r: &[u8; 48])
        ensures
            *r == self.0,
    {
        &self.0
    }

    /// 96 lowercase hexadecimal digits.
    pub fn to_hex(&self) -> (r: String)
        ensures
            r@ == encoding::hex_text(self.0@),
            r@.len() == 96,
    {
        encoding::hex_encode(self.0.as_slice())
    }
}

/// Why the hardware facts could not be collected.
#[derive(Debug)]
pub enum MachineIdError {
    /// A required identifier could not be read or was empty.
    Unavailable(String),
    /// The platform query failed.
    Query(String),
    /// The platform has no backend.
    Unsupported,
}

/// What collection makes of the facts that a backend read: they are refused
/// if incomplete, and normalised otherwise. A backend's error is handed on.
pub fn collect_facts(read: Result<MachineFacts, MachineIdError>) -> (r: Result<
    MachineFacts,
    MachineIdError,
>)
    ensures
        match (read, r) {
            (Err(e), Err(out)) => out == e,
            (Ok(facts), Ok(out)) => facts@.complete() && out@ == facts@.normalised(),
            (Ok(facts), Err(e)) => !facts@.complete() && (e matches MachineIdError::Unavailable(m)
                && m@ == "one or more hardware identifiers were empty"@),
            (Err(_), Ok(_)) => false,
        },
{
    let facts = read?;
    if !facts.is_complete() {
        return Err(
            MachineIdError::Unavailable("one or more hardware identifiers were empty".to_owned()),
        );
    }
    Ok(facts.normalised())
}

/// The fingerprint of the facts that a backend read.
pub fn fingerprint(read: Result<MachineFacts, MachineIdError>) -> (r: Result<
    Fingerprint,
    MachineIdError,
>)
    ensures
        match (read, r) {
            (Err(e), Err(out)) => out == e,
            (Ok(facts), Ok(out)) => facts@.complete() && out.0 == fingerprint_of(
                facts@.normalised(),
            ),
            (Ok(facts), Err(e)) => !facts@.complete() && (e matches MachineIdError::Unavailable(m)
                && m@ == "one or more hardware identifiers were empty"@),
            (Err(_), Ok(_)) => false,
        },
{
    let facts = collect_facts(read)?;
    Ok(facts.fingerprint())
}

/// The UTF-8 encoding of a text without the separator character is free of
/// the separator byte.
proof fn lemma_no_separator(s: Seq<char>)
    requires
        !s.contains('\u{1f}'),
    ensures
        !vstd::utf8::encode_utf8(s).contains(SEP),
    decreases s.len(),
{
    if s.len() > 0 {
        let rest = s.drop_first();
        assert(!rest.contains('\u{1f}')) by {
            if rest.contains('\u{1f}') {
                let i = rest.index_of('\u{1f}');
                assert(s[i + 1] == '\u{1f}');
            }
        }
        lemma_no_separator(rest);
        let c = s[0] as u32;
        assert(s[0] != '\u{1f}');
        assert(c & 0x7F == c || c > 0x7F) by (bit_vector);
        assert(0xC0u8 | ((c >> 6) & 0x1F) as u8 >= 0x80) by (bit_vector);
        assert(0xE0u8 | ((c >> 12) & 0x0F) as u8 >= 0x80) by (bit_vector);
        assert(0xF0u8 | ((c >> 18) & 0x7) as u8 >= 0x80) by (bit_vector);
        assert(0x80u8 | (c & 0x3F) as u8 >= 0x80) by (bit_vector);
        assert(0x80u8 | ((c >> 6) & 0x3F) as u8 >= 0x80) by (bit_vector);
        assert(0x80u8 | ((c >> 12) & 0x3F) as u8 >= 0x80) by (bit_vector);
        let head = vstd::utf8::encode_scalar(c);
        let tail = vstd::utf8::encode_utf8(rest);
        vstd::utf8::char_is_scalar(s[0]);
        if c == 0x1f {
            vstd::utf8::char_u32_cast(s[0], c);
            vstd::utf8::char_u32_cast('\u{1f}', c);
        }
        assert(c <= 0x7F ==> (c & 0x7F) as u8 == c) by {
            assert(c <= 0x7F ==> (c & 0x7F) as u8 as u32 == c) by (bit_vector);
        }
        assert forall|i: int| 0 <= i < head.len() implies head[i] != SEP by {
            if vstd::utf8::has_width_1_encoding(c) {
                assert(head =~= seq![(c & 0x7F) as u8]);
            } else {
                assert(head[i] >= 0x80);
            }
        }
        let all = vstd::utf8::encode_utf8(s);
        assert forall|i: int| 0 <= i < all.len() implies all[i] != SEP by {
            if i >= head.len() {
                assert(all[i] == tail[i - head.len()]);
            }
        }
    }
}

/// The part before the first separator is determined.
proof fn lemma_split_at_separator(a: Seq<u8>, x: Seq<u8>, b: Seq<u8>, y: Seq<u8>)
    requires
        !a.contains(SEP),
        !b.contains(SEP),
        a + seq![SEP] + x == b + seq![SEP] + y,
    ensures
        a == b,
        x == y,
{
    let l = a + seq![SEP] + x;
    let r = b + seq![SEP] + y;
    assert(l[a.len() as int] == SEP);
    assert(r[b.len() as int] == SEP);
    if a.len() < b.len() {
        assert(b[a.len() as int] == r[a.len() as int]);
    } else if b.len() < a.len() {
        assert(a[b.len() as int] == l[b.len() as int]);
    }
    assert(a =~= l.take(a.len() as int));
    assert(b =~= r.take(a.len() as int));
    assert(x =~= l.skip(a.len() as int + 1));
    assert(y =~= r.skip(a.len() as int + 1));
}

proof fn lemma_utf8_injective(a: Seq<char>, b: Seq<char>)
    requires
        vstd::utf8::encode_utf8(a) == vstd::utf8::encode_utf8(b),
    ensures
        a == b,
{
    vstd::utf8::encode_utf8_decode_utf8(a);
    vstd::utf8::encode_utf8_decode_utf8(b);
}

/// Component boundaries are unambiguous: identifiers that are free of the
/// separator character have the same hash input only if they are the same.
pub proof fn law_components_unambiguous(a: FactsModel, b: FactsModel)
    requires
        !a.board_serial.contains('\u{1f}'),
        !a.platform_uuid.contains('\u{1f}'),
        !b.board_serial.contains('\u{1f}'),
        !b.platform_uuid.contains('\u{1f}'),
        fingerprint_input(a) == fingerprint_input(b),
    ensures
        a == b,
{
    let (a1, b1) = (vstd::utf8::encode_utf8(a.board_serial), vstd::utf8::encode_utf8(b.board_serial));
    let (a2, b2) = (
        vstd::utf8::encode_utf8(a.platform_uuid),
        vstd::utf8::encode_utf8(b.platform_uuid),
    );
    let (a3, b3) = (vstd::utf8::encode_utf8(a.disk_serial), vstd::utf8::encode_utf8(b.disk_serial));
    lemma_no_separator(a.board_serial);
    lemma_no_separator(b.board_serial);
    lemma_no_separator(a.platform_uuid);
    lemma_no_separator(b.platform_uuid);
    let ax = a2 + seq![SEP] + a3;
    let bx = b2 + seq![SEP] + b3;
    assert(fingerprint_input(a) =~= a1 + seq![SEP] + ax);
    assert(fingerprint_input(b) =~= b1 + seq![SEP] + bx);
    lemma_split_at_separator(a1, ax, b1, bx);
    lemma_split_at_separator(a2, a3, b2, b3);
    lemma_utf8_injective(a.board_serial, b.board_serial);
    lemma_utf8_injective(a.platform_uuid, b.platform_uuid);
    lemma_utf8_injective(a.disk_serial, b.disk_serial);
}

proof fn lemma_trimmed_ends(s: Seq<char>)
    ensures
        text::trimmed(s).len() > 0 ==> !text::white_space(text::trimmed(s)[0])
            && !text::white_space(text::trimmed(s).last()),
{
    lemma_trim_start_first(s);
    lemma_trim_end_last(text::trim_start(s));
}

proof fn lemma_trim_start_first(s: Seq<char>)
    ensures
        text::trim_start(s).len() > 0 ==> !text::white_space(text::trim_start(s)[0]),
    decreases s.len(),
{
    if s.len() > 0 && text::white_space(s[0]) {
        lemma_trim_start_first(s.drop_first());
    }
}

proof fn lemma_trim_end_last(s: Seq<char>)
    ensures
        text::trim_end(s).len() > 0 ==> !text::white_space(text::trim_end(s).last())
            && text::trim_end(s)[0] == s[0],
    decreases s.len(),
{
    if s.len() > 0 && text::white_space(s.last()) {
        lemma_trim_end_last(s.drop_last());
    }
}

/// Normalisation is stable: a second round changes nothing.
pub proof fn law_normal_idempotent(s: Seq<char>)
    ensures
        normal(normal(s)) == normal(s),
{
    let t = text::trimmed(s);
    let n = normal(s);
    lemma_trimmed_ends(s);
    assert(n.len() == t.len());
    if n.len() > 0 {
        assert(n[0] == text::ascii_upper_char(t[0]));
        assert(n.last() == text::ascii_upper_char(t.last()));
        assert(!text::white_space(n[0]));
        assert(!text::white_space(n.last()));
    }
    assert(text::trim_start(n) == n);
    assert(text::trim_end(n) == n);
    assert(text::ascii_upper(n) =~= n) by {
        assert forall|i: int| 0 <= i < n.len() implies text::ascii_upper(n)[i] == n[i] by {
            assert(n[i] == text::ascii_upper_char(t[i]));
        }
    }
}

/// The fingerprint of a machine does not depend on whether its identifiers
/// were normalised before.
pub proof fn law_fingerprint_stable(f: FactsModel)
    ensures
        fingerprint_of(f.normalised()) == fingerprint_of(f),
{
    law_normal_idempotent(f.board_serial);
    law_normal_idempotent(f.platform_uuid);
    law_normal_idempotent(f.disk_serial);
}

/// The value on a line of the form `"key" = "value"`, if there is one and it
/// is not empty.
pub open spec fn quoted_property(line: Seq<char>, key: Seq<char>) -> Option<Seq<char>> {
    let needle = seq!['"'] + key + seq!['"'];
    if !text::begins_with(line, needle) {
        None
    } else {
        let rest = line.skip(needle.len() as int);
        let eq = text::next_char(rest, '=', 0);
        if eq >= rest.len() {
            None
        } else {
            let v = text::trim_char_end(
                text::trim_char_start(text::trimmed(rest.skip(eq + 1)), '"'),
                '"',
            );
            if v.len() == 0 {
                None
            } else {
                Some(v)
            }
        }
    }
}

/// The value of the first line, from position `from` on, that has one for
/// `key`.
pub open spec fn property_from(s: Seq<char>, key: Seq<char>, from: nat) -> Option<Seq<char>>
    decreases s.len() + 1 - from,
{
    if from > s.len() {
        None
    } else {
        let end = text::next_char(s, '\n', from as int);
        match quoted_property(text::trimmed(s.subrange(from as int, end)), key) {
            Some(v) => Some(v),
            None => if from <= end < s.len() {
                property_from(s, key, (end + 1) as nat)
            } else {
                None
            },
        }
    }
}

/// The value of a property in the output of `ioreg`: the first line
/// `"key" = "value"` with a value that is not empty.
pub fn prop(s: &str, key: &str) -> (r: Option<String>)
    ensures
        text::option_view(r) == property_from(s@, key@, 0),
{
    let mut needle = text::joined("\"", key);
    needle.append("\"");
    proof {
        reveal_strlit("\"");
        assert(needle@ =~= seq!['"'] + key@ + seq!['"']);
    }
    let n: usize = s.unicode_len();
    let mut from: usize = 0;
    loop
        invariant
            from <= n == s@.len(),
            needle@ == seq!['"'] + key@ + seq!['"'],
            property_from(s@, key@, 0) == property_from(s@, key@, from as nat),
        decreases n - from,
    {
        let end: usize = text::find_char(s, '\n', from);
        let line = text::trim(s.substring_char(from, end));
        if let Some(rest) = text::strip_prefix(line, needle.as_str()) {
            let len: usize = rest.unicode_len();
            let eq: usize = text::find_char(rest, '=', 0);
            if eq < len {
                let tail = rest.substring_char(eq + 1, len);
                assert(tail@ =~= rest@.skip(eq + 1));
                let v = text::trim_matches(text::trim(tail), '"');
                if !v.is_empty() {
                    return Some(v.to_owned());
                }
            }
        }
        if end >= n {
            return None;
        }
        from = end + 1;
    }
}

/// Whether an identifier is one of the fillers that firmware ships instead of
/// a real one.
pub open spec fn placeholder(v: Seq<char>) -> bool {
    let n = normal(v);
    ||| n == ""@
    ||| n == "TO BE FILLED BY O.E.M."@
    ||| n == "DEFAULT STRING"@
    ||| n == "SYSTEM SERIAL NUMBER"@
    ||| n == "NONE"@
    ||| n == "NOT SPECIFIED"@
    ||| n == "NOT APPLICABLE"@
    ||| n == "0"@
    ||| n == "00000000-0000-0000-0000-000000000000"@
    ||| n == "FFFFFFFF-FFFF-FFFF-FFFF-FFFFFFFFFFFF"@
}

/// Whether an identifier is one of the fillers that firmware ships instead of
/// a real one.
pub fn is_placeholder(v: &str) -> (r: bool)
    ensures
        r == placeholder(v@),
{
    let n = normalise(v);
    let n = n.as_str();
    text::same_text(n, "") || text::same_text(n, "TO BE FILLED BY O.E.M.") || text::same_text(
        n,
        "DEFAULT STRING",
    ) || text::same_text(n, "SYSTEM SERIAL NUMBER") || text::same_text(n, "NONE")
        || text::same_text(n, "NOT SPECIFIED") || text::same_text(n, "NOT APPLICABLE")
        || text::same_text(n, "0") || text::same_text(n, "00000000-0000-0000-0000-000000000000")
        || text::same_text(n, "FFFFFFFF-FFFF-FFFF-FFFF-FFFFFFFFFFFF")
}

/// What follows `key=` on the first line, from position `from` on, that begins
/// with it.
pub open spec fn assigned_from(s: Seq<char>, key: Seq<char>, from: nat) -> Option<Seq<char>>
    decreases s.len() + 1 - from,
{
    if from > s.len() {
        None
    } else {
        let end = text::next_char(s, '\n', from as int);
        let line = text::trimmed(s.subrange(from as int, end));
        let prefix = key + seq!['='];
        if text::begins_with(line, prefix) {
            Some(text::trimmed(line.skip(prefix.len() as int)))
        } else if from <= end < s.len() {
            assigned_from(s, key, (end + 1) as nat)
        } else {
            None
        }
    }
}

/// The value of `key` in lines `key=value`; a filler counts as none.
pub open spec fn assigned(s: Seq<char>, key: Seq<char>) -> Option<Seq<char>> {
    match assigned_from(s, key, 0) {
        Some(v) => if placeholder(v) {
            None
        } else {
            Some(v)
        },
        None => None,
    }
}

/// The value of `key` in lines `key=value`; a filler counts as none.
pub fn val(s: &str, key: &str) -> (r: Option<String>)
    ensures
        text::option_view(r) == assigned(s@, key@),
{
    let prefix = text::joined(key, "=");
    proof {
        reveal_strlit("=");
        assert(prefix@ =~= key@ + seq!['=']);
    }
    let n: usize = s.unicode_len();
    let mut from: usize = 0;
    loop
        invariant
            from <= n == s@.len(),
            prefix@ == key@ + seq!['='],
            assigned_from(s@, key@, 0) == assigned_from(s@, key@, from as nat),
        decreases n - from,
    {
        let end: usize = text::find_char(s, '\n', from);
        let line = text::trim(s.substring_char(from, end));
        if let Some(rest) = text::strip_prefix(line, prefix.as_str()) {
            let v = text::trim(rest);
            if is_placeholder(v) {
                return None;
            }
            return Some(v.to_owned());
        }
        if end >= n {
            return None;
        }
        from = end + 1;
    }
}

/// The outcome of asking for a required identifier.
pub open spec fn required(v: Option<Seq<char>>, name: Seq<char>) -> Result<Seq<char>, Seq<char>> {
    match v {
        Some(x) => Ok(x),
        None => Err(name),
    }
}

/// Facts from three identifiers, or the name of the first one that is absent.
pub open spec fn facts_from(
    first: Result<Seq<char>, Seq<char>>,
    second: Result<Seq<char>, Seq<char>>,
    third: Result<Seq<char>, Seq<char>>,
) -> Result<(Seq<char>, Seq<char>, Seq<char>), Seq<char>> {
    match (first, second, third) {
        (Err(e), _, _) => Err(e),
        (Ok(_), Err(e), _) => Err(e),
        (Ok(_), Ok(_), Err(e)) => Err(e),
        (Ok(a), Ok(b), Ok(c)) => Ok((a, b, c)),
    }
}

/// The facts in the output of `ioreg` for the platform and for the disk.
pub fn macos_facts(platform: &str, nvme: &str) -> (r: Result<MachineFacts, MachineIdError>)
    ensures
        ({
            let read = facts_from(
                required(
                    property_from(platform@, "IOPlatformSerialNumber"@, 0),
                    "IOPlatformSerialNumber"@,
                ),
                required(property_from(platform@, "IOPlatformUUID"@, 0), "IOPlatformUUID"@),
                required(property_from(nvme@, "Serial Number"@, 0), "NVMe Serial Number"@),
            );
            match r {
                Ok(f) => read == Ok::<_, Seq<char>>(
                    (f@.board_serial, f@.platform_uuid, f@.disk_serial),
                ),
                Err(e) => e matches MachineIdError::Unavailable(m) && read == Err::<
                    (Seq<char>, Seq<char>, Seq<char>),
                    _,
                >(m@),
            }
        }),
{
    let board_serial = match prop(platform, "IOPlatformSerialNumber") {
        Some(v) => v,
        None => return Err(MachineIdError::Unavailable("IOPlatformSerialNumber".to_owned())),
    };
    let platform_uuid = match prop(platform, "IOPlatformUUID") {
        Some(v) => v,
        None => return Err(MachineIdError::Unavailable("IOPlatformUUID".to_owned())),
    };
    let disk_serial = match prop(nvme, "Serial Number") {
        Some(v) => v,
        None => return Err(MachineIdError::Unavailable("NVMe Serial Number".to_owned())),
    };
    Ok(MachineFacts { board_serial, platform_uuid, disk_serial })
}

/// The facts in the output of the Windows query. The product number stands in
/// for a board serial that is absent or a filler.
pub fn windows_facts(output: &str) -> (r: Result<MachineFacts, MachineIdError>)
    ensures
        ({
            let board = match assigned(output@, "board"@) {
                Some(v) => Some(v),
                None => assigned(output@, "product"@),
            };
            let read = facts_from(
                required(
                    assigned(output@, "uuid"@),
                    "SMBIOS system UUID (Win32_ComputerSystemProduct.UUID)"@,
                ),
                required(board, "baseboard / product serial"@),
                required(
                    assigned(output@, "disk"@),
                    "boot disk serial (Win32_DiskDrive.SerialNumber)"@,
                ),
            );
            match r {
                Ok(f) => read == Ok::<_, Seq<char>>(
                    (f@.platform_uuid, f@.board_serial, f@.disk_serial),
                ),
                Err(e) => e matches MachineIdError::Unavailable(m) && read == Err::<
                    (Seq<char>, Seq<char>, Seq<char>),
                    _,
                >(m@),
            }
        }),
{
    let platform_uuid = match val(output, "uuid") {
        Some(v) => v,
        None => {
            return Err(
                MachineIdError::Unavailable(
                    "SMBIOS system UUID (Win32_ComputerSystemProduct.UUID)".to_owned(),
                ),
            );
        },
    };
    let board = match val(output, "board") {
        Some(v) => Some(v),
        None => val(output, "product"),
    };
    let board_serial = match board {
        Some(v) => v,
        None => return Err(MachineIdError::Unavailable("baseboard / product serial".to_owned())),
    };
    let disk_serial = match val(output, "disk") {
        Some(v) => v,
        None => {
            return Err(
                MachineIdError::Unavailable(
                    "boot disk serial (Win32_DiskDrive.SerialNumber)".to_owned(),
                ),
            );
        },
    };
    Ok(MachineFacts { board_serial, platform_uuid, disk_serial })
}

/// The contents of a small system file: trimmed, and none if nothing is left.
pub open spec fn file_value(contents: Option<Seq<char>>) -> Option<Seq<char>> {
    match contents {
        Some(s) => if text::trimmed(s).len() == 0 {
            None
        } else {
            Some(text::trimmed(s))
        },
        None => None,
    }
}

/// The contents of a small system file: trimmed, and none if nothing is left.
pub fn read_trim(contents: Option<String>) -> (r: Option<String>)
    ensures
        text::option_view(r) == file_value(text::option_view(contents)),
{
    match contents {
        Some(s) => {
            let t = text::trim(s.as_str());
            if t.is_empty() {
                None
            } else {
                Some(t.to_owned())
            }
        },
        None => None,
    }
}

/// The facts in the DMI files. The product serial stands in for a board serial
/// that cannot be read; the disk serial may be absent.
pub fn linux_facts(
    board: Option<String>,
    product: Option<String>,
    uuid: Option<String>,
    disk: Option<String>,
) -> (r: Result<MachineFacts, MachineIdError>)
    ensures
        ({
            let serial = match file_value(text::option_view(board)) {
                Some(v) => Some(v),
                None => file_value(text::option_view(product)),
            };
            let read = facts_from(
                required(serial, "DMI board/product serial (needs root?)"@),
                required(
                    file_value(text::option_view(uuid)),
                    "DMI product_uuid (needs root?)"@,
                ),
                Ok(
                    match disk {
                        Some(d) => d@,
                        None => Seq::empty(),
                    },
                ),
            );
            match r {
                Ok(f) => read == Ok::<_, Seq<char>>(
                    (f@.board_serial, f@.platform_uuid, f@.disk_serial),
                ),
                Err(e) => e matches MachineIdError::Unavailable(m) && read == Err::<
                    (Seq<char>, Seq<char>, Seq<char>),
                    _,
                >(m@),
            }
        }),
{
    let serial = match read_trim(board) {
        Some(v) => Some(v),
        None => read_trim(product),
    };
    let board_serial = match serial {
        Some(v) => v,
        None => {
            return Err(
                MachineIdError::Unavailable("DMI board/product serial (needs root?)".to_owned()),
            );
        },
    };
    let platform_uuid = match read_trim(uuid) {
        Some(v) => v,
        None => {
            return Err(MachineIdError::Unavailable("DMI product_uuid (needs root?)".to_owned()));
        },
    };
    let disk_serial = match disk {
        Some(d) => d,
        None => String::new(),
    };
    Ok(MachineFacts { board_serial, platform_uuid, disk_serial })
}

/// What the system says of a block device: its name and the contents of the
/// files that could be read.
#[derive(Debug)]
pub struct BlockDevice {
    /// Name under `/sys/block`.
    pub name: String,
    /// `removable`.
    pub removable: Option<String>,
    /// `device/serial`.
    pub serial: Option<String>,
    /// `device/../serial`, where NVMe controllers keep theirs.
    pub controller_serial: Option<String>,
}

/// The serial that a device contributes: none if it is virtual or removable.
pub open spec fn device_serial(d: BlockDevice) -> Option<Seq<char>> {
    if text::begins_with(d.name@, "loop"@) || text::begins_with(d.name@, "ram"@)
        || text::begins_with(d.name@, "dm-"@) {
        None
    } else if file_value(text::option_view(d.removable)) == Some("1"@) {
        None
    } else {
        match file_value(text::option_view(d.serial)) {
            Some(v) => Some(v),
            None => file_value(text::option_view(d.controller_serial)),
        }
    }
}

/// Whether `a` comes before `b` in the order of code points.
pub open spec fn before(a: Seq<char>, b: Seq<char>) -> bool
    decreases a.len(),
{
    if b.len() == 0 {
        false
    } else if a.len() == 0 {
        true
    } else if a[0] == b[0] {
        before(a.drop_first(), b.drop_first())
    } else {
        a[0] < b[0]
    }
}

fn text_before(a: &str, b: &str) -> (r: bool)
    ensures
        r == before(a@, b@),
{
    let n: usize = a.unicode_len();
    let m: usize = b.unicode_len();
    let mut i: usize = 0;
    assert(a@.skip(0) =~= a@);
    assert(b@.skip(0) =~= b@);
    loop
        invariant
            i <= n == a@.len(),
            i <= m == b@.len(),
            before(a@, b@) == before(a@.skip(i as int), b@.skip(i as int)),
        decreases n - i,
    {
        if i >= m {
            return false;
        }
        if i >= n {
            return true;
        }
        let x = a.get_char(i);
        let y = b.get_char(i);
        if x != y {
            return x < y;
        }
        assert(a@.skip(i as int).drop_first() =~= a@.skip(i + 1));
        assert(b@.skip(i as int).drop_first() =~= b@.skip(i + 1));
        i += 1;
    }
}

proof fn lemma_before_transitive(a: Seq<char>, b: Seq<char>, c: Seq<char>)
    requires
        !before(b, a),
        !before(c, b),
    ensures
        !before(c, a),
    decreases a.len(),
{
    if c.len() > 0 && a.len() > 0 && b.len() > 0 && a[0] == b[0] && b[0] == c[0] {
        lemma_before_transitive(a.drop_first(), b.drop_first(), c.drop_first());
    }
}

proof fn lemma_before_asymmetric(a: Seq<char>, b: Seq<char>)
    requires
        before(a, b),
    ensures
        !before(b, a),
    decreases a.len(),
{
    if a.len() > 0 && b.len() > 0 && a[0] == b[0] {
        lemma_before_asymmetric(a.drop_first(), b.drop_first());
    }
}

fn contributed(d: &BlockDevice) -> (r: Option<String>)
    ensures
        text::option_view(r) == device_serial(*d),
{
    let name = d.name.as_str();
    if text::strip_prefix(name, "loop").is_some() || text::strip_prefix(name, "ram").is_some()
        || text::strip_prefix(name, "dm-").is_some() {
        return None;
    }
    if let Some(flag) = read_trim(text::copy_option(&d.removable)) {
        if text::same_text(flag.as_str(), "1") {
            return None;
        }
    }
    match read_trim(text::copy_option(&d.serial)) {
        Some(v) => Some(v),
        None => read_trim(text::copy_option(&d.controller_serial)),
    }
}

/// The serial of the boot disk: that of the first device by name that is
/// neither virtual nor removable and has one.
pub fn disk_serial(devices: &Vec<BlockDevice>) -> (r: Option<String>)
    ensures
        match r {
            Some(v) => exists|i: int|
                0 <= i < devices@.len() && device_serial(#[trigger] devices@[i]) == Some(v@)
                    && forall|j: int|
                    0 <= j < devices@.len() && device_serial(#[trigger] devices@[j]) is Some
                        ==> !before(devices@[j].name@, devices@[i].name@),
            None => forall|i: int|
                0 <= i < devices@.len() ==> device_serial(#[trigger] devices@[i]) is None,
        },
{
    let mut best: Option<(usize, String)> = None;
    let mut i: usize = 0;
    while i < devices.len()
        invariant
            i <= devices@.len(),
            match best {
                Some((b, v)) => b < i && device_serial(devices@[b as int]) == Some(v@)
                    && forall|j: int|
                    0 <= j < i && device_serial(#[trigger] devices@[j]) is Some ==> !before(
                        devices@[j].name@,
                        devices@[b as int].name@,
                    ),
                None => forall|j: int|
                    0 <= j < i ==> device_serial(#[trigger] devices@[j]) is None,
            },
        decreases devices@.len() - i,
    {
        let d = &devices[i];
        if let Some(v) = contributed(d) {
            let better: bool = match &best {
                Some((b, _)) => text_before(d.name.as_str(), devices[*b].name.as_str()),
                None => true,
            };
            if better {
                proof {
                    assert(!before(d.name@, d.name@)) by {
                        if before(d.name@, d.name@) {
                            lemma_before_asymmetric(d.name@, d.name@);
                        }
                    }
                    if let Some((b, _)) = best {
                        let old_name = devices@[b as int].name@;
                        lemma_before_asymmetric(d.name@, old_name);
                        assert forall|j: int|
                            0 <= j < i + 1 && device_serial(
                                #[trigger] devices@[j],
                            ) is Some implies !before(devices@[j].name@, d.name@) by {
                            if j < i {
                                lemma_before_transitive(d.name@, old_name, devices@[j].name@);
                            }
                        }
                    }
                }
                best = Some((i, v));
            }
        }
        i += 1;
    }
    match best {
        Some((_, v)) => Some(v),
        None => None,
    }
}

proof fn lemma_property_behind(p: Seq<char>, s: Seq<char>, key: Seq<char>, from: nat)
    requires
        from <= s.len(),
    ensures
        property_from(p + s, key, (p.len() + from) as nat) == property_from(s, key, from),
    decreases s.len() - from,
{
    let t = p + s;
    let end = text::next_char(s, '\n', from as int);
    text::lemma_next_char_behind(p, s, '\n', from as int);
    assert(t.subrange((p.len() + from) as int, p.len() + end) =~= s.subrange(from as int, end));
    if end < s.len() {
        lemma_property_behind(p, s, key, (end + 1) as nat);
    }
}

/// A property is looked for line by line: the first line that holds it gives
/// its value, and a line that does not is passed over.
pub proof fn law_property_by_lines(line: Seq<char>, rest: Seq<char>, key: Seq<char>)
    requires
        text::lacks(line, '\n'),
    ensures
        property_from(line, key, 0) == quoted_property(text::trimmed(line), key),
        property_from(line + seq!['\n'] + rest, key, 0) == match quoted_property(
            text::trimmed(line),
            key,
        ) {
            Some(v) => Some(v),
            None => property_from(rest, key, 0),
        },
{
    let s = line + seq!['\n'] + rest;
    let n = line.len() as int;
    assert forall|i: int| 0 <= i < n implies #[trigger] s[i] != '\n' by {
        assert(s[i] == line[i]);
    }
    assert(s[n] == '\n');
    text::lemma_next_char_is(s, '\n', 0, n);
    text::lemma_next_char_is(line, '\n', 0, n);
    assert(s.subrange(0, n) =~= line);
    assert(line.subrange(0, n) =~= line);
    assert(s =~= (line + seq!['\n']) + rest);
    lemma_property_behind(line + seq!['\n'], rest, key, 0);
}

/// A line `"key" = "value"` holds this value for this key.
pub proof fn law_property_read(key: Seq<char>, value: Seq<char>)
    requires
        value.len() > 0,
        value[0] != '"',
        value.last() != '"',
    ensures
        quoted_property(
            seq!['"'] + key + seq!['"'] + (seq![' ', '=', ' '] + (seq!['"'] + value + seq!['"'])),
            key,
        ) == Some(value),
{
    let needle = seq!['"'] + key + seq!['"'];
    let quoted = seq!['"'] + value + seq!['"'];
    let rest = seq![' ', '=', ' '] + quoted;
    let line = needle + rest;
    assert(line.take(needle.len() as int) =~= needle);
    assert(line.skip(needle.len() as int) =~= rest);
    assert(rest[0] == ' ' && rest[1] == '=');
    text::lemma_next_char_is(rest, '=', 0, 1);
    let blank = seq![' '];
    let none = Seq::<char>::empty();
    assert(rest.skip(2) =~= blank + quoted + none);
    assert(quoted[0] == '"' && quoted.last() == '"');
    text::law_trimmed(blank, quoted, none);
    text::law_trimmed_of_char(seq!['"'], value, seq!['"'], '"');
}

proof fn lemma_assigned_behind(p: Seq<char>, s: Seq<char>, key: Seq<char>, from: nat)
    requires
        from <= s.len(),
    ensures
        assigned_from(p + s, key, (p.len() + from) as nat) == assigned_from(s, key, from),
    decreases s.len() - from,
{
    let t = p + s;
    let end = text::next_char(s, '\n', from as int);
    text::lemma_next_char_behind(p, s, '\n', from as int);
    assert(t.subrange((p.len() + from) as int, p.len() + end) =~= s.subrange(from as int, end));
    if end < s.len() {
        lemma_assigned_behind(p, s, key, (end + 1) as nat);
    }
}

/// A value is looked for line by line: the first line that assigns the key
/// gives it, with white space around it taken off, and a line that does not
/// assign the key is passed over.
pub proof fn law_assignment_by_lines(line: Seq<char>, rest: Seq<char>, key: Seq<char>)
    requires
        text::lacks(line, '\n'),
    ensures
        text::begins_with(text::trimmed(line), key + seq!['=']) ==> assigned_from(
            line + seq!['\n'] + rest,
            key,
            0,
        ) == Some(text::trimmed(text::trimmed(line).skip(key.len() as int + 1))),
        !text::begins_with(text::trimmed(line), key + seq!['=']) ==> assigned_from(
            line + seq!['\n'] + rest,
            key,
            0,
        ) == assigned_from(rest, key, 0) && assigned_from(line, key, 0) is None,
{
    let s = line + seq!['\n'] + rest;
    let n = line.len() as int;
    assert forall|i: int| 0 <= i < n implies #[trigger] s[i] != '\n' by {
        assert(s[i] == line[i]);
    }
    assert(s[n] == '\n');
    text::lemma_next_char_is(s, '\n', 0, n);
    text::lemma_next_char_is(line, '\n', 0, n);
    assert(s.subrange(0, n) =~= line);
    assert(line.subrange(0, n) =~= line);
    assert(s =~= (line + seq!['\n']) + rest);
    lemma_assigned_behind(line + seq!['\n'], rest, key, 0);
}

/// What a small system file holds is its text without the white space around
/// it, such as the end of the line, and a blank file holds nothing.
pub proof fn law_file_value(before: Seq<char>, t: Seq<char>, after: Seq<char>)
    requires
        text::blank(before),
        text::blank(after),
        t.len() > 0 ==> !text::white_space(t[0]) && !text::white_space(t.last()),
    ensures
        file_value(Some(before + t + after)) == if t.len() > 0 {
            Some(t)
        } else {
            None
        },
        file_value(None) is None,
{
    text::law_trimmed(before, t, after);
}

/// A virtual or removable device contributes nothing. Any other contributes its
/// own serial, or that of its controller where it has none.
pub proof fn law_device_serial(d: BlockDevice)
    ensures
        text::begins_with(d.name@, "loop"@) || text::begins_with(d.name@, "ram"@)
            || text::begins_with(d.name@, "dm-"@) ==> device_serial(d) is None,
        file_value(text::option_view(d.removable)) == Some("1"@) ==> device_serial(d) is None,
        device_serial(d) matches Some(v) ==> Some(v) == file_value(text::option_view(d.serial)) || (
        file_value(text::option_view(d.serial)) is None && Some(v) == file_value(
            text::option_view(d.controller_serial),
        )),
        !(text::begins_with(d.name@, "loop"@) || text::begins_with(d.name@, "ram"@)
            || text::begins_with(d.name@, "dm-"@)) && file_value(text::option_view(d.removable))
            != Some("1"@) && (file_value(text::option_view(d.serial)) is Some || file_value(
            text::option_view(d.controller_serial),
        ) is Some) ==> device_serial(d) is Some,
{
}

/// Names are in one strict order: of two that differ one comes first, and what
/// begins with another comes after it.
pub proof fn law_name_order(a: Seq<char>, b: Seq<char>)
    ensures
        !before(a, a),
        before(a, b) || before(b, a) || a == b,
        before(a, b) ==> !before(b, a),
        b.len() > 0 ==> before(a, a + b),
    decreases a.len(),
{
    if before(a, b) {
        lemma_before_asymmetric(a, b);
    }
    if a.len() > 0 {
        law_name_order(a.drop_first(), b);
        assert((a + b).drop_first() =~= a.drop_first() + b);
        if b.len() > 0 {
            law_name_order(a.drop_first(), b.drop_first());
            if a[0] == b[0] && a.drop_first() == b.drop_first() {
                assert(a =~= seq![a[0]] + a.drop_first());
                assert(b =~= seq![b[0]] + b.drop_first());
            }
        }
    } else if b.len() == 0 {
        assert(a =~= b);
    }
}

/// A filler in any case and with white space around it is still a filler, and
/// so is a text of white space.
pub proof fn law_filler_in_any_case(s: Seq<char>)
    ensures
        placeholder(normal(s)) <==> placeholder(s),
        normal(s).len() == 0 ==> placeholder(s),
{
    law_normal_idempotent(s);
    reveal_strlit("");
    if normal(s).len() == 0 {
        assert(normal(s) =~= ""@);
    }
}

/// The board's own serial goes before the product's, which stands in for it,
/// and board and platform are needed where the disk is not. `r` is what
/// [`linux_facts`] gives.
pub proof fn law_board_before_product(
    board: Option<String>,
    product: Option<String>,
    uuid: Option<String>,
    disk: Option<String>,
    r: Result<MachineFacts, MachineIdError>,
)
    requires
        call_ensures(linux_facts, (board, product, uuid, disk), r),
    ensures
        r is Ok <==> file_value(text::option_view(uuid)) is Some && (file_value(
            text::option_view(board),
        ) is Some || file_value(text::option_view(product)) is Some),
        r matches Ok(f) ==> {
            &&& Some(f@.platform_uuid) == file_value(text::option_view(uuid))
            &&& file_value(text::option_view(board)) is Some ==> Some(f@.board_serial)
                == file_value(text::option_view(board))
            &&& file_value(text::option_view(board)) is None ==> Some(f@.board_serial)
                == file_value(text::option_view(product))
            &&& disk matches Some(d) ==> f@.disk_serial == d@
            &&& disk is None ==> f@.disk_serial.len() == 0
        },
{
}

/// Each fact is read from the property that is named after it, and none may be
/// missing. `r` is what [`macos_facts`] gives.
pub proof fn law_platform_properties(
    platform: &str,
    nvme: &str,
    r: Result<MachineFacts, MachineIdError>,
)
    requires
        call_ensures(macos_facts, (platform, nvme), r),
    ensures
        r is Ok <==> property_from(platform@, "IOPlatformSerialNumber"@, 0) is Some
            && property_from(platform@, "IOPlatformUUID"@, 0) is Some && property_from(
            nvme@,
            "Serial Number"@,
            0,
        ) is Some,
        r matches Ok(f) ==> {
            &&& Some(f@.board_serial) == property_from(platform@, "IOPlatformSerialNumber"@, 0)
            &&& Some(f@.platform_uuid) == property_from(platform@, "IOPlatformUUID"@, 0)
            &&& Some(f@.disk_serial) == property_from(nvme@, "Serial Number"@, 0)
        },
{
}

/// Each fact is read from the line that assigns it, the product's number stands
/// in for the board's, and none may be missing or a filler. `r` is what
/// [`windows_facts`] gives.
pub proof fn law_query_lines(output: &str, r: Result<MachineFacts, MachineIdError>)
    requires
        call_ensures(windows_facts, (output,), r),
    ensures
        r is Ok <==> assigned(output@, "uuid"@) is Some && (assigned(output@, "board"@) is Some
            || assigned(output@, "product"@) is Some) && assigned(output@, "disk"@) is Some,
        r matches Ok(f) ==> {
            &&& Some(f@.platform_uuid) == assigned(output@, "uuid"@)
            &&& Some(f@.disk_serial) == assigned(output@, "disk"@)
            &&& Some(f@.board_serial) == assigned(output@, "board"@) || (assigned(
                output@,
                "board"@,
            ) is None && Some(f@.board_serial) == assigned(output@, "product"@))
            &&& !placeholder(f@.board_serial) && !placeholder(f@.platform_uuid) && !placeholder(
                f@.disk_serial,
            )
        },
{
}

/// The disk that counts is the first by name of those that have a serial. `r` is
/// what [`disk_serial`] gives.
pub proof fn law_first_disk_counts(devices: &Vec<BlockDevice>, i: int, r: Option<String>)
    requires
        call_ensures(disk_serial, (devices,), r),
        0 <= i < devices@.len(),
        device_serial(devices@[i]) is Some,
        forall|j: int|
            0 <= j < devices@.len() && j != i && device_serial(#[trigger] devices@[j]) is Some
                ==> before(devices@[i].name@, devices@[j].name@),
    ensures
        text::option_view(r) == device_serial(devices@[i]),
{
    let v = r->0;
    let k = choose|k: int|
        0 <= k < devices@.len() && device_serial(#[trigger] devices@[k]) == Some(v@) && forall|
            j: int,
        |
            0 <= j < devices@.len() && device_serial(#[trigger] devices@[j]) is Some ==> !before(
                devices@[j].name@,
                devices@[k].name@,
            );
    assert(device_serial(devices@[i]) is Some);
    if k != i {
        assert(before(devices@[i].name@, devices@[k].name@));
    }
}

} // verus!
