//! Pins on the public keys of server certificates.
//!
//! A client accepts a server by the digest of its public-key information alone;
//! no authority stands behind it.

use vstd::prelude::*;
use vstd::string::StringExecFns;
use crate::primitives::bytes::{ct_bytes_equal, take_array};
use crate::primitives::x509;
use crate::primitives::{encoding, hash, text};

verus! {

/// Size of a pin in bytes.
pub const SPKI_PIN_LEN: usize = 48;

/// The SHA-384 digest of a certificate's public-key information.
#[derive(Debug, Clone, Copy, PartialEq, Eq, Hash)]
pub struct SpkiPin([u8; 48]);

impl View for SpkiPin {
    type V = Seq<u8>;

    closed spec fn view(&self) -> Seq<u8> {
        self.0@
    }
}

/// Why there is no pin.
#[derive(Debug)]
pub enum PinError {
    /// The certificate does not parse.
    CertParse(String),
    /// The text is no pin in hexadecimal.
    HexDecode(String),
}

/// The pin that a text holds, or why it holds none.
pub open spec fn pin_of_text(s: Seq<char>) -> Result<Seq<u8>, Seq<char>> {
    let b = vstd::utf8::encode_utf8(text::trimmed(s));
    if !encoding::is_hex(b) {
        Err(encoding::hex_fault_text(b))
    } else if encoding::hex_value(b).len() != SPKI_PIN_LEN {
        Err("expected 48 bytes"@)
    } else {
        Ok(encoding::hex_value(b))
    }
}

/// The pin of a certificate, or why it has none.
pub open spec fn pin_of_certificate(der: Seq<u8>) -> Result<Seq<u8>, Seq<char>> {
    match x509::x509_facts(der) {
        Ok(c) => Ok(hash::sha384_of(c.spki)@),
        Err(e) => Err(e),
    }
}

impl PinError {
    /// What the error says.
    pub open spec fn text(&self) -> Seq<char> {
        match self {
            PinError::CertParse(m) => "certificate DER parse failed: "@ + m@,
            PinError::HexDecode(m) => "invalid SHA-384 hex pin: "@ + m@,
        }
    }

    /// The error in words.
    pub fn message(&self) -> (r: String)
        ensures
            r@ == self.text(),
    {
        match self {
            PinError::CertParse(m) => text::joined("certificate DER parse failed: ", m.as_str()),
            PinError::HexDecode(m) => text::joined("invalid SHA-384 hex pin: ", m.as_str()),
        }
    }
}

impl SpkiPin {
    /// A pin from its bytes.
    pub fn from_bytes(bytes: [u8; 48]) -> (r: Self)
        ensures
            r@ == bytes@,
    {
        SpkiPin(bytes)
    }

    /// A pin from hexadecimal digits in either case, with white space around
    /// them.
    pub fn from_hex(s: &str) -> (r: Result<Self, PinError>)
        ensures
            match r {
                Ok(p) => pin_of_text(s@) == Ok::<_, Seq<char>>(p@),
                Err(e) => e matches PinError::HexDecode(m) && pin_of_text(s@) == Err::<Seq<u8>, _>(
                    m@,
                ),
            },
    {
        let raw = match encoding::hex_decode(text::trim(s).as_bytes()) {
            Ok(v) => v,
            Err(e) => return Err(PinError::HexDecode(e)),
        };
        if raw.len() != SPKI_PIN_LEN {
            return Err(PinError::HexDecode("expected 48 bytes".to_owned()));
        }
        let arr: [u8; 48] = take_array::<48>(raw.as_slice(), 0);
        assert(arr@ =~= raw@);
        Ok(SpkiPin(arr))
    }

    /// The pin of a certificate.
    pub fn from_certificate_der(cert_der: &[u8]) -> (r: Result<Self, PinError>)
        ensures
            match r {
                Ok(p) => pin_of_certificate(cert_der@) == Ok::<_, Seq<char>>(p@),
                Err(e) => e matches PinError::CertParse(m) && pin_of_certificate(cert_der@)
                    == Err::<Seq<u8>, _>(m@),
            },
    {
        match x509::x509_parse(cert_der) {
            Ok(c) => Ok(SpkiPin(hash::sha384(c.spki.as_slice()))),
            Err(e) => Err(PinError::CertParse(e)),
        }
    }

    /// The bytes of the pin.
    pub fn as_bytes(&self) -> (r: &[u8; 48])
        ensures
            r@ == self@,
    {
        &self.0
    }

    /// The pin in lowercase hexadecimal.
    pub fn to_hex(&self) -> (r: String)
        ensures
            r@ == encoding::hex_text(self@),
    {
        encoding::hex_encode(self.0.as_slice())
    }

    /// The beginning of the pin, for logs.
    pub fn label(&self) -> (r: String)
        ensures
            r@ == "SpkiPin("@ + encoding::hex_text(self@).take(16) + "\u{2026})"@,
    {
        let hex = self.to_hex();
        assert(self@.len() == 48);
        let mut s = text::joined("SpkiPin(", text::first_chars(hex.as_str(), 16));
        s.append("\u{2026})");
        s
    }

    /// Whether two pins are the same, compared without an early end.
    pub fn same(&self, other: &Self) -> (r: bool)
        ensures
            r == (self@ == other@),
    {
        ct_bytes_equal(self.0.as_slice(), other.0.as_slice())
    }
}

/// The contents of several pins.
pub open spec fn pin_models(pins: Seq<SpkiPin>) -> Seq<Seq<u8>> {
    pins.map_values(|p: SpkiPin| p@)
}

/// Accepts servers by their pins. There is at least one.
#[derive(Debug)]
pub struct SpkiPinVerifier {
    pins: Vec<SpkiPin>,
}

impl SpkiPinVerifier {
    /// The pins.
    pub closed spec fn accepted(&self) -> Seq<Seq<u8>> {
        pin_models(self.pins@)
    }

    #[verifier::type_invariant]
    spec fn inv(&self) -> bool {
        self.pins@.len() > 0
    }

    /// Accept any of several pins.
    pub fn new(pins: Vec<SpkiPin>) -> (r: Self)
        requires
            pins@.len() > 0,
        ensures
            r.accepted() == pin_models(pins@),
    {
        SpkiPinVerifier { pins }
    }

    /// Whether a pin is accepted. All of them are looked at.
    pub fn matches(&self, candidate: &SpkiPin) -> (r: bool)
        ensures
            r == self.accepted().contains(candidate@),
    {
        let ghost m = pin_models(self.pins@);
        let mut found = false;
        let mut i: usize = 0;
        while i < self.pins.len()
            invariant
                i <= self.pins@.len(),
                m == pin_models(self.pins@),
                found == (exists|j: int| 0 <= j < i && #[trigger] m[j] == candidate@),
            decreases self.pins@.len() - i,
        {
            assert(m[i as int] == self.pins@[i as int]@);
            if self.pins[i].same(candidate) {
                found = true;
            }
            i += 1;
        }
        found
    }

    /// Decide on the certificate that a server presents. Certificates of
    /// authorities play no part.
    pub fn verify_server_cert(&self, end_entity: &[u8]) -> (r: Result<(), String>)
        ensures
            match pin_of_certificate(end_entity@) {
                Ok(p) => if self.accepted().contains(p) {
                    r is Ok
                } else {
                    r matches Err(m) && m@ == "SPKI pin mismatch"@
                },
                Err(e) => r matches Err(m) && m@ == "SPKI parse failed: "@ + (
                "certificate DER parse failed: "@ + e),
            },
    {
        match SpkiPin::from_certificate_der(end_entity) {
            Ok(candidate) => if self.matches(&candidate) {
                Ok(())
            } else {
                Err("SPKI pin mismatch".to_owned())
            },
            Err(e) => Err(text::joined("SPKI parse failed: ", e.message().as_str())),
        }
    }
}

/// A pin that was written in hexadecimal is read back.
pub proof fn law_pin_hex_roundtrip(pin: Seq<u8>)
    requires
        pin.len() == SPKI_PIN_LEN,
    ensures
        pin_of_text(encoding::hex_text(pin)) == Ok::<_, Seq<char>>(pin),
{
    encoding::lemma_hex_untrimmed(pin);
    encoding::lemma_hex_roundtrip(pin);
}

/// A pin is read with white space around it, and nothing of another length is a
/// pin.
pub proof fn law_pin_read(before: Seq<char>, b: Seq<u8>, after: Seq<char>)
    requires
        text::blank(before),
        text::blank(after),
    ensures
        b.len() == SPKI_PIN_LEN ==> pin_of_text(before + encoding::hex_text(b) + after) == Ok::<
            _,
            Seq<char>,
        >(b),
        b.len() != SPKI_PIN_LEN ==> pin_of_text(before + encoding::hex_text(b) + after) is Err,
{
    encoding::lemma_hex_untrimmed(b);
    text::law_trimmed(before, encoding::hex_text(b), after);
    encoding::lemma_hex_roundtrip(b);
}

/// A pin follows the key of a certificate and nothing else of it: certificates
/// with one key have one pin.
pub proof fn law_pin_follows_key(a: Seq<u8>, b: Seq<u8>)
    requires
        x509::x509_facts(a) is Ok,
        x509::x509_facts(b) is Ok,
    ensures
        pin_of_certificate(a) == Ok::<_, Seq<char>>(
            hash::sha384_of(x509::x509_facts(a)->Ok_0.spki)@,
        ),
        x509::x509_facts(a)->Ok_0.spki == x509::x509_facts(b)->Ok_0.spki ==> pin_of_certificate(a)
            == pin_of_certificate(b),
{
}

/// A server is accepted just where the digest of its key is one of the pins. `r`
/// is what [`SpkiPinVerifier::verify_server_cert`] gives.
pub proof fn law_pinned_server_accepted(
    v: &SpkiPinVerifier,
    end_entity: &[u8],
    r: Result<(), String>,
)
    requires
        call_ensures(SpkiPinVerifier::verify_server_cert, (v, end_entity), r),
    ensures
        r is Ok <==> (x509::x509_facts(end_entity@) matches Ok(c) && v.accepted().contains(
            hash::sha384_of(c.spki)@,
        )),
{
}

} // verus!
