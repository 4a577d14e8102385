//! Parsers for the TPM 2.0 structures that quote verification reads:
//! `TPMS_ATTEST` (the signed quote body), `TPMT_PUBLIC` (the public area of the
//! attestation key) and `TPMT_SIGNATURE` (the ECDSA signature on the quote).
//!
//! All numbers are big-endian, as the TCG "TPM 2.0 Library, Part 2: Structures"
//! marshals them. Every parser is total: input that is malformed, truncated or
//! longer than its structure gives a [`ParseError`].

use vstd::prelude::*;
use vstd::slice::{slice_subrange, slice_to_vec};

verus! {

/// The constant that a TPM stamps into every structure it produces.
pub const TPM_GENERATED_VALUE: u32 = 0xFF54_4347;

/// The attestation `type` of a PCR quote.
pub const TPM_ST_ATTEST_QUOTE: u16 = 0x8018;

/// Object type of an elliptic-curve key.
pub const TPM_ALG_ECC: u16 = 0x0023;

/// The ECDSA signature scheme.
pub const TPM_ALG_ECDSA: u16 = 0x0018;

/// `TPM_ALG_NULL`: no algorithm.
pub const TPM_ALG_NULL: u16 = 0x0010;

/// `TPM_ALG_SHA256`.
pub const TPM_ALG_SHA256: u16 = 0x000B;

/// `TPM_ALG_SHA384`.
pub const TPM_ALG_SHA384: u16 = 0x000C;

/// `TPM_ECC_NIST_P256`.
pub const TPM_ECC_NIST_P256: u16 = 0x0003;

/// `fixedTPM`: the object cannot be duplicated to another TPM.
pub const TPMA_FIXED_TPM: u32 = 0x0000_0002;

/// `fixedParent`: the object cannot be re-parented.
pub const TPMA_FIXED_PARENT: u32 = 0x0000_0010;

/// `sensitiveDataOrigin`: the TPM generated the sensitive data itself.
pub const TPMA_SENSITIVE_DATA_ORIGIN: u32 = 0x0000_0020;

/// `userWithAuth`: the auth value is usable for user-role actions.
pub const TPMA_USER_WITH_AUTH: u32 = 0x0000_0040;

/// `restricted`: the key operates on TPM-generated data only.
pub const TPMA_RESTRICTED: u32 = 0x0001_0000;

/// `decrypt`: the key may be used for decryption.
pub const TPMA_DECRYPT: u32 = 0x0002_0000;

/// `sign`: the key may be used for signing.
pub const TPMA_SIGN: u32 = 0x0004_0000;

/// Why a TPM structure does not parse.
#[derive(Debug, Clone, PartialEq, Eq)]
pub enum ParseError {
    /// The buffer ended before the named field was read.
    Truncated(&'static str),
    /// A discriminator (algorithm id, type tag) was not the required one.
    Unexpected {
        /// Which field carried the value.
        field: &'static str,
        /// The value that was read.
        got: u32,
    },
    /// Bytes remained after a structure that fills its whole buffer.
    TrailingBytes(usize),
    /// A length field declared more than the buffer holds.
    BadLength {
        /// Where the length appeared.
        ctx: &'static str,
        /// The declared length.
        declared: usize,
        /// The bytes that were left.
        remaining: usize,
    },
}

/// The outcome of reading one field: its value and the bytes after it.
pub type Field<T> = Result<(T, Seq<u8>), ParseError>;

/// The next `n` bytes.
pub open spec fn read_bytes(b: Seq<u8>, n: nat, ctx: &'static str) -> Field<Seq<u8>> {
    if b.len() < n {
        Err(ParseError::Truncated(ctx))
    } else {
        Ok((b.subrange(0, n as int), b.skip(n as int)))
    }
}

/// The next byte.
pub open spec fn read_u8(b: Seq<u8>, ctx: &'static str) -> Field<u8> {
    if b.len() < 1 {
        Err(ParseError::Truncated(ctx))
    } else {
        Ok((b[0], b.skip(1)))
    }
}

/// The number that two big-endian bytes stand for.
pub open spec fn number16(hi: u8, lo: u8) -> u16 {
    (256 * hi + lo) as u16
}

/// The number that four big-endian bytes stand for.
pub open spec fn number32(b: Seq<u8>) -> u32 {
    (0x100_0000 * b[0] + 0x1_0000 * b[1] + 0x100 * b[2] + b[3]) as u32
}

/// The next big-endian `UINT16`.
pub open spec fn read_u16(b: Seq<u8>, ctx: &'static str) -> Field<u16> {
    if b.len() < 2 {
        Err(ParseError::Truncated(ctx))
    } else {
        Ok((number16(b[0], b[1]), b.skip(2)))
    }
}

/// The next big-endian `UINT32`.
pub open spec fn read_u32(b: Seq<u8>, ctx: &'static str) -> Field<u32> {
    if b.len() < 4 {
        Err(ParseError::Truncated(ctx))
    } else {
        Ok((number32(b), b.skip(4)))
    }
}

/// The next `TPM2B`: a `UINT16` size and that many bytes.
pub open spec fn read_sized(b: Seq<u8>, ctx: &'static str) -> Field<Seq<u8>> {
    match read_u16(b, ctx) {
        Err(e) => Err(e),
        Ok((len, rest)) => if rest.len() < len {
            Err(
                ParseError::BadLength {
                    ctx,
                    declared: len as usize,
                    remaining: rest.len() as usize,
                },
            )
        } else {
            Ok((rest.subrange(0, len as int), rest.skip(len as int)))
        },
    }
}

/// A forward-only big-endian cursor over a byte slice.
struct Reader<'a> {
    buf: &'a [u8],
    pos: usize,
}

impl<'a> Reader<'a> {
    spec fn wf(&self) -> bool {
        self.pos <= self.buf@.len()
    }

    /// The bytes that were not read yet.
    spec fn rest(&self) -> Seq<u8> {
        self.buf@.skip(self.pos as int)
    }

    fn new(buf: &'a [u8]) -> (r: Self)
        ensures
            r.wf(),
            r.rest() == buf@,
    {
        assert(buf@.skip(0) =~= buf@);
        Reader { buf, pos: 0 }
    }

    fn remaining(&self) -> (n: usize)
        requires
            self.wf(),
        ensures
            n == self.rest().len(),
    {
        self.buf.len() - self.pos
    }

    fn take(&mut self, n: usize, ctx: &'static str) -> (r: Result<&'a [u8], ParseError>)
        requires
            old(self).wf(),
        ensures
            final(self).wf(),
            match r {
                Ok(s) => read_bytes(old(self).rest(), n as nat, ctx) == Ok::<_, ParseError>(
                    (s@, final(self).rest()),
                ),
                Err(e) => read_bytes(old(self).rest(), n as nat, ctx) == Err::<
                    (Seq<u8>, Seq<u8>),
                    _,
                >(e),
            },
    {
        if self.remaining() < n {
            return Err(ParseError::Truncated(ctx));
        }
        let size: usize = self.buf.len();
        assert(self.pos + n <= size);
        let s = slice_subrange(self.buf, self.pos, self.pos + n);
        proof {
            assert(s@ =~= self.rest().subrange(0, n as int));
            assert(self.buf@.skip(self.pos + n) =~= self.rest().skip(n as int));
        }
        self.pos = self.pos + n;
        Ok(s)
    }

    fn u8(&mut self, ctx: &'static str) -> (r: Result<u8, ParseError>)
        requires
            old(self).wf(),
        ensures
            final(self).wf(),
            match r {
                Ok(v) => read_u8(old(self).rest(), ctx) == Ok::<_, ParseError>(
                    (v, final(self).rest()),
                ),
                Err(e) => read_u8(old(self).rest(), ctx) == Err::<(u8, Seq<u8>), _>(e),
            },
    {
        match self.take(1, ctx) {
            Ok(b) => Ok(b[0]),
            Err(e) => Err(e),
        }
    }

    fn u16(&mut self, ctx: &'static str) -> (r: Result<u16, ParseError>)
        requires
            old(self).wf(),
        ensures
            final(self).wf(),
            match r {
                Ok(v) => read_u16(old(self).rest(), ctx) == Ok::<_, ParseError>(
                    (v, final(self).rest()),
                ),
                Err(e) => read_u16(old(self).rest(), ctx) == Err::<(u16, Seq<u8>), _>(e),
            },
    {
        match self.take(2, ctx) {
            Ok(b) => Ok(256 * (b[0] as u16) + b[1] as u16),
            Err(e) => Err(e),
        }
    }

    fn u32(&mut self, ctx: &'static str) -> (r: Result<u32, ParseError>)
        requires
            old(self).wf(),
        ensures
            final(self).wf(),
            match r {
                Ok(v) => read_u32(old(self).rest(), ctx) == Ok::<_, ParseError>(
                    (v, final(self).rest()),
                ),
                Err(e) => read_u32(old(self).rest(), ctx) == Err::<(u32, Seq<u8>), _>(e),
            },
    {
        match self.take(4, ctx) {
            Ok(b) => Ok(
                0x100_0000 * (b[0] as u32) + 0x1_0000 * (b[1] as u32) + 0x100 * (b[2] as u32)
                    + b[3] as u32,
            ),
            Err(e) => Err(e),
        }
    }

    fn skip_u64(&mut self, ctx: &'static str) -> (r: Result<(), ParseError>)
        requires
            old(self).wf(),
        ensures
            final(self).wf(),
            match r {
                Ok(_) => read_bytes(old(self).rest(), 8, ctx) is Ok && final(self).rest() == old(
                    self,
                ).rest().skip(8),
                Err(e) => read_bytes(old(self).rest(), 8, ctx) == Err::<(Seq<u8>, Seq<u8>), _>(e),
            },
    {
        match self.take(8, ctx) {
            Ok(_) => Ok(()),
            Err(e) => Err(e),
        }
    }

    /// Read a `TPM2B`.
    fn tpm2b(&mut self, ctx: &'static str) -> (r: Result<&'a [u8], ParseError>)
        requires
            old(self).wf(),
        ensures
            final(self).wf(),
            match r {
                Ok(s) => read_sized(old(self).rest(), ctx) == Ok::<_, ParseError>(
                    (s@, final(self).rest()),
                ),
                Err(e) => read_sized(old(self).rest(), ctx) == Err::<(Seq<u8>, Seq<u8>), _>(e),
            },
    {
        let len: usize = match self.u16(ctx) {
            Ok(n) => n as usize,
            Err(e) => return Err(e),
        };
        if self.remaining() < len {
            return Err(
                ParseError::BadLength { ctx, declared: len, remaining: self.remaining() },
            );
        }
        self.take(len, ctx)
    }
}

/// One `TPMS_PCR_SELECTION`: a PCR bank and the bitmap of selected indices.
#[derive(Debug, Clone, PartialEq, Eq)]
pub struct PcrSelection {
    /// The hash algorithm of the bank.
    pub hash_alg: u16,
    /// Bit `i % 8` of byte `i / 8` selects PCR `i`.
    pub bitmap: Vec<u8>,
}

/// The contents of a [`PcrSelection`].
pub struct SelectionModel {
    pub hash_alg: u16,
    pub bitmap: Seq<u8>,
}

impl View for PcrSelection {
    type V = SelectionModel;

    open spec fn view(&self) -> SelectionModel {
        SelectionModel { hash_alg: self.hash_alg, bitmap: self.bitmap@ }
    }
}

/// Whether `bitmap` selects PCR `i`.
pub open spec fn selects(bitmap: Seq<u8>, i: int) -> bool {
    bitmap[i / 8] & (1u8 << (i % 8) as u8) != 0
}

/// The selected indices below `n`, in ascending order.
pub open spec fn selected_below(bitmap: Seq<u8>, n: nat) -> Seq<u8>
    decreases n,
{
    if n == 0 {
        Seq::empty()
    } else if selects(bitmap, n - 1) {
        selected_below(bitmap, (n - 1) as nat).push((n - 1) as u8)
    } else {
        selected_below(bitmap, (n - 1) as nat)
    }
}

/// All selected indices in ascending order; a PCR index is below 256.
pub open spec fn selected(bitmap: Seq<u8>) -> Seq<u8> {
    selected_below(
        bitmap,
        if 8 * bitmap.len() < 256 {
            8 * bitmap.len()
        } else {
            256
        },
    )
}

impl PcrSelection {
    /// The selected PCR indices in ascending order.
    pub fn selected_indices(&self) -> (out: Vec<u8>)
        ensures
            out@ == selected(self.bitmap@),
    {
        let limit: usize = if self.bitmap.len() < 32 {
            8 * self.bitmap.len()
        } else {
            256
        };
        let mut out: Vec<u8> = Vec::new();
        let mut i: usize = 0;
        while i < limit
            invariant
                i <= limit <= 256,
                limit <= 8 * self.bitmap@.len(),
                out@ == selected_below(self.bitmap@, i as nat),
            decreases limit - i,
        {
            let byte: u8 = self.bitmap[i / 8];
            let bit: u8 = (i % 8) as u8;
            if byte & (1u8 << bit) != 0 {
                out.push(i as u8);
            }
            i += 1;
        }
        out
    }
}

/// The parts of `TPMS_ATTEST` and `TPMS_QUOTE_INFO` that verification checks.
#[derive(Debug, Clone)]
pub struct QuoteInfo {
    /// `magic`.
    pub magic: u32,
    /// `type`.
    pub attest_type: u16,
    /// `extraData`: the caller's nonce.
    pub extra_data: Vec<u8>,
    /// `attested.quote.pcrSelect`.
    pub pcr_selection: Vec<PcrSelection>,
    /// `attested.quote.pcrDigest`.
    pub pcr_digest: Vec<u8>,
}

/// The contents of a [`QuoteInfo`].
pub struct QuoteModel {
    pub magic: u32,
    pub attest_type: u16,
    pub extra_data: Seq<u8>,
    pub pcr_selection: Seq<SelectionModel>,
    pub pcr_digest: Seq<u8>,
}

impl View for QuoteInfo {
    type V = QuoteModel;

    open spec fn view(&self) -> QuoteModel {
        QuoteModel {
            magic: self.magic,
            attest_type: self.attest_type,
            extra_data: self.extra_data@,
            pcr_selection: self.pcr_selection@.map_values(|s: PcrSelection| s@),
            pcr_digest: self.pcr_digest@,
        }
    }
}

/// The next `TPMS_PCR_SELECTION`.
pub open spec fn read_selection(b: Seq<u8>) -> Field<SelectionModel> {
    match read_u16(b, "TPMS_PCR_SELECTION.hash") {
        Err(e) => Err(e),
        Ok((hash_alg, b)) => match read_u8(b, "TPMS_PCR_SELECTION.sizeofSelect") {
            Err(e) => Err(e),
            Ok((size, b)) => match read_bytes(b, size as nat, "TPMS_PCR_SELECTION.pcrSelect") {
                Err(e) => Err(e),
                Ok((bitmap, b)) => Ok((SelectionModel { hash_alg, bitmap }, b)),
            },
        },
    }
}

/// The next `count` selections.
pub open spec fn read_selections(b: Seq<u8>, count: nat) -> Field<Seq<SelectionModel>>
    decreases count,
{
    if count == 0 {
        Ok((Seq::empty(), b))
    } else {
        match read_selection(b) {
            Err(e) => Err(e),
            Ok((first, b)) => match read_selections(b, (count - 1) as nat) {
                Err(e) => Err(e),
                Ok((others, b)) => Ok((seq![first] + others, b)),
            },
        }
    }
}

/// The fields of `TPMS_ATTEST` up to the attested quote: magic, type and
/// extra data. The type must be that of a quote. The signer's name, the clock
/// and the firmware version are passed over.
pub open spec fn read_attest_head(b: Seq<u8>) -> Field<(u32, u16, Seq<u8>)> {
    match read_u32(b, "TPMS_ATTEST.magic") {
        Err(e) => Err(e),
        Ok((magic, b)) => match read_u16(b, "TPMS_ATTEST.type") {
            Err(e) => Err(e),
            Ok((kind, b)) => if kind != TPM_ST_ATTEST_QUOTE {
                Err(ParseError::Unexpected { field: "TPMS_ATTEST.type", got: kind as u32 })
            } else {
                match read_sized(b, "TPMS_ATTEST.qualifiedSigner") {
                    Err(e) => Err(e),
                    Ok((_, b)) => match read_sized(b, "TPMS_ATTEST.extraData") {
                        Err(e) => Err(e),
                        Ok((extra, b)) => match read_clock(b) {
                            Err(e) => Err(e),
                            Ok((_, b)) => Ok(((magic, kind, extra), b)),
                        },
                    },
                }
            },
        },
    }
}

/// `TPMS_CLOCK_INFO` and the firmware version, 25 bytes without a value.
pub open spec fn read_clock(b: Seq<u8>) -> Field<()> {
    if b.len() < 8 {
        Err(ParseError::Truncated("TPMS_CLOCK_INFO.clock"))
    } else if b.len() < 12 {
        Err(ParseError::Truncated("TPMS_CLOCK_INFO.resetCount"))
    } else if b.len() < 16 {
        Err(ParseError::Truncated("TPMS_CLOCK_INFO.restartCount"))
    } else if b.len() < 17 {
        Err(ParseError::Truncated("TPMS_CLOCK_INFO.safe"))
    } else if b.len() < 25 {
        Err(ParseError::Truncated("TPMS_ATTEST.firmwareVersion"))
    } else {
        Ok(((), b.skip(25)))
    }
}

/// What a marshaled `TPMS_ATTEST` with a quote says.
pub open spec fn quote_of(b: Seq<u8>) -> Result<QuoteModel, ParseError> {
    match read_attest_head(b) {
        Err(e) => Err(e),
        Ok(((magic, attest_type, extra_data), b)) => match read_u32(
            b,
            "TPML_PCR_SELECTION.count",
        ) {
            Err(e) => Err(e),
            Ok((count, b)) => match read_selections(b, count as nat) {
                Err(e) => Err(e),
                Ok((pcr_selection, b)) => match read_sized(b, "TPMS_QUOTE_INFO.pcrDigest") {
                    Err(e) => Err(e),
                    Ok((pcr_digest, b)) => if b.len() != 0 {
                        Err(ParseError::TrailingBytes(b.len() as usize))
                    } else {
                        Ok(QuoteModel { magic, attest_type, extra_data, pcr_selection, pcr_digest })
                    },
                },
            },
        },
    }
}

/// The parts of a `TPMT_PUBLIC` of an elliptic-curve key that verification
/// checks.
#[derive(Debug, Clone)]
pub struct EccPublic {
    /// `objectAttributes`.
    pub attributes: u32,
    /// `parameters.eccDetail.curveID`.
    pub curve_id: u16,
    /// `parameters.eccDetail.scheme.scheme`.
    pub scheme: u16,
    /// `parameters.eccDetail.scheme.details.hashAlg`, 0 if there is no scheme.
    pub scheme_hash: u16,
    /// `unique.ecc.x`, big-endian, unpadded.
    pub x: Vec<u8>,
    /// `unique.ecc.y`, big-endian, unpadded.
    pub y: Vec<u8>,
}

/// The contents of an [`EccPublic`].
pub struct EccModel {
    pub attributes: u32,
    pub curve_id: u16,
    pub scheme: u16,
    pub scheme_hash: u16,
    pub x: Seq<u8>,
    pub y: Seq<u8>,
}

impl View for EccPublic {
    type V = EccModel;

    open spec fn view(&self) -> EccModel {
        EccModel {
            attributes: self.attributes,
            curve_id: self.curve_id,
            scheme: self.scheme,
            scheme_hash: self.scheme_hash,
            x: self.x@,
            y: self.y@,
        }
    }
}

/// The type, the name algorithm, the attributes and the policy of a
/// `TPMT_PUBLIC`; only the attributes are kept.
pub open spec fn read_public_head(b: Seq<u8>) -> Field<u32> {
    match read_u16(b, "TPMT_PUBLIC.type") {
        Err(e) => Err(e),
        Ok((kind, b)) => if kind != TPM_ALG_ECC {
            Err(ParseError::Unexpected { field: "TPMT_PUBLIC.type", got: kind as u32 })
        } else {
            match read_u16(b, "TPMT_PUBLIC.nameAlg") {
                Err(e) => Err(e),
                Ok((_, b)) => match read_u32(b, "TPMT_PUBLIC.objectAttributes") {
                    Err(e) => Err(e),
                    Ok((attributes, b)) => match read_sized(b, "TPMT_PUBLIC.authPolicy") {
                        Err(e) => Err(e),
                        Ok((_, b)) => Ok((attributes, b)),
                    },
                },
            }
        },
    }
}

/// The signature scheme and its hash, which is 0 and absent without a scheme.
pub open spec fn read_scheme(b: Seq<u8>) -> Field<(u16, u16)> {
    match read_u16(b, "TPMT_ECC_SCHEME.scheme") {
        Err(e) => Err(e),
        Ok((scheme, b)) => if scheme == TPM_ALG_NULL {
            Ok(((scheme, 0), b))
        } else {
            match read_u16(b, "TPMT_ECC_SCHEME.details.hashAlg") {
                Err(e) => Err(e),
                Ok((hash, b)) => Ok(((scheme, hash), b)),
            }
        },
    }
}

/// A selector that must be `TPM_ALG_NULL`.
pub open spec fn read_null(b: Seq<u8>, ctx: &'static str) -> Field<()> {
    match read_u16(b, ctx) {
        Err(e) => Err(e),
        Ok((alg, b)) => if alg != TPM_ALG_NULL {
            Err(ParseError::Unexpected { field: ctx, got: alg as u32 })
        } else {
            Ok(((), b))
        },
    }
}

/// `TPMS_ECC_PARMS`: no symmetric algorithm, the scheme, the curve, no key
/// derivation. The scheme, its hash and the curve are kept.
pub open spec fn read_parameters(b: Seq<u8>) -> Field<(u16, u16, u16)> {
    match read_null(b, "TPMT_SYM_DEF_OBJECT.algorithm") {
        Err(e) => Err(e),
        Ok((_, b)) => match read_scheme(b) {
            Err(e) => Err(e),
            Ok(((scheme, hash), b)) => match read_u16(b, "TPMS_ECC_PARMS.curveID") {
                Err(e) => Err(e),
                Ok((curve, b)) => match read_null(b, "TPMT_KDF_SCHEME.scheme") {
                    Err(e) => Err(e),
                    Ok((_, b)) => Ok(((scheme, hash, curve), b)),
                },
            },
        },
    }
}

/// What a marshaled `TPMT_PUBLIC` says.
pub open spec fn ecc_public_of(b: Seq<u8>) -> Result<EccModel, ParseError> {
    match read_public_head(b) {
        Err(e) => Err(e),
        Ok((attributes, b)) => match read_parameters(b) {
            Err(e) => Err(e),
            Ok(((scheme, scheme_hash, curve_id), b)) => match read_sized(b, "TPMS_ECC_POINT.x") {
                Err(e) => Err(e),
                Ok((x, b)) => match read_sized(b, "TPMS_ECC_POINT.y") {
                    Err(e) => Err(e),
                    Ok((y, b)) => if b.len() != 0 {
                        Err(ParseError::TrailingBytes(b.len() as usize))
                    } else {
                        Ok(EccModel { attributes, curve_id, scheme, scheme_hash, x, y })
                    },
                },
            },
        },
    }
}

/// A parsed `TPMT_SIGNATURE` with an ECDSA signature.
#[derive(Debug, Clone)]
pub struct EcdsaSignature {
    /// `signature.ecdsa.hash`.
    pub hash_alg: u16,
    /// `signatureR`, big-endian, unpadded.
    pub r: Vec<u8>,
    /// `signatureS`, big-endian, unpadded.
    pub s: Vec<u8>,
}

/// The contents of an [`EcdsaSignature`].
pub struct EcdsaModel {
    pub hash_alg: u16,
    pub r: Seq<u8>,
    pub s: Seq<u8>,
}

impl View for EcdsaSignature {
    type V = EcdsaModel;

    open spec fn view(&self) -> EcdsaModel {
        EcdsaModel { hash_alg: self.hash_alg, r: self.r@, s: self.s@ }
    }
}

/// What a marshaled `TPMT_SIGNATURE` says.
pub open spec fn ecdsa_of(b: Seq<u8>) -> Result<EcdsaModel, ParseError> {
    match read_u16(b, "TPMT_SIGNATURE.sigAlg") {
        Err(e) => Err(e),
        Ok((alg, b)) => if alg != TPM_ALG_ECDSA {
            Err(ParseError::Unexpected { field: "TPMT_SIGNATURE.sigAlg", got: alg as u32 })
        } else {
            match read_u16(b, "TPMS_SIGNATURE_ECC.hash") {
                Err(e) => Err(e),
                Ok((hash_alg, b)) => match read_sized(b, "TPMS_SIGNATURE_ECC.signatureR") {
                    Err(e) => Err(e),
                    Ok((r, b)) => match read_sized(b, "TPMS_SIGNATURE_ECC.signatureS") {
                        Err(e) => Err(e),
                        Ok((s, b)) => if b.len() != 0 {
                            Err(ParseError::TrailingBytes(b.len() as usize))
                        } else {
                            Ok(EcdsaModel { hash_alg, r, s })
                        },
                    },
                },
            }
        },
    }
}

impl EcdsaSignature {
    /// Parse a marshaled `TPMT_SIGNATURE`. Only the ECDSA scheme is accepted.
    pub fn parse(buf: &[u8]) -> (out: Result<Self, ParseError>)
        ensures
            match out {
                Ok(v) => ecdsa_of(buf@) == Ok::<_, ParseError>(v@),
                Err(e) => ecdsa_of(buf@) == Err::<EcdsaModel, _>(e),
            },
    {
        let mut r = Reader::new(buf);
        let sig_alg: u16 = r.u16("TPMT_SIGNATURE.sigAlg")?;
        if sig_alg != TPM_ALG_ECDSA {
            return Err(
                ParseError::Unexpected { field: "TPMT_SIGNATURE.sigAlg", got: sig_alg as u32 },
            );
        }
        let hash_alg: u16 = r.u16("TPMS_SIGNATURE_ECC.hash")?;
        let r_val = slice_to_vec(r.tpm2b("TPMS_SIGNATURE_ECC.signatureR")?);
        let s_val = slice_to_vec(r.tpm2b("TPMS_SIGNATURE_ECC.signatureS")?);
        if r.remaining() != 0 {
            return Err(ParseError::TrailingBytes(r.remaining()));
        }
        Ok(EcdsaSignature { hash_alg, r: r_val, s: s_val })
    }
}

impl EccPublic {
    /// Parse a marshaled `TPMT_PUBLIC`. Only elliptic-curve keys without a
    /// symmetric algorithm and without key derivation are accepted.
    #[verifier::spinoff_prover]
    #[verifier::rlimit(40)]
    pub fn parse(buf: &[u8]) -> (out: Result<Self, ParseError>)
        ensures
            match out {
                Ok(v) => ecc_public_of(buf@) == Ok::<_, ParseError>(v@),
                Err(e) => ecc_public_of(buf@) == Err::<EccModel, _>(e),
            },
    {
        let mut r = Reader::new(buf);
        let obj_type: u16 = r.u16("TPMT_PUBLIC.type")?;
        if obj_type != TPM_ALG_ECC {
            return Err(
                ParseError::Unexpected { field: "TPMT_PUBLIC.type", got: obj_type as u32 },
            );
        }
        let _name_alg: u16 = r.u16("TPMT_PUBLIC.nameAlg")?;
        let attributes: u32 = r.u32("TPMT_PUBLIC.objectAttributes")?;
        let _policy = r.tpm2b("TPMT_PUBLIC.authPolicy")?;
        let sym_alg: u16 = r.u16("TPMT_SYM_DEF_OBJECT.algorithm")?;
        if sym_alg != TPM_ALG_NULL {
            return Err(
                ParseError::Unexpected {
                    field: "TPMT_SYM_DEF_OBJECT.algorithm",
                    got: sym_alg as u32,
                },
            );
        }
        let scheme: u16 = r.u16("TPMT_ECC_SCHEME.scheme")?;
        let scheme_hash: u16 = if scheme == TPM_ALG_NULL {
            0
        } else {
            r.u16("TPMT_ECC_SCHEME.details.hashAlg")?
        };
        let curve_id: u16 = r.u16("TPMS_ECC_PARMS.curveID")?;
        let kdf: u16 = r.u16("TPMT_KDF_SCHEME.scheme")?;
        if kdf != TPM_ALG_NULL {
            return Err(
                ParseError::Unexpected { field: "TPMT_KDF_SCHEME.scheme", got: kdf as u32 },
            );
        }
        let x = slice_to_vec(r.tpm2b("TPMS_ECC_POINT.x")?);
        let y = slice_to_vec(r.tpm2b("TPMS_ECC_POINT.y")?);
        if r.remaining() != 0 {
            return Err(ParseError::TrailingBytes(r.remaining()));
        }
        Ok(EccPublic { attributes, curve_id, scheme, scheme_hash, x, y })
    }
}

/// A run of selections continued by a later outcome.
spec fn continued(
    first: Seq<SelectionModel>,
    later: Field<Seq<SelectionModel>>,
) -> Field<Seq<SelectionModel>> {
    match later {
        Err(e) => Err(e),
        Ok((others, b)) => Ok((first + others, b)),
    }
}

impl<'a> Reader<'a> {
    /// Read the clock and the firmware version.
    fn clock(&mut self) -> (out: Result<(), ParseError>)
        requires
            old(self).wf(),
        ensures
            final(self).wf(),
            match out {
                Ok(v) => read_clock(old(self).rest()) == Ok::<_, ParseError>(
                    ((), final(self).rest()),
                ),
                Err(e) => read_clock(old(self).rest()) == Err::<((), Seq<u8>), _>(e),
            },
    {
        self.skip_u64("TPMS_CLOCK_INFO.clock")?;
        let _reset: u32 = self.u32("TPMS_CLOCK_INFO.resetCount")?;
        let _restart: u32 = self.u32("TPMS_CLOCK_INFO.restartCount")?;
        let _safe: u8 = self.u8("TPMS_CLOCK_INFO.safe")?;
        self.skip_u64("TPMS_ATTEST.firmwareVersion")?;
        assert(self.rest() =~= old(self).rest().skip(25));
        Ok(())
    }

    /// Read one PCR selection.
    fn selection(&mut self) -> (out: Result<PcrSelection, ParseError>)
        requires
            old(self).wf(),
        ensures
            final(self).wf(),
            match out {
                Ok(v) => read_selection(old(self).rest()) == Ok::<_, ParseError>(
                    (v@, final(self).rest()),
                ),
                Err(e) => read_selection(old(self).rest()) == Err::<(SelectionModel, Seq<u8>), _>(
                    e,
                ),
            },
    {
        let hash_alg: u16 = self.u16("TPMS_PCR_SELECTION.hash")?;
        let size: usize = self.u8("TPMS_PCR_SELECTION.sizeofSelect")? as usize;
        let bitmap = slice_to_vec(self.take(size, "TPMS_PCR_SELECTION.pcrSelect")?);
        Ok(PcrSelection { hash_alg, bitmap })
    }

    /// Read `count` PCR selections.
    fn selections(&mut self, count: u32) -> (out: Result<Vec<PcrSelection>, ParseError>)
        requires
            old(self).wf(),
        ensures
            final(self).wf(),
            match out {
                Ok(v) => read_selections(old(self).rest(), count as nat) == Ok::<_, ParseError>(
                    (v@.map_values(|s: PcrSelection| s@), final(self).rest()),
                ),
                Err(e) => read_selections(old(self).rest(), count as nat) == Err::<
                    (Seq<SelectionModel>, Seq<u8>),
                    _,
                >(e),
            },
    {
        let mut out: Vec<PcrSelection> = Vec::new();
        let mut i: u32 = 0;
        let ghost start = self.rest();
        let ghost mut models: Seq<SelectionModel> = Seq::empty();
        proof {
            if let Ok((others, b)) = read_selections(start, count as nat) {
                assert(models + others =~= others);
            }
        }
        while i < count
            invariant
                i <= count,
                self.wf(),
                models == out@.map_values(|s: PcrSelection| s@),
                start == old(self).rest(),
                read_selections(start, count as nat) == continued(
                    models,
                    read_selections(self.rest(), (count - i) as nat),
                ),
            decreases count - i,
        {
            let ghost before = self.rest();
            let selection = self.selection()?;
            proof {
                if let Ok((others, b)) = read_selections(self.rest(), (count - i - 1) as nat) {
                    assert(models + (seq![selection@] + others) =~= models.push(selection@)
                        + others);
                }
                models = models.push(selection@);
            }
            out.push(selection);
            assert(models =~= out@.map_values(|s: PcrSelection| s@));
            i += 1;
        }
        assert(models + Seq::<SelectionModel>::empty() =~= models);
        Ok(out)
    }
}

/// The magic that a marshaled `TPMS_ATTEST` begins with.
pub(crate) fn attest_magic(buf: &[u8]) -> (r: Option<u32>)
    ensures
        match read_u32(buf@, "TPMS_ATTEST.magic") {
            Ok((magic, _)) => r == Some(magic),
            Err(_) => r is None,
        },
{
    let mut r = Reader::new(buf);
    match r.u32("TPMS_ATTEST.magic") {
        Ok(magic) => Some(magic),
        Err(_) => None,
    }
}

impl QuoteInfo {
    /// Parse a marshaled `TPMS_ATTEST` that holds a quote. Any other type of
    /// attestation is refused.
    pub fn parse(buf: &[u8]) -> (out: Result<Self, ParseError>)
        ensures
            match out {
                Ok(v) => quote_of(buf@) == Ok::<_, ParseError>(v@),
                Err(e) => quote_of(buf@) == Err::<QuoteModel, _>(e),
            },
    {
        let mut r = Reader::new(buf);
        let magic: u32 = r.u32("TPMS_ATTEST.magic")?;
        let attest_type: u16 = r.u16("TPMS_ATTEST.type")?;
        if attest_type != TPM_ST_ATTEST_QUOTE {
            return Err(
                ParseError::Unexpected { field: "TPMS_ATTEST.type", got: attest_type as u32 },
            );
        }
        let _signer = r.tpm2b("TPMS_ATTEST.qualifiedSigner")?;
        let extra_data = slice_to_vec(r.tpm2b("TPMS_ATTEST.extraData")?);
        r.clock()?;
        let count: u32 = r.u32("TPML_PCR_SELECTION.count")?;
        let pcr_selection = r.selections(count)?;
        let pcr_digest = slice_to_vec(r.tpm2b("TPMS_QUOTE_INFO.pcrDigest")?);
        if r.remaining() != 0 {
            return Err(ParseError::TrailingBytes(r.remaining()));
        }
        Ok(QuoteInfo { magic, attest_type, extra_data, pcr_selection, pcr_digest })
    }
}

/// A `UINT16` in big-endian order.
#[verifier::opaque]
pub open spec fn be16(n: u16) -> Seq<u8> {
    seq![(n / 256) as u8, (n % 256) as u8]
}

/// A `UINT32` in big-endian order.
#[verifier::opaque]
pub open spec fn be32(n: u32) -> Seq<u8> {
    seq![
        (n / 0x100_0000) as u8,
        (n / 0x1_0000 % 0x100) as u8,
        (n / 0x100 % 0x100) as u8,
        (n % 0x100) as u8,
    ]
}

/// A `TPM2B` with contents `x`.
#[verifier::opaque]
pub open spec fn sized(x: Seq<u8>) -> Seq<u8> {
    be16(x.len() as u16) + x
}

proof fn lemma_u16(b: Seq<u8>, n: u16, rest: Seq<u8>, ctx: &'static str)
    ensures
        read_u16(be16(n) + rest, ctx) == Ok::<_, ParseError>((n, rest)),
        read_u16(b, ctx) == Ok::<_, ParseError>((n, rest)) ==> b == be16(n) + rest,
{
    reveal(be16);
    assert((be16(n) + rest).skip(2) =~= rest);
    if read_u16(b, ctx) == Ok::<_, ParseError>((n, rest)) {
        assert(b =~= be16(n) + rest);
    }
}

proof fn lemma_be32_value(n: u32, b0: u8, b1: u8, b2: u8, b3: u8)
    ensures
        b0 == (n / 0x100_0000) as u8 && b1 == (n / 0x1_0000 % 0x100) as u8 && b2 == (n / 0x100
            % 0x100) as u8 && b3 == (n % 0x100) as u8 <==> n == 0x100_0000 * b0 + 0x1_0000 * b1
            + 0x100 * b2 + b3,
        0x100_0000 * b0 + 0x1_0000 * b1 + 0x100 * b2 + b3 <= u32::MAX,
{
    assert(b0 == (n / 0x100_0000) as u8 && b1 == (n / 0x1_0000 % 0x100) as u8 && b2 == (n / 0x100
        % 0x100) as u8 && b3 == (n % 0x100) as u8 <==> n == 0x100_0000 * (b0 as u32) + 0x1_0000 * (
    b1 as u32) + 0x100 * (b2 as u32) + b3 as u32) by (bit_vector);
}

proof fn lemma_u32(b: Seq<u8>, n: u32, rest: Seq<u8>, ctx: &'static str)
    ensures
        read_u32(be32(n) + rest, ctx) == Ok::<_, ParseError>((n, rest)),
        read_u32(b, ctx) == Ok::<_, ParseError>((n, rest)) ==> b == be32(n) + rest,
{
    reveal(be32);
    let e = be32(n);
    lemma_be32_value(n, e[0], e[1], e[2], e[3]);
    assert((e + rest).skip(4) =~= rest);
    assert(number32(e + rest) == n);
    if read_u32(b, ctx) == Ok::<_, ParseError>((n, rest)) {
        lemma_be32_value(n, b[0], b[1], b[2], b[3]);
        assert(b =~= e + rest);
    }
}

proof fn lemma_sized(b: Seq<u8>, x: Seq<u8>, rest: Seq<u8>, ctx: &'static str)
    ensures
        x.len() < 0x1_0000 ==> read_sized(sized(x) + rest, ctx) == Ok::<_, ParseError>((x, rest)),
        read_sized(b, ctx) == Ok::<_, ParseError>((x, rest)) ==> x.len() < 0x1_0000 && b == sized(x)
            + rest,
{
    reveal(be16);
    reveal(sized);
    if x.len() < 0x1_0000 {
        let n = x.len() as u16;
        lemma_u16(b, n, x + rest, ctx);
        assert(be16(n) + (x + rest) =~= sized(x) + rest);
        assert((x + rest).subrange(0, n as int) =~= x);
        assert((x + rest).skip(n as int) =~= rest);
    }
    if let Ok((n, tail)) = read_u16(b, ctx) {
        lemma_u16(b, n, tail, ctx);
        if n <= tail.len() {
            assert(tail =~= tail.subrange(0, n as int) + tail.skip(n as int));
            assert(b =~= sized(tail.subrange(0, n as int)) + tail.skip(n as int));
        }
    }
}

/// The marshaled form of an ECDSA `TPMT_SIGNATURE`.
pub open spec fn ecdsa_layout(m: EcdsaModel) -> Seq<u8> {
    be16(TPM_ALG_ECDSA) + (be16(m.hash_alg) + (sized(m.r) + (sized(m.s) + Seq::<u8>::empty())))
}

#[verifier::spinoff_prover]
#[verifier::rlimit(40)]
proof fn lemma_ecdsa_parses(m: EcdsaModel)
    requires
        m.r.len() < 0x1_0000,
        m.s.len() < 0x1_0000,
    ensures
        ecdsa_of(ecdsa_layout(m)) == Ok::<_, ParseError>(m),
{
    let none = Seq::<u8>::empty();
    let tail_s = sized(m.s) + none;
    let tail_r = sized(m.r) + tail_s;
    let tail_h = be16(m.hash_alg) + tail_r;
    lemma_sized(tail_s, m.s, none, "TPMS_SIGNATURE_ECC.signatureS");
    lemma_sized(tail_r, m.r, tail_s, "TPMS_SIGNATURE_ECC.signatureR");
    lemma_u16(tail_h, m.hash_alg, tail_r, "TPMS_SIGNATURE_ECC.hash");
    lemma_u16(none, TPM_ALG_ECDSA, tail_h, "TPMT_SIGNATURE.sigAlg");
}

/// The inputs that parse as the signature `m` are its marshaled form and no
/// other, in particular none with trailing bytes.
pub proof fn law_ecdsa_layout(b: Seq<u8>, m: EcdsaModel)
    ensures
        ecdsa_of(b) == Ok::<_, ParseError>(m) <==> b == ecdsa_layout(m) && m.r.len() < 0x1_0000
            && m.s.len() < 0x1_0000,
{
    if m.r.len() < 0x1_0000 && m.s.len() < 0x1_0000 {
        lemma_ecdsa_parses(m);
    }
    if ecdsa_of(b) == Ok::<_, ParseError>(m) {
        let b1 = read_u16(b, "TPMT_SIGNATURE.sigAlg")->Ok_0.1;
        let b2 = read_u16(b1, "TPMS_SIGNATURE_ECC.hash")->Ok_0.1;
        let b3 = read_sized(b2, "TPMS_SIGNATURE_ECC.signatureR")->Ok_0.1;
        let b4 = read_sized(b3, "TPMS_SIGNATURE_ECC.signatureS")->Ok_0.1;
        assert(b4 =~= Seq::<u8>::empty());
        lemma_u16(b, TPM_ALG_ECDSA, b1, "TPMT_SIGNATURE.sigAlg");
        lemma_u16(b1, m.hash_alg, b2, "TPMS_SIGNATURE_ECC.hash");
        lemma_sized(b2, m.r, b3, "TPMS_SIGNATURE_ECC.signatureR");
        lemma_sized(b3, m.s, b4, "TPMS_SIGNATURE_ECC.signatureS");
    }
}

/// The marshaled scheme: the hash follows only if there is a scheme.
pub open spec fn scheme_layout(scheme: u16, hash: u16) -> Seq<u8> {
    if scheme == TPM_ALG_NULL {
        be16(scheme)
    } else {
        be16(scheme) + be16(hash)
    }
}

/// The marshaled form of an elliptic-curve `TPMT_PUBLIC`; the name algorithm
/// and the policy are not part of `m`.
pub open spec fn ecc_public_layout(m: EccModel, name_alg: u16, policy: Seq<u8>) -> Seq<u8> {
    be16(TPM_ALG_ECC) + (be16(name_alg) + (be32(m.attributes) + (sized(policy) + (be16(
        TPM_ALG_NULL,
    ) + (scheme_layout(m.scheme, m.scheme_hash) + (be16(m.curve_id) + (be16(TPM_ALG_NULL) + (sized(
        m.x,
    ) + (sized(m.y) + Seq::<u8>::empty())))))))))
}

proof fn lemma_scheme(b: Seq<u8>, scheme: u16, hash: u16, rest: Seq<u8>)
    ensures
        scheme == TPM_ALG_NULL ==> hash == 0 ==> read_scheme(scheme_layout(scheme, hash) + rest)
            == Ok::<_, ParseError>(((scheme, hash), rest)),
        scheme != TPM_ALG_NULL ==> read_scheme(scheme_layout(scheme, hash) + rest) == Ok::<
            _,
            ParseError,
        >(((scheme, hash), rest)),
        read_scheme(b) == Ok::<_, ParseError>(((scheme, hash), rest)) ==> b == scheme_layout(
            scheme,
            hash,
        ) + rest && (scheme == TPM_ALG_NULL ==> hash == 0),
{
    let (ctx_s, ctx_h) = ("TPMT_ECC_SCHEME.scheme", "TPMT_ECC_SCHEME.details.hashAlg");
    lemma_u16(b, scheme, rest, ctx_s);
    lemma_u16(b, hash, rest, ctx_h);
    lemma_u16(b, scheme, be16(hash) + rest, ctx_s);
    assert(be16(scheme) + (be16(hash) + rest) =~= (be16(scheme) + be16(hash)) + rest);
    if let Ok((_, b1)) = read_u16(b, ctx_s) {
        lemma_u16(b, scheme, b1, ctx_s);
        lemma_u16(b1, hash, rest, ctx_h);
    }
}

proof fn lemma_parameters_parse(scheme: u16, hash: u16, curve: u16, rest: Seq<u8>)
    requires
        scheme == TPM_ALG_NULL ==> hash == 0,
    ensures
        read_parameters(
            be16(TPM_ALG_NULL) + (scheme_layout(scheme, hash) + (be16(curve) + (be16(TPM_ALG_NULL)
                + rest))),
        ) == Ok::<_, ParseError>(((scheme, hash, curve), rest)),
{
    let t_kdf = be16(TPM_ALG_NULL) + rest;
    let t_curve = be16(curve) + t_kdf;
    let t_scheme = scheme_layout(scheme, hash) + t_curve;
    lemma_u16(t_kdf, TPM_ALG_NULL, rest, "TPMT_KDF_SCHEME.scheme");
    lemma_u16(t_curve, curve, t_kdf, "TPMS_ECC_PARMS.curveID");
    lemma_scheme(t_scheme, scheme, hash, t_curve);
    lemma_u16(rest, TPM_ALG_NULL, t_scheme, "TPMT_SYM_DEF_OBJECT.algorithm");
}

proof fn lemma_public_head_parses(name_alg: u16, attributes: u32, policy: Seq<u8>, rest: Seq<u8>)
    requires
        policy.len() < 0x1_0000,
    ensures
        read_public_head(
            be16(TPM_ALG_ECC) + (be16(name_alg) + (be32(attributes) + (sized(policy) + rest))),
        ) == Ok::<_, ParseError>((attributes, rest)),
{
    let t_policy = sized(policy) + rest;
    let t_attr = be32(attributes) + t_policy;
    let t_name = be16(name_alg) + t_attr;
    lemma_sized(t_policy, policy, rest, "TPMT_PUBLIC.authPolicy");
    lemma_u32(t_attr, attributes, t_policy, "TPMT_PUBLIC.objectAttributes");
    lemma_u16(t_name, name_alg, t_attr, "TPMT_PUBLIC.nameAlg");
    lemma_u16(rest, TPM_ALG_ECC, t_name, "TPMT_PUBLIC.type");
}

/// The marshaled form of a public area parses as it, if its points and its
/// policy fit their length fields and the hash is 0 where there is no scheme.
pub proof fn law_ecc_public_layout_parses(m: EccModel, name_alg: u16, policy: Seq<u8>)
    requires
        policy.len() < 0x1_0000,
        m.x.len() < 0x1_0000,
        m.y.len() < 0x1_0000,
        m.scheme == TPM_ALG_NULL ==> m.scheme_hash == 0,
    ensures
        ecc_public_of(ecc_public_layout(m, name_alg, policy)) == Ok::<_, ParseError>(m),
{
    let t_end = Seq::<u8>::empty();
    let t_y = sized(m.y) + t_end;
    let t_x = sized(m.x) + t_y;
    let t_sym = be16(TPM_ALG_NULL) + (scheme_layout(m.scheme, m.scheme_hash) + (be16(m.curve_id)
        + (be16(TPM_ALG_NULL) + t_x)));
    lemma_sized(t_y, m.y, t_end, "TPMS_ECC_POINT.y");
    lemma_sized(t_x, m.x, t_y, "TPMS_ECC_POINT.x");
    lemma_parameters_parse(m.scheme, m.scheme_hash, m.curve_id, t_x);
    lemma_public_head_parses(name_alg, m.attributes, policy, t_sym);
}

/// An accepted public area is the marshaled form of what was read, for some
/// name algorithm and policy, which are returned: nothing is skipped but
/// these, and nothing trails.
#[verifier::rlimit(40)]
pub proof fn law_ecc_public_is_layout(b: Seq<u8>, m: EccModel) -> (free: (u16, Seq<u8>))
    requires
        ecc_public_of(b) == Ok::<_, ParseError>(m),
    ensures
        b == ecc_public_layout(m, free.0, free.1),
        free.1.len() < 0x1_0000,
        m.x.len() < 0x1_0000,
        m.y.len() < 0x1_0000,
{
    let f1 = read_u16(b, "TPMT_PUBLIC.type")->Ok_0;
    let f2 = read_u16(f1.1, "TPMT_PUBLIC.nameAlg")->Ok_0;
    let f3 = read_u32(f2.1, "TPMT_PUBLIC.objectAttributes")->Ok_0;
    let f4 = read_sized(f3.1, "TPMT_PUBLIC.authPolicy")->Ok_0;
    let f5 = read_u16(f4.1, "TPMT_SYM_DEF_OBJECT.algorithm")->Ok_0;
    let f6 = read_scheme(f5.1)->Ok_0;
    let f7 = read_u16(f6.1, "TPMS_ECC_PARMS.curveID")->Ok_0;
    let f8 = read_u16(f7.1, "TPMT_KDF_SCHEME.scheme")->Ok_0;
    let f9 = read_sized(f8.1, "TPMS_ECC_POINT.x")->Ok_0;
    let f10 = read_sized(f9.1, "TPMS_ECC_POINT.y")->Ok_0;
    lemma_u16(b, f1.0, f1.1, "TPMT_PUBLIC.type");
    lemma_u16(f1.1, f2.0, f2.1, "TPMT_PUBLIC.nameAlg");
    lemma_u32(f2.1, f3.0, f3.1, "TPMT_PUBLIC.objectAttributes");
    lemma_sized(f3.1, f4.0, f4.1, "TPMT_PUBLIC.authPolicy");
    lemma_u16(f4.1, f5.0, f5.1, "TPMT_SYM_DEF_OBJECT.algorithm");
    lemma_scheme(f5.1, f6.0.0, f6.0.1, f6.1);
    lemma_u16(f6.1, f7.0, f7.1, "TPMS_ECC_PARMS.curveID");
    lemma_u16(f7.1, f8.0, f8.1, "TPMT_KDF_SCHEME.scheme");
    lemma_sized(f8.1, f9.0, f9.1, "TPMS_ECC_POINT.x");
    lemma_sized(f9.1, f10.0, f10.1, "TPMS_ECC_POINT.y");
    assert(f10.1 =~= Seq::<u8>::empty());
    (f2.0, f4.0)
}

/// The marshaled form of one PCR selection.
pub open spec fn selection_layout(m: SelectionModel) -> Seq<u8> {
    be16(m.hash_alg) + (seq![m.bitmap.len() as u8] + m.bitmap)
}

/// The marshaled form of a run of PCR selections.
pub open spec fn selections_layout(m: Seq<SelectionModel>) -> Seq<u8>
    decreases m.len(),
{
    if m.len() == 0 {
        Seq::empty()
    } else {
        selection_layout(m[0]) + selections_layout(m.drop_first())
    }
}

/// Whether every bitmap fits its length byte.
pub open spec fn selections_fit(m: Seq<SelectionModel>) -> bool {
    forall|i: int| 0 <= i < m.len() ==> (#[trigger] m[i]).bitmap.len() < 256
}

proof fn lemma_selection(b: Seq<u8>, m: SelectionModel, rest: Seq<u8>)
    ensures
        m.bitmap.len() < 256 ==> read_selection(selection_layout(m) + rest) == Ok::<_, ParseError>(
            (m, rest),
        ),
        read_selection(b) == Ok::<_, ParseError>((m, rest)) ==> m.bitmap.len() < 256 && b
            == selection_layout(m) + rest,
{
    let ctx = "TPMS_PCR_SELECTION.hash";
    let n = m.bitmap.len() as u8;
    let tail = seq![n] + (m.bitmap + rest);
    lemma_u16(b, m.hash_alg, tail, ctx);
    assert(be16(m.hash_alg) + tail =~= selection_layout(m) + rest);
    assert(tail.skip(1) =~= m.bitmap + rest);
    if m.bitmap.len() < 256 {
        assert((m.bitmap + rest).subrange(0, n as int) =~= m.bitmap);
        assert((m.bitmap + rest).skip(n as int) =~= rest);
    }
    if read_selection(b) == Ok::<_, ParseError>((m, rest)) {
        let b1 = read_u16(b, ctx)->Ok_0.1;
        lemma_u16(b, m.hash_alg, b1, ctx);
        let size = b1[0];
        let b2 = b1.skip(1);
        assert(b1 =~= seq![size] + b2);
        assert(b2 =~= m.bitmap + rest);
        assert(b =~= selection_layout(m) + rest);
    }
}

proof fn lemma_selections(b: Seq<u8>, m: Seq<SelectionModel>, rest: Seq<u8>)
    ensures
        selections_fit(m) ==> read_selections(selections_layout(m) + rest, m.len()) == Ok::<
            _,
            ParseError,
        >((m, rest)),
        read_selections(b, m.len()) == Ok::<_, ParseError>((m, rest)) ==> selections_fit(m) && b
            == selections_layout(m) + rest,
    decreases m.len(),
{
    if m.len() == 0 {
        assert(selections_layout(m) + rest =~= rest);
        assert(m =~= Seq::empty());
    } else {
        let others = m.drop_first();
        let tail = selections_layout(others) + rest;
        lemma_selection(b, m[0], tail);
        lemma_selections(tail, others, rest);
        assert(selection_layout(m[0]) + tail =~= selections_layout(m) + rest);
        assert(seq![m[0]] + others =~= m);
        if selections_fit(m) {
            assert forall|i: int| 0 <= i < others.len() implies (
            #[trigger] others[i]).bitmap.len() < 256 by {
                assert(others[i] == m[i + 1]);
            }
        }
        if read_selections(b, m.len()) == Ok::<_, ParseError>((m, rest)) {
            let first = read_selection(b)->Ok_0;
            let later = read_selections(first.1, (m.len() - 1) as nat)->Ok_0;
            assert((seq![first.0] + later.0)[0] == first.0);
            assert((seq![first.0] + later.0).drop_first() =~= later.0);
            lemma_selection(b, first.0, first.1);
            lemma_selections(first.1, others, rest);
            assert forall|i: int| 0 <= i < m.len() implies (
            #[trigger] m[i]).bitmap.len() < 256 by {
                if i > 0 {
                    assert(m[i] == others[i - 1]);
                }
            }
        }
    }
}

/// The marshaled form of a quote; the signer's name and the 25 bytes of clock
/// and firmware version are not part of `m`.
pub open spec fn quote_layout(m: QuoteModel, signer: Seq<u8>, clock: Seq<u8>) -> Seq<u8> {
    be32(m.magic) + (be16(m.attest_type) + (sized(signer) + (sized(m.extra_data) + (clock + (be32(
        m.pcr_selection.len() as u32,
    ) + (selections_layout(m.pcr_selection) + (sized(m.pcr_digest) + Seq::<u8>::empty())))))))
}

#[verifier::spinoff_prover]
#[verifier::rlimit(50)]
proof fn lemma_attest_head_parses(
    magic: u32,
    kind: u16,
    signer: Seq<u8>,
    extra: Seq<u8>,
    clock: Seq<u8>,
    rest: Seq<u8>,
)
    requires
        kind == TPM_ST_ATTEST_QUOTE,
        signer.len() < 0x1_0000,
        extra.len() < 0x1_0000,
        clock.len() == 25,
    ensures
        read_attest_head(
            be32(magic) + (be16(kind) + (sized(signer) + (sized(extra) + (clock + rest)))),
        ) == Ok::<_, ParseError>(((magic, kind, extra), rest)),
{
    let t_clock = clock + rest;
    let t_extra = sized(extra) + t_clock;
    let t_signer = sized(signer) + t_extra;
    let t_type = be16(kind) + t_signer;
    assert(read_clock(t_clock) == Ok::<_, ParseError>(((), rest))) by {
        assert(t_clock.skip(25) =~= rest);
    }
    assert(read_sized(t_extra, "TPMS_ATTEST.extraData") == Ok::<_, ParseError>((extra, t_clock)))
        by {
        lemma_sized(t_extra, extra, t_clock, "TPMS_ATTEST.extraData");
    }
    assert(read_sized(t_signer, "TPMS_ATTEST.qualifiedSigner") == Ok::<_, ParseError>(
        (signer, t_extra),
    )) by {
        lemma_sized(t_signer, signer, t_extra, "TPMS_ATTEST.qualifiedSigner");
    }
    assert(read_u16(t_type, "TPMS_ATTEST.type") == Ok::<_, ParseError>((kind, t_signer))) by {
        lemma_u16(t_type, kind, t_signer, "TPMS_ATTEST.type");
    }
    assert(read_u32(be32(magic) + t_type, "TPMS_ATTEST.magic") == Ok::<_, ParseError>(
        (magic, t_type),
    )) by {
        lemma_u32(rest, magic, t_type, "TPMS_ATTEST.magic");
    }
}

/// The marshaled form of a quote parses as it, if every part fits its length
/// field.
pub proof fn law_quote_layout_parses(m: QuoteModel, signer: Seq<u8>, clock: Seq<u8>)
    requires
        m.attest_type == TPM_ST_ATTEST_QUOTE,
        signer.len() < 0x1_0000,
        clock.len() == 25,
        m.extra_data.len() < 0x1_0000,
        m.pcr_digest.len() < 0x1_0000,
        m.pcr_selection.len() < 0x1_0000_0000,
        selections_fit(m.pcr_selection),
    ensures
        quote_of(quote_layout(m, signer, clock)) == Ok::<_, ParseError>(m),
{
    let t_end = Seq::<u8>::empty();
    let t_digest = sized(m.pcr_digest) + t_end;
    let t_select = selections_layout(m.pcr_selection) + t_digest;
    let count = m.pcr_selection.len() as u32;
    let t_count = be32(count) + t_select;
    lemma_sized(t_digest, m.pcr_digest, t_end, "TPMS_QUOTE_INFO.pcrDigest");
    lemma_selections(t_select, m.pcr_selection, t_digest);
    lemma_u32(t_count, count, t_select, "TPML_PCR_SELECTION.count");
    lemma_attest_head_parses(m.magic, m.attest_type, signer, m.extra_data, clock, t_count);
}

/// An accepted quote is the marshaled form of what was read, for some signer
/// name and clock bytes, which are returned: nothing is skipped but these, and
/// nothing trails.
#[verifier::rlimit(40)]
pub proof fn law_quote_is_layout(b: Seq<u8>, m: QuoteModel) -> (free: (Seq<u8>, Seq<u8>))
    requires
        quote_of(b) == Ok::<_, ParseError>(m),
    ensures
        b == quote_layout(m, free.0, free.1),
        free.0.len() < 0x1_0000,
        free.1.len() == 25,
        m.attest_type == TPM_ST_ATTEST_QUOTE,
        selections_fit(m.pcr_selection),
{
    let f1 = read_u32(b, "TPMS_ATTEST.magic")->Ok_0;
    let f2 = read_u16(f1.1, "TPMS_ATTEST.type")->Ok_0;
    let f3 = read_sized(f2.1, "TPMS_ATTEST.qualifiedSigner")->Ok_0;
    let f4 = read_sized(f3.1, "TPMS_ATTEST.extraData")->Ok_0;
    let clock = f4.1.subrange(0, 25);
    let b5 = f4.1.skip(25);
    let f6 = read_u32(b5, "TPML_PCR_SELECTION.count")->Ok_0;
    let f7 = read_selections(f6.1, f6.0 as nat)->Ok_0;
    let f8 = read_sized(f7.1, "TPMS_QUOTE_INFO.pcrDigest")->Ok_0;
    lemma_u32(b, f1.0, f1.1, "TPMS_ATTEST.magic");
    lemma_u16(f1.1, f2.0, f2.1, "TPMS_ATTEST.type");
    lemma_sized(f2.1, f3.0, f3.1, "TPMS_ATTEST.qualifiedSigner");
    lemma_sized(f3.1, f4.0, f4.1, "TPMS_ATTEST.extraData");
    assert(f4.1 =~= clock + b5);
    lemma_u32(b5, f6.0, f6.1, "TPML_PCR_SELECTION.count");
    lemma_selections_len(f6.1, f6.0 as nat);
    lemma_selections(f6.1, f7.0, f7.1);
    lemma_sized(f7.1, f8.0, f8.1, "TPMS_QUOTE_INFO.pcrDigest");
    assert(f8.1 =~= Seq::<u8>::empty());
    (f3.0, clock)
}

proof fn lemma_selections_len(b: Seq<u8>, count: nat)
    ensures
        read_selections(b, count) matches Ok((m, _)) ==> m.len() == count,
    decreases count,
{
    if count > 0 {
        if let Ok((_, rest)) = read_selection(b) {
            lemma_selections_len(rest, (count - 1) as nat);
        }
    }
}

proof fn lemma_selected_below(bitmap: Seq<u8>, n: nat)
    requires
        n <= 256,
        n <= 8 * bitmap.len(),
    ensures
        forall|i: int, j: int|
            0 <= i < j < selected_below(bitmap, n).len() ==> #[trigger] selected_below(bitmap, n)[i]
                < #[trigger] selected_below(bitmap, n)[j],
        forall|i: int|
            0 <= i < selected_below(bitmap, n).len() ==> #[trigger] selected_below(bitmap, n)[i] < n
                && selects(bitmap, selected_below(bitmap, n)[i] as int),
        forall|p: u8|
            p < n && #[trigger] selects(bitmap, p as int) ==> selected_below(bitmap, n).contains(p),
    decreases n,
{
    if n > 0 {
        let k = (n - 1) as nat;
        lemma_selected_below(bitmap, k);
        let before = selected_below(bitmap, k);
        let now = selected_below(bitmap, n);
        assert forall|p: u8| p < n && #[trigger] selects(bitmap, p as int) implies now.contains(
            p,
        ) by {
            if p < k {
                let i = choose|i: int| 0 <= i < before.len() && before[i] == p;
                assert(now[i] == p);
            } else {
                assert(now[now.len() - 1] == p);
            }
        }
    }
}

/// A selection stands for exactly the PCRs whose bits are set, the lowest bit of
/// each byte first, in ascending order.
pub proof fn law_selected_bits(bitmap: Seq<u8>, p: u8)
    ensures
        selected(bitmap).contains(p) <==> p as int / 8 < bitmap.len() && bitmap[p as int / 8] & (
        1u8 << (p % 8)) != 0,
        forall|i: int, j: int|
            0 <= i < j < selected(bitmap).len() ==> #[trigger] selected(bitmap)[i]
                < #[trigger] selected(bitmap)[j],
{
    let n: nat = if 8 * bitmap.len() < 256 {
        8 * bitmap.len()
    } else {
        256
    };
    lemma_selected_below(bitmap, n);
    assert((p as int % 8) as u8 == p % 8);
    if selected(bitmap).contains(p) {
        let i = choose|i: int| 0 <= i < selected(bitmap).len() && selected(bitmap)[i] == p;
        assert(selected_below(bitmap, n)[i] == p);
    } else if p as int / 8 < bitmap.len() {
        assert(!selects(bitmap, p as int));
    }
}

/// Numbers are big-endian: the first byte counts most.
pub proof fn law_big_endian(b: Seq<u8>)
    requires
        b.len() >= 4,
    ensures
        number16(b[0], b[1]) == b[0] * 0x100 + b[1],
        number32(b) == ((b[0] * 0x100 + b[1]) * 0x100 + b[2]) * 0x100 + b[3],
{
}

} // verus!
