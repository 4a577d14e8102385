//! One share of the root seed on its medium.
//!
//! A share is wrapped with a tag over everything that is written beside it, so
//! that a later change shows. The tag does not hide anything: what keeps the
//! seed secret is that too few shares say nothing of it.
//!
//! The seed is split and put together by the caller, whose results are handed
//! in.

use vstd::prelude::*;
use crate::ceremony::error::{CeremonyError, CeremonyFault, ROOT_SEED_LEN};
use crate::primitives::bytes;
use crate::primitives::bytes::{i64_to_be, push_field, take_array, u64_to_be};
use crate::primitives::{encoding, hash, text};
use vstd::string::StringExecFns;

verus! {

/// What the format of a sealed share is called.
pub const SEALED_SHARE_MAGIC: &'static str = "ferrogate-sealed-share";

/// Version of the format.
pub const SEALED_SHARE_VERSION: u32 = 1;

/// A share of the root seed.
#[derive(Debug, Clone, PartialEq, Eq)]
pub struct Share {
    /// Where the polynomials were evaluated; 0 is where the seed itself is.
    pub x: u8,
    /// The values, one for each byte of the seed.
    pub y: Vec<u8>,
}

/// A share of the root seed on its medium.
#[derive(Debug, Clone, PartialEq, Eq)]
pub struct SealedShare {
    /// What the format is called.
    pub format: String,
    /// Version of the format.
    pub version: u32,
    /// Key id of the root.
    pub root_kid: String,
    /// How many shares are needed.
    pub threshold: usize,
    /// How many shares there are.
    pub total: usize,
    /// Where the polynomials were evaluated.
    pub index: u8,
    /// Who holds the share.
    pub holder: String,
    /// When the share was sealed, Unix seconds.
    pub created_at: i64,
    /// The values, in Base64.
    pub share: String,
    /// The tag, in hexadecimal.
    pub tag: String,
}

/// What a tag covers.
pub struct TagInput {
    pub root_kid: Seq<char>,
    pub threshold: nat,
    pub total: nat,
    pub index: u8,
    pub holder: Seq<char>,
    pub created_at: i64,
    pub values: Seq<u8>,
}

/// The version of the format as four bytes, the highest first.
pub open spec fn version_bytes() -> Seq<u8> {
    seq![0u8, 0u8, 0u8, 1u8]
}

/// The bytes that a tag covers, each part with its length before it.
pub open spec fn tag_bytes(t: TagInput) -> Seq<u8> {
    bytes::field(vstd::utf8::encode_utf8(SEALED_SHARE_MAGIC@)) + (bytes::field(version_bytes()) + (
    bytes::field(vstd::utf8::encode_utf8(t.root_kid)) + (bytes::field(
        bytes::be64(t.threshold as u64),
    ) + (bytes::field(bytes::be64(t.total as u64)) + (bytes::field(seq![t.index]) + (bytes::field(
        vstd::utf8::encode_utf8(t.holder),
    ) + (bytes::field(bytes::be64_signed(t.created_at)) + (bytes::field(t.values)
        + Seq::empty()))))))))
}

/// The tag of a share.
pub open spec fn tag_of(t: TagInput) -> Seq<char> {
    encoding::hex_text(hash::sha3_256_of(tag_bytes(t))@)
}

fn compute_tag(
    root_kid: &str,
    threshold: usize,
    total: usize,
    index: u8,
    holder: &str,
    created_at: i64,
    values: &[u8],
) -> (r: String)
    ensures
        r@ == tag_of(
            TagInput {
                root_kid: root_kid@,
                threshold: threshold as nat,
                total: total as nat,
                index,
                holder: holder@,
                created_at,
                values: values@,
            },
        ),
{
    let version: [u8; 4] = [0, 0, 0, 1];
    let at: [u8; 1] = [index];
    let mut out: Vec<u8> = Vec::new();
    push_field(&mut out, SEALED_SHARE_MAGIC.as_bytes());
    push_field(&mut out, version.as_slice());
    push_field(&mut out, root_kid.as_bytes());
    push_field(&mut out, u64_to_be(threshold as u64).as_slice());
    push_field(&mut out, u64_to_be(total as u64).as_slice());
    push_field(&mut out, at.as_slice());
    push_field(&mut out, holder.as_bytes());
    push_field(&mut out, i64_to_be(created_at).as_slice());
    push_field(&mut out, values);
    proof {
        assert(version@ =~= version_bytes());
        assert(at@ =~= seq![index]);
        assert(out@ =~= tag_bytes(
            TagInput {
                root_kid: root_kid@,
                threshold: threshold as nat,
                total: total as nat,
                index,
                holder: holder@,
                created_at,
                values: values@,
            },
        ));
    }
    let digest = hash::sha3_256(out.as_slice());
    encoding::hex_encode(digest.as_slice())
}

impl SealedShare {
    /// The values on the medium, or why there are none.
    pub open spec fn values(self) -> Result<Seq<u8>, Seq<char>> {
        encoding::base64_value(vstd::utf8::encode_utf8(self.share@))
    }

    /// What the tag must cover, given the values.
    pub open spec fn tag_input(self, values: Seq<u8>) -> TagInput {
        TagInput {
            root_kid: self.root_kid@,
            threshold: self.threshold as nat,
            total: self.total as nat,
            index: self.index,
            holder: self.holder@,
            created_at: self.created_at,
            values,
        }
    }

    /// What is wrong with the share, if anything is.
    pub open spec fn fault(self) -> Option<CeremonyFault> {
        let what = "sealed share"@;
        if self.format@ != SEALED_SHARE_MAGIC@ {
            Some(
                CeremonyFault::Malformed {
                    what,
                    detail: "unexpected format "@ + text::debug_text(self.format@),
                },
            )
        } else if self.version != SEALED_SHARE_VERSION {
            Some(
                CeremonyFault::Malformed {
                    what,
                    detail: "unsupported version "@ + text::decimal(self.version as nat),
                },
            )
        } else if self.index == 0 {
            Some(
                CeremonyFault::Malformed {
                    what,
                    detail: "share index 0 is the secret, not a share"@,
                },
            )
        } else {
            match self.values() {
                Err(e) => Some(CeremonyFault::Malformed { what, detail: "share base64: "@ + e }),
                Ok(y) => if tag_of(self.tag_input(y)) != self.tag@ {
                    Some(CeremonyFault::Integrity(what))
                } else {
                    None
                },
            }
        }
    }

    /// Whether a sealed share is that of a share, for a holder.
    pub open spec fn seals(
        self,
        root_kid: Seq<char>,
        threshold: usize,
        total: usize,
        share: Share,
        holder: Seq<char>,
        created_at: i64,
    ) -> bool {
        &&& self.format@ == SEALED_SHARE_MAGIC@
        &&& self.version == SEALED_SHARE_VERSION
        &&& self.root_kid@ == root_kid
        &&& self.threshold == threshold
        &&& self.total == total
        &&& self.index == share.x
        &&& self.holder@ == holder
        &&& self.created_at == created_at
        &&& self.share@ == encoding::base64_text(share.y@)
        &&& self.values() == Ok::<_, Seq<char>>(share.y@)
        &&& self.tag@ == tag_of(self.tag_input(share.y@))
    }

    /// Seal a share for a holder.
    pub fn seal(
        root_kid: &str,
        threshold: usize,
        total: usize,
        share: &Share,
        holder: &str,
        created_at: i64,
    ) -> (r: Self)
        ensures
            r.seals(root_kid@, threshold, total, *share, holder@, created_at),
    {
        let tag = compute_tag(
            root_kid,
            threshold,
            total,
            share.x,
            holder,
            created_at,
            share.y.as_slice(),
        );
        SealedShare {
            format: SEALED_SHARE_MAGIC.to_owned(),
            version: SEALED_SHARE_VERSION,
            root_kid: root_kid.to_owned(),
            threshold,
            total,
            index: share.x,
            holder: holder.to_owned(),
            created_at,
            share: encoding::base64_encode(share.y.as_slice()),
            tag,
        }
    }

    fn share_bytes(&self) -> (r: Result<Vec<u8>, CeremonyError>)
        ensures
            match r {
                Ok(y) => self.values() == Ok::<_, Seq<char>>(y@),
                Err(e) => self.values() matches Err(m) && e@ == (CeremonyFault::Malformed {
                    what: "sealed share"@,
                    detail: "share base64: "@ + m,
                }),
            },
    {
        match encoding::base64_decode(self.share.as_str().as_bytes()) {
            Ok(y) => Ok(y),
            Err(e) => Err(
                CeremonyError::Malformed {
                    what: "sealed share",
                    detail: text::joined("share base64: ", e.as_str()),
                },
            ),
        }
    }

    /// Check the format, its version, the index and the tag.
    pub fn verify_integrity(&self) -> (r: Result<(), CeremonyError>)
        ensures
            match r {
                Ok(_) => self.fault() is None,
                Err(e) => self.fault() == Some(e@),
            },
    {
        if !text::same_text(self.format.as_str(), SEALED_SHARE_MAGIC) {
            let q = text::quoted(self.format.as_str());
            return Err(
                CeremonyError::Malformed {
                    what: "sealed share",
                    detail: text::joined("unexpected format ", q.as_str()),
                },
            );
        }
        if self.version != SEALED_SHARE_VERSION {
            let d = text::decimal_text(self.version as u64);
            return Err(
                CeremonyError::Malformed {
                    what: "sealed share",
                    detail: text::joined("unsupported version ", d.as_str()),
                },
            );
        }
        if self.index == 0 {
            return Err(
                CeremonyError::Malformed {
                    what: "sealed share",
                    detail: "share index 0 is the secret, not a share".to_owned(),
                },
            );
        }
        let y = self.share_bytes()?;
        let expected = compute_tag(
            self.root_kid.as_str(),
            self.threshold,
            self.total,
            self.index,
            self.holder.as_str(),
            self.created_at,
            y.as_slice(),
        );
        if !text::same_text(expected.as_str(), self.tag.as_str()) {
            return Err(CeremonyError::Integrity("sealed share"));
        }
        Ok(())
    }

    /// The share that the medium carries, once it has been checked.
    pub fn to_share(&self) -> (r: Result<Share, CeremonyError>)
        ensures
            match r {
                Ok(s) => self.fault() is None && s.x == self.index && self.values() == Ok::<
                    _,
                    Seq<char>,
                >(s.y@),
                Err(e) => self.fault() == Some(e@),
            },
    {
        self.verify_integrity()?;
        let y = self.share_bytes()?;
        Ok(Share { x: self.index, y })
    }
}

/// The shares of one root, one for each holder.
#[derive(Debug, Clone)]
pub struct SealedShareSet {
    /// The shares.
    pub shares: Vec<SealedShare>,
}

/// Whether two sealed shares are of one root and one split.
pub open spec fn same_split(a: SealedShare, b: SealedShare) -> bool {
    a.root_kid@ == b.root_kid@ && a.threshold == b.threshold && a.total == b.total
}

/// What is wrong with the first `n` of several shares that are to be put
/// together, if anything is.
pub open spec fn set_fault(shares: Seq<SealedShare>, n: int) -> Option<CeremonyFault>
    decreases n,
{
    if n <= 0 {
        None
    } else {
        match set_fault(shares, n - 1) {
            Some(f) => Some(f),
            None => match shares[n - 1].fault() {
                Some(f) => Some(f),
                None => if same_split(shares[n - 1], shares[0]) {
                    None
                } else {
                    Some(
                        CeremonyFault::Malformed {
                            what: "sealed share set"@,
                            detail: "shares are from different roots or parameter sets"@,
                        },
                    )
                },
            },
        }
    }
}

/// What is wrong with shares that are to be put together, if anything is: they
/// must be intact, of one root and one split, and enough.
pub open spec fn combine_fault(shares: Seq<SealedShare>) -> Option<CeremonyFault> {
    if shares.len() == 0 {
        Some(
            CeremonyFault::Malformed { what: "sealed share set"@, detail: "no shares supplied"@ },
        )
    } else {
        match set_fault(shares, shares.len() as int) {
            Some(f) => Some(f),
            None => if shares.len() < shares[0].threshold {
                Some(
                    CeremonyFault::Shamir(
                        "have "@ + text::decimal(shares.len()) + " shares, need "@ + text::decimal(
                            shares[0].threshold as nat,
                        ),
                    ),
                )
            } else {
                None
            },
        }
    }
}

/// A share as its index and its values.
pub open spec fn share_model(s: Share) -> (u8, Seq<u8>) {
    (s.x, s.y@)
}

/// The shares on several media that are intact.
pub open spec fn opened(shares: Seq<SealedShare>) -> Seq<(u8, Seq<u8>)> {
    shares.map_values(|s: SealedShare| (s.index, s.values()->Ok_0))
}

/// What putting shares together gave, as sequences.
pub open spec fn joined_view(secret: Result<Vec<u8>, String>) -> Result<Seq<u8>, Seq<char>> {
    match secret {
        Ok(s) => Ok(s@),
        Err(m) => Err(m@),
    }
}

/// The root seed from several media, given what putting their shares together
/// gave, or why there is none.
pub open spec fn combined(shares: Seq<SealedShare>, secret: Result<Seq<u8>, Seq<char>>) -> Result<
    Seq<u8>,
    CeremonyFault,
> {
    match (combine_fault(shares), secret) {
        (Some(f), _) => Err(f),
        (None, Err(m)) => Err(CeremonyFault::Shamir(m)),
        (None, Ok(s)) => if s.len() != ROOT_SEED_LEN {
            Err(
                CeremonyFault::Malformed {
                    what: "reconstructed seed"@,
                    detail: "expected 32 bytes, got "@ + text::decimal(s.len()),
                },
            )
        } else {
            Ok(s)
        },
    }
}

proof fn lemma_set_fault(shares: Seq<SealedShare>, n: int, i: int)
    requires
        0 <= i < n <= shares.len(),
        set_fault(shares, n) is None,
    ensures
        shares[i].fault() is None,
        same_split(shares[i], shares[0]),
    decreases n,
{
    if i < n - 1 {
        lemma_set_fault(shares, n - 1, i);
    }
}

proof fn lemma_set_fault_stays(shares: Seq<SealedShare>, n: int, m: int)
    requires
        0 <= n <= m,
        set_fault(shares, n) is Some,
    ensures
        set_fault(shares, m) == set_fault(shares, n),
    decreases m - n,
{
    if n < m {
        lemma_set_fault_stays(shares, n, m - 1);
    }
}

/// The root seed. It is wiped when it is dropped.
#[derive(Debug)]
pub struct RootSeed {
    bytes: [u8; 32],
}

impl View for RootSeed {
    type V = Seq<u8>;

    closed spec fn view(&self) -> Seq<u8> {
        self.bytes@
    }
}

impl Drop for RootSeed {
    /// The seed is overwritten with zeros.
    fn drop(&mut self)
        ensures
            final(self)@ == bytes::zeros_32(),
        opens_invariants none
        no_unwind
    {
        self.wipe();
    }
}

impl RootSeed {
    /// The seed.
    pub fn as_bytes(&self) -> (r: &[u8; 32])
        ensures
            r@ == self@,
    {
        &self.bytes
    }

    /// Overwrite the seed with zeros.
    pub fn wipe(&mut self)
        ensures
            final(self)@ == bytes::zeros_32(),
        opens_invariants none
        no_unwind
    {
        bytes::wipe_32(&mut self.bytes);
    }
}

impl SealedShareSet {
    /// Seal the shares of a split, each for its holder.
    pub fn seal(
        root_kid: &str,
        split: Result<Vec<Share>, String>,
        threshold: usize,
        holders: &[String],
        created_at: i64,
    ) -> (r: Result<Self, CeremonyError>)
        ensures
            match split {
                Ok(raw) => r matches Ok(set) && set.shares@.len() == (if raw@.len()
                    <= holders@.len() {
                    raw@.len()
                } else {
                    holders@.len()
                }) && forall|i: int|
                    0 <= i < set.shares@.len() ==> (#[trigger] set.shares@[i]).seals(
                        root_kid@,
                        threshold,
                        holders.len(),
                        raw@[i],
                        holders@[i]@,
                        created_at,
                    ),
                Err(m) => r matches Err(e) && e@ == CeremonyFault::Shamir(m@),
            },
    {
        let raw = match split {
            Ok(raw) => raw,
            Err(m) => return Err(CeremonyError::Shamir(m)),
        };
        let total: usize = holders.len();
        let mut shares: Vec<SealedShare> = Vec::new();
        let mut i: usize = 0;
        while i < raw.len() && i < total
            invariant
                i <= raw@.len(),
                i <= total == holders@.len(),
                total == holders.len(),
                shares@.len() == i,
                forall|j: int|
                    0 <= j < i ==> (#[trigger] shares@[j]).seals(
                        root_kid@,
                        threshold,
                        total,
                        raw@[j],
                        holders@[j]@,
                        created_at,
                    ),
            decreases raw@.len() - i,
        {
            shares.push(
                SealedShare::seal(
                    root_kid,
                    threshold,
                    total,
                    &raw[i],
                    holders[i].as_str(),
                    created_at,
                ),
            );
            i += 1;
        }
        Ok(SealedShareSet { shares })
    }

    /// The shares on several media, once all of them have been checked.
    pub fn open_shares(shares: &[SealedShare]) -> (r: Result<Vec<Share>, CeremonyError>)
        ensures
            match r {
                Ok(raw) => combine_fault(shares@) is None && raw@.map_values(
                    |s: Share| share_model(s),
                ) == opened(shares@),
                Err(e) => combine_fault(shares@) == Some(e@),
            },
    {
        if shares.len() == 0 {
            return Err(
                CeremonyError::Malformed {
                    what: "sealed share set",
                    detail: "no shares supplied".to_owned(),
                },
            );
        }
        let mut i: usize = 0;
        while i < shares.len()
            invariant
                i <= shares@.len(),
                shares@.len() > 0,
                set_fault(shares@, i as int) is None,
            decreases shares@.len() - i,
        {
            let s = &shares[i];
            proof {
                if set_fault(shares@, i + 1) is Some {
                    lemma_set_fault_stays(shares@, i + 1, shares@.len() as int);
                }
            }
            s.verify_integrity()?;
            let first = &shares[0];
            if !text::same_text(s.root_kid.as_str(), first.root_kid.as_str()) || s.threshold
                != first.threshold || s.total != first.total {
                return Err(
                    CeremonyError::Malformed {
                        what: "sealed share set",
                        detail: "shares are from different roots or parameter sets".to_owned(),
                    },
                );
            }
            i += 1;
        }
        let needed: usize = shares[0].threshold;
        if shares.len() < needed {
            let have = text::decimal_text(shares.len() as u64);
            let need = text::decimal_text(needed as u64);
            let mut m = text::joined("have ", have.as_str());
            m.append(" shares, need ");
            m.append(need.as_str());
            return Err(CeremonyError::Shamir(m));
        }
        let mut raw: Vec<Share> = Vec::new();
        let mut k: usize = 0;
        while k < shares.len()
            invariant
                k <= shares@.len(),
                combine_fault(shares@) is None,
                set_fault(shares@, shares@.len() as int) is None,
                raw@.len() == k,
                forall|j: int|
                    0 <= j < k ==> (#[trigger] raw@[j]).x == shares@[j].index
                        && shares@[j].values() == Ok::<_, Seq<char>>(raw@[j].y@),
            decreases shares@.len() - k,
        {
            proof {
                lemma_set_fault(shares@, shares@.len() as int, k as int);
            }
            raw.push(shares[k].to_share()?);
            k += 1;
        }
        assert(raw@.map_values(|s: Share| share_model(s)) =~= opened(shares@));
        Ok(raw)
    }

    /// The root seed, from what putting the shares together gave.
    pub fn combine(shares: &[SealedShare], secret: Result<Vec<u8>, String>) -> (r: Result<
        RootSeed,
        CeremonyError,
    >)
        ensures
            match r {
                Ok(seed) => combined(shares@, joined_view(secret)) == Ok::<_, CeremonyFault>(seed@),
                Err(e) => combined(shares@, joined_view(secret)) == Err::<Seq<u8>, _>(e@),
            },
    {
        let _raw = Self::open_shares(shares)?;
        let s = match secret {
            Ok(s) => s,
            Err(m) => return Err(CeremonyError::Shamir(m)),
        };
        if s.len() != ROOT_SEED_LEN {
            let d = text::decimal_text(s.len() as u64);
            return Err(
                CeremonyError::Malformed {
                    what: "reconstructed seed",
                    detail: text::joined("expected 32 bytes, got ", d.as_str()),
                },
            );
        }
        let seed = RootSeed { bytes: take_array::<32>(s.as_slice(), 0) };
        assert(seed@ =~= s@);
        Ok(seed)
    }
}

/// What was sealed is intact, and gives the share back.
pub proof fn law_sealed_share_opens(
    s: SealedShare,
    root_kid: Seq<char>,
    threshold: usize,
    total: usize,
    share: Share,
    holder: Seq<char>,
    created_at: i64,
)
    requires
        s.seals(root_kid, threshold, total, share, holder, created_at),
        share.x != 0,
    ensures
        s.fault() is None,
        s.index == share.x,
        s.values() == Ok::<_, Seq<char>>(share.y@),
{
}

/// Whether media are those of some shares of a split, each sealed for a holder.
pub open spec fn seals_all(
    media: Seq<SealedShare>,
    root_kid: Seq<char>,
    threshold: usize,
    total: usize,
    raw: Seq<Share>,
    holders: Seq<Seq<char>>,
    created_at: i64,
) -> bool {
    &&& media.len() <= raw.len()
    &&& forall|i: int|
        0 <= i < media.len() ==> (#[trigger] media[i]).seals(
            root_kid,
            threshold,
            total,
            raw[i],
            holders[i],
            created_at,
        ) && raw[i].x != 0
}

/// Whether numbers pick out different elements among `n`.
pub open spec fn picks_among(picks: Seq<int>, n: nat) -> bool {
    &&& forall|i: int| 0 <= i < picks.len() ==> 0 <= #[trigger] picks[i] < n
    &&& forall|i: int, j: int|
        0 <= i < j < picks.len() ==> #[trigger] picks[i] != #[trigger] picks[j]
}

/// Whether shares can be put together to a seed: any `threshold` different ones
/// of them, or more, give it.
pub open spec fn joins_to(
    join: spec_fn(Seq<(u8, Seq<u8>)>) -> Result<Seq<u8>, Seq<char>>,
    raw: Seq<Share>,
    threshold: usize,
    seed: Seq<u8>,
) -> bool {
    forall|picks: Seq<int>|
        #![trigger picks_among(picks, raw.len())]
        picks_among(picks, raw.len()) && picks.len() >= threshold ==> join(
            picks.map_values(|k: int| share_model(raw[k])),
        ) == Ok::<_, Seq<char>>(seed)
}

proof fn lemma_intact_set(shares: Seq<SealedShare>, n: int)
    requires
        0 <= n <= shares.len(),
        forall|i: int|
            0 <= i < n ==> (#[trigger] shares[i]).fault() is None && same_split(
                shares[i],
                shares[0],
            ),
    ensures
        set_fault(shares, n) is None,
    decreases n,
{
    if n > 0 {
        lemma_intact_set(shares, n - 1);
        assert(shares[n - 1].fault() is None);
    }
}

/// Sealing a split and opening media gives back the shares that were sealed,
/// and with them the seed: whichever media are picked, if they are enough then
/// the seed is what putting the split's shares together gives, and if they are
/// too few then there is none.
pub proof fn law_sealed_seed_returns(
    media: Seq<SealedShare>,
    root_kid: Seq<char>,
    threshold: usize,
    total: usize,
    raw: Seq<Share>,
    holders: Seq<Seq<char>>,
    created_at: i64,
    picks: Seq<int>,
    join: spec_fn(Seq<(u8, Seq<u8>)>) -> Result<Seq<u8>, Seq<char>>,
    seed: Seq<u8>,
)
    requires
        seals_all(media, root_kid, threshold, total, raw, holders, created_at),
        picks_among(picks, media.len()),
        picks.len() > 0,
        joins_to(join, raw, threshold, seed),
        seed.len() == ROOT_SEED_LEN,
    ensures
        ({
            let shares = picks.map_values(|k: int| media[k]);
            &&& opened(shares) == picks.map_values(|k: int| share_model(raw[k]))
            &&& picks.len() >= threshold ==> combined(shares, join(opened(shares))) == Ok::<
                _,
                CeremonyFault,
            >(seed)
            &&& picks.len() < threshold ==> (combined(shares, join(opened(shares))) matches Err(f)
                && f is Shamir)
        }),
{
    let shares = picks.map_values(|k: int| media[k]);
    assert forall|i: int| 0 <= i < shares.len() implies (#[trigger] shares[i]).fault() is None
        && same_split(shares[i], shares[0]) && shares[i].index == raw[picks[i]].x
        && shares[i].values() == Ok::<_, Seq<char>>(raw[picks[i]].y@) by {
        assert(shares[i] == media[picks[i]]);
        assert(shares[0] == media[picks[0]]);
        let k = picks[i];
        law_sealed_share_opens(
            media[k],
            root_kid,
            threshold,
            total,
            raw[k],
            holders[k],
            created_at,
        );
        let k0 = picks[0];
        assert(media[k0].seals(root_kid, threshold, total, raw[k0], holders[k0], created_at));
    }
    assert(shares[0] == media[picks[0]]);
    lemma_intact_set(shares, shares.len() as int);
    assert(opened(shares) =~= picks.map_values(|k: int| share_model(raw[k])));
    assert(picks_among(picks, raw.len()));
}

/// Whether lengths and numbers fit in 64 bits, as they do on every medium.
pub open spec fn fits_lengths(t: TagInput) -> bool {
    &&& vstd::utf8::encode_utf8(t.root_kid).len() <= u64::MAX
    &&& vstd::utf8::encode_utf8(t.holder).len() <= u64::MAX
    &&& t.values.len() <= u64::MAX
    &&& t.threshold <= u64::MAX
    &&& t.total <= u64::MAX
}

/// The bytes that a tag covers tell apart everything that stands on the medium.
pub proof fn law_tag_binds(a: TagInput, b: TagInput)
    requires
        fits_lengths(a),
        fits_lengths(b),
        tag_bytes(a) == tag_bytes(b),
    ensures
        a == b,
{
    let none = Seq::<u8>::empty();
    let magic = vstd::utf8::encode_utf8(SEALED_SHARE_MAGIC@);
    let a8 = bytes::field(a.values) + none;
    let a7 = bytes::field(bytes::be64_signed(a.created_at)) + a8;
    let a6 = bytes::field(vstd::utf8::encode_utf8(a.holder)) + a7;
    let a5 = bytes::field(seq![a.index]) + a6;
    let a4 = bytes::field(bytes::be64(a.total as u64)) + a5;
    let a3 = bytes::field(bytes::be64(a.threshold as u64)) + a4;
    let a2 = bytes::field(vstd::utf8::encode_utf8(a.root_kid)) + a3;
    let a1 = bytes::field(version_bytes()) + a2;
    let b8 = bytes::field(b.values) + none;
    let b7 = bytes::field(bytes::be64_signed(b.created_at)) + b8;
    let b6 = bytes::field(vstd::utf8::encode_utf8(b.holder)) + b7;
    let b5 = bytes::field(seq![b.index]) + b6;
    let b4 = bytes::field(bytes::be64(b.total as u64)) + b5;
    let b3 = bytes::field(bytes::be64(b.threshold as u64)) + b4;
    let b2 = bytes::field(vstd::utf8::encode_utf8(b.root_kid)) + b3;
    let b1 = bytes::field(version_bytes()) + b2;
    let m = bytes::field(magic);
    assert((m + a1).skip(m.len() as int) =~= a1);
    assert((m + b1).skip(m.len() as int) =~= b1);
    bytes::lemma_field_injective(version_bytes(), a2, version_bytes(), b2);
    bytes::lemma_field_injective(
        vstd::utf8::encode_utf8(a.root_kid),
        a3,
        vstd::utf8::encode_utf8(b.root_kid),
        b3,
    );
    bytes::lemma_field_injective(
        bytes::be64(a.threshold as u64),
        a4,
        bytes::be64(b.threshold as u64),
        b4,
    );
    bytes::lemma_field_injective(bytes::be64(a.total as u64), a5, bytes::be64(b.total as u64), b5);
    bytes::lemma_field_injective(seq![a.index], a6, seq![b.index], b6);
    bytes::lemma_field_injective(
        vstd::utf8::encode_utf8(a.holder),
        a7,
        vstd::utf8::encode_utf8(b.holder),
        b7,
    );
    bytes::lemma_field_injective(
        bytes::be64_signed(a.created_at),
        a8,
        bytes::be64_signed(b.created_at),
        b8,
    );
    bytes::lemma_field_injective(a.values, none, b.values, none);
    bytes::lemma_be64_injective(a.threshold as u64, b.threshold as u64);
    bytes::lemma_be64_injective(a.total as u64, b.total as u64);
    bytes::lemma_be64_signed_injective(a.created_at, b.created_at);
    assert(seq![a.index][0] == seq![b.index][0]);
    vstd::utf8::encode_utf8_decode_utf8(a.root_kid);
    vstd::utf8::encode_utf8_decode_utf8(b.root_kid);
    vstd::utf8::encode_utf8_decode_utf8(a.holder);
    vstd::utf8::encode_utf8_decode_utf8(b.holder);
}

/// Two media with one tag say the same, or else two inputs of SHA3-256 with one
/// digest have been found.
pub proof fn law_altered_share_shows(a: TagInput, b: TagInput)
    requires
        fits_lengths(a),
        fits_lengths(b),
        tag_of(a) == tag_of(b),
    ensures
        a == b || (tag_bytes(a) != tag_bytes(b) && hash::sha3_256_of(tag_bytes(a))@
            == hash::sha3_256_of(tag_bytes(b))@),
{
    if tag_bytes(a) == tag_bytes(b) {
        law_tag_binds(a, b);
    }
    encoding::lemma_hex_roundtrip(hash::sha3_256_of(tag_bytes(a))@);
    encoding::lemma_hex_roundtrip(hash::sha3_256_of(tag_bytes(b))@);
}

/// Too few shares give nothing, whatever putting them together would have
/// given.
pub proof fn law_threshold_holds(shares: Seq<SealedShare>)
    requires
        shares.len() > 0,
        shares.len() < shares[0].threshold,
    ensures
        combine_fault(shares) is Some,
{
}

/// A share counts exactly if it is of this format in its first version, is not
/// the secret itself, decodes, and carries the tag of all that stands on the
/// medium.
pub proof fn law_intact_share(s: SealedShare)
    ensures
        s.fault() is None <==> {
            &&& s.format@ == "ferrogate-sealed-share"@
            &&& s.version == 1
            &&& s.index != 0
            &&& s.values() matches Ok(y) && s.tag@ == tag_of(
                TagInput {
                    root_kid: s.root_kid@,
                    threshold: s.threshold as nat,
                    total: s.total as nat,
                    index: s.index,
                    holder: s.holder@,
                    created_at: s.created_at,
                    values: y,
                },
            )
        },
{
}

/// Media are put together exactly if there are any, all of them are intact, all
/// are of one root and one split, and they are enough.
pub proof fn law_media_combine(shares: Seq<SealedShare>)
    ensures
        combine_fault(shares) is None <==> {
            &&& shares.len() > 0
            &&& shares.len() >= shares[0].threshold
            &&& forall|i: int|
                0 <= i < shares.len() ==> (#[trigger] shares[i]).fault() is None
                    && shares[i].root_kid@ == shares[0].root_kid@ && shares[i].threshold
                    == shares[0].threshold && shares[i].total == shares[0].total
        },
{
    let n = shares.len() as int;
    if combine_fault(shares) is None {
        assert forall|i: int| 0 <= i < n implies (#[trigger] shares[i]).fault() is None
            && shares[i].root_kid@ == shares[0].root_kid@ && shares[i].threshold
            == shares[0].threshold && shares[i].total == shares[0].total by {
            lemma_set_fault(shares, n, i);
        }
    }
    if forall|i: int|
        0 <= i < n ==> (#[trigger] shares[i]).fault() is None && same_split(shares[i], shares[0]) {
        lemma_intact_set(shares, n);
    }
}

} // verus!
