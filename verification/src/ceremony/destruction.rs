//! Destruction of a share's medium, and the check that nothing is left.

use vstd::prelude::*;
use crate::ceremony::error::{CeremonyError, CeremonyFault};
use crate::ceremony::media::SealedShare;
use crate::primitives::text;
use vstd::string::StringExecFns;

verus! {

/// What was destroyed.
#[derive(Debug, Clone, PartialEq, Eq)]
pub struct DestructionRecord {
    /// Where the medium was.
    pub path: String,
    /// Key id of the root that the share belonged to.
    pub root_kid: String,
    /// Who held the share.
    pub holder: String,
    /// Where the polynomials were evaluated.
    pub index: u8,
    /// How many bytes were overwritten.
    pub bytes_zeroized: usize,
    /// Whether reading back showed that nothing is left.
    pub verified: bool,
    /// When, Unix seconds.
    pub destroyed_at: i64,
}

/// The position of the first byte that is not zero, at or after `i`.
pub open spec fn first_nonzero(b: Seq<u8>, i: int) -> Option<int>
    decreases b.len() - i,
{
    if i < 0 || i >= b.len() {
        None
    } else if b[i] != 0 {
        Some(i)
    } else {
        first_nonzero(b, i + 1)
    }
}

/// What is left on a medium, if anything is: a byte that is not zero, or a
/// share that can be used. `parsed` is what the bytes decode to as a sealed
/// share, if they do.
pub open spec fn remnant(path: Seq<char>, after: Seq<u8>, parsed: Option<SealedShare>) -> Option<
    CeremonyFault,
> {
    match first_nonzero(after, 0) {
        Some(pos) => Some(
            CeremonyFault::NotDestroyed(
                path + ": non-zero byte at offset "@ + text::decimal(pos as nat)
                    + " after zeroization"@,
            ),
        ),
        None => if parsed matches Some(s) && s.fault() is None {
            Some(
                CeremonyFault::NotDestroyed(path + ": a usable share survived zeroization"@),
            )
        } else {
            None
        },
    }
}

/// Check that nothing is left on a medium.
pub fn verify_destruction(path: &str, after: &[u8], parsed: &Option<SealedShare>) -> (r: Result<
    (),
    CeremonyError,
>)
    ensures
        match r {
            Ok(_) => remnant(path@, after@, *parsed) is None,
            Err(e) => remnant(path@, after@, *parsed) == Some(e@),
        },
{
    let mut i: usize = 0;
    while i < after.len()
        invariant
            i <= after@.len(),
            first_nonzero(after@, 0) == first_nonzero(after@, i as int),
        decreases after@.len() - i,
    {
        if after[i] != 0 {
            let d = text::decimal_text(i as u64);
            let mut m = text::joined(path, ": non-zero byte at offset ");
            m.append(d.as_str());
            m.append(" after zeroization");
            return Err(CeremonyError::NotDestroyed(m));
        }
        i += 1;
    }
    if let Some(s) = parsed {
        if s.to_share().is_ok() {
            return Err(
                CeremonyError::NotDestroyed(
                    text::joined(path, ": a usable share survived zeroization"),
                ),
            );
        }
    }
    Ok(())
}

/// What a medium is overwritten with.
pub fn zeros(len: usize) -> (r: Vec<u8>)
    ensures
        r@.len() == len,
        forall|i: int| 0 <= i < len ==> r@[i] == 0,
{
    let mut out: Vec<u8> = Vec::new();
    let mut i: usize = 0;
    while i < len
        invariant
            i <= len,
            out@.len() == i,
            forall|j: int| 0 <= j < i ==> out@[j] == 0,
        decreases len - i,
    {
        out.push(0);
        i += 1;
    }
    out
}

/// Record a destruction, once reading back has shown that nothing is left.
/// `before` is what the medium decoded to before it was overwritten, if it did;
/// `after` and `parsed` are what was read back.
pub fn destroy_media(
    path: &str,
    before: &Option<SealedShare>,
    len: usize,
    after: &[u8],
    parsed: &Option<SealedShare>,
    now: i64,
) -> (r: Result<DestructionRecord, CeremonyError>)
    ensures
        match r {
            Ok(rec) => {
                &&& remnant(path@, after@, *parsed) is None
                &&& rec.path@ == path@
                &&& rec.bytes_zeroized == len
                &&& rec.verified
                &&& rec.destroyed_at == now
                &&& match before {
                    Some(s) => rec.root_kid@ == s.root_kid@ && rec.holder@ == s.holder@ && rec.index
                        == s.index,
                    None => rec.root_kid@ == "<unparseable>"@ && rec.holder@ == "<unknown>"@
                        && rec.index == 0,
                }
            },
            Err(e) => remnant(path@, after@, *parsed) == Some(e@),
        },
{
    verify_destruction(path, after, parsed)?;
    let (root_kid, holder, index) = match before {
        Some(s) => (s.root_kid.clone(), s.holder.clone(), s.index),
        None => ("<unparseable>".to_owned(), "<unknown>".to_owned(), 0u8),
    };
    Ok(
        DestructionRecord {
            path: path.to_owned(),
            root_kid,
            holder,
            index,
            bytes_zeroized: len,
            verified: true,
            destroyed_at: now,
        },
    )
}

proof fn lemma_first_nonzero(b: Seq<u8>, i: int)
    requires
        0 <= i <= b.len(),
    ensures
        match first_nonzero(b, i) {
            Some(p) => i <= p < b.len() && b[p] != 0 && forall|j: int| i <= j < p ==> b[j] == 0,
            None => forall|j: int| i <= j < b.len() ==> b[j] == 0,
        },
    decreases b.len() - i,
{
    if i < b.len() && b[i] == 0 {
        lemma_first_nonzero(b, i + 1);
    }
}

/// A medium passes only if every byte on it is zero and no share on it can be
/// used.
pub proof fn law_destroyed_means_zero(path: Seq<char>, after: Seq<u8>, parsed: Option<SealedShare>)
    ensures
        remnant(path, after, parsed) is None <==> (forall|i: int|
            0 <= i < after.len() ==> after[i] == 0) && !(parsed matches Some(s)
            && s.fault() is None),
{
    lemma_first_nonzero(after, 0);
}

} // verus!
