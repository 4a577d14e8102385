//! Agreement of a cluster on one issuer seed.
//!
//! The seed that the cluster holds is the one that every node uses. Where there
//! is none yet, the leader offers one: that on its disk, so that an identity
//! outlives the move into the cluster, or a fresh one. The other nodes wait,
//! but not for ever. What is offered counts only if the cluster accepts it.

use vstd::prelude::*;
use crate::cmis::startup::StartupError;
use crate::primitives::bytes::{bytes_equal, take_array};

verus! {

/// How long a node that does not lead waits for a seed, in milliseconds.
pub const FOLLOWER_SEED_WAIT_MS: u64 = 20_000;

/// How long a node sleeps before it looks again, in milliseconds.
pub const SEED_POLL_INTERVAL_MS: u64 = 500;

/// Read a seed of 32 bytes.
pub fn parse_seed(bytes: &[u8], src: &str) -> (r: Result<[u8; 32], StartupError>)
    ensures
        match r {
            Ok(seed) => bytes@.len() == 32 && seed@ == bytes@,
            Err(e) => bytes@.len() != 32 && (e matches StartupError::SeedLength { src: s, len }
                && s@ == src@ && len == bytes@.len()),
        },
{
    let len: usize = bytes.len();
    if len != 32 {
        return Err(StartupError::SeedLength { src: src.to_owned(), len });
    }
    let seed: [u8; 32] = take_array::<32>(bytes, 0);
    assert(seed@ =~= bytes@);
    Ok(seed)
}

/// What is next.
#[derive(Debug, Clone, Copy, PartialEq, Eq)]
pub enum SeedStep {
    /// Ask the cluster for its seed.
    Fetch,
    /// Ask whether this node leads.
    AskLeader,
    /// Look for a seed on disk.
    ReadDisk,
    /// Make a fresh seed.
    Mint,
    /// Offer a seed to the cluster, which accepts it only if it has none.
    Offer([u8; 32]),
    /// Sleep, then look again.
    Sleep,
    /// Use this seed.
    Use([u8; 32]),
}

/// What happened.
#[derive(Debug)]
pub enum SeedEvent {
    /// The cluster's seed, if it has one.
    Fetched(Option<Vec<u8>>),
    /// Whether this node leads, and how long it has been looking, in
    /// milliseconds.
    Leads(bool, u64),
    /// The seed on disk, if there is one.
    OnDisk(Option<Vec<u8>>),
    /// A fresh seed.
    Minted([u8; 32]),
    /// Whether the cluster accepted the seed.
    Accepted(bool),
    /// The sleep is over.
    Woke,
}

/// What the cluster's seed is called in errors.
pub open spec fn cluster_source() -> Seq<char> {
    "cluster issuer_seed"@
}

/// Whether a seed of a given source is malformed and an error says so.
pub open spec fn malformed(bytes: Seq<u8>, source: Seq<char>, e: StartupError) -> bool {
    bytes.len() != 32 && (e matches StartupError::SeedLength { src, len } && src@ == source && len
        == bytes.len())
}

/// What follows a step. An event that does not belong to the step changes
/// nothing.
pub fn advance(step: SeedStep, event: SeedEvent, disk_name: &str) -> (r: Result<
    SeedStep,
    StartupError,
>)
    ensures
        match (step, event) {
            (SeedStep::Fetch, SeedEvent::Fetched(Some(b))) => match r {
                Ok(next) => next matches SeedStep::Use(seed) && seed@ == b@,
                Err(e) => malformed(b@, cluster_source(), e),
            },
            (SeedStep::Fetch, SeedEvent::Fetched(None)) => r == Ok::<_, StartupError>(
                SeedStep::AskLeader,
            ),
            (SeedStep::AskLeader, SeedEvent::Leads(leads, waited)) => r == Ok::<_, StartupError>(
                if leads || waited >= FOLLOWER_SEED_WAIT_MS {
                    SeedStep::ReadDisk
                } else {
                    SeedStep::Sleep
                },
            ),
            (SeedStep::ReadDisk, SeedEvent::OnDisk(Some(b))) => match r {
                Ok(next) => next matches SeedStep::Offer(seed) && seed@ == b@,
                Err(e) => malformed(b@, disk_name@, e),
            },
            (SeedStep::ReadDisk, SeedEvent::OnDisk(None)) => r == Ok::<_, StartupError>(
                SeedStep::Mint,
            ),
            (SeedStep::Mint, SeedEvent::Minted(seed)) => r == Ok::<_, StartupError>(
                SeedStep::Offer(seed),
            ),
            (SeedStep::Offer(seed), SeedEvent::Accepted(accepted)) => r == Ok::<_, StartupError>(
                if accepted {
                    SeedStep::Use(seed)
                } else {
                    SeedStep::Fetch
                },
            ),
            (SeedStep::Sleep, SeedEvent::Woke) => r == Ok::<_, StartupError>(SeedStep::Fetch),
            _ => r == Ok::<_, StartupError>(step),
        },
{
    match (step, event) {
        (SeedStep::Fetch, SeedEvent::Fetched(Some(b))) => match parse_seed(
            b.as_slice(),
            "cluster issuer_seed",
        ) {
            Ok(seed) => Ok(SeedStep::Use(seed)),
            Err(e) => Err(e),
        },
        (SeedStep::Fetch, SeedEvent::Fetched(None)) => Ok(SeedStep::AskLeader),
        (SeedStep::AskLeader, SeedEvent::Leads(leads, waited)) => if leads || waited
            >= FOLLOWER_SEED_WAIT_MS {
            Ok(SeedStep::ReadDisk)
        } else {
            Ok(SeedStep::Sleep)
        },
        (SeedStep::ReadDisk, SeedEvent::OnDisk(Some(b))) => match parse_seed(
            b.as_slice(),
            disk_name,
        ) {
            Ok(seed) => Ok(SeedStep::Offer(seed)),
            Err(e) => Err(e),
        },
        (SeedStep::ReadDisk, SeedEvent::OnDisk(None)) => Ok(SeedStep::Mint),
        (SeedStep::Mint, SeedEvent::Minted(seed)) => Ok(SeedStep::Offer(seed)),
        (SeedStep::Offer(seed), SeedEvent::Accepted(accepted)) => if accepted {
            Ok(SeedStep::Use(seed))
        } else {
            Ok(SeedStep::Fetch)
        },
        (SeedStep::Sleep, SeedEvent::Woke) => Ok(SeedStep::Fetch),
        _ => Ok(step),
    }
}

/// Whether the copy of the seed on disk must be written: it is missing, or
/// another.
pub fn mirror_needed(on_disk: Option<&[u8]>, seed: &[u8; 32]) -> (r: bool)
    ensures
        r == !(on_disk matches Some(b) && b@ == seed@),
{
    match on_disk {
        Some(b) => !bytes_equal(b, seed.as_slice()),
        None => true,
    }
}

/// What a cluster holds after a node did a step: an offer is taken up only
/// where there is no seed.
pub open spec fn held_after(held: Option<Seq<u8>>, step: SeedStep) -> Option<Seq<u8>> {
    match (held, step) {
        (None, SeedStep::Offer(seed)) => Some(seed@),
        _ => held,
    }
}

/// Whether an event is what a step brings, in a cluster that holds a seed or
/// none.
pub open spec fn brings(held: Option<Seq<u8>>, step: SeedStep, event: SeedEvent) -> bool {
    match (step, event) {
        (SeedStep::Fetch, SeedEvent::Fetched(b)) => match (b, held) {
            (Some(v), Some(h)) => v@ == h,
            (None, None) => true,
            _ => false,
        },
        (SeedStep::Offer(_), SeedEvent::Accepted(accepted)) => accepted == (held is None),
        (SeedStep::AskLeader, SeedEvent::Leads(..)) => true,
        (SeedStep::ReadDisk, SeedEvent::OnDisk(_)) => true,
        (SeedStep::Mint, SeedEvent::Minted(_)) => true,
        (SeedStep::Sleep, SeedEvent::Woke) => true,
        _ => false,
    }
}

/// Whether a node that is to use a seed uses the one that the cluster holds.
pub open spec fn agrees(held: Option<Seq<u8>>, step: SeedStep) -> bool {
    step matches SeedStep::Use(seed) ==> held == Some(seed@)
}

/// Every node ends up with the one seed that the cluster holds: a step leaves a
/// seed that is held as it is, and a node that comes to use a seed uses that
/// one. `r` is what follows the step, as [`advance`] gives it.
pub proof fn law_one_seed(
    held: Option<Seq<u8>>,
    step: SeedStep,
    event: SeedEvent,
    disk_name: &str,
    r: Result<SeedStep, StartupError>,
)
    requires
        call_ensures(advance, (step, event, disk_name), r),
        brings(held, step, event),
        agrees(held, step),
    ensures
        held is Some ==> held_after(held, step) == held,
        r matches Ok(next) ==> agrees(held_after(held, step), next),
{
}

/// A node that does not lead offers nothing while it waits, and a seed on disk
/// goes before a fresh one.
pub proof fn law_leader_first(
    waited: u64,
    on_disk: Option<Vec<u8>>,
    disk_name: &str,
    asked: Result<SeedStep, StartupError>,
    read: Result<SeedStep, StartupError>,
)
    requires
        waited < FOLLOWER_SEED_WAIT_MS,
        call_ensures(
            advance,
            (SeedStep::AskLeader, SeedEvent::Leads(false, waited), disk_name),
            asked,
        ),
        call_ensures(advance, (SeedStep::ReadDisk, SeedEvent::OnDisk(on_disk), disk_name), read),
    ensures
        asked == Ok::<_, StartupError>(SeedStep::Sleep),
        on_disk matches Some(b) ==> !(read matches Ok(SeedStep::Mint)),
{
}

/// A seed of the right size is taken as it is, from the cluster to be used and
/// from the disk to be offered, and one of another size from neither. `fetched`
/// and `read` are what [`advance`] gives.
pub proof fn law_seed_taken(
    b: Vec<u8>,
    disk_name: &str,
    fetched: Result<SeedStep, StartupError>,
    read: Result<SeedStep, StartupError>,
)
    requires
        call_ensures(
            advance,
            (SeedStep::Fetch, SeedEvent::Fetched(Some(b)), disk_name),
            fetched,
        ),
        call_ensures(advance, (SeedStep::ReadDisk, SeedEvent::OnDisk(Some(b)), disk_name), read),
    ensures
        b@.len() == 32 ==> (fetched matches Ok(SeedStep::Use(s)) && s@ == b@),
        b@.len() == 32 ==> (read matches Ok(SeedStep::Offer(s)) && s@ == b@),
        b@.len() != 32 ==> fetched is Err && read is Err,
{
}

/// A seed that was offered is used once the cluster accepts it, and is looked
/// for again where it does not. A leader without a seed makes one. `answered`,
/// `led` and `made` are what [`advance`] gives.
pub proof fn law_offer_decided(
    seed: [u8; 32],
    accepted: bool,
    waited: u64,
    disk_name: &str,
    answered: Result<SeedStep, StartupError>,
    led: Result<SeedStep, StartupError>,
    made: Result<SeedStep, StartupError>,
)
    requires
        call_ensures(
            advance,
            (SeedStep::Offer(seed), SeedEvent::Accepted(accepted), disk_name),
            answered,
        ),
        call_ensures(
            advance,
            (SeedStep::AskLeader, SeedEvent::Leads(true, waited), disk_name),
            led,
        ),
        call_ensures(advance, (SeedStep::ReadDisk, SeedEvent::OnDisk(None), disk_name), made),
    ensures
        accepted ==> answered == Ok::<_, StartupError>(SeedStep::Use(seed)),
        !accepted ==> answered == Ok::<_, StartupError>(SeedStep::Fetch),
        led == Ok::<_, StartupError>(SeedStep::ReadDisk),
        made == Ok::<_, StartupError>(SeedStep::Mint),
{
}

} // verus!
