//! Reference integrity measurements: which aggregate PCR digests are approved,
//! under which policy.
//!
//! Approvals come in generations. The newest [`MAX_GENERATIONS`] are kept, so
//! that hosts in the middle of a rollout are not locked out; among those that
//! are active the newest decides. Manual approvals stand beside them, are
//! always active and survive every update.

use vstd::prelude::*;
use crate::collections::{DigestSet, KeyMap};

verus! {

/// How many generations are kept.
pub const MAX_GENERATIONS: usize = 6;

/// Names the policy that an approved digest belongs to.
#[derive(Debug, PartialEq, Eq, Hash)]
pub struct PolicyId(pub String);

impl View for PolicyId {
    type V = Seq<char>;

    open spec fn view(&self) -> Seq<char> {
        self.0@
    }
}

impl Clone for PolicyId {
    fn clone(&self) -> (r: Self)
        ensures
            r@ == self@,
    {
        PolicyId(self.0.clone())
    }
}

impl PolicyId {
    /// The name itself.
    pub fn as_str(&self) -> (r: &str)
        ensures
            r@ == self@,
    {
        self.0.as_str()
    }
}

/// One published generation.
#[derive(Debug)]
pub struct RimGeneration {
    /// Version of the bundle that it came with.
    pub version: u64,
    /// The policy that it approves under.
    pub policy_id: PolicyId,
    /// First second of active use, Unix time.
    pub not_before: i64,
    /// First second after active use, Unix time.
    pub not_after: i64,
    /// The approved aggregate digests.
    pub approved: DigestSet,
}

/// The contents of a [`RimGeneration`].
pub struct GenerationModel {
    pub version: u64,
    pub policy_id: Seq<char>,
    pub not_before: i64,
    pub not_after: i64,
    pub approved: Set<[u8; 48]>,
}

impl View for RimGeneration {
    type V = GenerationModel;

    open spec fn view(&self) -> GenerationModel {
        GenerationModel {
            version: self.version,
            policy_id: self.policy_id@,
            not_before: self.not_before,
            not_after: self.not_after,
            approved: self.approved@,
        }
    }
}

impl GenerationModel {
    /// Whether the generation counts at `now`.
    pub open spec fn active(self, now: i64) -> bool {
        self.not_before <= now < self.not_after
    }
}

impl RimGeneration {
    /// Whether the generation counts at `now`.
    pub fn is_active(&self, now: i64) -> (r: bool)
        ensures
            r == self@.active(now),
    {
        self.not_before <= now && now < self.not_after
    }

    /// Whether the generation approves `digest`.
    pub fn approves(&self, digest: &[u8; 48]) -> (r: bool)
        ensures
            r == self@.approved.contains(*digest),
    {
        self.approved.contains(digest)
    }
}

/// What may be shown of a kept generation.
#[derive(Debug, PartialEq, Eq)]
pub struct RimGenerationSummary {
    /// Bundle version.
    pub version: u64,
    /// Policy.
    pub policy_id: PolicyId,
    /// First second of active use.
    pub not_before: i64,
    /// First second after active use.
    pub not_after: i64,
    /// Number of approved digests.
    pub approved_count: usize,
}

/// Whether a summary is that of a generation.
pub open spec fn summarises(s: RimGenerationSummary, g: GenerationModel) -> bool {
    &&& s.version == g.version
    &&& s.policy_id@ == g.policy_id
    &&& s.not_before == g.not_before
    &&& s.not_after == g.not_after
    &&& s.approved_count == g.approved.len()
}

/// What an update did.
#[derive(Debug, Clone, PartialEq, Eq)]
pub struct ApplyOutcome {
    /// The version that became active.
    pub version: u64,
    /// How many generations are kept now.
    pub retained: usize,
    /// How many were dropped.
    pub pruned: usize,
}

/// Why an update is refused.
#[derive(Debug, Clone, PartialEq, Eq)]
pub enum ApplyError {
    /// The version is not above the last one applied.
    NonMonotonic {
        /// The last version applied.
        current: u64,
        /// The version refused.
        incoming: u64,
    },
    /// The window of active use is empty.
    InvalidWindow {
        /// Its lower bound.
        not_before: i64,
        /// Its upper bound.
        not_after: i64,
    },
}

/// The contents of a [`RimStore`].
pub struct RimModel {
    /// The kept generations, oldest first.
    pub generations: Seq<GenerationModel>,
    /// The manual approvals.
    pub manual: Map<[u8; 48], Seq<char>>,
    /// The highest version ever applied, 0 if none was.
    pub last_version: u64,
}

/// What holds of every store: few generations, in the order of their versions,
/// none with an empty window or above the last version.
pub open spec fn store_inv(m: RimModel) -> bool {
    &&& m.generations.len() <= MAX_GENERATIONS
    &&& forall|i: int, j: int|
        0 <= i < j < m.generations.len() ==> (#[trigger] m.generations[i]).version < (
        #[trigger] m.generations[j]).version
    &&& forall|i: int|
        0 <= i < m.generations.len() ==> (#[trigger] m.generations[i]).version <= m.last_version
            && m.generations[i].not_before < m.generations[i].not_after
}

/// The policy of the newest generation that approves `digest`; with a time,
/// only active generations count.
pub open spec fn newest_policy(
    generations: Seq<GenerationModel>,
    digest: [u8; 48],
    now: Option<i64>,
) -> Option<Seq<char>>
    decreases generations.len(),
{
    if generations.len() == 0 {
        None
    } else {
        let newest = generations.last();
        if newest.approved.contains(digest) && (now matches Some(t) ==> newest.active(t)) {
            Some(newest.policy_id)
        } else {
            newest_policy(generations.drop_last(), digest, now)
        }
    }
}

/// The policy that a store approves `digest` under.
pub open spec fn approved_policy(m: RimModel, digest: [u8; 48], now: Option<i64>) -> Option<
    Seq<char>,
> {
    if m.manual.dom().contains(digest) {
        Some(m.manual[digest])
    } else {
        newest_policy(m.generations, digest, now)
    }
}

/// The generations that are kept when `g` is added.
pub open spec fn after_adding(
    generations: Seq<GenerationModel>,
    g: GenerationModel,
) -> Seq<GenerationModel> {
    if generations.len() < MAX_GENERATIONS {
        generations.push(g)
    } else {
        generations.push(g).skip(1)
    }
}

/// The number of approvals in a run of generations.
pub open spec fn approvals(generations: Seq<GenerationModel>) -> nat
    decreases generations.len(),
{
    if generations.len() == 0 {
        0
    } else {
        approvals(generations.drop_last()) + generations.last().approved.len()
    }
}

/// The approved measurements.
#[derive(Debug)]
pub struct RimStore {
    generations: Vec<RimGeneration>,
    manual: KeyMap<[u8; 48], PolicyId>,
    last_version: u64,
}

/// The contents of the kept generations.
pub open spec fn generation_models(s: Seq<RimGeneration>) -> Seq<GenerationModel> {
    s.map_values(|g: RimGeneration| g@)
}

impl View for RimStore {
    type V = RimModel;

    closed spec fn view(&self) -> RimModel {
        RimModel {
            generations: generation_models(self.generations@),
            manual: self.manual@.map_values(|p: PolicyId| p@),
            last_version: self.last_version,
        }
    }
}

impl Default for RimStore {
    fn default() -> (r: Self)
        ensures
            r@.generations == Seq::<GenerationModel>::empty(),
            r@.manual == Map::<[u8; 48], Seq<char>>::empty(),
            r@.last_version == 0,
            store_inv(r@),
    {
        RimStore::new()
    }
}

impl RimStore {
    #[verifier::type_invariant]
    spec fn inv(&self) -> bool {
        store_inv(self@)
    }

    /// An empty store.
    pub fn new() -> (r: Self)
        ensures
            r@.generations == Seq::<GenerationModel>::empty(),
            r@.manual == Map::<[u8; 48], Seq<char>>::empty(),
            r@.last_version == 0,
            store_inv(r@),
    {
        let r = RimStore { generations: Vec::new(), manual: KeyMap::new(), last_version: 0 };
        assert(r@.generations =~= Seq::<GenerationModel>::empty());
        assert(r@.manual =~= Map::<[u8; 48], Seq<char>>::empty());
        r
    }

    /// Approve a digest by hand, at all times and through all updates.
    pub fn approve(&mut self, digest: [u8; 48], policy_id: PolicyId)
        ensures
            final(self)@.manual == old(self)@.manual.insert(digest, policy_id@),
            final(self)@.generations == old(self)@.generations,
            final(self)@.last_version == old(self)@.last_version,
            store_inv(final(self)@),
    {
        proof {
            use_type_invariant(&*self);
        }
        let mut manual: KeyMap<[u8; 48], PolicyId> = KeyMap::new();
        std::mem::swap(&mut manual, &mut self.manual);
        manual.insert(digest, policy_id);
        self.manual = manual;
        assert(self@.manual =~= old(self)@.manual.insert(digest, policy_id@));
    }

    /// The policy that `digest` is approved under at `now`: by hand if it is,
    /// else by the newest active generation that approves it.
    pub fn lookup_at(&self, digest: &[u8; 48], now: i64) -> (r: Option<PolicyId>)
        ensures
            match r {
                Some(p) => approved_policy(self@, *digest, Some(now)) == Some(p@),
                None => approved_policy(self@, *digest, Some(now)) is None,
            },
    {
        self.find(digest, Some(now))
    }

    /// The same without regard to time.
    pub fn lookup(&self, digest: &[u8; 48]) -> (r: Option<PolicyId>)
        ensures
            match r {
                Some(p) => approved_policy(self@, *digest, None) == Some(p@),
                None => approved_policy(self@, *digest, None) is None,
            },
    {
        self.find(digest, None)
    }

    fn find(&self, digest: &[u8; 48], now: Option<i64>) -> (r: Option<PolicyId>)
        ensures
            match r {
                Some(p) => approved_policy(self@, *digest, now) == Some(p@),
                None => approved_policy(self@, *digest, now) is None,
            },
    {
        if let Some(p) = self.manual.get(digest) {
            return Some(p.clone());
        }
        let ghost all = self@.generations;
        let mut i: usize = self.generations.len();
        assert(all.take(i as int) =~= all);
        while i > 0
            invariant
                i <= self.generations@.len(),
                all == generation_models(self.generations@),
                newest_policy(all, *digest, now) == newest_policy(
                    all.take(i as int),
                    *digest,
                    now,
                ),
                approved_policy(self@, *digest, now) == newest_policy(all, *digest, now),
            decreases i,
        {
            let g = &self.generations[i - 1];
            assert(all.take(i as int).last() == g@);
            assert(all.take(i as int).drop_last() =~= all.take(i - 1));
            let counts: bool = match now {
                Some(t) => g.is_active(t),
                None => true,
            };
            if counts && g.approves(digest) {
                return Some(g.policy_id.clone());
            }
            i -= 1;
        }
        None
    }

    /// Add a generation. It is refused if its window is empty or its version
    /// is not above the last one; else it becomes the newest, and the oldest
    /// is dropped where there would be more than [`MAX_GENERATIONS`].
    pub fn apply(&mut self, generation: RimGeneration) -> (r: Result<ApplyOutcome, ApplyError>)
        ensures
            store_inv(final(self)@),
            final(self)@.manual == old(self)@.manual,
            match r {
                Ok(o) => {
                    &&& generation.not_before < generation.not_after
                    &&& generation.version > old(self)@.last_version
                    &&& final(self)@.generations == after_adding(
                        old(self)@.generations,
                        generation@,
                    )
                    &&& final(self)@.last_version == generation.version
                    &&& o.version == generation.version
                    &&& o.retained == final(self)@.generations.len()
                    &&& o.pruned == old(self)@.generations.len() + 1 - o.retained
                },
                Err(e) => {
                    &&& final(self)@ == old(self)@
                    &&& e == (if generation.not_before >= generation.not_after {
                        ApplyError::InvalidWindow {
                            not_before: generation.not_before,
                            not_after: generation.not_after,
                        }
                    } else {
                        ApplyError::NonMonotonic {
                            current: old(self)@.last_version,
                            incoming: generation.version,
                        }
                    })
                    &&& generation.not_before >= generation.not_after || generation.version <= old(
                        self,
                    )@.last_version
                },
            },
    {
        proof {
            use_type_invariant(&*self);
        }
        if generation.not_before >= generation.not_after {
            return Err(
                ApplyError::InvalidWindow {
                    not_before: generation.not_before,
                    not_after: generation.not_after,
                },
            );
        }
        if generation.version <= self.last_version {
            return Err(
                ApplyError::NonMonotonic {
                    current: self.last_version,
                    incoming: generation.version,
                },
            );
        }
        let version: u64 = generation.version;
        let ghost added = generation@;
        let ghost before = self@.generations;
        let mut next = RimStore::new();
        std::mem::swap(self, &mut next);
        let RimStore { mut generations, manual, last_version: _ } = next;
        generations.push(generation);
        assert(generation_models(generations@) =~= before.push(added));
        let mut pruned: usize = 0;
        if generations.len() > MAX_GENERATIONS {
            let _oldest = generations.remove(0);
            pruned = 1;
            assert(generation_models(generations@) =~= before.push(added).skip(1));
        }
        assert(generation_models(generations@) =~= after_adding(before, added));
        let retained: usize = generations.len();
        *self = RimStore { generations, manual, last_version: version };
        Ok(ApplyOutcome { version, retained, pruned })
    }

    /// The highest version ever applied, 0 if none was.
    pub fn current_version(&self) -> (r: u64)
        ensures
            r == self@.last_version,
            store_inv(self@),
    {
        proof {
            use_type_invariant(self);
        }
        self.last_version
    }

    /// The kept generations in short, newest last.
    pub fn generations(&self) -> (r: Vec<RimGenerationSummary>)
        ensures
            store_inv(self@),
            r@.len() == self@.generations.len(),
            forall|i: int|
                0 <= i < r@.len() ==> summarises(#[trigger] r@[i], self@.generations[i]),
    {
        proof {
            use_type_invariant(self);
        }
        let mut out: Vec<RimGenerationSummary> = Vec::new();
        let mut i: usize = 0;
        while i < self.generations.len()
            invariant
                i <= self.generations@.len(),
                out@.len() == i,
                self@.generations == generation_models(self.generations@),
                forall|j: int|
                    0 <= j < i ==> summarises(#[trigger] out@[j], self@.generations[j]),
            decreases self.generations@.len() - i,
        {
            let g = &self.generations[i];
            out.push(
                RimGenerationSummary {
                    version: g.version,
                    policy_id: g.policy_id.clone(),
                    not_before: g.not_before,
                    not_after: g.not_after,
                    approved_count: g.approved.len(),
                },
            );
            i += 1;
        }
        out
    }

    /// The number of approvals in all kept generations and by hand.
    pub fn len(&self) -> (r: usize)
        requires
            self@.manual.dom().len() + approvals(self@.generations) <= usize::MAX,
        ensures
            r == self@.manual.dom().len() + approvals(self@.generations),
    {
        let mut total: usize = self.manual.len();
        assert(self.manual@.dom() =~= self@.manual.dom());
        let ghost all = self@.generations;
        let mut i: usize = 0;
        assert(all.take(0) =~= Seq::<GenerationModel>::empty());
        while i < self.generations.len()
            invariant
                i <= self.generations@.len(),
                all == generation_models(self.generations@),
                all == self@.generations,
                total == self@.manual.dom().len() + approvals(all.take(i as int)),
                self@.manual.dom().len() + approvals(all) <= usize::MAX,
            decreases self.generations@.len() - i,
        {
            proof {
                lemma_approvals_monotone(all, i + 1);
                assert(all.take(i + 1).drop_last() =~= all.take(i as int));
                assert(all.take(i + 1).last() == self.generations@[i as int]@);
            }
            total = total + self.generations[i].approved.len();
            i += 1;
        }
        assert(all.take(i as int) =~= all);
        total
    }

    /// Whether nothing is approved at all.
    pub fn is_empty(&self) -> (r: bool)
        ensures
            r == (self@.manual.dom().len() + approvals(self@.generations) == 0),
    {
        assert(self.manual@.dom() =~= self@.manual.dom());
        if self.manual.len() != 0 {
            return false;
        }
        let ghost all = self@.generations;
        let mut i: usize = 0;
        assert(all.take(0) =~= Seq::<GenerationModel>::empty());
        while i < self.generations.len()
            invariant
                i <= self.generations@.len(),
                all == generation_models(self.generations@),
                all == self@.generations,
                approvals(all.take(i as int)) == 0,
            decreases self.generations@.len() - i,
        {
            proof {
                lemma_approvals_monotone(all, i + 1);
                assert(all.take(i + 1).drop_last() =~= all.take(i as int));
                assert(all.take(i + 1).last() == self.generations@[i as int]@);
            }
            if self.generations[i].approved.len() != 0 {
                return false;
            }
            i += 1;
        }
        assert(all.take(i as int) =~= all);
        true
    }
}

proof fn lemma_approvals_monotone(all: Seq<GenerationModel>, n: int)
    requires
        0 <= n <= all.len(),
    ensures
        approvals(all.take(n)) <= approvals(all),
    decreases all.len() - n,
{
    if n == all.len() {
        assert(all.take(n) =~= all);
    } else {
        assert(all.take(n + 1).drop_last() =~= all.take(n));
        lemma_approvals_monotone(all, n + 1);
    }
}

/// A digest approved by hand has that policy at every time, whatever the
/// generations say.
pub proof fn law_manual_wins(m: RimModel, digest: [u8; 48], now: Option<i64>)
    requires
        m.manual.dom().contains(digest),
    ensures
        approved_policy(m, digest, now) == Some(m.manual[digest]),
{
}

/// Without an approval by hand, the policy is that of the newest generation
/// that is active and approves the digest; there is none only if no active
/// generation approves it.
pub proof fn law_newest_active_wins(m: RimModel, digest: [u8; 48], now: i64)
    requires
        !m.manual.dom().contains(digest),
    ensures
        match approved_policy(m, digest, Some(now)) {
            Some(policy) => exists|i: int|
                0 <= i < m.generations.len() && (#[trigger] m.generations[i]).policy_id == policy
                    && m.generations[i].active(now) && m.generations[i].approved.contains(digest)
                    && forall|j: int|
                    i < j < m.generations.len() ==> !((#[trigger] m.generations[j]).active(now)
                        && m.generations[j].approved.contains(digest)),
            None => forall|i: int|
                0 <= i < m.generations.len() ==> !((#[trigger] m.generations[i]).active(now)
                    && m.generations[i].approved.contains(digest)),
        },
{
    lemma_newest(m.generations, digest, now);
}

proof fn lemma_newest(generations: Seq<GenerationModel>, digest: [u8; 48], now: i64)
    ensures
        match newest_policy(generations, digest, Some(now)) {
            Some(policy) => exists|i: int|
                0 <= i < generations.len() && (#[trigger] generations[i]).policy_id == policy
                    && generations[i].active(now) && generations[i].approved.contains(digest)
                    && forall|j: int|
                    i < j < generations.len() ==> !((#[trigger] generations[j]).active(now)
                        && generations[j].approved.contains(digest)),
            None => forall|i: int|
                0 <= i < generations.len() ==> !((#[trigger] generations[i]).active(now)
                    && generations[i].approved.contains(digest)),
        },
    decreases generations.len(),
{
    if generations.len() > 0 {
        let newest = generations.last();
        let older = generations.drop_last();
        if newest.approved.contains(digest) && newest.active(now) {
            assert(generations[generations.len() - 1] == newest);
        } else {
            lemma_newest(older, digest, now);
            match newest_policy(older, digest, Some(now)) {
                Some(policy) => {
                    let i = choose|i: int|
                        0 <= i < older.len() && (#[trigger] older[i]).policy_id == policy
                            && older[i].active(now) && older[i].approved.contains(digest)
                            && forall|j: int|
                            i < j < older.len() ==> !((#[trigger] older[j]).active(now)
                                && older[j].approved.contains(digest));
                    assert(generations[i] == older[i]);
                    assert forall|j: int| i < j < generations.len() implies !((
                    #[trigger] generations[j]).active(now) && generations[j].approved.contains(
                        digest,
                    )) by {
                        if j < older.len() {
                            assert(generations[j] == older[j]);
                        }
                    }
                },
                None => {
                    assert forall|j: int| 0 <= j < generations.len() implies !((
                    #[trigger] generations[j]).active(now) && generations[j].approved.contains(
                        digest,
                    )) by {
                        if j < older.len() {
                            assert(generations[j] == older[j]);
                        }
                    }
                },
            }
        }
    }
}

/// A newly added generation is kept, decides wherever it is active and
/// approves, and at most the one oldest generation goes.
pub proof fn law_added_generation_decides(
    m: RimModel,
    g: GenerationModel,
    digest: [u8; 48],
    now: i64,
)
    requires
        store_inv(m),
        !m.manual.dom().contains(digest),
        g.approved.contains(digest),
        g.active(now),
    ensures
        ({
            let after = RimModel {
                generations: after_adding(m.generations, g),
                manual: m.manual,
                last_version: g.version,
            };
            &&& approved_policy(after, digest, Some(now)) == Some(g.policy_id)
            &&& after.generations.last() == g
            &&& m.generations.len() <= after.generations.len() + 1
        }),
{
}

/// A generation counts from its first second on and up to its last, the bound
/// above excluded, and at no other time.
pub proof fn law_active_window(g: GenerationModel, now: i64)
    ensures
        now < g.not_before ==> !g.active(now),
        now >= g.not_after ==> !g.active(now),
        now >= g.not_before && now < g.not_after ==> g.active(now),
{
}

proof fn lemma_newest_ever(generations: Seq<GenerationModel>, digest: [u8; 48])
    ensures
        match newest_policy(generations, digest, None) {
            Some(policy) => exists|i: int|
                0 <= i < generations.len() && (#[trigger] generations[i]).policy_id == policy
                    && generations[i].approved.contains(digest) && forall|j: int|
                    i < j < generations.len() ==> !(#[trigger] generations[j]).approved.contains(
                        digest,
                    ),
            None => forall|i: int|
                0 <= i < generations.len() ==> !(#[trigger] generations[i]).approved.contains(
                    digest,
                ),
        },
    decreases generations.len(),
{
    if generations.len() > 0 {
        let older = generations.drop_last();
        let last = generations.len() - 1;
        if generations[last].approved.contains(digest) {
            assert(generations[last].policy_id == generations.last().policy_id);
        } else {
            lemma_newest_ever(older, digest);
            if let Some(policy) = newest_policy(older, digest, None) {
                let i = choose|i: int|
                    0 <= i < older.len() && (#[trigger] older[i]).policy_id == policy
                        && older[i].approved.contains(digest) && forall|j: int|
                        i < j < older.len() ==> !(#[trigger] older[j]).approved.contains(digest);
                assert(generations[i] == older[i]);
                assert forall|j: int| i < j < generations.len() implies !(
                #[trigger] generations[j]).approved.contains(digest) by {
                    if j < last {
                        assert(generations[j] == older[j]);
                    }
                }
            } else {
                assert forall|j: int| 0 <= j < generations.len() implies !(
                #[trigger] generations[j]).approved.contains(digest) by {
                    if j < last {
                        assert(generations[j] == older[j]);
                    }
                }
            }
        }
    }
}

/// Without regard to time, the policy is that of the newest generation that
/// approves the digest; there is none only if no generation approves it.
pub proof fn law_newest_wins(m: RimModel, digest: [u8; 48])
    requires
        !m.manual.dom().contains(digest),
    ensures
        match approved_policy(m, digest, None) {
            Some(policy) => exists|i: int|
                0 <= i < m.generations.len() && (#[trigger] m.generations[i]).policy_id == policy
                    && m.generations[i].approved.contains(digest) && forall|j: int|
                    i < j < m.generations.len() ==> !(#[trigger] m.generations[j]).approved.contains(
                        digest,
                    ),
            None => forall|i: int|
                0 <= i < m.generations.len() ==> !(#[trigger] m.generations[i]).approved.contains(
                    digest,
                ),
        },
{
    lemma_newest_ever(m.generations, digest);
}

/// Six generations are kept: an added one joins those before it, and only the
/// oldest of six makes room.
pub proof fn law_six_kept(generations: Seq<GenerationModel>, g: GenerationModel)
    requires
        generations.len() <= 6,
    ensures
        after_adding(generations, g).last() == g,
        generations.len() < 6 ==> after_adding(generations, g).drop_last() == generations,
        generations.len() == 6 ==> after_adding(generations, g).drop_last()
            == generations.drop_first(),
{
    if generations.len() < 6 {
        assert(after_adding(generations, g).drop_last() =~= generations);
    } else {
        assert(after_adding(generations, g).drop_last() =~= generations.drop_first());
    }
}

/// Approvals are counted in every generation.
pub proof fn law_approvals_add_up(a: Seq<GenerationModel>, b: Seq<GenerationModel>)
    ensures
        approvals(a + b) == approvals(a) + approvals(b),
        b.len() == 1 ==> approvals(b) == b[0].approved.len(),
    decreases b.len(),
{
    if b.len() == 0 {
        assert(a + b =~= a);
    } else {
        law_approvals_add_up(a, b.drop_last());
        assert((a + b).drop_last() =~= a + b.drop_last());
        if b.len() == 1 {
            assert(approvals(b.drop_last()) == 0);
        }
    }
}

} // verus!
