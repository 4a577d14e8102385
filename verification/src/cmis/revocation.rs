//! Revocations, and the list of them that is published.

use vstd::prelude::*;
use crate::primitives::text::same_text;

verus! {

/// What is revoked.
#[derive(Debug, Clone, PartialEq, Eq)]
pub enum RevocationTarget {
    /// One document, by the hexadecimal digest of its compact form.
    Svid {
        /// The digest.
        cert_sha: String,
    },
    /// Every document of a host.
    Host {
        /// The host.
        spiffe_id: String,
    },
}

/// The contents of a [`RevocationTarget`].
pub enum TargetModel {
    Svid { cert_sha: Seq<char> },
    Host { spiffe_id: Seq<char> },
}

impl View for RevocationTarget {
    type V = TargetModel;

    open spec fn view(&self) -> TargetModel {
        match self {
            RevocationTarget::Svid { cert_sha } => TargetModel::Svid { cert_sha: cert_sha@ },
            RevocationTarget::Host { spiffe_id } => TargetModel::Host { spiffe_id: spiffe_id@ },
        }
    }
}

impl RevocationTarget {
    /// Whether two targets are the same.
    pub fn same(&self, other: &Self) -> (r: bool)
        ensures
            r == (self@ == other@),
    {
        match (self, other) {
            (
                RevocationTarget::Svid { cert_sha: a },
                RevocationTarget::Svid { cert_sha: b },
            ) => same_text(a.as_str(), b.as_str()),
            (
                RevocationTarget::Host { spiffe_id: a },
                RevocationTarget::Host { spiffe_id: b },
            ) => same_text(a.as_str(), b.as_str()),
            _ => false,
        }
    }

    /// A copy.
    pub fn duplicate(&self) -> (r: Self)
        ensures
            r@ == self@,
    {
        match self {
            RevocationTarget::Svid { cert_sha } => RevocationTarget::Svid {
                cert_sha: cert_sha.clone(),
            },
            RevocationTarget::Host { spiffe_id } => RevocationTarget::Host {
                spiffe_id: spiffe_id.clone(),
            },
        }
    }
}

/// One revocation.
#[derive(Debug, Clone, PartialEq, Eq)]
pub struct CrlEntry {
    /// What is revoked.
    pub target: RevocationTarget,
    /// Short code that says why.
    pub reason: String,
    /// When, Unix seconds.
    pub revoked_at: i64,
    /// When the last document that it concerns has expired, Unix seconds.
    pub expires_at: i64,
}

/// The contents of a [`CrlEntry`].
pub struct EntryModel {
    pub target: TargetModel,
    pub reason: Seq<char>,
    pub revoked_at: i64,
    pub expires_at: i64,
}

impl View for CrlEntry {
    type V = EntryModel;

    open spec fn view(&self) -> EntryModel {
        EntryModel {
            target: self.target@,
            reason: self.reason@,
            revoked_at: self.revoked_at,
            expires_at: self.expires_at,
        }
    }
}

impl CrlEntry {
    /// A copy.
    pub fn duplicate(&self) -> (r: Self)
        ensures
            r@ == self@,
    {
        CrlEntry {
            target: self.target.duplicate(),
            reason: self.reason.clone(),
            revoked_at: self.revoked_at,
            expires_at: self.expires_at,
        }
    }
}

/// The contents of several revocations.
pub open spec fn entry_models(entries: Seq<CrlEntry>) -> Seq<EntryModel> {
    entries.map_values(|e: CrlEntry| e@)
}

/// The body of a published list.
#[derive(Debug, Clone, PartialEq, Eq)]
pub struct CrlBody {
    /// When it was made, Unix seconds.
    pub issued_at: i64,
    /// Its number.
    pub number: u64,
    /// The revocations.
    pub entries: Vec<CrlEntry>,
}

/// The contents of a [`CrlBody`].
#[verifier::ext_equal]
pub struct CrlModel {
    pub issued_at: i64,
    pub number: u64,
    pub entries: Seq<EntryModel>,
}

impl View for CrlBody {
    type V = CrlModel;

    open spec fn view(&self) -> CrlModel {
        CrlModel {
            issued_at: self.issued_at,
            number: self.number,
            entries: entry_models(self.entries@),
        }
    }
}

/// A signature on a list.
#[derive(Debug, Clone, PartialEq, Eq)]
pub struct CrlSignature {
    /// The signer's key.
    pub signer_kid: String,
    /// The composite signature, in unpadded URL-safe Base64.
    pub signature_b64: String,
}

/// A signed revocation list, as it is published.
#[derive(Debug, Clone, PartialEq, Eq)]
pub struct SignedCrl {
    /// The body.
    pub body: CrlBody,
    /// The signer's key.
    pub signer_kid: String,
    /// The composite signature, in unpadded URL-safe Base64.
    pub signature_b64: String,
}

/// The contents of a [`SignedCrl`].
#[verifier::ext_equal]
pub struct SignedCrlModel {
    pub body: CrlModel,
    pub signer_kid: Seq<char>,
    pub signature_b64: Seq<char>,
}

impl View for SignedCrl {
    type V = SignedCrlModel;

    open spec fn view(&self) -> SignedCrlModel {
        SignedCrlModel {
            body: self.body@,
            signer_kid: self.signer_kid@,
            signature_b64: self.signature_b64@,
        }
    }
}

/// The contents of the list that is published, if one is.
pub open spec fn crl_view(crl: Option<SignedCrl>) -> Option<SignedCrlModel> {
    match crl {
        Some(c) => Some(c@),
        None => None,
    }
}

impl SignedCrl {
    /// A copy.
    pub fn duplicate(&self) -> (r: Self)
        ensures
            r@ == self@,
    {
        SignedCrl {
            body: self.body.duplicate(),
            signer_kid: self.signer_kid.clone(),
            signature_b64: self.signature_b64.clone(),
        }
    }
}

/// Whether a list revokes a target.
pub open spec fn revokes(entries: Seq<EntryModel>, target: TargetModel) -> bool {
    exists|i: int| 0 <= i < entries.len() && (#[trigger] entries[i]).target == target
}

fn find_target(entries: &Vec<CrlEntry>, target: &RevocationTarget) -> (r: Option<usize>)
    ensures
        match r {
            Some(i) => i < entries@.len() && entries@[i as int].target@ == target@ && forall|j: int|
                0 <= j < i ==> (#[trigger] entries@[j]).target@ != target@,
            None => forall|j: int|
                0 <= j < entries@.len() ==> (#[trigger] entries@[j]).target@ != target@,
        },
{
    let mut i: usize = 0;
    while i < entries.len()
        invariant
            i <= entries@.len(),
            forall|j: int| 0 <= j < i ==> (#[trigger] entries@[j]).target@ != target@,
        decreases entries@.len() - i,
    {
        if entries[i].target.same(target) {
            return Some(i);
        }
        i += 1;
    }
    None
}

impl CrlBody {
    /// A copy.
    pub fn duplicate(&self) -> (r: Self)
        ensures
            r@ == self@,
    {
        let mut entries: Vec<CrlEntry> = Vec::new();
        let mut i: usize = 0;
        while i < self.entries.len()
            invariant
                i <= self.entries@.len(),
                entries@.len() == i,
                forall|j: int| 0 <= j < i ==> (#[trigger] entries@[j])@ == self.entries@[j]@,
            decreases self.entries@.len() - i,
        {
            entries.push(self.entries[i].duplicate());
            i += 1;
        }
        assert(entry_models(entries@) =~= entry_models(self.entries@));
        CrlBody { issued_at: self.issued_at, number: self.number, entries }
    }

    /// Whether the list revokes the document with a digest.
    pub fn revokes_svid(&self, cert_sha: &str) -> (r: bool)
        ensures
            r == revokes(
                entry_models(self.entries@),
                TargetModel::Svid { cert_sha: cert_sha@ },
            ),
    {
        let target = RevocationTarget::Svid { cert_sha: cert_sha.to_owned() };
        self.revokes_target(&target)
    }

    /// Whether the list revokes a host.
    pub fn revokes_host(&self, spiffe_id: &str) -> (r: bool)
        ensures
            r == revokes(
                entry_models(self.entries@),
                TargetModel::Host { spiffe_id: spiffe_id@ },
            ),
    {
        let target = RevocationTarget::Host { spiffe_id: spiffe_id.to_owned() };
        self.revokes_target(&target)
    }

    fn revokes_target(&self, target: &RevocationTarget) -> (r: bool)
        ensures
            r == revokes(entry_models(self.entries@), target@),
    {
        let ghost m = entry_models(self.entries@);
        match find_target(&self.entries, target) {
            Some(i) => {
                assert(m[i as int].target == target@);
                true
            },
            None => {
                assert forall|i: int| 0 <= i < m.len() implies (#[trigger] m[i]).target
                    != target@ by {
                    assert(self.entries@[i].target@ != target@);
                }
                false
            },
        }
    }
}

/// The revocations in force. Each target occurs once.
#[derive(Debug)]
pub struct Revocations {
    entries: Vec<CrlEntry>,
    number: u64,
}

/// The contents of [`Revocations`].
#[verifier::ext_equal]
pub struct RevocationsModel {
    pub entries: Seq<EntryModel>,
    pub number: u64,
}

impl View for Revocations {
    type V = RevocationsModel;

    closed spec fn view(&self) -> RevocationsModel {
        RevocationsModel { entries: entry_models(self.entries@), number: self.number }
    }
}

/// Whether no target occurs twice.
pub open spec fn distinct_targets(entries: Seq<EntryModel>) -> bool {
    forall|i: int, j: int|
        0 <= i < j < entries.len() ==> (#[trigger] entries[i]).target != (
        #[trigger] entries[j]).target
}

/// Revocations with one more: in place of the one with its target, or at the
/// end.
pub open spec fn after_revoking(entries: Seq<EntryModel>, e: EntryModel, after: Seq<EntryModel>) -> bool {
    if revokes(entries, e.target) {
        exists|i: int|
            0 <= i < entries.len() && (#[trigger] entries[i]).target == e.target && after
                == entries.update(i, e)
    } else {
        after == entries.push(e)
    }
}

/// The revocations that still concern some document at a time.
pub open spec fn unexpired(entries: Seq<EntryModel>, now: i64) -> Seq<EntryModel>
    decreases entries.len(),
{
    if entries.len() == 0 {
        entries
    } else if entries.last().expires_at > now {
        unexpired(entries.drop_last(), now).push(entries.last())
    } else {
        unexpired(entries.drop_last(), now)
    }
}

proof fn lemma_unexpired(entries: Seq<EntryModel>, now: i64)
    ensures
        forall|i: int|
            0 <= i < unexpired(entries, now).len() ==> (#[trigger] unexpired(
                entries,
                now,
            )[i]).expires_at > now && entries.contains(unexpired(entries, now)[i]),
        forall|j: int|
            0 <= j < entries.len() && (#[trigger] entries[j]).expires_at > now ==> unexpired(
                entries,
                now,
            ).contains(entries[j]),
        distinct_targets(entries) ==> distinct_targets(unexpired(entries, now)),
    decreases entries.len(),
{
    if entries.len() > 0 {
        let init = entries.drop_last();
        lemma_unexpired(init, now);
        let inner = unexpired(init, now);
        let all = unexpired(entries, now);
        assert forall|i: int| 0 <= i < all.len() implies (#[trigger] all[i]).expires_at > now
            && entries.contains(all[i]) by {
            if i < inner.len() {
                assert(all[i] == inner[i]);
                let j = choose|j: int| 0 <= j < init.len() && init[j] == inner[i];
                assert(entries[j] == inner[i]);
            } else {
                assert(entries[entries.len() - 1] == all[i]);
            }
        }
        assert forall|j: int|
            0 <= j < entries.len() && (#[trigger] entries[j]).expires_at > now implies all.contains(
            entries[j],
        ) by {
            if j < init.len() {
                assert(entries[j] == init[j]);
                let i = choose|i: int| 0 <= i < inner.len() && inner[i] == init[j];
                assert(all[i] == init[j]);
            } else {
                assert(all[all.len() - 1] == entries[j]);
            }
        }
        if distinct_targets(entries) {
            assert(distinct_targets(init)) by {
                assert forall|i: int, j: int| 0 <= i < j < init.len() implies (
                #[trigger] init[i]).target != (#[trigger] init[j]).target by {
                    assert(entries[i].target != entries[j].target);
                }
            }
            assert forall|i: int, j: int| 0 <= i < j < all.len() implies (
            #[trigger] all[i]).target != (#[trigger] all[j]).target by {
                assert(all[i] == inner[i]);
                if j < inner.len() {
                    assert(all[j] == inner[j]);
                } else {
                    let m = choose|m: int| 0 <= m < init.len() && init[m] == inner[i];
                    assert(entries[m] == inner[i]);
                    assert(entries[m].target != entries[entries.len() - 1].target);
                }
            }
        }
    }
}

impl Default for Revocations {
    fn default() -> (r: Self)
        ensures
            r@.entries == Seq::<EntryModel>::empty(),
            r@.number == 0,
    {
        Revocations::new()
    }
}

impl Revocations {
    #[verifier::type_invariant]
    spec fn inv(&self) -> bool {
        distinct_targets(self@.entries)
    }

    /// No revocations, and nothing published.
    pub fn new() -> (r: Self)
        ensures
            r@.entries == Seq::<EntryModel>::empty(),
            r@.number == 0,
    {
        let entries: Vec<CrlEntry> = Vec::new();
        assert(entry_models(entries@) =~= Seq::<EntryModel>::empty());
        Revocations { entries, number: 0 }
    }

    /// The number of the latest list.
    pub fn number(&self) -> (r: u64)
        ensures
            r == self@.number,
    {
        self.number
    }

    /// Revoke a target. A target that is revoked already takes the new reason
    /// and times.
    pub fn revoke(&mut self, entry: CrlEntry)
        ensures
            after_revoking(old(self)@.entries, entry@, final(self)@.entries),
            final(self)@.number == old(self)@.number,
            distinct_targets(final(self)@.entries),
    {
        proof {
            use_type_invariant(&*self);
        }
        let ghost before = self@.entries;
        let mut entries: Vec<CrlEntry> = Vec::new();
        let found = find_target(&self.entries, &entry.target);
        std::mem::swap(&mut entries, &mut self.entries);
        assert(entry_models(entries@) == before);
        match found {
            Some(i) => {
                assert(before[i as int].target == entry@.target);
                entries[i] = entry;
                proof {
                    let after = entry_models(entries@);
                    assert(after =~= before.update(i as int, entry@));
                    assert forall|a: int, b: int| 0 <= a < b < after.len() implies (
                    #[trigger] after[a]).target != (#[trigger] after[b]).target by {
                        assert(before[a].target != before[b].target);
                    }
                }
            },
            None => {
                proof {
                    assert forall|j: int| 0 <= j < before.len() implies (
                    #[trigger] before[j]).target != entry@.target by {
                        assert(entries@[j].target@ != entry.target@);
                    }
                }
                entries.push(entry);
                proof {
                    let after = entry_models(entries@);
                    assert(after =~= before.push(entry@));
                    assert forall|a: int, b: int| 0 <= a < b < after.len() implies (
                    #[trigger] after[a]).target != (#[trigger] after[b]).target by {
                        assert(after[a] == before[a]);
                        if b < before.len() {
                            assert(after[b] == before[b]);
                        }
                    }
                }
            },
        }
        self.entries = entries;
    }

    /// The next list to publish: what has not expired, under the next number.
    /// What has expired is dropped for good.
    pub fn next_crl(&mut self, now: i64) -> (r: CrlBody)
        requires
            old(self)@.number < u64::MAX,
        ensures
            r.issued_at == now,
            r.number == old(self)@.number + 1,
            entry_models(r.entries@) == unexpired(old(self)@.entries, now),
            final(self)@.entries == unexpired(old(self)@.entries, now),
            final(self)@.number == r.number,
    {
        proof {
            use_type_invariant(&*self);
        }
        let ghost all = self@.entries;
        let mut kept: Vec<CrlEntry> = Vec::new();
        let mut copies: Vec<CrlEntry> = Vec::new();
        let mut i: usize = 0;
        assert(all.take(0) =~= Seq::<EntryModel>::empty());
        assert(entry_models(kept@) =~= Seq::<EntryModel>::empty());
        assert(entry_models(copies@) =~= Seq::<EntryModel>::empty());
        while i < self.entries.len()
            invariant
                i <= self.entries@.len(),
                all == entry_models(self.entries@),
                entry_models(kept@) == unexpired(all.take(i as int), now),
                entry_models(copies@) == unexpired(all.take(i as int), now),
            decreases self.entries@.len() - i,
        {
            proof {
                assert(all.take(i + 1).drop_last() =~= all.take(i as int));
                assert(all.take(i + 1).last() == self.entries@[i as int]@);
            }
            if self.entries[i].expires_at > now {
                let ghost a = kept@;
                let ghost b = copies@;
                kept.push(self.entries[i].duplicate());
                copies.push(self.entries[i].duplicate());
                assert(entry_models(kept@) =~= entry_models(a).push(all[i as int]));
                assert(entry_models(copies@) =~= entry_models(b).push(all[i as int]));
            }
            i += 1;
        }
        assert(all.take(i as int) =~= all);
        proof {
            lemma_unexpired(all, now);
        }
        let number: u64 = self.number + 1;
        *self = Revocations { entries: kept, number };
        CrlBody { issued_at: now, number, entries: copies }
    }
}

/// A target that was revoked is on every list that is published until the
/// revocation has expired.
pub proof fn law_revoked_until_expiry(
    before: Seq<EntryModel>,
    e: EntryModel,
    after: Seq<EntryModel>,
    now: i64,
)
    requires
        after_revoking(before, e, after),
        e.expires_at > now,
    ensures
        revokes(unexpired(after, now), e.target),
        unexpired(after, now).contains(e),
{
    lemma_unexpired(after, now);
    if revokes(before, e.target) {
        let i = choose|i: int|
            0 <= i < before.len() && (#[trigger] before[i]).target == e.target && after
                == before.update(i, e);
        assert(after[i] == e);
    } else {
        assert(after[after.len() - 1] == e);
    }
    let list = unexpired(after, now);
    let k = choose|k: int| 0 <= k < list.len() && list[k] == e;
    assert(list[k].target == e.target);
}

/// A published list holds nothing that has expired, and no target twice.
pub proof fn law_published_list(entries: Seq<EntryModel>, now: i64, i: int)
    requires
        distinct_targets(entries),
        0 <= i < unexpired(entries, now).len(),
    ensures
        unexpired(entries, now)[i].expires_at > now,
        entries.contains(unexpired(entries, now)[i]),
        distinct_targets(unexpired(entries, now)),
{
    lemma_unexpired(entries, now);
}

/// Revoking one target takes no other off the list.
pub proof fn law_revoking_keeps_others(
    before: Seq<EntryModel>,
    e: EntryModel,
    after: Seq<EntryModel>,
    other: EntryModel,
)
    requires
        after_revoking(before, e, after),
        before.contains(other),
        other.target != e.target,
    ensures
        after.contains(other),
{
    let j = choose|j: int| 0 <= j < before.len() && before[j] == other;
    if revokes(before, e.target) {
        let i = choose|i: int|
            0 <= i < before.len() && (#[trigger] before[i]).target == e.target && after
                == before.update(i, e);
        assert(after[j] == other);
    } else {
        assert(after[j] == other);
    }
}

/// Revoking a target revokes it and no other.
pub proof fn law_one_target_revoked(
    before: Seq<EntryModel>,
    e: EntryModel,
    after: Seq<EntryModel>,
    target: TargetModel,
)
    requires
        after_revoking(before, e, after),
        distinct_targets(before),
    ensures
        revokes(after, target) <==> target == e.target || revokes(before, target),
        distinct_targets(after),
        after.contains(e),
        after.len() == before.len() + if revokes(before, e.target) {
            0int
        } else {
            1
        },
{
    if revokes(before, e.target) {
        let i = choose|i: int|
            0 <= i < before.len() && (#[trigger] before[i]).target == e.target && after
                == before.update(i, e);
        assert(after[i] == e);
        assert forall|j: int| 0 <= j < after.len() implies (#[trigger] after[j]).target
            == before[j].target by {}
        if revokes(before, target) {
            let j = choose|j: int| 0 <= j < before.len() && (#[trigger] before[j]).target == target;
            assert(after[j].target == target);
        }
        assert forall|j: int, k: int| 0 <= j < k < after.len() implies (#[trigger] after[j]).target
            != (#[trigger] after[k]).target by {
            assert(before[j].target != before[k].target);
        }
    } else {
        assert(after[after.len() - 1] == e);
        if revokes(before, target) {
            let j = choose|j: int| 0 <= j < before.len() && (#[trigger] before[j]).target == target;
            assert(after[j].target == target);
        }
        if revokes(after, target) && target != e.target {
            let j = choose|j: int| 0 <= j < after.len() && (#[trigger] after[j]).target == target;
            assert(before[j].target == target);
        }
        assert forall|j: int, k: int| 0 <= j < k < after.len() implies (#[trigger] after[j]).target
            != (#[trigger] after[k]).target by {
            if k < before.len() {
                assert(before[j].target != before[k].target);
            } else {
                assert(before[j].target != e.target);
            }
        }
    }
}

/// What has not expired stays on the list, in its order: taking out what has
/// expired goes part by part, and leaves a list without any as it is.
pub proof fn law_order_kept(a: Seq<EntryModel>, b: Seq<EntryModel>, now: i64)
    ensures
        unexpired(a + b, now) == unexpired(a, now) + unexpired(b, now),
        (forall|i: int| 0 <= i < b.len() ==> (#[trigger] b[i]).expires_at > now) ==> unexpired(
            b,
            now,
        ) == b,
        (forall|i: int| 0 <= i < b.len() ==> (#[trigger] b[i]).expires_at <= now) ==> unexpired(
            b,
            now,
        ).len() == 0,
    decreases b.len(),
{
    if b.len() == 0 {
        assert(a + b =~= a);
        assert(unexpired(a, now) + unexpired(b, now) =~= unexpired(a, now));
    } else {
        let init = b.drop_last();
        assert((a + b).drop_last() =~= a + init);
        assert((a + b).last() == b.last());
        assert(forall|i: int| 0 <= i < init.len() ==> #[trigger] init[i] == b[i]);
        assert(b[b.len() - 1] == b.last());
        law_order_kept(a, init, now);
        assert(unexpired(a + b, now) =~= unexpired(a, now) + unexpired(b, now));
        assert(init.push(b.last()) =~= b);
    }
}

} // verus!
