//! The audit log: the tree of its leaves, and the latest tree heads.
//!
//! The log takes over a leaf or a head only once the backing store has it. At a
//! start it is rebuilt from what the store holds, and refuses a history that
//! does not fit the latest signed head.

use vstd::prelude::*;
use vstd::string::StringExecFns;
use crate::audit::bytes::Hash384;
use crate::audit::cosign;
use crate::audit::cosign::{CoSignedTreeHead, QuorumError, QuorumSigner};
use crate::audit::event;
use crate::audit::event::{AuditEvent, EventCodecError, EventModel};
use crate::audit::merkle;
use crate::audit::merkle::{leaf_hash, MerkleTree, HASH_LEN};
use crate::audit::sth;
use crate::audit::sth::{SignedTreeHead, SthBody, SthBodyModel, SthError, SthSigner};
use crate::audit::store::{AuditStore, AuditStoreError};
use crate::primitives::bytes::{arrays_equal, lemma_array_view_injective};
use crate::primitives::text;

verus! {

/// Failure modes of the log.
#[derive(Debug)]
pub enum AuditLogError {
    /// An event has no CBOR form.
    Event(EventCodecError),
    /// The backing store failed.
    Store(AuditStoreError),
    /// A tree head could not be signed or read.
    Sth(SthError),
    /// A quorum could not sign.
    Quorum(QuorumError),
    /// An index or a size is out of range.
    Range(String),
    /// The stored leaves do not fit the stored tree head.
    Resume(String),
}

/// The audit log over a backing store and a signer of tree heads.
#[derive(Debug)]
pub struct AuditLog<S: AuditStore, G: SthSigner> {
    tree: MerkleTree,
    latest_sth: Option<SignedTreeHead>,
    latest_cosigned_sth: Option<CoSignedTreeHead>,
    store: S,
    signer: G,
}

/// A leaf that is to be stored.
#[derive(Debug)]
pub struct NewLeaf {
    /// Its index.
    pub index: u64,
    /// The CBOR form of its event.
    pub raw: Vec<u8>,
    /// Its digest.
    pub hash: [u8; 48],
}

/// The digests of stored leaves.
pub open spec fn leaf_digests(leaves: Seq<Vec<u8>>) -> Seq<[u8; 48]> {
    leaves.map_values(|raw: Vec<u8>| merkle::leaf_digest(raw@))
}

/// The root that a tree head states: that of the leaves, or zeros without any.
pub open spec fn head_root(d: Seq<[u8; 48]>) -> Seq<u8> {
    if d.len() == 0 {
        Seq::new(48, |i: int| 0u8)
    } else {
        merkle::tree_root(d)@
    }
}

/// The body of a tree head on some leaves.
pub open spec fn head_body(d: Seq<[u8; 48]>, timestamp: i64) -> SthBodyModel {
    SthBodyModel { tree_size: d.len() as u64, root_hash: head_root(d), timestamp }
}

/// Why leaves do not fit a tree head, if they do not: the head covers more
/// leaves than there are, or states another root.
pub open spec fn resume_fault(d: Seq<[u8; 48]>, body: SthBodyModel) -> Option<Seq<char>> {
    if body.tree_size > usize::MAX {
        Some(
            "persisted STH size "@ + text::decimal(body.tree_size as nat) + " out of range"@,
        )
    } else if body.tree_size > d.len() {
        Some(
            "persisted STH covers "@ + text::decimal(body.tree_size as nat)
                + " leaves but only "@ + text::decimal(d.len()) + " are on disk"@,
        )
    } else if head_root(d.take(body.tree_size as int)) != body.root_hash {
        Some(
            "rebuilt root for "@ + text::decimal(body.tree_size as nat)
                + " leaves does not match the persisted STH"@,
        )
    } else {
        None
    }
}

fn root_of(tree: &MerkleTree) -> (r: [u8; 48])
    ensures
        r@ == head_root(tree@),
{
    match tree.root() {
        Some(root) => root,
        None => {
            let zeros: [u8; 48] = [0u8; HASH_LEN];
            assert(zeros@ =~= Seq::new(48, |i: int| 0u8));
            zeros
        },
    }
}

fn out_of_range(index: usize, size: usize) -> (r: AuditLogError)
    ensures
        r matches AuditLogError::Range(m) && m@ == range_text(index as nat, size as nat),
{
    let mut m = text::joined("index ", text::decimal_text(index as u64).as_str());
    m.append(" >= tree size ");
    m.append(text::decimal_text(size as u64).as_str());
    AuditLogError::Range(m)
}

/// What is said of an index that no leaf has.
pub open spec fn range_text(index: nat, size: nat) -> Seq<char> {
    "index "@ + text::decimal(index) + " >= tree size "@ + text::decimal(size)
}

/// What is said of a size that the log never had.
pub open spec fn size_text(old_size: nat, size: nat) -> Seq<char> {
    "old_size "@ + text::decimal(old_size) + " not in 1..="@ + text::decimal(size)
}

/// Whether a store gives each of `leaves` at its index.
pub open spec fn store_gives<S: AuditStore>(store: S, leaves: Seq<Vec<u8>>) -> bool {
    forall|i: int|
        0 <= i < leaves.len() ==> call_ensures(
            S::read_leaf,
            (&store, i as u64),
            Ok::<_, AuditStoreError>(#[trigger] leaves[i]),
        )
}

/// Whether an error says that there is no such record.
pub open spec fn says_absent(e: AuditStoreError) -> bool {
    e matches AuditStoreError::Io { not_found, .. } && not_found
}

/// Whether the leaves that a store gives are `leaves`: it gives each of them at
/// its index, and says of the next index that nothing is there.
pub open spec fn store_holds<S: AuditStore>(store: S, leaves: Seq<Vec<u8>>) -> bool {
    &&& store_gives(store, leaves)
    &&& exists|message: String|
        #![trigger message@]
        call_ensures(
            S::read_leaf,
            (&store, leaves.len() as u64),
            Err::<Vec<u8>, _>(AuditStoreError::Io { not_found: true, message }),
        )
}

/// Whether leaves fit the latest tree head, if there is one.
pub open spec fn fits(d: Seq<[u8; 48]>, head: Option<SignedTreeHead>) -> bool {
    head matches Some(h) ==> (sth::body_from(h.body_cbor@) matches Some(b) && resume_fault(d, b)
        is None)
}

fn misfit(tree: &MerkleTree, body: &SthBody) -> (r: Option<String>)
    ensures
        match r {
            Some(m) => resume_fault(tree@, body@) == Some(m@),
            None => resume_fault(tree@, body@) is None,
        },
{
    if body.tree_size > usize::MAX as u64 {
        let mut m = text::joined(
            "persisted STH size ",
            text::decimal_text(body.tree_size).as_str(),
        );
        m.append(" out of range");
        return Some(m);
    }
    let covered: usize = body.tree_size as usize;
    if covered > tree.len() {
        let mut m = text::joined(
            "persisted STH covers ",
            text::decimal_text(covered as u64).as_str(),
        );
        m.append(" leaves but only ");
        m.append(text::decimal_text(tree.len() as u64).as_str());
        m.append(" are on disk");
        return Some(m);
    }
    let mut prefix = MerkleTree::new();
    let mut i: usize = 0;
    assert(tree@.take(0) =~= Seq::<[u8; 48]>::empty());
    while i < covered
        invariant
            i <= covered <= tree@.len(),
            prefix@ == tree@.take(i as int),
        decreases covered - i,
    {
        if let Some(leaf) = tree.leaf(i) {
            let _at: usize = prefix.append(*leaf);
        }
        assert(tree@.take(i + 1) =~= tree@.take(i as int).push(tree@[i as int]));
        i += 1;
    }
    let root = root_of(&prefix);
    if !arrays_equal(&root, &body.root_hash.0) {
        proof {
            if root@ == body.root_hash.0@ {
                lemma_array_view_injective::<48>(root, body.root_hash.0);
            }
        }
        let mut m = text::joined(
            "rebuilt root for ",
            text::decimal_text(covered as u64).as_str(),
        );
        m.append(" leaves does not match the persisted STH");
        return Some(m);
    }
    None
}

/// Check the leaves that a store holds against its latest tree head: the head
/// must cover leaves that are there, with the root that they have.
pub fn check_resume(tree: &MerkleTree, latest_sth: &Option<SignedTreeHead>) -> (r: Result<
    (),
    AuditLogError,
>)
    ensures
        match r {
            Ok(_) => fits(tree@, *latest_sth),
            Err(AuditLogError::Sth(e)) => {
                &&& latest_sth matches Some(h) && sth::body_from(h.body_cbor@) is None && (
                e matches SthError::Decode(m) && m@ == sth::body_fault(h.body_cbor@))
            },
            Err(AuditLogError::Resume(m)) => latest_sth matches Some(h) && (sth::body_from(
                h.body_cbor@,
            ) matches Some(b) && resume_fault(tree@, b) == Some(m@)),
            Err(_) => false,
        },
{
    if let Some(head) = latest_sth {
        let body = match head.body() {
            Ok(b) => b,
            Err(e) => return Err(AuditLogError::Sth(e)),
        };
        if let Some(m) = misfit(tree, &body) {
            return Err(AuditLogError::Resume(m));
        }
    }
    Ok(())
}

impl<S: AuditStore, G: SthSigner> AuditLog<S, G> {
    /// The digests of the leaves.
    pub closed spec fn leaves(&self) -> Seq<[u8; 48]> {
        self.tree@
    }

    /// The latest tree head.
    pub closed spec fn head(&self) -> Option<SignedTreeHead> {
        self.latest_sth
    }

    /// The latest tree head of a quorum.
    pub closed spec fn cosigned_head(&self) -> Option<CoSignedTreeHead> {
        self.latest_cosigned_sth
    }

    /// The backing store.
    pub closed spec fn backing(&self) -> S {
        self.store
    }

    /// The signer of tree heads.
    pub closed spec fn sealer(&self) -> G {
        self.signer
    }

    /// The log that a store holds: its leaves in order, up to the first index
    /// with nothing there, and its latest tree heads. A history that does not
    /// fit the latest head is refused, as is one that cannot be read.
    pub fn new(store: S, signer: G) -> (r: Result<Self, AuditLogError>)
        ensures
            match r {
                Ok(log) => {
                    &&& log.backing() == store
                    &&& log.sealer() == signer
                    &&& call_ensures(
                        S::latest_sth,
                        (&store,),
                        Ok::<_, AuditStoreError>(log.head()),
                    )
                    &&& call_ensures(
                        S::latest_cosigned_sth,
                        (&store,),
                        Ok::<_, AuditStoreError>(log.cosigned_head()),
                    )
                    &&& fits(log.leaves(), log.head())
                    &&& exists|leaves: Seq<Vec<u8>>|
                        #![trigger leaf_digests(leaves)]
                        store_holds(store, leaves) && log.leaves() == leaf_digests(leaves)
                },
                Err(AuditLogError::Store(e)) => {
                    ||| exists|leaves: Seq<Vec<u8>>| #[trigger]
                        store_gives(store, leaves) && call_ensures(
                            S::read_leaf,
                            (&store, leaves.len() as u64),
                            Err::<Vec<u8>, _>(e),
                        ) && !says_absent(e)
                    ||| exists|leaves: Seq<Vec<u8>>| #[trigger]
                        store_holds(store, leaves) && call_ensures(
                            S::latest_sth,
                            (&store,),
                            Err::<Option<SignedTreeHead>, _>(e),
                        )
                    ||| exists|leaves: Seq<Vec<u8>>, head: Option<SignedTreeHead>|
                        store_holds(store, leaves) && call_ensures(
                            S::latest_sth,
                            (&store,),
                            Ok::<_, AuditStoreError>(head),
                        ) && #[trigger] fits(leaf_digests(leaves), head) && call_ensures(
                            S::latest_cosigned_sth,
                            (&store,),
                            Err::<Option<CoSignedTreeHead>, _>(e),
                        )
                },
                Err(e) => exists|leaves: Seq<Vec<u8>>, h: SignedTreeHead|
                    #![trigger leaf_digests(leaves), h.body_cbor]
                    store_holds(store, leaves) && call_ensures(
                        S::latest_sth,
                        (&store,),
                        Ok::<_, AuditStoreError>(Some(h)),
                    ) && match sth::body_from(h.body_cbor@) {
                        None => e matches AuditLogError::Sth(SthError::Decode(m)) && m@
                            == sth::body_fault(h.body_cbor@),
                        Some(b) => e matches AuditLogError::Resume(m) && resume_fault(
                            leaf_digests(leaves),
                            b,
                        ) == Some(m@),
                    },
            },
    {
        let mut tree = MerkleTree::new();
        let ghost mut leaves: Seq<Vec<u8>> = Seq::empty();
        assert(leaf_digests(leaves) =~= Seq::<[u8; 48]>::empty());
        loop
            invariant
                tree@ == leaf_digests(leaves),
                store_gives(store, leaves),
            ensures
                tree@ == leaf_digests(leaves),
                store_holds(store, leaves),
            decreases usize::MAX - tree@.len(),
        {
            let n: usize = tree.len();
            match store.read_leaf(n as u64) {
                Ok(raw) => {
                    let _at: usize = tree.append(leaf_hash(raw.as_slice()));
                    proof {
                        let before = leaves;
                        leaves = leaves.push(raw);
                        assert(leaf_digests(leaves) =~= leaf_digests(before).push(
                            merkle::leaf_digest(raw@),
                        ));
                        assert forall|i: int| 0 <= i < leaves.len() implies call_ensures(
                            S::read_leaf,
                            (&store, i as u64),
                            Ok::<_, AuditStoreError>(#[trigger] leaves[i]),
                        ) by {
                            if i < before.len() {
                                assert(leaves[i] == before[i]);
                            }
                        }
                    }
                    let _len: usize = tree.len();
                },
                Err(AuditStoreError::Io { not_found: true, message }) => {
                    assert(message@ == message@);
                    break;
                },
                Err(e) => {
                    assert(leaf_digests(leaves).len() == leaves.len());
                    return Err(AuditLogError::Store(e));
                },
            }
        }
        let latest_sth = match store.latest_sth() {
            Ok(h) => h,
            Err(e) => return Err(AuditLogError::Store(e)),
        };
        if let Err(e) = check_resume(&tree, &latest_sth) {
            proof {
                let h = latest_sth->0;
                assert(h.body_cbor == h.body_cbor);
            }
            return Err(e);
        }
        let latest_cosigned_sth = match store.latest_cosigned_sth() {
            Ok(h) => h,
            Err(e) => return Err(AuditLogError::Store(e)),
        };
        Ok(AuditLog { tree, latest_sth, latest_cosigned_sth, store, signer })
    }

    /// The number of leaves.
    pub fn len(&self) -> (r: usize)
        ensures
            r == self.leaves().len(),
    {
        self.tree.len()
    }

    /// Whether there are no leaves.
    pub fn is_empty(&self) -> (r: bool)
        ensures
            r == (self.leaves().len() == 0),
    {
        self.tree.is_empty()
    }

    /// The leaf that an event becomes.
    pub fn next_leaf(&self, event: &AuditEvent) -> (r: Result<NewLeaf, AuditLogError>)
        ensures
            r matches Ok(leaf) && self.is_next_leaf(leaf, event@),
    {
        match event::encode(event) {
            Ok(raw) => {
                let hash = leaf_hash(raw.as_slice());
                Ok(NewLeaf { index: self.tree.len() as u64, raw, hash })
            },
            Err(e) => Err(AuditLogError::Event(e)),
        }
    }

    /// Whether a leaf is the next one of the log, for an event.
    pub open spec fn is_next_leaf(&self, leaf: NewLeaf, event: EventModel) -> bool {
        &&& leaf.index == self.leaves().len()
        &&& leaf.raw@ == event::event_bytes(event)
        &&& event::event_from(leaf.raw@) == Some(event)
        &&& leaf.hash == merkle::leaf_digest(leaf.raw@)
    }

    /// Take over a leaf that the store has accepted, or hand on why it has not;
    /// then the log is as it was.
    fn commit(&mut self, leaf: &NewLeaf, stored: Result<(), AuditStoreError>) -> (r: Result<
        u64,
        AuditLogError,
    >)
        requires
            leaf.index == old(self).leaves().len(),
        ensures
            final(self).head() == old(self).head(),
            final(self).cosigned_head() == old(self).cosigned_head(),
            final(self).backing() == old(self).backing(),
            final(self).sealer() == old(self).sealer(),
            match stored {
                Ok(_) => r == Ok::<_, AuditLogError>(leaf.index) && final(self).leaves() == old(
                    self,
                ).leaves().push(leaf.hash),
                Err(e) => r == Err::<u64, _>(AuditLogError::Store(e)) && final(self).leaves()
                    == old(self).leaves(),
            },
    {
        match stored {
            Ok(()) => {
                let _at: usize = self.tree.append(leaf.hash);
                Ok(leaf.index)
            },
            Err(e) => Err(AuditLogError::Store(e)),
        }
    }

    /// Append an event: its leaf goes to the store, and only once the store has
    /// accepted it into the log. The leaf's index is the number of leaves
    /// before it.
    pub fn append(&mut self, event: &AuditEvent) -> (r: Result<u64, AuditLogError>)
        ensures
            final(self).head() == old(self).head(),
            final(self).cosigned_head() == old(self).cosigned_head(),
            final(self).backing() == old(self).backing(),
            final(self).sealer() == old(self).sealer(),
            exists|leaf: NewLeaf, raw: &[u8], stored: Result<(), AuditStoreError>|
                #![trigger old(self).is_next_leaf(leaf, event@), call_ensures(
                    S::append_leaf,
                    (&old(self).backing(), leaf.index, raw, &leaf.hash),
                    stored,
                )]
                old(self).is_next_leaf(leaf, event@) && raw@ == leaf.raw@ && call_ensures(
                    S::append_leaf,
                    (&old(self).backing(), leaf.index, raw, &leaf.hash),
                    stored,
                ) && match stored {
                    Ok(_) => r == Ok::<_, AuditLogError>(leaf.index) && final(self).leaves() == old(
                        self,
                    ).leaves().push(leaf.hash),
                    Err(e) => r == Err::<u64, _>(AuditLogError::Store(e)) && final(self).leaves()
                        == old(self).leaves(),
                },
    {
        let leaf = self.next_leaf(event)?;
        let raw = leaf.raw.as_slice();
        let stored = self.store.append_leaf(leaf.index, raw, &leaf.hash);
        let ghost kept = stored;
        let r = self.commit(&leaf, stored);
        assert(old(self).is_next_leaf(leaf, event@));
        assert(call_ensures(
            S::append_leaf,
            (&old(self).backing(), leaf.index, raw, &leaf.hash),
            kept,
        ));
        r
    }

    fn body(&self, timestamp_unix: i64) -> (r: SthBody)
        ensures
            r@ == head_body(self.leaves(), timestamp_unix),
    {
        SthBody {
            tree_size: self.tree.len() as u64,
            root_hash: Hash384(root_of(&self.tree)),
            timestamp: timestamp_unix,
        }
    }

    /// Sign the leaves as they are into a tree head, have the store record it,
    /// and keep it as the latest. Where the signer or the store fails, the
    /// latest head stays what it was.
    pub fn produce_sth(&mut self, timestamp_unix: i64) -> (r: Result<
        SignedTreeHead,
        AuditLogError,
    >)
        ensures
            final(self).leaves() == old(self).leaves(),
            final(self).cosigned_head() == old(self).cosigned_head(),
            final(self).backing() == old(self).backing(),
            final(self).sealer() == old(self).sealer(),
            match r {
                Ok(h) => {
                    &&& made_head(
                        old(self).sealer(),
                        head_body(old(self).leaves(), timestamp_unix),
                        Ok(h),
                    )
                    &&& kept_head(old(self).backing(), h)
                    &&& final(self).head() matches Some(k) && k.body_cbor@ == h.body_cbor@
                        && k.signer_kid@ == h.signer_kid@ && k.signature_b64@ == h.signature_b64@
                    &&& h.signer_kid@ == old(self).sealer().key_id()
                    &&& sth::body_from(h.body_cbor@) == Some(
                        head_body(old(self).leaves(), timestamp_unix),
                    )
                },
                Err(AuditLogError::Sth(e)) => {
                    &&& made_head(
                        old(self).sealer(),
                        head_body(old(self).leaves(), timestamp_unix),
                        Err(e),
                    )
                    &&& final(self).head() == old(self).head()
                },
                Err(AuditLogError::Store(e)) => {
                    &&& final(self).head() == old(self).head()
                    &&& exists|h: SignedTreeHead|
                        #![trigger h.body_cbor]
                        made_head(
                            old(self).sealer(),
                            head_body(old(self).leaves(), timestamp_unix),
                            Ok(h),
                        ) && call_ensures(
                            S::record_sth,
                            (&old(self).backing(), &h),
                            Err::<(), _>(e),
                        )
                },
                Err(_) => false,
            },
    {
        let body = self.body(timestamp_unix);
        let head = match self.signer.sign(&body) {
            Ok(h) => h,
            Err(e) => {
                assert(call_ensures(
                    G::sign,
                    (&self.signer, &body),
                    Err::<SignedTreeHead, _>(e),
                ));
                return Err(AuditLogError::Sth(e));
            },
        };
        assert(call_ensures(G::sign, (&self.signer, &body), Ok::<_, SthError>(head)));
        let stored = self.store.record_sth(&head);
        assert(call_ensures(S::record_sth, (&self.store, &head), stored));
        if let Err(e) = stored {
            assert(head.body_cbor == head.body_cbor);
            return Err(AuditLogError::Store(e));
        }
        self.latest_sth = Some(head.duplicate());
        Ok(head)
    }

    /// The latest tree head.
    pub fn latest_sth(&self) -> (r: Option<&SignedTreeHead>)
        ensures
            match r {
                Some(h) => self.head() == Some(*h),
                None => self.head() is None,
            },
    {
        self.latest_sth.as_ref()
    }

    /// Have a quorum sign the leaves as they are into a tree head, have the
    /// store record it, and keep it as the latest. Where the quorum or the
    /// store fails, the latest head stays what it was.
    pub fn produce_cosigned_sth<Q: SthSigner>(
        &mut self,
        timestamp_unix: i64,
        quorum: &QuorumSigner<Q>,
    ) -> (r: Result<CoSignedTreeHead, AuditLogError>)
        ensures
            final(self).leaves() == old(self).leaves(),
            final(self).head() == old(self).head(),
            final(self).backing() == old(self).backing(),
            final(self).sealer() == old(self).sealer(),
            match r {
                Ok(h) => {
                    &&& cosigned_at(
                        *quorum,
                        head_body(old(self).leaves(), timestamp_unix),
                        h,
                    )
                    &&& kept_cosigned_head(old(self).backing(), h)
                    &&& final(self).cosigned_head() matches Some(k) && k.body_cbor@ == h.body_cbor@
                        && cosign::same_signatures(k.signatures@, h.signatures@)
                },
                Err(AuditLogError::Quorum(q)) => {
                    &&& q matches QuorumError::SignerFailed { kid, source } && exists|
                        i: int,
                        b: SthBody,
                    |
                        b@ == head_body(old(self).leaves(), timestamp_unix) && #[trigger]
                        cosign::fails_at(quorum.members(), i, b, kid@, source)
                    &&& final(self).cosigned_head() == old(self).cosigned_head()
                },
                Err(AuditLogError::Store(e)) => {
                    &&& final(self).cosigned_head() == old(self).cosigned_head()
                    &&& exists|h: CoSignedTreeHead|
                        #![trigger h.body_cbor]
                        cosigned_at(
                            *quorum,
                            head_body(old(self).leaves(), timestamp_unix),
                            h,
                        ) && call_ensures(
                            S::record_cosigned_sth,
                            (&old(self).backing(), &h),
                            Err::<(), _>(e),
                        )
                },
                Err(_) => false,
            },
    {
        let body = self.body(timestamp_unix);
        let head = match quorum.sign(&body) {
            Ok(h) => h,
            Err(e) => return Err(AuditLogError::Quorum(e)),
        };
        assert(body.tree_size == body.tree_size);
        assert(cosigned_at(*quorum, body@, head));
        let stored = self.store.record_cosigned_sth(&head);
        assert(call_ensures(S::record_cosigned_sth, (&self.store, &head), stored));
        if let Err(e) = stored {
            assert(head.body_cbor == head.body_cbor);
            return Err(AuditLogError::Store(e));
        }
        self.latest_cosigned_sth = Some(head.duplicate());
        Ok(head)
    }

    /// The latest tree head of a quorum.
    pub fn latest_cosigned_sth(&self) -> (r: Option<&CoSignedTreeHead>)
        ensures
            match r {
                Some(h) => self.cosigned_head() == Some(*h),
                None => self.cosigned_head() is None,
            },
    {
        self.latest_cosigned_sth.as_ref()
    }

    /// The inclusion proof of a leaf, which verifies against the root.
    pub fn inclusion_proof(&self, index: u64) -> (r: Result<InclusionProof, AuditLogError>)
        ensures
            match r {
                Ok(p) => {
                    &&& index < self.leaves().len()
                    &&& p.leaf_hash == self.leaves()[index as int]
                    &&& p.leaf_index == index
                    &&& p.tree_size == self.leaves().len()
                    &&& p.root_hash == merkle::tree_root(self.leaves())
                    &&& p.audit_path@ == merkle::audit_path(index as nat, self.leaves())
                    &&& merkle::inclusion_root(
                        p.leaf_hash,
                        index as nat,
                        p.tree_size as nat,
                        p.audit_path@,
                    ) == Some(p.root_hash)
                },
                Err(e) => {
                    &&& index >= self.leaves().len()
                    &&& e matches AuditLogError::Range(m) && m@ == (if index > usize::MAX {
                        "index "@ + text::decimal(index as nat) + " out of usize range"@
                    } else {
                        range_text(index as nat, self.leaves().len())
                    })
                },
            },
    {
        let size: usize = self.tree.len();
        if index > usize::MAX as u64 {
            let mut m = text::joined("index ", text::decimal_text(index).as_str());
            m.append(" out of usize range");
            return Err(AuditLogError::Range(m));
        }
        let i: usize = index as usize;
        let leaf: [u8; 48] = match self.tree.leaf(i) {
            Some(leaf) => *leaf,
            None => return Err(out_of_range(i, size)),
        };
        match (self.tree.inclusion_proof(i), self.tree.root()) {
            (Some(audit_path), Some(root_hash)) => {
                proof {
                    merkle::law_inclusion_complete(self.leaves(), i as nat);
                }
                Ok(
                    InclusionProof {
                        leaf_hash: leaf,
                        leaf_index: index,
                        tree_size: size as u64,
                        root_hash,
                        audit_path,
                    },
                )
            },
            _ => Err(out_of_range(i, size)),
        }
    }

    /// The consistency proof between an earlier size and the log as it is,
    /// which verifies against the two roots.
    pub fn consistency_proof(&self, old_size: u64) -> (r: Result<ConsistencyProof, AuditLogError>)
        ensures
            match r {
                Ok(p) => {
                    &&& 0 < old_size <= self.leaves().len()
                    &&& p.old_size == old_size
                    &&& p.new_size == self.leaves().len()
                    &&& p.new_root_hash == merkle::tree_root(self.leaves())
                    &&& p.audit_path@ == merkle::consistency_path(
                        old_size as nat,
                        self.leaves(),
                        true,
                    )
                    &&& ({
                        let old_root = merkle::tree_root(self.leaves().take(old_size as int));
                        merkle::consistency_roots(
                            old_size as nat,
                            p.new_size as nat,
                            true,
                            old_root,
                            p.audit_path@,
                        ) == Some((old_root, p.new_root_hash))
                    })
                },
                Err(e) => {
                    &&& old_size == 0 || old_size > self.leaves().len()
                    &&& e matches AuditLogError::Range(m) && m@ == (if old_size > usize::MAX {
                        "old_size "@ + text::decimal(old_size as nat) + " out of range"@
                    } else {
                        size_text(old_size as nat, self.leaves().len())
                    })
                },
            },
    {
        let size: usize = self.tree.len();
        if old_size > usize::MAX as u64 {
            let mut m = text::joined("old_size ", text::decimal_text(old_size).as_str());
            m.append(" out of range");
            return Err(AuditLogError::Range(m));
        }
        let k: usize = old_size as usize;
        match (self.tree.consistency_proof(k, size), self.tree.root()) {
            (Some(audit_path), Some(new_root_hash)) => {
                proof {
                    merkle::law_consistency_complete(self.leaves(), k as nat);
                    assert(self.leaves().subrange(0, k as int) =~= self.leaves().take(k as int));
                }
                Ok(
                    ConsistencyProof {
                        old_size,
                        new_size: size as u64,
                        new_root_hash,
                        audit_path,
                    },
                )
            },
            _ => {
                let mut m = text::joined("old_size ", text::decimal_text(k as u64).as_str());
                m.append(" not in 1..=");
                m.append(text::decimal_text(size as u64).as_str());
                Err(AuditLogError::Range(m))
            },
        }
    }
}

/// Whether a store recorded a tree head.
pub open spec fn kept_head<S: AuditStore>(store: S, head: SignedTreeHead) -> bool {
    exists|r: Result<(), AuditStoreError>| #[trigger]
        call_ensures(S::record_sth, (&store, &head), r) && r is Ok
}

/// Whether a store recorded a quorum's tree head.
pub open spec fn kept_cosigned_head<S: AuditStore>(store: S, head: CoSignedTreeHead) -> bool {
    exists|r: Result<(), AuditStoreError>| #[trigger]
        call_ensures(S::record_cosigned_sth, (&store, &head), r) && r is Ok
}

/// Whether a signer gave a result for a body.
pub open spec fn made_head<G: SthSigner>(
    signer: G,
    body: SthBodyModel,
    r: Result<SignedTreeHead, SthError>,
) -> bool {
    exists|b: SthBody| #![trigger b.tree_size] b@ == body && call_ensures(G::sign, (&signer, &b), r)
}

/// Whether a tree head is a quorum's on a body: it carries that body, and the
/// signature of each of the signers, in their order.
pub open spec fn cosigned_at<Q: SthSigner>(
    quorum: QuorumSigner<Q>,
    body: SthBodyModel,
    h: CoSignedTreeHead,
) -> bool {
    &&& h.body_cbor@ == sth::body_bytes(body)
    &&& sth::body_from(h.body_cbor@) == Some(body)
    &&& h.signatures@.len() == quorum.members().len()
    &&& exists|b: SthBody|
        #![trigger b.tree_size]
        b@ == body && forall|i: int|
            0 <= i < quorum.members().len() ==> (#[trigger] h.signatures@[i]).signer_kid@
                == quorum.members()[i].key_id() && cosign::signed_by(
                quorum.members()[i],
                b,
                h.signatures@[i].signature_b64@,
            )
}

/// Whether a tree head could not be made, or not be kept.
pub open spec fn head_failed<S: AuditStore, G: SthSigner>(
    store: S,
    signer: G,
    body: SthBodyModel,
) -> bool {
    ||| exists|e: SthError| #[trigger] made_head(signer, body, Err(e))
    ||| exists|h: SignedTreeHead, e: AuditStoreError|
        made_head(signer, body, Ok(h)) && #[trigger] call_ensures(
            S::record_sth,
            (&store, &h),
            Err::<(), _>(e),
        )
}

/// Whether the latest tree head after leaves were to be sealed follows from the
/// one before: it is one over these leaves that the signer made and the store
/// kept; if there is none, because the signer or the store failed, it is the one
/// before.
pub open spec fn seals<S: AuditStore, G: SthSigner>(
    store: S,
    signer: G,
    d: Seq<[u8; 48]>,
    timestamp: i64,
    before: Option<SignedTreeHead>,
    after: Option<SignedTreeHead>,
) -> bool {
    ||| sealed_at(after, d, timestamp) && exists|h: SignedTreeHead|
        #![trigger h.body_cbor]
        made_head(signer, head_body(d, timestamp), Ok(h)) && kept_head(store, h) && (
        after matches Some(k) && k.body_cbor@ == h.body_cbor@ && k.signer_kid@ == h.signer_kid@
            && k.signature_b64@ == h.signature_b64@)
    ||| after == before && head_failed(store, signer, head_body(d, timestamp))
}

/// Whether a tree head is one over given leaves, made at a given time.
pub open spec fn sealed_at(
    head: Option<SignedTreeHead>,
    d: Seq<[u8; 48]>,
    timestamp: i64,
) -> bool {
    head matches Some(h) && sth::body_from(h.body_cbor@) == Some(head_body(d, timestamp))
}

/// An inclusion proof.
#[derive(Debug, Clone)]
pub struct InclusionProof {
    /// Digest of the leaf.
    pub leaf_hash: [u8; 48],
    /// Index of the leaf.
    pub leaf_index: u64,
    /// Size of the tree.
    pub tree_size: u64,
    /// Root of the tree.
    pub root_hash: [u8; 48],
    /// Sibling digests, from the leaf up.
    pub audit_path: Vec<[u8; 48]>,
}

/// A consistency proof.
#[derive(Debug, Clone)]
pub struct ConsistencyProof {
    /// The earlier size.
    pub old_size: u64,
    /// The later size.
    pub new_size: u64,
    /// Root of the later tree.
    pub new_root_hash: [u8; 48],
    /// The digests that connect the two trees.
    pub audit_path: Vec<[u8; 48]>,
}

/// A log that was closed is taken up again: the leaves that were committed fit
/// every tree head that was made over them, or over the first of them.
pub proof fn law_own_history_resumes(d: Seq<[u8; 48]>, k: int, timestamp: i64)
    requires
        0 <= k <= d.len() <= usize::MAX,
    ensures
        resume_fault(d, head_body(d.take(k), timestamp)) is None,
{
}

/// A history that was tampered with is refused: leaves that fit a tree head
/// made over `signed` begin with just those leaves, or two inputs that collide
/// under SHA3-384 are returned.
pub proof fn law_tampered_history_refused(
    stored: Seq<[u8; 48]>,
    signed: Seq<[u8; 48]>,
    timestamp: i64,
) -> (c: Option<(Seq<u8>, Seq<u8>)>)
    requires
        0 < signed.len() <= usize::MAX,
        resume_fault(stored, head_body(signed, timestamp)) is None,
    ensures
        c is None ==> stored.take(signed.len() as int) == signed,
        c matches Some(pair) ==> merkle::is_collision(pair),
{
    let prefix = stored.take(signed.len() as int);
    lemma_array_view_injective::<48>(merkle::tree_root(prefix), merkle::tree_root(signed));
    merkle::law_root_binds_leaves(prefix, signed)
}

/// A tree head covers every leaf: from the root that it states, each leaf has a
/// proof of inclusion at its index in a tree of the stated size.
pub proof fn law_head_covers_every_leaf(d: Seq<[u8; 48]>, timestamp: i64, m: nat)
    requires
        m < d.len() <= u64::MAX,
    ensures
        ({
            let body = head_body(d, timestamp);
            &&& body.timestamp == timestamp
            &&& merkle::inclusion_root(
                d[m as int],
                m,
                body.tree_size as nat,
                merkle::audit_path(m, d),
            ) matches Some(root) && root@ == body.root_hash
        }),
{
    merkle::law_inclusion_complete(d, m);
}

} // verus!
