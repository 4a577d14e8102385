//! RFC 6962 Merkle hash tree over SHA3-384.
//!
//! Leaves are separated from internal nodes by a prefix byte:
//!
//! ```text
//! leaf_hash(x)    = SHA3-384( 0x00 || x )
//! node_hash(l,r)  = SHA3-384( 0x01 || l || r )
//! ```
//!
//! The root of `n > 1` leaves is the node hash of the root of the first `k`
//! leaves and the root of the others, with `k` the largest power of two
//! strictly below `n`. The two proof verifiers do not need the tree: a third
//! party that holds an old root can check that a new root extends it.

use vstd::prelude::*;
use vstd::slice::slice_subrange;
use crate::primitives::bytes::arrays_equal;
use crate::primitives::hash;

verus! {

/// Prefix byte of the input of a leaf hash.
pub const LEAF_PREFIX: u8 = 0x00;

/// Prefix byte of the input of an internal node's hash.
pub const NODE_PREFIX: u8 = 0x01;

/// Size of one SHA3-384 digest.
pub const HASH_LEN: usize = 48;

/// The digest of a leaf that carries `data`.
pub open spec fn leaf_digest(data: Seq<u8>) -> [u8; 48] {
    hash::sha3_384_of(seq![LEAF_PREFIX] + data)
}

/// The input of an internal node's hash.
pub open spec fn node_input(left: [u8; 48], right: [u8; 48]) -> Seq<u8> {
    seq![NODE_PREFIX] + left@ + right@
}

/// The digest of an internal node.
pub open spec fn node_digest(left: [u8; 48], right: [u8; 48]) -> [u8; 48] {
    hash::sha3_384_of(node_input(left, right))
}

/// Whether `n` is a power of two.
pub open spec fn is_pow2(n: nat) -> bool
    decreases n,
{
    n == 1 || (n > 1 && n % 2 == 0 && is_pow2(n / 2))
}

/// The largest power of two strictly below `n`, for `n >= 2`.
pub open spec fn split_point(n: nat) -> nat
    decreases n,
{
    if n <= 2 {
        1
    } else {
        2 * split_point((n + 1) / 2)
    }
}

/// `split_point(n)` is the one power of two `k` with `k < n <= 2 * k`.
pub proof fn lemma_split_point(n: nat)
    requires
        n >= 2,
    ensures
        split_point(n) < n <= 2 * split_point(n),
        is_pow2(split_point(n)),
    decreases n,
{
    if n > 2 {
        lemma_split_point((n + 1) / 2);
        assert((2 * split_point((n + 1) / 2)) / 2 == split_point((n + 1) / 2));
    }
}

/// No other power of two than `split_point(n)` meets `k < n <= 2 * k`.
pub proof fn lemma_split_point_unique(n: nat, k: nat)
    requires
        is_pow2(k),
        k < n <= 2 * k,
    ensures
        k == split_point(n),
    decreases n,
{
    if n > 2 {
        lemma_split_point_unique((n + 1) / 2, k / 2);
    }
}

/// The Merkle tree hash of one or more leaf digests.
pub open spec fn tree_root(d: Seq<[u8; 48]>) -> [u8; 48]
    decreases d.len(),
{
    if d.len() <= 1 {
        d[0]
    } else {
        let k = split_point(d.len()) as int;
        proof {
            lemma_split_point(d.len());
        }
        node_digest(tree_root(d.subrange(0, k)), tree_root(d.subrange(k, d.len() as int)))
    }
}

/// The inclusion proof of leaf `m` of `d`: the sibling digests from the leaf
/// up to the root.
pub open spec fn audit_path(m: nat, d: Seq<[u8; 48]>) -> Seq<[u8; 48]>
    decreases d.len(),
{
    if d.len() <= 1 {
        Seq::empty()
    } else {
        let n = d.len() as int;
        let k = split_point(d.len()) as int;
        proof {
            lemma_split_point(d.len());
        }
        if m < k {
            audit_path(m, d.subrange(0, k)).push(tree_root(d.subrange(k, n)))
        } else {
            audit_path((m - k) as nat, d.subrange(k, n)).push(tree_root(d.subrange(0, k)))
        }
    }
}

/// The consistency proof between the first `m` leaves of `d` and `d`. With
/// `whole`, the root of those `m` leaves is known to the reader and left out.
pub open spec fn consistency_path(m: nat, d: Seq<[u8; 48]>, whole: bool) -> Seq<[u8; 48]>
    decreases d.len(),
{
    if m >= d.len() || d.len() < 2 {
        if whole {
            Seq::empty()
        } else {
            seq![tree_root(d)]
        }
    } else {
        let n = d.len() as int;
        let k = split_point(d.len()) as int;
        proof {
            lemma_split_point(d.len());
        }
        if m <= k {
            consistency_path(m, d.subrange(0, k), whole).push(tree_root(d.subrange(k, n)))
        } else {
            consistency_path((m - k) as nat, d.subrange(k, n), false).push(
                tree_root(d.subrange(0, k)),
            )
        }
    }
}

/// The root that `path` leads to from digest `leaf` at position `m` of a tree
/// of `n` leaves, if `path` has the length that position calls for.
pub open spec fn inclusion_root(leaf: [u8; 48], m: nat, n: nat, path: Seq<[u8; 48]>) -> Option<
    [u8; 48],
>
    decreases n,
{
    if n <= 1 {
        if path.len() == 0 {
            Some(leaf)
        } else {
            None
        }
    } else if path.len() == 0 {
        None
    } else {
        let k = split_point(n);
        proof {
            lemma_split_point(n);
        }
        if m < k {
            match inclusion_root(leaf, m, k, path.drop_last()) {
                Some(h) => Some(node_digest(h, path.last())),
                None => None,
            }
        } else {
            match inclusion_root(leaf, (m - k) as nat, (n - k) as nat, path.drop_last()) {
                Some(h) => Some(node_digest(path.last(), h)),
                None => None,
            }
        }
    }
}

/// The roots of the first `m` and of all `n` leaves that `path` leads to, if
/// it has the length that the two sizes call for. With `whole`, `known` stands
/// for the root of the first `m` leaves where these fill a subtree.
pub open spec fn consistency_roots(
    m: nat,
    n: nat,
    whole: bool,
    known: [u8; 48],
    path: Seq<[u8; 48]>,
) -> Option<([u8; 48], [u8; 48])>
    decreases n,
{
    if m >= n || n < 2 {
        if whole {
            if path.len() == 0 {
                Some((known, known))
            } else {
                None
            }
        } else if path.len() == 1 {
            Some((path[0], path[0]))
        } else {
            None
        }
    } else if path.len() == 0 {
        None
    } else {
        let k = split_point(n);
        proof {
            lemma_split_point(n);
        }
        if m <= k {
            match consistency_roots(m, k, whole, known, path.drop_last()) {
                Some(r) => Some((r.0, node_digest(r.1, path.last()))),
                None => None,
            }
        } else {
            match consistency_roots((m - k) as nat, (n - k) as nat, false, known, path.drop_last()) {
                Some(r) => Some((node_digest(path.last(), r.0), node_digest(path.last(), r.1))),
                None => None,
            }
        }
    }
}

/// What `path` leads to when a pair of digests at position `f` of `n` nodes
/// is folded from the top of the tree down: `old` takes in the siblings on its
/// left only, `new` those on both sides.
spec fn folded_down(
    f: nat,
    n: nat,
    old: [u8; 48],
    new: [u8; 48],
    path: Seq<[u8; 48]>,
) -> Option<([u8; 48], [u8; 48])>
    decreases n,
{
    if n <= 1 {
        if path.len() == 0 {
            Some((old, new))
        } else {
            None
        }
    } else if path.len() == 0 {
        None
    } else {
        let k = split_point(n);
        proof {
            lemma_split_point(n);
        }
        if f < k {
            match folded_down(f, k, old, new, path.drop_last()) {
                Some(r) => Some((r.0, node_digest(r.1, path.last()))),
                None => None,
            }
        } else {
            match folded_down((f - k) as nat, (n - k) as nat, old, new, path.drop_last()) {
                Some(r) => Some((node_digest(path.last(), r.0), node_digest(path.last(), r.1))),
                None => None,
            }
        }
    }
}

/// The same fold from the bottom up, one level of the tree at a time. A last
/// node without a sibling moves up a level as it is.
spec fn folded_up(
    f: nat,
    n: nat,
    old: [u8; 48],
    new: [u8; 48],
    path: Seq<[u8; 48]>,
) -> Option<([u8; 48], [u8; 48])>
    decreases n,
{
    if n <= 1 {
        if path.len() == 0 {
            Some((old, new))
        } else {
            None
        }
    } else if f % 2 == 0 && f + 1 == n {
        folded_up(f / 2, (n + 1) / 2, old, new, path)
    } else if path.len() == 0 {
        None
    } else if f % 2 == 1 {
        folded_up(
            f / 2,
            (n + 1) / 2,
            node_digest(path[0], old),
            node_digest(path[0], new),
            path.drop_first(),
        )
    } else {
        folded_up(f / 2, (n + 1) / 2, old, node_digest(new, path[0]), path.drop_first())
    }
}

proof fn lemma_folds_agree(
    f: nat,
    n: nat,
    old: [u8; 48],
    new: [u8; 48],
    path: Seq<[u8; 48]>,
)
    requires
        f < n,
    ensures
        folded_down(f, n, old, new, path) == folded_up(f, n, old, new, path),
    decreases n,
{
    if n == 2 {
        lemma_split_point(2);
        reveal_with_fuel(folded_down, 2);
        reveal_with_fuel(folded_up, 2);
        if path.len() >= 1 {
            assert(path.drop_last().len() == path.drop_first().len());
            if path.len() == 1 {
                assert(path.last() == path[0]);
            }
        }
    } else if n > 2 {
        let half = (n + 1) / 2;
        let k = split_point(n);
        let kh = split_point(half);
        lemma_split_point(n);
        lemma_split_point(half);
        assert(k == 2 * kh);
        assert((k + 1) / 2 == kh);
        if path.len() == 0 {
            lemma_folds_agree(f / 2, half, old, new, path);
        } else if f < k {
            lemma_folds_agree(f, k, old, new, path.drop_last());
            let old1 = if f % 2 == 1 {
                node_digest(path[0], old)
            } else {
                old
            };
            let new1 = if f % 2 == 1 {
                node_digest(path[0], new)
            } else {
                node_digest(new, path[0])
            };
            let rest = path.drop_first();
            lemma_folds_agree(f / 2, half, old1, new1, rest);
            if path.len() >= 2 {
                assert(path.drop_last().drop_first() =~= rest.drop_last());
                assert(path.drop_last()[0] == path[0]);
                assert(rest.last() == path.last());
                lemma_folds_agree(f / 2, kh, old1, new1, rest.drop_last());
            } else {
                assert(path.drop_last().len() == 0);
                assert(rest.len() == 0);
            }
        } else {
            let f1 = (f - k) as nat;
            let n1 = (n - k) as nat;
            assert((n1 + 1) / 2 == half - kh);
            assert(f1 / 2 == f / 2 - kh);
            assert(f1 % 2 == f % 2);
            lemma_folds_agree(f1, n1, old, new, path.drop_last());
            if f % 2 == 0 && f + 1 == n {
                lemma_folds_agree(f / 2, half, old, new, path);
                lemma_folds_agree(f1 / 2, (half - kh) as nat, old, new, path.drop_last());
            } else {
                let old1 = if f % 2 == 1 {
                    node_digest(path[0], old)
                } else {
                    old
                };
                let new1 = if f % 2 == 1 {
                    node_digest(path[0], new)
                } else {
                    node_digest(new, path[0])
                };
                let rest = path.drop_first();
                lemma_folds_agree(f / 2, half, old1, new1, rest);
                if path.len() >= 2 {
                    assert(path.drop_last().drop_first() =~= rest.drop_last());
                    assert(path.drop_last()[0] == path[0]);
                    assert(rest.last() == path.last());
                    lemma_folds_agree(
                        f1 / 2,
                        (half - kh) as nat,
                        old1,
                        new1,
                        rest.drop_last(),
                    );
                } else {
                    assert(path.drop_last().len() == 0);
                    assert(rest.len() == 0);
                }
            }
        }
    }
}

proof fn lemma_inclusion_is_fold(leaf: [u8; 48], m: nat, n: nat, path: Seq<[u8; 48]>)
    requires
        m < n,
    ensures
        inclusion_root(leaf, m, n, path) == (match folded_down(m, n, leaf, leaf, path) {
            Some(r) => Some(r.1),
            None => None,
        }),
    decreases n,
{
    if n > 1 && path.len() > 0 {
        let k = split_point(n);
        lemma_split_point(n);
        if m < k {
            lemma_inclusion_is_fold(leaf, m, k, path.drop_last());
        } else {
            lemma_inclusion_is_fold(leaf, (m - k) as nat, (n - k) as nat, path.drop_last());
        }
    }
}

/// Where the old size is even, the lowest level of the tree plays no part.
proof fn lemma_consistency_halves(
    m: nat,
    n: nat,
    whole: bool,
    known: [u8; 48],
    path: Seq<[u8; 48]>,
)
    requires
        0 < m <= n,
        m % 2 == 0,
    ensures
        consistency_roots(m, n, whole, known, path) == consistency_roots(
            m / 2,
            (n + 1) / 2,
            whole,
            known,
            path,
        ),
    decreases n,
{
    if m < n && path.len() > 0 {
        let half = (n + 1) / 2;
        let k = split_point(n);
        let kh = split_point(half);
        lemma_split_point(n);
        lemma_split_point(half);
        assert(k == 2 * kh);
        if m <= k {
            assert((k + 1) / 2 == kh);
            lemma_consistency_halves(m, k, whole, known, path.drop_last());
        } else {
            assert((n - k + 1) / 2 == half - kh);
            assert((m - k) / 2 == m / 2 - kh);
            lemma_consistency_halves(
                (m - k) as nat,
                (n - k) as nat,
                false,
                known,
                path.drop_last(),
            );
        }
    }
}

/// Where the old size is odd, its last leaf is the one the fold starts from.
proof fn lemma_consistency_is_fold(
    m: nat,
    n: nat,
    whole: bool,
    known: [u8; 48],
    path: Seq<[u8; 48]>,
)
    requires
        0 < m <= n,
        m % 2 == 1,
        m < n || is_pow2(n),
    ensures
        whole && m == 1 ==> consistency_roots(m, n, whole, known, path) == folded_down(
            0,
            n,
            known,
            known,
            path,
        ),
        !(whole && m == 1) ==> consistency_roots(m, n, whole, known, path) == (if path.len() == 0 {
            None
        } else {
            folded_down((m - 1) as nat, n, path[0], path[0], path.drop_first())
        }),
    decreases n,
{
    if m == n {
        assert(n == 1);
    } else if path.len() > 0 {
        let k = split_point(n);
        lemma_split_point(n);
        let short = path.drop_last();
        let rest = path.drop_first();
        if path.len() >= 2 {
            assert(short.drop_first() =~= rest.drop_last());
            assert(short[0] == path[0]);
            assert(rest.last() == path.last());
        }
        if m <= k {
            lemma_consistency_is_fold(m, k, whole, known, short);
        } else {
            lemma_consistency_is_fold((m - k) as nat, (n - k) as nat, false, known, short);
            if k > 1 {
                assert(k % 2 == 0);
            }
        }
    }
}

/// `SHA3-384(0x00 || data)`.
pub fn leaf_hash(data: &[u8]) -> (r: [u8; 48])
    ensures
        r == leaf_digest(data@),
{
    let mut input: Vec<u8> = Vec::new();
    input.push(LEAF_PREFIX);
    input.extend_from_slice(data);
    assert(input@ =~= seq![LEAF_PREFIX] + data@);
    let r = hash::sha3_384(input.as_slice());
    assert(r =~= leaf_digest(data@));
    r
}

/// `SHA3-384(0x01 || left || right)`.
pub fn node_hash(left: &[u8; 48], right: &[u8; 48]) -> (r: [u8; 48])
    ensures
        r == node_digest(*left, *right),
{
    let mut input: Vec<u8> = Vec::new();
    input.push(NODE_PREFIX);
    input.extend_from_slice(left.as_slice());
    input.extend_from_slice(right.as_slice());
    assert(input@ =~= node_input(*left, *right));
    let r = hash::sha3_384(input.as_slice());
    assert(r =~= node_digest(*left, *right));
    r
}

/// The largest power of two strictly below `n`.
pub fn largest_pow2_below(n: usize) -> (k: usize)
    requires
        n >= 2,
    ensures
        k == split_point(n as nat),
        is_pow2(k as nat),
        k < n <= 2 * k,
{
    let mut k: usize = 1;
    while k <= (n - 1) / 2
        invariant
            n >= 2,
            1 <= k < n,
            is_pow2(k as nat),
        decreases n - k,
    {
        assert((2 * k as nat) / 2 == k as nat);
        k = k * 2;
    }
    proof {
        lemma_split_point_unique(n as nat, k as nat);
    }
    k
}

/// In-memory append-only Merkle tree of leaf digests.
#[derive(Debug, Clone)]
pub struct MerkleTree {
    leaves: Vec<[u8; 48]>,
}

impl View for MerkleTree {
    type V = Seq<[u8; 48]>;

    closed spec fn view(&self) -> Seq<[u8; 48]> {
        self.leaves@
    }
}

impl Default for MerkleTree {
    fn default() -> (r: Self)
        ensures
            r@ == Seq::<[u8; 48]>::empty(),
    {
        MerkleTree { leaves: Vec::new() }
    }
}

impl MerkleTree {
    /// An empty tree.
    pub fn new() -> (r: Self)
        ensures
            r@ == Seq::<[u8; 48]>::empty(),
    {
        MerkleTree { leaves: Vec::new() }
    }

    /// Append a leaf digest and return its index.
    pub fn append(&mut self, leaf: [u8; 48]) -> (index: usize)
        ensures
            final(self)@ == old(self)@.push(leaf),
            index == old(self)@.len(),
    {
        let i: usize = self.leaves.len();
        self.leaves.push(leaf);
        i
    }

    /// Number of leaves.
    pub fn len(&self) -> (r: usize)
        ensures
            r == self@.len(),
    {
        self.leaves.len()
    }

    /// Whether the tree has no leaves.
    pub fn is_empty(&self) -> (r: bool)
        ensures
            r == (self@.len() == 0),
    {
        self.leaves.is_empty()
    }

    /// The leaf digest at `index`, if there is one.
    pub fn leaf(&self, index: usize) -> (r: Option<&[u8; 48]>)
        ensures
            r == (if index < self@.len() {
                Some(&self@[index as int])
            } else {
                None
            }),
    {
        if index < self.leaves.len() {
            Some(&self.leaves[index])
        } else {
            None
        }
    }

    /// The root of the tree; an empty tree has none.
    pub fn root(&self) -> (r: Option<[u8; 48]>)
        ensures
            r == (if self@.len() == 0 {
                None
            } else {
                Some(tree_root(self@))
            }),
    {
        if self.leaves.is_empty() {
            None
        } else {
            Some(mth(self.leaves.as_slice()))
        }
    }

    /// The inclusion proof of the leaf at `index`; `None` if there is no such
    /// leaf.
    pub fn inclusion_proof(&self, index: usize) -> (r: Option<Vec<[u8; 48]>>)
        ensures
            r is Some <==> index < self@.len(),
            r matches Some(p) ==> p@ == audit_path(index as nat, self@),
    {
        if index >= self.leaves.len() {
            return None;
        }
        Some(path(index, self.leaves.as_slice()))
    }

    /// The consistency proof between the first `old_size` leaves and the tree,
    /// which must have `new_size` leaves, with `0 < old_size <= new_size`.
    pub fn consistency_proof(&self, old_size: usize, new_size: usize) -> (r: Option<Vec<[u8; 48]>>)
        ensures
            r is Some <==> 0 < old_size <= new_size && new_size == self@.len(),
            r matches Some(p) ==> p@ == consistency_path(old_size as nat, self@, true),
    {
        if old_size == 0 || old_size > new_size || new_size != self.leaves.len() {
            return None;
        }
        Some(proof_path(old_size, self.leaves.as_slice()))
    }
}

fn mth(d: &[[u8; 48]]) -> (r: [u8; 48])
    requires
        d@.len() >= 1,
    ensures
        r == tree_root(d@),
    decreases d@.len(),
{
    if d.len() == 1 {
        return d[0];
    }
    let k: usize = largest_pow2_below(d.len());
    let left = mth(slice_subrange(d, 0, k));
    let right = mth(slice_subrange(d, k, d.len()));
    node_hash(&left, &right)
}

fn path(m: usize, d: &[[u8; 48]]) -> (r: Vec<[u8; 48]>)
    requires
        m < d@.len(),
    ensures
        r@ == audit_path(m as nat, d@),
    decreases d@.len(),
{
    let n: usize = d.len();
    if n <= 1 {
        return Vec::new();
    }
    let k: usize = largest_pow2_below(n);
    if m < k {
        let mut p = path(m, slice_subrange(d, 0, k));
        p.push(mth(slice_subrange(d, k, n)));
        p
    } else {
        let mut p = path(m - k, slice_subrange(d, k, n));
        p.push(mth(slice_subrange(d, 0, k)));
        p
    }
}

fn proof_path(m: usize, d: &[[u8; 48]]) -> (r: Vec<[u8; 48]>)
    requires
        1 <= m <= d@.len(),
    ensures
        r@ == consistency_path(m as nat, d@, true),
{
    subproof(m, d, true)
}

fn subproof(m: usize, d: &[[u8; 48]], whole: bool) -> (r: Vec<[u8; 48]>)
    requires
        1 <= m <= d@.len(),
    ensures
        r@ == consistency_path(m as nat, d@, whole),
    decreases d@.len(),
{
    let n: usize = d.len();
    if m == n {
        if whole {
            return Vec::new();
        }
        let mut p: Vec<[u8; 48]> = Vec::new();
        p.push(mth(d));
        return p;
    }
    let k: usize = largest_pow2_below(n);
    if m <= k {
        let mut p = subproof(m, slice_subrange(d, 0, k), whole);
        p.push(mth(slice_subrange(d, k, n)));
        p
    } else {
        let mut p = subproof(m - k, slice_subrange(d, k, n), false);
        p.push(mth(slice_subrange(d, 0, k)));
        p
    }
}

/// Verify an inclusion proof: whether `proof` leads from `leaf`, at position
/// `leaf_index` of a tree of `tree_size` leaves, to `root`.
pub fn verify_inclusion(
    leaf: &[u8; 48],
    leaf_index: usize,
    tree_size: usize,
    root: &[u8; 48],
    proof: &[[u8; 48]],
) -> (r: bool)
    ensures
        r == (leaf_index < tree_size && inclusion_root(
            *leaf,
            leaf_index as nat,
            tree_size as nat,
            proof@,
        ) == Some(*root)),
{
    if leaf_index >= tree_size {
        return false;
    }
    let mut fn_idx: usize = leaf_index;
    let mut sn: usize = tree_size - 1;
    let mut r = *leaf;
    let mut used: usize = 0;
    let ghost mut old_side = *leaf;
    let ghost target = folded_up(leaf_index as nat, tree_size as nat, *leaf, *leaf, proof@);
    proof {
        lemma_inclusion_is_fold(*leaf, leaf_index as nat, tree_size as nat, proof@);
        lemma_folds_agree(leaf_index as nat, tree_size as nat, *leaf, *leaf, proof@);
        assert(proof@.skip(0) =~= proof@);
    }
    while sn > 0
        invariant
            fn_idx <= sn,
            used <= proof@.len(),
            sn < usize::MAX,
            target == folded_up(
                fn_idx as nat,
                (sn + 1) as nat,
                old_side,
                r,
                proof@.skip(used as int),
            ),
            inclusion_root(*leaf, leaf_index as nat, tree_size as nat, proof@) == (match target {
                Some(x) => Some(x.1),
                None => None,
            }),
            leaf_index < tree_size,
        decreases sn,
    {
        let ghost rest = proof@.skip(used as int);
        if used >= proof.len() {
            proof {
                lemma_folded_up_empty(fn_idx as nat, (sn + 1) as nat, old_side, r, rest);
            }
            return false;
        }
        let p = proof[used];
        used += 1;
        assert(rest.drop_first() =~= proof@.skip(used as int));
        assert(rest[0] == p);
        if fn_idx % 2 == 1 || fn_idx == sn {
            let ghost r_before = r;
            let ghost sn_before = sn;
            r = node_hash(&p, &r);
            if fn_idx % 2 == 0 {
                while fn_idx % 2 == 0
                    invariant
                        fn_idx == sn,
                        0 < sn <= sn_before < usize::MAX,
                        target == folded_up(fn_idx as nat, (sn + 1) as nat, old_side, r_before, rest),
                    decreases fn_idx,
                {
                    fn_idx = fn_idx / 2;
                    sn = sn / 2;
                }
            }
            proof {
                old_side = node_digest(p, old_side);
            }
        } else {
            r = node_hash(&r, &p);
        }
        fn_idx = fn_idx / 2;
        sn = sn / 2;
    }
    used == proof.len() && arrays_equal(&r, root)
}

proof fn lemma_folded_up_empty(
    f: nat,
    n: nat,
    old: [u8; 48],
    new: [u8; 48],
    path: Seq<[u8; 48]>,
)
    requires
        f < n,
        n > 1,
        path.len() == 0,
    ensures
        folded_up(f, n, old, new, path) is None,
    decreases n,
{
    if f % 2 == 0 && f + 1 == n {
        lemma_folded_up_empty(f / 2, (n + 1) / 2, old, new, path);
    }
}

/// Whether `n` is a power of two.
fn is_power_of_two(n: usize) -> (r: bool)
    ensures
        r == is_pow2(n as nat),
{
    if n == 0 {
        return false;
    }
    let mut k: usize = n;
    while k % 2 == 0
        invariant
            k > 0,
            is_pow2(k as nat) == is_pow2(n as nat),
        decreases k,
    {
        k = k / 2;
    }
    k == 1
}

/// Verify a consistency proof: whether `proof` shows that the tree of
/// `new_size` leaves with root `new_root` extends the tree of `old_size`
/// leaves with root `old_root`.
pub fn verify_consistency(
    old_size: usize,
    new_size: usize,
    old_root: &[u8; 48],
    new_root: &[u8; 48],
    proof: &[[u8; 48]],
) -> (r: bool)
    ensures
        r == (0 < old_size <= new_size && consistency_roots(
            old_size as nat,
            new_size as nat,
            true,
            *old_root,
            proof@,
        ) == Some((*old_root, *new_root))),
{
    if old_size == 0 || old_size > new_size {
        return false;
    }
    if old_size == new_size {
        return proof.is_empty() && arrays_equal(old_root, new_root);
    }
    let ghost expected = consistency_roots(
        old_size as nat,
        new_size as nat,
        true,
        *old_root,
        proof@,
    );
    let mut fn_idx: usize = old_size - 1;
    let mut sn: usize = new_size - 1;
    while fn_idx % 2 == 1
        invariant
            fn_idx < sn < usize::MAX,
            is_pow2((fn_idx + 1) as nat) == is_pow2(old_size as nat),
            expected == consistency_roots(
                (fn_idx + 1) as nat,
                (sn + 1) as nat,
                true,
                *old_root,
                proof@,
            ),
        decreases fn_idx,
    {
        proof {
            lemma_consistency_halves(
                (fn_idx + 1) as nat,
                (sn + 1) as nat,
                true,
                *old_root,
                proof@,
            );
        }
        fn_idx = fn_idx / 2;
        sn = sn / 2;
    }
    proof {
        lemma_consistency_is_fold(
            (fn_idx + 1) as nat,
            (sn + 1) as nat,
            true,
            *old_root,
            proof@,
        );
        assert(is_pow2((fn_idx + 1) as nat) == (fn_idx == 0));
    }
    let mut fr: [u8; 48];
    let mut sr: [u8; 48];
    let mut used: usize;
    if is_power_of_two(old_size) {
        fr = *old_root;
        sr = *old_root;
        used = 0;
        assert(proof@.skip(0) =~= proof@);
    } else {
        if proof.is_empty() {
            return false;
        }
        fr = proof[0];
        sr = proof[0];
        used = 1;
        assert(proof@.skip(1) =~= proof@.drop_first());
    }
    proof {
        lemma_folds_agree(
            fn_idx as nat,
            (sn + 1) as nat,
            fr,
            sr,
            proof@.skip(used as int),
        );
    }
    while sn > 0
        invariant
            fn_idx <= sn,
            used <= proof@.len(),
            sn < usize::MAX,
            expected == folded_up(
                fn_idx as nat,
                (sn + 1) as nat,
                fr,
                sr,
                proof@.skip(used as int),
            ),
            expected == consistency_roots(
                old_size as nat,
                new_size as nat,
                true,
                *old_root,
                proof@,
            ),
        decreases sn,
    {
        let ghost rest = proof@.skip(used as int);
        if used >= proof.len() {
            proof {
                lemma_folded_up_empty(fn_idx as nat, (sn + 1) as nat, fr, sr, rest);
            }
            return false;
        }
        let c = proof[used];
        used += 1;
        assert(rest.drop_first() =~= proof@.skip(used as int));
        assert(rest[0] == c);
        if fn_idx % 2 == 1 || fn_idx == sn {
            let ghost fr_before = fr;
            let ghost sr_before = sr;
            let ghost sn_before = sn;
            fr = node_hash(&c, &fr);
            sr = node_hash(&c, &sr);
            while fn_idx % 2 == 0
                invariant
                    fn_idx % 2 == 1 || fn_idx == sn,
                    fn_idx <= sn,
                    0 < sn <= sn_before < usize::MAX,
                    expected == folded_up(
                        fn_idx as nat,
                        (sn + 1) as nat,
                        fr_before,
                        sr_before,
                        rest,
                    ),
                decreases fn_idx,
            {
                fn_idx = fn_idx / 2;
                sn = sn / 2;
            }
        } else {
            sr = node_hash(&sr, &c);
        }
        fn_idx = fn_idx / 2;
        sn = sn / 2;
    }
    used == proof.len() && arrays_equal(&fr, old_root) && arrays_equal(&sr, new_root)
}

/// Every inclusion proof that a tree gives out verifies against its root.
pub proof fn law_inclusion_complete(d: Seq<[u8; 48]>, m: nat)
    requires
        m < d.len(),
    ensures
        inclusion_root(d[m as int], m, d.len(), audit_path(m, d)) == Some(tree_root(d)),
    decreases d.len(),
{
    let n = d.len() as int;
    if n > 1 {
        let k = split_point(d.len()) as int;
        lemma_split_point(d.len());
        let left = d.subrange(0, k);
        let right = d.subrange(k, n);
        let path = audit_path(m, d);
        if m < k {
            law_inclusion_complete(left, m);
            assert(path.drop_last() =~= audit_path(m, left));
            assert(left[m as int] == d[m as int]);
        } else {
            law_inclusion_complete(right, (m - k) as nat);
            assert(path.drop_last() =~= audit_path((m - k) as nat, right));
            assert(right[m - k] == d[m as int]);
        }
    }
}

proof fn lemma_consistency_complete(d: Seq<[u8; 48]>, m: nat, whole: bool, known: [u8; 48])
    requires
        0 < m <= d.len(),
        whole ==> known == tree_root(d.subrange(0, m as int)),
    ensures
        consistency_roots(m, d.len(), whole, known, consistency_path(m, d, whole)) == Some(
            (tree_root(d.subrange(0, m as int)), tree_root(d)),
        ),
    decreases d.len(),
{
    let n = d.len() as int;
    if m == n {
        assert(d.subrange(0, n) =~= d);
    } else {
        let k = split_point(d.len()) as int;
        lemma_split_point(d.len());
        let left = d.subrange(0, k);
        let right = d.subrange(k, n);
        let path = consistency_path(m, d, whole);
        let prefix = d.subrange(0, m as int);
        if m <= k {
            assert(left.subrange(0, m as int) =~= prefix);
            lemma_consistency_complete(left, m, whole, known);
            assert(path.drop_last() =~= consistency_path(m, left, whole));
        } else {
            let m1 = (m - k) as nat;
            lemma_consistency_complete(right, m1, false, known);
            assert(path.drop_last() =~= consistency_path(m1, right, false));
            lemma_split_point_unique(m, k as nat);
            assert(prefix.subrange(0, k) =~= left);
            assert(prefix.subrange(k, m as int) =~= right.subrange(0, m1 as int));
        }
    }
}

/// For every prefix of a tree's history, the consistency proof that the tree
/// gives out verifies against the prefix's root and the tree's root.
pub proof fn law_consistency_complete(d: Seq<[u8; 48]>, m: nat)
    requires
        0 < m <= d.len(),
    ensures
        ({
            let old_root = tree_root(d.subrange(0, m as int));
            consistency_roots(m, d.len(), true, old_root, consistency_path(m, d, true)) == Some(
                (old_root, tree_root(d)),
            )
        }),
{
    lemma_consistency_complete(d, m, true, tree_root(d.subrange(0, m as int)));
}

/// Two different inputs with the same SHA3-384 digest.
pub open spec fn is_collision(c: (Seq<u8>, Seq<u8>)) -> bool {
    c.0 != c.1 && hash::sha3_384_of(c.0) == hash::sha3_384_of(c.1)
}

/// Node hashes tell their children apart, or the two inputs collide.
proof fn lemma_node_binds(l1: [u8; 48], r1: [u8; 48], l2: [u8; 48], r2: [u8; 48])
    requires
        node_digest(l1, r1) == node_digest(l2, r2),
        !is_collision((node_input(l1, r1), node_input(l2, r2))),
    ensures
        l1 == l2,
        r1 == r2,
{
    let a = node_input(l1, r1);
    let b = node_input(l2, r2);
    assert(a == b);
    assert forall|i: int| 0 <= i < 48 implies l1[i] == l2[i] && r1[i] == r2[i] by {
        assert(a[i + 1] == l1@[i]);
        assert(b[i + 1] == l2@[i]);
        assert(a[i + 49] == r1@[i]);
        assert(b[i + 49] == r2@[i]);
    }
    assert(l1 =~= l2);
    assert(r1 =~= r2);
}

/// A root fixes its leaves: two leaf sequences of one length with the same
/// root are equal, or the walk down the two trees meets two node inputs that
/// collide under SHA3-384, and these are returned.
pub proof fn law_root_binds_leaves(a: Seq<[u8; 48]>, b: Seq<[u8; 48]>) -> (c: Option<
    (Seq<u8>, Seq<u8>),
>)
    requires
        0 < a.len() == b.len(),
        tree_root(a) == tree_root(b),
    ensures
        c is None ==> a == b,
        c matches Some(pair) ==> is_collision(pair),
    decreases a.len(),
{
    let n = a.len() as int;
    if n == 1 {
        assert(a =~= b);
        None
    } else {
        let k = split_point(a.len()) as int;
        lemma_split_point(a.len());
        let (al, ar) = (a.subrange(0, k), a.subrange(k, n));
        let (bl, br) = (b.subrange(0, k), b.subrange(k, n));
        let pair = (
            node_input(tree_root(al), tree_root(ar)),
            node_input(tree_root(bl), tree_root(br)),
        );
        if is_collision(pair) {
            Some(pair)
        } else {
            lemma_node_binds(tree_root(al), tree_root(ar), tree_root(bl), tree_root(br));
            let left = law_root_binds_leaves(al, bl);
            let right = law_root_binds_leaves(ar, br);
            if left is Some {
                left
            } else {
                assert(a =~= al + ar);
                assert(b =~= bl + br);
                right
            }
        }
    }
}

/// An accepted inclusion proof fixes the leaf: if it leads to the root of `d`,
/// the leaf is the one that `d` holds at that position, or two node inputs
/// that collide under SHA3-384 are returned.
pub proof fn law_inclusion_binds_leaf(
    leaf: [u8; 48],
    m: nat,
    d: Seq<[u8; 48]>,
    path: Seq<[u8; 48]>,
) -> (c: Option<(Seq<u8>, Seq<u8>)>)
    requires
        m < d.len(),
        inclusion_root(leaf, m, d.len(), path) == Some(tree_root(d)),
    ensures
        c is None ==> leaf == d[m as int],
        c matches Some(pair) ==> is_collision(pair),
    decreases d.len(),
{
    let n = d.len() as int;
    if n == 1 {
        None
    } else {
        let k = split_point(d.len()) as int;
        lemma_split_point(d.len());
        let (dl, dr) = (d.subrange(0, k), d.subrange(k, n));
        let short = path.drop_last();
        let (l, r) = if m < k {
            (inclusion_root(leaf, m, k as nat, short)->0, path.last())
        } else {
            (path.last(), inclusion_root(leaf, (m - k) as nat, (n - k) as nat, short)->0)
        };
        let pair = (node_input(l, r), node_input(tree_root(dl), tree_root(dr)));
        if is_collision(pair) {
            Some(pair)
        } else {
            lemma_node_binds(l, r, tree_root(dl), tree_root(dr));
            if m < k {
                law_inclusion_binds_leaf(leaf, m, dl, short)
            } else {
                law_inclusion_binds_leaf(leaf, (m - k) as nat, dr, short)
            }
        }
    }
}

proof fn lemma_consistency_binds(
    a: Seq<[u8; 48]>,
    d: Seq<[u8; 48]>,
    whole: bool,
    known: [u8; 48],
    path: Seq<[u8; 48]>,
) -> (c: Option<(Seq<u8>, Seq<u8>)>)
    requires
        0 < a.len() <= d.len(),
        consistency_roots(a.len(), d.len(), whole, known, path) == Some(
            (tree_root(a), tree_root(d)),
        ),
    ensures
        c is None ==> a == d.subrange(0, a.len() as int),
        c matches Some(pair) ==> is_collision(pair),
    decreases d.len(),
{
    let m = a.len() as int;
    let n = d.len() as int;
    if m == n {
        assert(d.subrange(0, n) =~= d);
        law_root_binds_leaves(a, d)
    } else {
        let k = split_point(d.len()) as int;
        lemma_split_point(d.len());
        let (dl, dr) = (d.subrange(0, k), d.subrange(k, n));
        let short = path.drop_last();
        let last = path.last();
        if m <= k {
            let inner = consistency_roots(a.len(), k as nat, whole, known, short)->0;
            let pair = (node_input(inner.1, last), node_input(tree_root(dl), tree_root(dr)));
            if is_collision(pair) {
                Some(pair)
            } else {
                lemma_node_binds(inner.1, last, tree_root(dl), tree_root(dr));
                assert(dl.subrange(0, m) =~= d.subrange(0, m));
                lemma_consistency_binds(a, dl, whole, known, short)
            }
        } else {
            lemma_split_point_unique(a.len(), k as nat);
            let (al, ar) = (a.subrange(0, k), a.subrange(k, m));
            let inner = consistency_roots((m - k) as nat, (n - k) as nat, false, known, short)->0;
            let new_pair = (node_input(last, inner.1), node_input(tree_root(dl), tree_root(dr)));
            let old_pair = (node_input(last, inner.0), node_input(tree_root(al), tree_root(ar)));
            if is_collision(new_pair) {
                Some(new_pair)
            } else if is_collision(old_pair) {
                Some(old_pair)
            } else {
                lemma_node_binds(last, inner.1, tree_root(dl), tree_root(dr));
                lemma_node_binds(last, inner.0, tree_root(al), tree_root(ar));
                let left = law_root_binds_leaves(al, dl);
                let right = lemma_consistency_binds(ar, dr, false, known, short);
                if left is Some {
                    left
                } else {
                    assert(a =~= al + ar);
                    assert(d.subrange(0, m) =~= dl + dr.subrange(0, m - k));
                    right
                }
            }
        }
    }
}

/// An accepted consistency proof fixes the history: if it leads to the roots
/// of `a` and of `d`, then `a` is the beginning of `d` (nothing was inserted,
/// removed or reordered), or two node inputs that collide under SHA3-384 are
/// returned.
pub proof fn law_consistency_binds_history(
    a: Seq<[u8; 48]>,
    d: Seq<[u8; 48]>,
    path: Seq<[u8; 48]>,
) -> (c: Option<(Seq<u8>, Seq<u8>)>)
    requires
        0 < a.len() <= d.len(),
        consistency_roots(a.len(), d.len(), true, tree_root(a), path) == Some(
            (tree_root(a), tree_root(d)),
        ),
    ensures
        c is None ==> a == d.subrange(0, a.len() as int),
        c matches Some(pair) ==> is_collision(pair),
{
    lemma_consistency_binds(a, d, true, tree_root(a), path)
}

/// Leaf inputs and node inputs never coincide, whatever the leaf carries.
pub proof fn law_leaf_and_node_inputs_differ(data: Seq<u8>, left: [u8; 48], right: [u8; 48])
    ensures
        seq![LEAF_PREFIX] + data != node_input(left, right),
{
    assert((seq![LEAF_PREFIX] + data)[0] == LEAF_PREFIX);
    assert(node_input(left, right)[0] == NODE_PREFIX);
}

} // verus!
