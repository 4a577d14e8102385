//! How the records of the log are named in a directory: one file per leaf and
//! per tree head, numbered, never written twice.

use vstd::prelude::*;
use vstd::string::StringExecFns;
use crate::audit::cosign::CoSignedTreeHead;
use crate::audit::sth;
use crate::audit::sth::{SignedTreeHead, SthError};
use crate::primitives::number;
use crate::primitives::text;

verus! {

/// Failure modes of the backing store.
#[derive(Debug, Clone, PartialEq, Eq)]
pub enum AuditStoreError {
    /// Reading or writing failed.
    Io {
        /// Whether the record does not exist.
        not_found: bool,
        /// What the system said.
        message: String,
    },
    /// A record of that name exists, and is not written over.
    AlreadyExists(String),
    /// A record could not be read.
    Decode(String),
    /// A record could not be written.
    Encode(String),
    /// The store does not do this.
    Unsupported(&'static str),
}

/// Append-only backing store of leaves and tree heads, for others to provide.
/// A store refuses to write a leaf or a head over an earlier one. Nothing that
/// is proved here rests on what a store does.
pub trait AuditStore {
    /// Keep a leaf's bytes and its digest at an index.
    fn append_leaf(&self, index: u64, raw_event: &[u8], leaf_hash: &[u8; 48]) -> (r: Result<
        (),
        AuditStoreError,
    >);

    /// Keep a tree head, by its size.
    fn record_sth(&self, sth: &SignedTreeHead) -> (r: Result<(), AuditStoreError>);

    /// Keep a quorum's tree head, by its size. A store need not do this.
    fn record_cosigned_sth(&self, sth: &CoSignedTreeHead) -> (r: Result<(), AuditStoreError>) {
        Err(AuditStoreError::Unsupported("record_cosigned_sth not implemented by this store"))
    }

    /// The bytes of a leaf.
    fn read_leaf(&self, index: u64) -> (r: Result<Vec<u8>, AuditStoreError>);

    /// The tree head of the largest size.
    fn latest_sth(&self) -> (r: Result<Option<SignedTreeHead>, AuditStoreError>);

    /// The quorum's tree head of the largest size.
    fn latest_cosigned_sth(&self) -> (r: Result<Option<CoSignedTreeHead>, AuditStoreError>) {
        Ok(None)
    }
}

/// The name of record `n`: 20 digits between a directory and a suffix.
pub open spec fn record_name(dir: Seq<char>, n: u64, suffix: Seq<char>) -> Seq<char> {
    dir + number::padded(n as nat) + suffix
}

/// The name of record `n`.
pub fn record_path(dir: &str, n: u64, suffix: &str) -> (r: String)
    ensures
        r@ == record_name(dir@, n, suffix@),
{
    let mut r = text::joined(dir, number::padded_text(n).as_str());
    r.append(suffix);
    r
}

/// The store's error for a head whose body cannot be read: the fault's text.
fn unreadable(e: SthError) -> (r: AuditStoreError)
    requires
        e is Decode,
    ensures
        e matches SthError::Decode(fault) && (r matches AuditStoreError::Encode(m) && m@
            == "cbor decode: "@ + fault@),
{
    match e {
        SthError::Decode(m) => AuditStoreError::Encode(text::joined("cbor decode: ", m.as_str())),
        _ => AuditStoreError::Encode(String::new()),
    }
}

/// A directory that keeps the log's records, each in a file of its own.
#[derive(Debug, Clone, PartialEq, Eq)]
pub struct LocalDiskWormStore {
    root: String,
}

impl LocalDiskWormStore {
    /// The directory.
    pub closed spec fn directory(&self) -> Seq<char> {
        self.root@
    }

    /// The store in a directory.
    pub fn new(root: String) -> (r: Self)
        ensures
            r.directory() == root@,
    {
        LocalDiskWormStore { root }
    }

    /// The directory.
    pub fn root(&self) -> (r: &str)
        ensures
            r@ == self.directory(),
    {
        self.root.as_str()
    }

    fn within(&self, dir: &str, n: u64, suffix: &str) -> (r: String)
        ensures
            r@ == self.directory() + "/"@ + record_name(dir@, n, suffix@),
    {
        let mut r = text::joined(self.root.as_str(), "/");
        r.append(record_path(dir, n, suffix).as_str());
        r
    }

    /// The file that holds a leaf.
    pub fn leaf_path(&self, index: u64) -> (r: String)
        ensures
            r@ == self.directory() + "/"@ + record_name("leaves/"@, index, ".cbor"@),
    {
        self.within("leaves/", index, ".cbor")
    }

    /// The file that holds a leaf's digest.
    pub fn hash_path(&self, index: u64) -> (r: String)
        ensures
            r@ == self.directory() + "/"@ + record_name("leaves/"@, index, ".hash"@),
    {
        self.within("leaves/", index, ".hash")
    }

    /// The file that holds a tree head.
    pub fn sth_path(&self, tree_size: u64) -> (r: String)
        ensures
            r@ == self.directory() + "/"@ + record_name("sth/"@, tree_size, ".json"@),
    {
        self.within("sth/", tree_size, ".json")
    }

    /// The file that holds a tree head of a quorum.
    pub fn cosigned_path(&self, tree_size: u64) -> (r: String)
        ensures
            r@ == self.directory() + "/"@ + record_name("cosigned/"@, tree_size, ".json"@),
    {
        self.within("cosigned/", tree_size, ".json")
    }

    /// The file that a tree head goes into: heads are kept by the size in their
    /// body.
    pub fn sth_record(&self, head: &SignedTreeHead) -> (r: Result<String, AuditStoreError>)
        ensures
            match r {
                Ok(p) => sth::body_from(head.body_cbor@) matches Some(b) && p@ == self.directory()
                    + "/"@ + record_name("sth/"@, b.tree_size, ".json"@),
                Err(e) => sth::body_from(head.body_cbor@) is None && (e matches
                    AuditStoreError::Encode(m) && m@ == "cbor decode: "@ + sth::body_fault(
                    head.body_cbor@,
                )),
            },
    {
        match head.body() {
            Ok(b) => Ok(self.sth_path(b.tree_size)),
            Err(e) => Err(unreadable(e)),
        }
    }

    /// The file that a tree head of a quorum goes into.
    pub fn cosigned_record(&self, head: &CoSignedTreeHead) -> (r: Result<String, AuditStoreError>)
        ensures
            match r {
                Ok(p) => sth::body_from(head.body_cbor@) matches Some(b) && p@ == self.directory()
                    + "/"@ + record_name("cosigned/"@, b.tree_size, ".json"@),
                Err(e) => sth::body_from(head.body_cbor@) is None && (e matches
                    AuditStoreError::Encode(m) && m@ == "cbor decode: "@ + sth::body_fault(
                    head.body_cbor@,
                )),
            },
    {
        match head.body() {
            Ok(b) => Ok(self.cosigned_path(b.tree_size)),
            Err(e) => Err(unreadable(e)),
        }
    }
}

/// The number of a record, if a file name is one: a number and a suffix.
pub open spec fn record_number(name: Seq<char>, suffix: Seq<char>) -> Option<u64> {
    if text::finishes_with(name, suffix) {
        match number::parsed_unsigned(name.take(name.len() - suffix.len()), u64::MAX as nat) {
            Some(n) => Some(n as u64),
            None => None,
        }
    } else {
        None
    }
}

/// The number of a record, if a file name is one.
pub fn number_of(name: &str, suffix: &str) -> (r: Option<u64>)
    ensures
        r == record_number(name@, suffix@),
{
    match text::strip_suffix(name, suffix) {
        Some(stem) => number::parse_u64(stem),
        None => None,
    }
}

/// The record with the largest number among file names, and where it stands;
/// of several with one number the first.
pub fn latest_record(names: &Vec<String>, suffix: &str) -> (r: Option<(u64, usize)>)
    ensures
        match r {
            Some((n, i)) => {
                &&& i < names@.len()
                &&& record_number(names@[i as int]@, suffix@) == Some(n)
                &&& forall|j: int|
                    0 <= j < names@.len() ==> (record_number((#[trigger] names@[j])@, suffix@)
                        matches Some(m) ==> m <= n && (j < i ==> m < n))
            },
            None => forall|j: int|
                0 <= j < names@.len() ==> record_number((#[trigger] names@[j])@, suffix@) is None,
        },
{
    let mut best: Option<(u64, usize)> = None;
    let mut k: usize = 0;
    while k < names.len()
        invariant
            k <= names@.len(),
            match best {
                Some((n, i)) => {
                    &&& i < k
                    &&& record_number(names@[i as int]@, suffix@) == Some(n)
                    &&& forall|j: int|
                        0 <= j < k ==> (record_number((#[trigger] names@[j])@, suffix@)
                            matches Some(m) ==> m <= n && (j < i ==> m < n))
                },
                None => forall|j: int|
                    0 <= j < k ==> record_number((#[trigger] names@[j])@, suffix@) is None,
            },
        decreases names@.len() - k,
    {
        if let Some(n) = number_of(names[k].as_str(), suffix) {
            let better = match best {
                Some((b, _)) => n > b,
                None => true,
            };
            if better {
                best = Some((n, k));
            }
        }
        k += 1;
    }
    best
}

/// A record's file name carries its number: stripped of its directory, the
/// name of record `n` is read as `n`.
pub proof fn law_record_name_number(n: u64, suffix: Seq<char>)
    ensures
        record_number(record_name(Seq::empty(), n, suffix), suffix) == Some(n),
{
    let name = record_name(Seq::empty(), n, suffix);
    number::lemma_padded_parses(n as nat, u64::MAX as nat);
    assert(name =~= number::padded(n as nat) + suffix);
    assert(name.skip(name.len() - suffix.len()) =~= suffix);
    assert(name.take(name.len() - suffix.len()) =~= number::padded(n as nat));
}

/// No two records share a file name.
pub proof fn law_record_names_distinct(dir: Seq<char>, a: u64, b: u64, suffix: Seq<char>)
    requires
        record_name(dir, a, suffix) == record_name(dir, b, suffix),
    ensures
        a == b,
{
    law_record_name_number(a, suffix);
    law_record_name_number(b, suffix);
    let (x, y) = (record_name(dir, a, suffix), record_name(dir, b, suffix));
    assert(x.skip(dir.len() as int) =~= record_name(Seq::empty(), a, suffix));
    assert(y.skip(dir.len() as int) =~= record_name(Seq::empty(), b, suffix));
}

} // verus!
