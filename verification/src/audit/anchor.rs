//! Publishing tree heads in outside transparency logs.
//!
//! Heads wait in a queue, one file per tree size, until a transparency log has
//! taken them. The queue's files survive restarts; what is decided here is how
//! they are named, which of them are waiting in what order, and what becomes of
//! each after an attempt.

use vstd::prelude::*;
use vstd::string::StringExecFns;
use crate::audit::cosign;
use crate::audit::cosign::CoSignedTreeHead;
use crate::audit::sth;
use crate::audit::sth::SthError;
use crate::audit::store;
use crate::primitives::number;
use crate::primitives::text;

verus! {

/// What a transparency log gives for a head that it has taken.
#[derive(Debug, Clone, PartialEq, Eq)]
pub struct AnchorReceipt {
    /// The transparency log.
    pub anchor_name: String,
    /// Tree size of the head.
    pub tree_size: u64,
    /// Index in the transparency log, from one.
    pub log_index: u64,
    /// What the log returned.
    pub receipt_bytes: Vec<u8>,
    /// When the receipt was recorded, Unix seconds.
    pub anchored_at_unix: i64,
}

/// How an attempt to publish fails.
#[derive(Debug, Clone, PartialEq, Eq)]
pub enum AnchorError {
    /// Not now: the head waits for the next attempt.
    Transient(String),
    /// Never: the head is put aside.
    Permanent(String),
}

/// Failure modes of the queue.
#[derive(Debug, Clone, PartialEq, Eq)]
pub enum AnchorQueueError {
    /// Reading or writing failed.
    Io(String),
    /// An entry of that name exists.
    AlreadyExists(String),
    /// A head could not be written or read.
    Codec(String),
    /// An entry has the wrong form.
    Malformed(String),
}

/// A transparency log, for others to provide. Nothing that is proved here rests
/// on what it does.
pub trait Anchor {
    /// Its name, which stands in receipts.
    fn name(&self) -> (r: &str);

    /// Submit a head, for a receipt.
    fn submit(&self, sth: &CoSignedTreeHead) -> (r: Result<AnchorReceipt, AnchorError>);
}

/// The directory that heads wait in.
#[derive(Debug, Clone, PartialEq, Eq)]
pub struct AnchorQueue {
    root: String,
}

impl AnchorQueue {
    /// The directory.
    pub closed spec fn directory(&self) -> Seq<char> {
        self.root@
    }

    /// A queue in a directory.
    pub fn new(root: String) -> (r: Self)
        ensures
            r.directory() == root@,
    {
        AnchorQueue { root }
    }

    /// The directory.
    pub fn root(&self) -> (r: &str)
        ensures
            r@ == self.directory(),
    {
        self.root.as_str()
    }

    fn within(&self, dir: &str, tree_size: u64, suffix: &str) -> (r: String)
        ensures
            r@ == self.directory() + "/"@ + store::record_name(dir@, tree_size, suffix@),
    {
        let mut r = text::joined(self.root.as_str(), "/");
        r.append(store::record_path(dir, tree_size, suffix).as_str());
        r
    }

    /// The file of a waiting head.
    pub fn pending_sth_path(&self, tree_size: u64) -> (r: String)
        ensures
            r@ == self.directory() + "/"@ + store::record_name("pending/"@, tree_size, ".sth.json"@),
    {
        self.within("pending/", tree_size, ".sth.json")
    }

    /// The file that says since when a head waits.
    pub fn pending_enq_path(&self, tree_size: u64) -> (r: String)
        ensures
            r@ == self.directory() + "/"@ + store::record_name("pending/"@, tree_size, ".enq"@),
    {
        self.within("pending/", tree_size, ".enq")
    }

    /// The file of a receipt.
    pub fn receipt_path(&self, tree_size: u64) -> (r: String)
        ensures
            r@ == self.directory() + "/"@ + store::record_name("receipts/"@, tree_size, ".json"@),
    {
        self.within("receipts/", tree_size, ".json")
    }

    /// The file of a head that was put aside.
    pub fn dead_sth_path(&self, tree_size: u64) -> (r: String)
        ensures
            r@ == self.directory() + "/"@ + store::record_name("dead/"@, tree_size, ".sth.json"@),
    {
        self.within("dead/", tree_size, ".sth.json")
    }

    /// The file that says why a head was put aside.
    pub fn dead_err_path(&self, tree_size: u64) -> (r: String)
        ensures
            r@ == self.directory() + "/"@ + store::record_name("dead/"@, tree_size, ".err"@),
    {
        self.within("dead/", tree_size, ".err")
    }

    /// How long the oldest waiting head has waited: from the earliest of the
    /// times until now. Nothing waits, nothing is said.
    pub fn backlog_seconds(&self, times: &Vec<i64>, now_unix: i64) -> (r: Option<i64>)
        requires
            earliest(times@) matches Some(t) ==> i64::MIN <= now_unix - t <= i64::MAX,
        ensures
            match r {
                Some(age) => earliest(times@) matches Some(t) && age == now_unix - t,
                None => times@.len() == 0,
            },
    {
        backlog_seconds(times, now_unix)
    }
}

/// The tree size under which a head is queued.
pub fn queue_key(head: &CoSignedTreeHead) -> (r: Result<u64, AnchorQueueError>)
    ensures
        match r {
            Ok(n) => sth::body_from(head.body_cbor@) matches Some(b) && b.tree_size == n,
            Err(e) => sth::body_from(head.body_cbor@) is None && (e matches
                AnchorQueueError::Codec(m) && m@ == "cbor decode: "@ + sth::body_fault(
                head.body_cbor@,
            )),
        },
{
    match head.body() {
        Ok(b) => Ok(b.tree_size),
        Err(SthError::Decode(m)) => Err(
            AnchorQueueError::Codec(text::joined("cbor decode: ", m.as_str())),
        ),
        Err(_) => Err(AnchorQueueError::Codec(String::new())),
    }
}

/// Whether a head is to be queued: not if one of its tree size waits, or has
/// been taken. The first queueing's time stands.
pub fn enqueue(pending: bool, anchored: bool) -> (r: bool)
    ensures
        r == (!pending && !anchored),
{
    !pending && !anchored
}

/// The contents of the file that says since when a head waits.
pub fn enqueued_text(now_unix: i64) -> (r: String)
    ensures
        r@ == text::signed_decimal(now_unix as int),
        number::parsed_signed(text::trimmed(r@)) == Some(now_unix as int),
{
    proof {
        number::lemma_signed_parses(now_unix);
        lemma_notation_is_trimmed(now_unix);
    }
    text::signed_decimal_text(now_unix)
}

proof fn lemma_notation_is_trimmed(n: i64)
    ensures
        text::trimmed(text::signed_decimal(n as int)) == text::signed_decimal(n as int),
{
    let s = text::signed_decimal(n as int);
    let m = if n < 0 {
        (-(n as int)) as nat
    } else {
        n as nat
    };
    number::lemma_decimal_value(m);
    let d = text::decimal(m);
    assert(number::is_digit(d[0]) && number::is_digit(d.last()));
    if n < 0 {
        assert(s[0] == '-');
    }
    assert(s.last() == d.last());
}

/// Since when a head waits, as its file says.
pub fn enqueued_at(contents: &str) -> (r: Result<i64, AnchorQueueError>)
    ensures
        match r {
            Ok(t) => number::parsed_signed(text::trimmed(contents@)) == Some(t as int),
            Err(e) => number::parsed_signed(text::trimmed(contents@)) is None && (e matches
                AnchorQueueError::Malformed(m) && m@ == "invalid number of seconds"@),
        },
{
    match number::parse_i64(text::trim(contents)) {
        Some(t) => Ok(t),
        None => Err(AnchorQueueError::Malformed("invalid number of seconds".to_owned())),
    }
}

/// The waiting heads among the first `n` file names, as tree size and
/// position, in the order of the names.
pub open spec fn listed(names: Seq<String>, n: int) -> Seq<(u64, usize)>
    decreases n,
{
    if n <= 0 {
        Seq::empty()
    } else {
        match store::record_number(names[n - 1]@, ".sth.json"@) {
            Some(k) => listed(names, n - 1).push((k, (n - 1) as usize)),
            None => listed(names, n - 1),
        }
    }
}

/// Whether entries are in ascending order of their numbers, and in the order
/// of their positions where numbers are equal.
pub open spec fn in_order(s: Seq<(u64, usize)>) -> bool {
    forall|i: int, j: int|
        0 <= i < j < s.len() ==> (#[trigger] s[i]).0 < (#[trigger] s[j]).0 || (s[i].0 == s[j].0
            && s[i].1 < s[j].1)
}

fn insert_sorted(v: &mut Vec<(u64, usize)>, key: u64, at: usize)
    requires
        in_order(old(v)@),
        forall|i: int| 0 <= i < old(v)@.len() ==> (#[trigger] old(v)@[i]).1 < at,
    ensures
        in_order(final(v)@),
        final(v)@.to_multiset() == old(v)@.to_multiset().insert((key, at)),
        forall|i: int| 0 <= i < final(v)@.len() ==> (#[trigger] final(v)@[i]).1 <= at,
{
    let mut p: usize = v.len();
    while p > 0 && v[p - 1].0 > key
        invariant
            p <= v@.len(),
            v@ == old(v)@,
            forall|i: int| p <= i < v@.len() ==> (#[trigger] v@[i]).0 > key,
        decreases p,
    {
        p -= 1;
    }
    let ghost before = v@;
    v.insert(p, (key, at));
    proof {
        let after = v@;
        assert(after =~= before.insert(p as int, (key, at)));
        before.to_multiset_ensures();
        assert(before.insert(p as int, (key, at)).to_multiset() =~= before.to_multiset().insert(
            (key, at),
        )) by {
            vstd::seq_lib::to_multiset_insert(before, p as int, (key, at));
        }
        assert forall|i: int, j: int| 0 <= i < j < after.len() implies (#[trigger] after[i]).0 < (
        #[trigger] after[j]).0 || (after[i].0 == after[j].0 && after[i].1 < after[j].1) by {
            let i1 = if i < p {
                i
            } else {
                i - 1
            };
            let j1 = if j < p {
                j
            } else {
                j - 1
            };
            if i != p && j != p {
                assert(after[i] == before[i1] && after[j] == before[j1]);
            } else if i == p {
                assert(after[j] == before[j1]);
            } else {
                assert(after[i] == before[i1]);
                if p > 0 {
                    assert(before[p - 1].0 <= key);
                    if i1 < p - 1 {
                        assert(before[i1].0 <= before[p - 1].0);
                    }
                }
            }
        }
        assert forall|i: int| 0 <= i < after.len() implies (#[trigger] after[i]).1 <= at by {
            let i1 = if i < p {
                i
            } else {
                i - 1
            };
            if i != p {
                assert(after[i] == before[i1]);
            }
        }
    }
}

/// The heads that wait, in ascending order of tree size: which of the file
/// names in the queue are waiting heads, with their sizes. Other names are
/// passed over.
pub fn pending_order(names: &Vec<String>) -> (r: Vec<(u64, usize)>)
    ensures
        in_order(r@),
        r@.to_multiset() == listed(names@, names@.len() as int).to_multiset(),
{
    let mut out: Vec<(u64, usize)> = Vec::new();
    let mut k: usize = 0;
    while k < names.len()
        invariant
            k <= names@.len(),
            in_order(out@),
            forall|i: int| 0 <= i < out@.len() ==> (#[trigger] out@[i]).1 < k,
            out@.to_multiset() == listed(names@, k as int).to_multiset(),
        decreases names@.len() - k,
    {
        let ghost before = listed(names@, k as int);
        if let Some(n) = store::number_of(names[k].as_str(), ".sth.json") {
            insert_sorted(&mut out, n, k);
            proof {
                before.to_multiset_ensures();
            }
        }
        k += 1;
    }
    out
}

/// The earliest of some times.
pub open spec fn earliest(times: Seq<i64>) -> Option<i64>
    decreases times.len(),
{
    if times.len() == 0 {
        None
    } else {
        match earliest(times.drop_last()) {
            None => Some(times.last()),
            Some(t) => Some(
                if times.last() < t {
                    times.last()
                } else {
                    t
                },
            ),
        }
    }
}

fn backlog_seconds(times: &Vec<i64>, now_unix: i64) -> (r: Option<i64>)
    requires
        earliest(times@) matches Some(t) ==> i64::MIN <= now_unix - t <= i64::MAX,
    ensures
        match r {
            Some(age) => earliest(times@) matches Some(t) && age == now_unix - t,
            None => times@.len() == 0,
        },
{
    let mut oldest: Option<i64> = None;
    let mut i: usize = 0;
    while i < times.len()
        invariant
            i <= times@.len(),
            oldest == earliest(times@.take(i as int)),
            i > 0 ==> oldest is Some,
        decreases times@.len() - i,
    {
        let t: i64 = times[i];
        assert(times@.take(i + 1).drop_last() =~= times@.take(i as int));
        oldest = match oldest {
            None => Some(t),
            Some(o) => if t < o {
                Some(t)
            } else {
                Some(o)
            },
        };
        i += 1;
    }
    assert(times@.take(times@.len() as int) =~= times@);
    match oldest {
        Some(t) => Some(now_unix - t),
        None => None,
    }
}

/// A waiting head.
#[derive(Debug, Clone)]
pub struct PendingEntry {
    /// Tree size.
    pub tree_size: u64,
    /// The head.
    pub sth: CoSignedTreeHead,
    /// Since when it waits, Unix seconds.
    pub enqueued_at_unix: i64,
}

/// What the queue's directory holds for a tree size.
#[derive(Debug, Clone)]
pub struct QueueRow {
    /// Tree size.
    pub tree_size: u64,
    /// The head, if its file could be read.
    pub sth: Option<CoSignedTreeHead>,
    /// What the file says since when it waits, if that could be read.
    pub enqueued: Option<String>,
}

/// Since when the head of a row waits, if the row holds a head and a time.
pub open spec fn waits_since(row: QueueRow) -> Option<int> {
    match (row.sth, row.enqueued) {
        (Some(_), Some(t)) => number::parsed_signed(text::trimmed(t@)),
        _ => None,
    }
}

/// Whether an entry is that of a row.
pub open spec fn is_entry_of(e: PendingEntry, row: QueueRow) -> bool {
    &&& waits_since(row) == Some(e.enqueued_at_unix as int)
    &&& e.tree_size == row.tree_size
    &&& row.sth matches Some(h) && e.sth.body_cbor@ == h.body_cbor@ && cosign::same_signatures(
        e.sth.signatures@,
        h.signatures@,
    )
}

/// The rows as tree size and position.
pub open spec fn row_keys(rows: Seq<QueueRow>, n: int) -> Seq<(u64, usize)> {
    Seq::new(n as nat, |k: int| (rows[k].tree_size, k as usize))
}

/// The positions of the well-formed rows among the first `n` of some keys, in
/// the order of the keys.
pub open spec fn kept(rows: Seq<QueueRow>, keys: Seq<(u64, usize)>, n: int) -> Seq<int>
    decreases n,
{
    if n <= 0 {
        Seq::empty()
    } else if waits_since(rows[keys[n - 1].1 as int]) is Some {
        kept(rows, keys, n - 1).push(keys[n - 1].1 as int)
    } else {
        kept(rows, keys, n - 1)
    }
}

/// Whether entries are those of the well-formed rows, in ascending order of
/// tree size. Rows that are not well-formed are skipped.
pub open spec fn lists(rows: Seq<QueueRow>, entries: Seq<PendingEntry>) -> bool {
    exists|keys: Seq<(u64, usize)>|
        #![trigger in_order(keys)]
        in_order(keys) && keys.to_multiset() == row_keys(rows, rows.len() as int).to_multiset() && {
            let picked = kept(rows, keys, keys.len() as int);
            &&& entries.len() == picked.len()
            &&& forall|i: int|
                0 <= i < entries.len() ==> is_entry_of(#[trigger] entries[i], rows[picked[i]])
        }
}

proof fn lemma_same_elements(a: Seq<(u64, usize)>, b: Seq<(u64, usize)>, i: int)
    requires
        a.to_multiset() == b.to_multiset(),
        0 <= i < a.len(),
    ensures
        exists|j: int| 0 <= j < b.len() && #[trigger] b[j] == a[i],
{
    a.to_multiset_ensures();
    b.to_multiset_ensures();
    assert(a.contains(a[i]));
    assert(b.to_multiset().count(a[i]) > 0);
    let j = choose|j: int| 0 <= j < b.len() && b[j] == a[i];
    assert(b[j] == a[i]);
}

fn entry_of(row: &QueueRow) -> (r: Option<PendingEntry>)
    ensures
        match r {
            Some(e) => is_entry_of(e, *row),
            None => waits_since(*row) is None,
        },
{
    match (&row.sth, &row.enqueued) {
        (Some(h), Some(t)) => match enqueued_at(t.as_str()) {
            Ok(since) => Some(
                PendingEntry {
                    tree_size: row.tree_size,
                    sth: h.duplicate(),
                    enqueued_at_unix: since,
                },
            ),
            Err(_) => None,
        },
        _ => None,
    }
}

impl AnchorQueue {
    /// The heads that wait, in ascending order of tree size, from what the
    /// queue's directory holds. A row without a head or without a time is
    /// skipped.
    pub fn pending(&self, rows: &Vec<QueueRow>) -> (r: Vec<PendingEntry>)
        ensures
            lists(rows@, r@),
            forall|i: int, j: int|
                0 <= i < j < r@.len() ==> (#[trigger] r@[i]).tree_size <= (
                #[trigger] r@[j]).tree_size,
    {
        let mut keys: Vec<(u64, usize)> = Vec::new();
        let mut k: usize = 0;
        assert(row_keys(rows@, 0) =~= Seq::<(u64, usize)>::empty());
        while k < rows.len()
            invariant
                k <= rows@.len(),
                in_order(keys@),
                forall|i: int| 0 <= i < keys@.len() ==> (#[trigger] keys@[i]).1 < k,
                keys@.to_multiset() == row_keys(rows@, k as int).to_multiset(),
            decreases rows@.len() - k,
        {
            let ghost before = row_keys(rows@, k as int);
            insert_sorted(&mut keys, rows[k].tree_size, k);
            proof {
                before.to_multiset_ensures();
                assert(row_keys(rows@, k + 1) =~= before.push((rows@[k as int].tree_size, k)));
            }
            k += 1;
        }
        let ghost all = row_keys(rows@, rows@.len() as int);
        let mut out: Vec<PendingEntry> = Vec::new();
        let mut n: usize = 0;
        while n < keys.len()
            invariant
                n <= keys@.len(),
                rows.len() == rows@.len(),
                all == row_keys(rows@, rows@.len() as int),
                in_order(keys@),
                keys@.to_multiset() == all.to_multiset(),
                out@.len() == kept(rows@, keys@, n as int).len(),
                forall|i: int|
                    0 <= i < out@.len() ==> is_entry_of(
                        #[trigger] out@[i],
                        rows@[kept(rows@, keys@, n as int)[i]],
                    ),
                forall|i: int|
                    0 <= i < out@.len() ==> n > 0 && (#[trigger] out@[i]).tree_size
                        <= keys@[n - 1].0,
                forall|i: int, j: int|
                    0 <= i < j < out@.len() ==> (#[trigger] out@[i]).tree_size <= (
                    #[trigger] out@[j]).tree_size,
            decreases keys@.len() - n,
        {
            let at: usize = keys[n].1;
            proof {
                lemma_same_elements(keys@, all, n as int);
                let j = choose|j: int| 0 <= j < all.len() && #[trigger] all[j] == keys@[n as int];
                assert(all[j].0 == rows@[j].tree_size && all[j].1 == j as usize);
                if n > 0 {
                    assert(keys@[n - 1].0 <= keys@[n as int].0);
                }
            }
            if let Some(e) = entry_of(&rows[at]) {
                out.push(e);
            }
            n += 1;
        }
        assert(in_order(keys@));
        out
    }
}

/// What a pass over the queue did.
#[derive(Debug, Clone, Copy, PartialEq, Eq)]
pub struct DrainOutcome {
    /// Heads that were taken.
    pub published: usize,
    /// Heads that met a failure that may pass, and wait.
    pub transient_failures: usize,
    /// Heads that were put aside.
    pub quarantined: usize,
    /// How long the oldest head has waited after the pass.
    pub backlog_seconds_after: Option<i64>,
}

impl DrainOutcome {
    /// Whether the pass took or put aside any head.
    pub fn made_progress(&self) -> (r: bool)
        ensures
            r == (self.published + self.quarantined > 0),
    {
        self.published > 0 || self.quarantined > 0
    }
}

/// What became of one attempt.
pub enum Verdict {
    Taken,
    NotNow,
    Never,
}

/// What an attempt's result means.
pub open spec fn verdict_of(r: Result<AnchorReceipt, AnchorError>) -> Verdict {
    match r {
        Ok(_) => Verdict::Taken,
        Err(AnchorError::Transient(_)) => Verdict::NotNow,
        Err(AnchorError::Permanent(_)) => Verdict::Never,
    }
}

/// What is to be done after an attempt.
#[derive(Debug, Clone, PartialEq, Eq)]
pub enum DrainAction {
    /// Record the receipt; the head waits no more.
    Record(AnchorReceipt),
    /// End the pass: this head and those after it wait.
    Stop,
    /// Put the head aside, with the reason.
    Quarantine(String),
}

/// What is to be done after an attempt.
pub open spec fn action_after(result: Result<AnchorReceipt, AnchorError>) -> DrainAction {
    match result {
        Ok(receipt) => DrainAction::Record(receipt),
        Err(AnchorError::Transient(_)) => DrainAction::Stop,
        Err(AnchorError::Permanent(reason)) => DrainAction::Quarantine(reason),
    }
}

/// A pass over the queue: heads are offered in order until one meets a failure
/// that may pass, or none is left.
#[derive(Debug)]
pub struct Drain {
    waiting: usize,
    offered: usize,
    published: usize,
    transient_failures: usize,
    quarantined: usize,
}

/// The contents of a [`Drain`].
#[verifier::ext_equal]
pub struct DrainModel {
    pub waiting: nat,
    pub offered: nat,
    pub published: nat,
    pub transient_failures: nat,
    pub quarantined: nat,
}

/// A pass before its first attempt.
pub open spec fn fresh_drain(waiting: nat) -> DrainModel {
    DrainModel { waiting, offered: 0, published: 0, transient_failures: 0, quarantined: 0 }
}

/// Whether a pass goes on.
pub open spec fn goes_on(d: DrainModel) -> bool {
    d.transient_failures == 0 && d.offered < d.waiting
}

/// A pass after one more attempt.
pub open spec fn after_attempt(d: DrainModel, v: Verdict) -> DrainModel {
    match v {
        Verdict::Taken => DrainModel { offered: d.offered + 1, published: d.published + 1, ..d },
        Verdict::NotNow => DrainModel {
            offered: d.offered + 1,
            transient_failures: d.transient_failures + 1,
            ..d
        },
        Verdict::Never => DrainModel {
            offered: d.offered + 1,
            quarantined: d.quarantined + 1,
            ..d
        },
    }
}

impl View for Drain {
    type V = DrainModel;

    closed spec fn view(&self) -> DrainModel {
        DrainModel {
            waiting: self.waiting as nat,
            offered: self.offered as nat,
            published: self.published as nat,
            transient_failures: self.transient_failures as nat,
            quarantined: self.quarantined as nat,
        }
    }
}

impl Drain {
    #[verifier::type_invariant]
    spec fn inv(&self) -> bool {
        &&& self.offered <= self.waiting
        &&& self.published + self.transient_failures + self.quarantined == self.offered
        &&& self.transient_failures <= 1
    }

    /// A pass over so many waiting heads.
    pub fn new(waiting: usize) -> (r: Self)
        ensures
            r@ == fresh_drain(waiting as nat),
    {
        Drain {
            waiting,
            offered: 0,
            published: 0,
            transient_failures: 0,
            quarantined: 0,
        }
    }

    /// Which head to offer next, by its place in the queue's order.
    pub fn next(&self) -> (r: Option<usize>)
        ensures
            match r {
                Some(i) => goes_on(self@) && i == self@.offered && i < self@.waiting,
                None => !goes_on(self@),
            },
    {
        proof {
            use_type_invariant(self);
        }
        if self.transient_failures == 0 && self.offered < self.waiting {
            Some(self.offered)
        } else {
            None
        }
    }

    /// What to do after the attempt on the head that was next.
    pub fn attempted(&mut self, result: Result<AnchorReceipt, AnchorError>) -> (r: DrainAction)
        requires
            goes_on(old(self)@),
        ensures
            final(self)@ == after_attempt(old(self)@, verdict_of(result)),
            r == action_after(result),
    {
        proof {
            use_type_invariant(&*self);
        }
        let (w, o, p, q): (usize, usize, usize, usize) = (
            self.waiting,
            self.offered,
            self.published,
            self.quarantined,
        );
        match result {
            Ok(receipt) => {
                *self = Drain {
                    waiting: w,
                    offered: o + 1,
                    published: p + 1,
                    transient_failures: 0,
                    quarantined: q,
                };
                DrainAction::Record(receipt)
            },
            Err(AnchorError::Transient(_)) => {
                *self = Drain {
                    waiting: w,
                    offered: o + 1,
                    published: p,
                    transient_failures: 1,
                    quarantined: q,
                };
                DrainAction::Stop
            },
            Err(AnchorError::Permanent(reason)) => {
                *self = Drain {
                    waiting: w,
                    offered: o + 1,
                    published: p,
                    transient_failures: 0,
                    quarantined: q + 1,
                };
                DrainAction::Quarantine(reason)
            },
        }
    }

    /// What the pass did, given since when the heads have waited that still do.
    pub fn outcome(&self, times: &Vec<i64>, now_unix: i64) -> (r: DrainOutcome)
        requires
            earliest(times@) matches Some(t) ==> i64::MIN <= now_unix - t <= i64::MAX,
        ensures
            r.published == self@.published,
            r.transient_failures == self@.transient_failures,
            r.quarantined == self@.quarantined,
            match r.backlog_seconds_after {
                Some(age) => earliest(times@) matches Some(t) && age == now_unix - t,
                None => times@.len() == 0,
            },
    {
        DrainOutcome {
            published: self.published,
            transient_failures: self.transient_failures,
            quarantined: self.quarantined,
            backlog_seconds_after: backlog_seconds(times, now_unix),
        }
    }
}

/// Publishes waiting heads in a transparency log.
pub struct AnchorPublisher<A: Anchor> {
    queue: AnchorQueue,
    anchor: A,
}

impl<A: Anchor> AnchorPublisher<A> {
    /// The transparency log.
    pub closed spec fn log(&self) -> A {
        self.anchor
    }

    /// The queue.
    pub closed spec fn waiting_room(&self) -> AnchorQueue {
        self.queue
    }

    /// A publisher.
    pub fn new(queue: AnchorQueue, anchor: A) -> (r: Self)
        ensures
            r.waiting_room() == queue,
            r.log() == anchor,
    {
        AnchorPublisher { queue, anchor }
    }

    /// The queue.
    pub fn queue(&self) -> (r: &AnchorQueue)
        ensures
            *r == self.waiting_room(),
    {
        &self.queue
    }

    /// One step of a pass: submit the head that is next, and say what is to be
    /// done with it. `entries` are the waiting heads in the queue's order. Once
    /// the pass is over, nothing is submitted and nothing is said.
    pub fn drain_once(&self, pass: &mut Drain, entries: &Vec<PendingEntry>) -> (r: Option<
        (u64, DrainAction),
    >)
        requires
            old(pass)@.waiting == entries@.len(),
        ensures
            match r {
                None => !goes_on(old(pass)@) && final(pass)@ == old(pass)@,
                Some((tree_size, action)) => {
                    &&& goes_on(old(pass)@)
                    &&& tree_size == entries@[old(pass)@.offered as int].tree_size
                    &&& exists|result: Result<AnchorReceipt, AnchorError>| #[trigger]
                        call_ensures(
                            A::submit,
                            (&self.log(), &entries@[old(pass)@.offered as int].sth),
                            result,
                        ) && final(pass)@ == after_attempt(old(pass)@, verdict_of(result))
                            && action_after(result) == action
                },
            },
    {
        let i: usize = match pass.next() {
            Some(i) => i,
            None => return None,
        };
        let result = self.anchor.submit(&entries[i].sth);
        let ghost answered = result;
        let action = pass.attempted(result);
        assert(call_ensures(
            A::submit,
            (&self.log(), &entries@[i as int].sth),
            answered,
        ));
        Some((entries[i].tree_size, action))
    }
}

/// A pass over the queue as the log would answer for each head.
pub open spec fn drained(d: DrainModel, answers: Seq<Verdict>) -> DrainModel
    decreases d.waiting - d.offered,
{
    if goes_on(d) {
        drained(after_attempt(d, answers[d.offered as int]), answers)
    } else {
        d
    }
}

/// How many of the answers from `from` to `to` are `v`.
pub open spec fn tally(answers: Seq<Verdict>, v: Verdict, from: int, to: int) -> nat
    decreases to - from,
{
    if from >= to {
        0
    } else {
        tally(answers, v, from, to - 1) + if answers[to - 1] == v {
            1nat
        } else {
            0nat
        }
    }
}

proof fn lemma_tally_split(answers: Seq<Verdict>, v: Verdict, from: int, to: int)
    requires
        from < to,
    ensures
        tally(answers, v, from, to) == tally(answers, v, from + 1, to) + if answers[from] == v {
            1nat
        } else {
            0nat
        },
    decreases to - from,
{
    if from + 1 < to {
        lemma_tally_split(answers, v, from, to - 1);
    } else {
        assert(tally(answers, v, from, to - 1) == 0);
    }
}

proof fn lemma_drained(d: DrainModel, answers: Seq<Verdict>)
    requires
        d.offered <= d.waiting == answers.len(),
        d.transient_failures == 0,
    ensures
        ({
            let e = drained(d, answers);
            let (a, b) = (d.offered as int, e.offered as int);
            &&& e.waiting == d.waiting
            &&& a <= b <= answers.len()
            &&& e.published == d.published + tally(answers, Verdict::Taken, a, b)
            &&& e.quarantined == d.quarantined + tally(answers, Verdict::Never, a, b)
            &&& e.transient_failures <= 1
            &&& forall|i: int| a <= i < b - 1 ==> (#[trigger] answers[i]) != Verdict::NotNow
            &&& e.transient_failures == 1 ==> b > a && answers[b - 1] == Verdict::NotNow
            &&& e.transient_failures == 0 ==> b == answers.len() && forall|i: int|
                a <= i < b ==> (#[trigger] answers[i]) != Verdict::NotNow
        }),
    decreases d.waiting - d.offered,
{
    if goes_on(d) {
        let v = answers[d.offered as int];
        let next = after_attempt(d, v);
        let (a, b) = (d.offered as int, drained(d, answers).offered as int);
        if v == Verdict::NotNow {
            assert(drained(next, answers) == next);
            assert(tally(answers, Verdict::Taken, a, a) == 0);
            assert(tally(answers, Verdict::Never, a, a) == 0);
        } else {
            lemma_drained(next, answers);
            lemma_tally_split(answers, Verdict::Taken, a, b);
            lemma_tally_split(answers, Verdict::Never, a, b);
        }
    }
}

/// A pass offers the waiting heads in order and stops at the first failure that
/// may pass: all before it were taken or put aside and are counted as such, at
/// most one attempt meets such a failure, and without one every head was
/// offered.
pub proof fn law_drain_stops_at_first_transient(answers: Seq<Verdict>)
    ensures
        ({
            let e = drained(fresh_drain(answers.len()), answers);
            let n = e.offered as int;
            &&& n <= answers.len()
            &&& e.published == tally(answers, Verdict::Taken, 0, n)
            &&& e.quarantined == tally(answers, Verdict::Never, 0, n)
            &&& e.transient_failures <= 1
            &&& forall|i: int| 0 <= i < n - 1 ==> (#[trigger] answers[i]) != Verdict::NotNow
            &&& e.transient_failures == 1 ==> n > 0 && answers[n - 1] == Verdict::NotNow
            &&& e.transient_failures == 0 ==> n == answers.len()
        }),
{
    lemma_drained(fresh_drain(answers.len()), answers);
}

/// The earliest of some times is one of them, and none is before it.
pub proof fn law_earliest(times: Seq<i64>)
    ensures
        earliest(times) is None <==> times.len() == 0,
        earliest(times) matches Some(t) ==> times.contains(t) && forall|i: int|
            0 <= i < times.len() ==> t <= #[trigger] times[i],
    decreases times.len(),
{
    if times.len() > 0 {
        let init = times.drop_last();
        law_earliest(init);
        assert(times[times.len() - 1] == times.last());
        assert(forall|i: int| 0 <= i < init.len() ==> #[trigger] init[i] == times[i]);
        if let Some(t) = earliest(init) {
            let i = choose|i: int| 0 <= i < init.len() && init[i] == t;
            assert(times[i] == t);
        }
        assert forall|i: int| 0 <= i < times.len() implies earliest(times)->0
            <= #[trigger] times[i] by {
            if i < init.len() {
                assert(init[i] == times[i]);
            }
        }
    }
}

/// Every file that is named after a head is listed, with its number and where
/// it stands, and no other.
pub proof fn law_every_head_listed(names: Seq<String>, n: int, k: int)
    requires
        0 <= n <= names.len() <= usize::MAX,
        0 <= k < n,
    ensures
        match store::record_number(names[k]@, ".sth.json"@) {
            Some(size) => listed(names, n).contains((size, k as usize)),
            None => forall|size: u64| !#[trigger] listed(names, n).contains((size, k as usize)),
        },
    decreases n,
{
    let all = listed(names, n);
    lemma_listed_positions(names, n - 1);
    if k < n - 1 {
        law_every_head_listed(names, n - 1, k);
        let before = listed(names, n - 1);
        if let Some(size) = store::record_number(names[k]@, ".sth.json"@) {
            let i = choose|i: int| 0 <= i < before.len() && before[i] == (size, k as usize);
            assert(all[i] == (size, k as usize));
        } else {
            assert forall|size: u64| !#[trigger] all.contains((size, k as usize)) by {
                if all.contains((size, k as usize)) {
                    let i = choose|i: int| 0 <= i < all.len() && all[i] == (size, k as usize);
                    assert(before[i] == (size, k as usize));
                    assert(before.contains((size, k as usize)));
                }
            }
        }
    } else {
        if let Some(size) = store::record_number(names[k]@, ".sth.json"@) {
            assert(all[all.len() - 1] == (size, k as usize));
        } else {
            assert forall|size: u64| !#[trigger] all.contains((size, k as usize)) by {
                if all.contains((size, k as usize)) {
                    let i = choose|i: int| 0 <= i < all.len() && all[i] == (size, k as usize);
                    assert(listed(names, n - 1)[i].1 < n - 1);
                }
            }
        }
    }
}

proof fn lemma_listed_positions(names: Seq<String>, n: int)
    requires
        n <= names.len() <= usize::MAX,
    ensures
        forall|i: int| 0 <= i < listed(names, n).len() ==> (#[trigger] listed(names, n)[i]).1 < n,
    decreases n,
{
    if n > 0 {
        lemma_listed_positions(names, n - 1);
        assert forall|i: int| 0 <= i < listed(names, n).len() implies (#[trigger] listed(
            names,
            n,
        )[i]).1 < n by {
            if i < listed(names, n - 1).len() {
                assert(listed(names, n)[i] == listed(names, n - 1)[i]);
            }
        }
    }
}

proof fn lemma_kept(rows: Seq<QueueRow>, keys: Seq<(u64, usize)>, n: int)
    requires
        0 <= n <= keys.len(),
        in_order(keys),
        forall|x: int|
            0 <= x < keys.len() ==> (#[trigger] keys[x]).0 == rows[keys[x].1 as int].tree_size,
    ensures
        forall|x: int|
            0 <= x < n && waits_since(rows[(#[trigger] keys[x]).1 as int]) is Some ==> kept(
                rows,
                keys,
                n,
            ).contains(keys[x].1 as int),
        forall|i: int|
            0 <= i < kept(rows, keys, n).len() ==> exists|x: int|
                0 <= x < n && (#[trigger] keys[x]).1 == #[trigger] kept(rows, keys, n)[i],
        forall|i: int, j: int|
            0 <= i < j < kept(rows, keys, n).len() ==> rows[#[trigger] kept(
                rows,
                keys,
                n,
            )[i]].tree_size <= rows[#[trigger] kept(rows, keys, n)[j]].tree_size,
    decreases n,
{
    if n > 0 {
        lemma_kept(rows, keys, n - 1);
        let before = kept(rows, keys, n - 1);
        let all = kept(rows, keys, n);
        assert forall|x: int|
            0 <= x < n && waits_since(rows[(#[trigger] keys[x]).1 as int]) is Some implies all.contains(
        keys[x].1 as int) by {
            if x < n - 1 {
                let i = choose|i: int| 0 <= i < before.len() && before[i] == keys[x].1 as int;
                assert(all[i] == before[i]);
            } else {
                assert(all[before.len() as int] == keys[x].1 as int);
            }
        }
        assert forall|i: int| 0 <= i < all.len() implies exists|x: int|
            0 <= x < n && (#[trigger] keys[x]).1 == #[trigger] all[i] by {
            if i < before.len() {
                assert(all[i] == before[i]);
                let x = choose|x: int| 0 <= x < n - 1 && (#[trigger] keys[x]).1 == before[i];
                assert(keys[x].1 == all[i]);
            } else {
                assert(keys[n - 1].1 == all[i]);
            }
        }
        assert forall|i: int, j: int| 0 <= i < j < all.len() implies rows[#[trigger] all[i]].tree_size
            <= rows[#[trigger] all[j]].tree_size by {
            assert(all[i] == before[i]);
            if j < before.len() {
                assert(all[j] == before[j]);
            } else {
                let x = choose|x: int| 0 <= x < n - 1 && (#[trigger] keys[x]).1 == before[i];
                assert(keys[x].0 <= keys[n - 1].0);
            }
        }
    }
}

/// Every head that waits is listed, and the smallest tree comes first.
pub proof fn law_every_waiting_head_listed(
    rows: Seq<QueueRow>,
    entries: Seq<PendingEntry>,
    k: int,
)
    requires
        lists(rows, entries),
        rows.len() <= usize::MAX,
        0 <= k < rows.len(),
        waits_since(rows[k]) is Some,
    ensures
        exists|i: int| 0 <= i < entries.len() && is_entry_of(#[trigger] entries[i], rows[k]),
        forall|i: int, j: int|
            0 <= i < j < entries.len() ==> (#[trigger] entries[i]).tree_size <= (
            #[trigger] entries[j]).tree_size,
{
    let all = row_keys(rows, rows.len() as int);
    let keys = choose|keys: Seq<(u64, usize)>|
        #![trigger in_order(keys)]
        in_order(keys) && keys.to_multiset() == all.to_multiset() && {
            let picked = kept(rows, keys, keys.len() as int);
            &&& entries.len() == picked.len()
            &&& forall|i: int|
                0 <= i < entries.len() ==> is_entry_of(#[trigger] entries[i], rows[picked[i]])
        };
    assert forall|x: int| 0 <= x < keys.len() implies (#[trigger] keys[x]).0
        == rows[keys[x].1 as int].tree_size by {
        lemma_same_elements(keys, all, x);
    }
    lemma_same_elements(all, keys, k);
    let x = choose|x: int| 0 <= x < keys.len() && #[trigger] keys[x] == all[k];
    assert(keys[x].1 as int == k);
    lemma_kept(rows, keys, keys.len() as int);
    let picked = kept(rows, keys, keys.len() as int);
    let i = choose|i: int| 0 <= i < picked.len() && picked[i] == k;
    assert(is_entry_of(entries[i], rows[k]));
    assert forall|a: int, b: int| 0 <= a < b < entries.len() implies (
    #[trigger] entries[a]).tree_size <= (#[trigger] entries[b]).tree_size by {
        assert(is_entry_of(entries[a], rows[picked[a]]));
        assert(is_entry_of(entries[b], rows[picked[b]]));
        assert(rows[picked[a]].tree_size <= rows[picked[b]].tree_size);
    }
}

/// What is done with a head fits what became of it: a receipt is recorded as it
/// was given, a failure that may pass ends the pass, and any other puts the head
/// aside for its own reason.
pub proof fn law_action_fits_answer(result: Result<AnchorReceipt, AnchorError>)
    ensures
        result matches Ok(receipt) ==> action_after(result) == DrainAction::Record(receipt),
        verdict_of(result) is Taken <==> result is Ok,
        verdict_of(result) is Taken <==> action_after(result) is Record,
        verdict_of(result) is NotNow <==> action_after(result) is Stop,
        verdict_of(result) is Never <==> action_after(result) is Quarantine,
        result matches Err(AnchorError::Transient(_)) ==> action_after(result) is Stop,
        result matches Err(AnchorError::Permanent(reason)) ==> action_after(result)
            == DrainAction::Quarantine(reason),
{
}

/// The time that is written for a head is read back, with white space around it
/// too. `written` is what [`enqueued_text`] gives, and `r` what [`enqueued_at`]
/// gives for it.
pub proof fn law_waiting_time_read_back(
    now_unix: i64,
    written: String,
    contents: &str,
    after: Seq<char>,
    r: Result<i64, AnchorQueueError>,
)
    requires
        call_ensures(enqueued_text, (now_unix,), written),
        contents@ == written@ + after,
        text::blank(after),
        call_ensures(enqueued_at, (contents,), r),
    ensures
        r == Ok::<_, AnchorQueueError>(now_unix),
{
    let s = text::signed_decimal(now_unix as int);
    let none = Seq::<char>::empty();
    let m = if now_unix < 0 {
        (-(now_unix as int)) as nat
    } else {
        now_unix as nat
    };
    number::lemma_signed_parses(now_unix);
    number::lemma_decimal_value(m);
    let d = text::decimal(m);
    assert(number::is_digit(d[0]) && number::is_digit(d.last()));
    if now_unix < 0 {
        assert(s[0] == '-');
    }
    assert(s.last() == d.last());
    assert(none + s + after =~= contents@);
    text::law_trimmed(none, s, after);
}

/// A head is queued once: not while one of its size waits, and not again once it
/// was taken. `r` is what [`enqueue`] gives.
pub proof fn law_queued_once(pending: bool, anchored: bool, r: bool)
    requires
        call_ensures(enqueue, (pending, anchored), r),
    ensures
        pending || anchored ==> !r,
        !pending && !anchored ==> r,
{
}

} // verus!
