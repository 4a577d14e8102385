//! Small keyed collections. Their keys are byte digests and texts, which are
//! compared by contents; a key occurs at most once.

use vstd::prelude::*;
use crate::primitives::bytes::arrays_equal;

verus! {

/// A key: values are told apart by their model.
pub trait Key: Sized {
    /// What the key stands for.
    type Model;

    /// The model of this key.
    spec fn model(&self) -> Self::Model;

    /// Whether two keys are the same.
    fn same(&self, other: &Self) -> (r: bool)
        ensures
            r == (self.model() == other.model()),
    ;
}

impl Key for [u8; 48] {
    type Model = [u8; 48];

    open spec fn model(&self) -> [u8; 48] {
        *self
    }

    fn same(&self, other: &Self) -> (r: bool) {
        arrays_equal(self, other)
    }
}

impl Key for String {
    type Model = Seq<char>;

    open spec fn model(&self) -> Seq<char> {
        self@
    }

    fn same(&self, other: &Self) -> (r: bool) {
        *self == *other
    }
}

/// Whether no key occurs twice.
pub open spec fn distinct_keys<K: Key, V>(s: Seq<(K, V)>) -> bool {
    forall|i: int, j: int|
        0 <= i < j < s.len() ==> (#[trigger] s[i]).0.model() != (#[trigger] s[j]).0.model()
}

/// The map that a sequence of entries stands for.
pub open spec fn entries_map<K: Key, V>(s: Seq<(K, V)>) -> Map<K::Model, V>
    decreases s.len(),
{
    if s.len() == 0 {
        Map::empty()
    } else {
        entries_map(s.drop_last()).insert(s.last().0.model(), s.last().1)
    }
}

/// The map of entries with distinct keys holds each of them and no other.
pub proof fn lemma_entries_map<K: Key, V>(s: Seq<(K, V)>)
    requires
        distinct_keys(s),
    ensures
        forall|i: int|
            0 <= i < s.len() ==> entries_map(s).dom().contains((#[trigger] s[i]).0.model())
                && entries_map(s)[s[i].0.model()] == s[i].1,
        forall|k: K::Model| #[trigger]
            entries_map(s).dom().contains(k) ==> exists|i: int|
                0 <= i < s.len() && (#[trigger] s[i]).0.model() == k,
        entries_map(s).dom().finite(),
        entries_map(s).dom().len() == s.len(),
    decreases s.len(),
{
    if s.len() > 0 {
        let init = s.drop_last();
        assert forall|i: int, j: int| 0 <= i < j < init.len() implies (
        #[trigger] init[i]).0.model() != (#[trigger] init[j]).0.model() by {
            assert(init[i] == s[i]);
            assert(init[j] == s[j]);
        }
        lemma_entries_map(init);
        let m = entries_map(s);
        let k = s.last().0.model();
        assert forall|i: int| 0 <= i < s.len() implies m.dom().contains(
            (#[trigger] s[i]).0.model(),
        ) && m[s[i].0.model()] == s[i].1 by {
            if i < s.len() - 1 {
                assert(init[i] == s[i]);
                assert(s[i].0.model() != s[s.len() - 1].0.model());
            }
        }
        assert forall|k: K::Model| #[trigger] m.dom().contains(k) implies exists|i: int|
            0 <= i < s.len() && (#[trigger] s[i]).0.model() == k by {
            if k == s.last().0.model() {
                assert(s[s.len() - 1].0.model() == k);
            } else {
                assert(entries_map(init).dom().contains(k));
                let i = choose|i: int| 0 <= i < init.len() && (#[trigger] init[i]).0.model() == k;
                assert(s[i].0.model() == k);
            }
        }
        assert(!entries_map(init).dom().contains(k)) by {
            if entries_map(init).dom().contains(k) {
                let i = choose|i: int| 0 <= i < init.len() && (#[trigger] init[i]).0.model() == k;
                assert(s[i].0.model() != s[s.len() - 1].0.model());
            }
        }
        assert(m.dom() =~= entries_map(init).dom().insert(k));
    } else {
        assert(entries_map(s).dom() =~= Set::<K::Model>::empty());
    }
}

/// A map with few entries, in the order of their first insertion.
#[derive(Debug)]
pub struct KeyMap<K: Key, V> {
    entries: Vec<(K, V)>,
}

impl<K: Key, V> View for KeyMap<K, V> {
    type V = Map<K::Model, V>;

    closed spec fn view(&self) -> Map<K::Model, V> {
        entries_map(self.entries@)
    }
}

impl<K: Key, V> KeyMap<K, V> {
    #[verifier::type_invariant]
    spec fn inv(&self) -> bool {
        distinct_keys(self.entries@)
    }

    /// An empty map.
    pub fn new() -> (r: Self)
        ensures
            r@ == Map::<K::Model, V>::empty(),
    {
        KeyMap { entries: Vec::new() }
    }

    /// The number of entries.
    pub fn len(&self) -> (n: usize)
        ensures
            self@.dom().finite(),
            n == self@.dom().len(),
    {
        proof {
            use_type_invariant(self);
            lemma_entries_map(self.entries@);
        }
        self.entries.len()
    }

    fn position(&self, key: &K) -> (r: Option<usize>)
        ensures
            match r {
                Some(i) => i < self.entries@.len() && self.entries@[i as int].0.model()
                    == key.model() && self@.dom().contains(key.model()) && self@[key.model()]
                    == self.entries@[i as int].1,
                None => !self@.dom().contains(key.model()) && forall|j: int|
                    0 <= j < self.entries@.len() ==> (#[trigger] self.entries@[j]).0.model()
                        != key.model(),
            },
    {
        proof {
            use_type_invariant(self);
            lemma_entries_map(self.entries@);
        }
        let mut i: usize = 0;
        while i < self.entries.len()
            invariant
                i <= self.entries@.len(),
                forall|j: int|
                    0 <= j < i ==> (#[trigger] self.entries@[j]).0.model() != key.model(),
                forall|i: int|
                    0 <= i < self.entries@.len() ==> self@.dom().contains(
                        (#[trigger] self.entries@[i]).0.model(),
                    ) && self@[self.entries@[i].0.model()] == self.entries@[i].1,
            decreases self.entries@.len() - i,
        {
            if self.entries[i].0.same(key) {
                return Some(i);
            }
            i += 1;
        }
        None
    }

    /// The value at `key`.
    pub fn get(&self, key: &K) -> (r: Option<&V>)
        ensures
            r == (if self@.dom().contains(key.model()) {
                Some(&self@[key.model()])
            } else {
                None
            }),
    {
        match self.position(key) {
            Some(i) => Some(&self.entries[i].1),
            None => None,
        }
    }

    /// Whether there is a value at `key`.
    pub fn contains(&self, key: &K) -> (r: bool)
        ensures
            r == self@.dom().contains(key.model()),
    {
        self.position(key).is_some()
    }

    /// Put `value` at `key`, in place of the value that stands there.
    pub fn insert(&mut self, key: K, value: V)
        ensures
            final(self)@ == old(self)@.insert(key.model(), value),
    {
        let at = self.position(&key);
        proof {
            use_type_invariant(&*self);
        }
        let ghost before = self.entries@;
        let mut entries: Vec<(K, V)> = Vec::new();
        std::mem::swap(&mut entries, &mut self.entries);
        match at {
            Some(i) => {
                entries[i] = (key, value);
                proof {
                    lemma_entries_map(before);
                    let after = entries@;
                    assert(after =~= before.update(i as int, (key, value)));
                    assert forall|a: int, b: int| 0 <= a < b < after.len() implies (
                    #[trigger] after[a]).0.model() != (#[trigger] after[b]).0.model() by {
                        assert(before[a].0.model() != before[b].0.model());
                    }
                    lemma_entries_map(after);
                    lemma_update(before, i as int, key, value);
                }
            },
            None => {
                entries.push((key, value));
                proof {
                    let after = entries@;
                    assert(after.drop_last() =~= before);
                    assert forall|a: int, b: int| 0 <= a < b < after.len() implies (
                    #[trigger] after[a]).0.model() != (#[trigger] after[b]).0.model() by {
                        assert(after[a] == before[a]);
                        if b < before.len() {
                            assert(after[b] == before[b]);
                        }
                    }
                }
            },
        }
        self.entries = entries;
    }

    /// Remove the entry at `key`; whether there was one.
    pub fn remove(&mut self, key: &K) -> (existed: bool)
        ensures
            existed == old(self)@.dom().contains(key.model()),
            final(self)@ == old(self)@.remove(key.model()),
    {
        let at = self.position(key);
        proof {
            use_type_invariant(&*self);
        }
        let ghost before = self.entries@;
        match at {
            Some(i) => {
                let mut entries: Vec<(K, V)> = Vec::new();
                std::mem::swap(&mut entries, &mut self.entries);
                let _gone = entries.remove(i);
                proof {
                    let after = entries@;
                    assert(after =~= before.remove(i as int));
                    assert forall|a: int, b: int| 0 <= a < b < after.len() implies (
                    #[trigger] after[a]).0.model() != (#[trigger] after[b]).0.model() by {
                        let a1 = if a < i {
                            a
                        } else {
                            a + 1
                        };
                        let b1 = if b < i {
                            b
                        } else {
                            b + 1
                        };
                        assert(after[a] == before[a1]);
                        assert(after[b] == before[b1]);
                    }
                    lemma_remove(before, i as int);
                }
                self.entries = entries;
                true
            },
            None => {
                assert(self@.remove(key.model()) =~= self@);
                false
            },
        }
    }

    /// The entries, in the order of their first insertion.
    pub fn entries(&self) -> (r: &Vec<(K, V)>)
        ensures
            distinct_keys(r@),
            entries_map(r@) == self@,
    {
        proof {
            use_type_invariant(self);
        }
        &self.entries
    }
}

proof fn lemma_update<K: Key, V>(s: Seq<(K, V)>, i: int, key: K, value: V)
    requires
        distinct_keys(s),
        0 <= i < s.len(),
        s[i].0.model() == key.model(),
    ensures
        distinct_keys(s.update(i, (key, value))),
        entries_map(s.update(i, (key, value))) == entries_map(s).insert(key.model(), value),
{
    let t = s.update(i, (key, value));
    assert forall|a: int, b: int| 0 <= a < b < t.len() implies (#[trigger] t[a]).0.model() != (
    #[trigger] t[b]).0.model() by {
        assert(s[a].0.model() != s[b].0.model());
    }
    lemma_entries_map(s);
    lemma_entries_map(t);
    let m = entries_map(s).insert(key.model(), value);
    assert forall|k: K::Model| entries_map(t).dom().contains(k) <==> m.dom().contains(k) by {
        if entries_map(t).dom().contains(k) {
            let j = choose|j: int| 0 <= j < t.len() && (#[trigger] t[j]).0.model() == k;
            assert(s[j].0.model() == k);
        }
        if entries_map(s).dom().contains(k) {
            let j = choose|j: int| 0 <= j < s.len() && (#[trigger] s[j]).0.model() == k;
            assert(t[j].0.model() == k);
        }
        assert(t[i].0.model() == key.model());
    }
    assert forall|k: K::Model| entries_map(t).dom().contains(k) implies entries_map(t)[k]
        == m[k] by {
        let j = choose|j: int| 0 <= j < t.len() && (#[trigger] t[j]).0.model() == k;
        assert(entries_map(t)[t[j].0.model()] == t[j].1);
        assert(entries_map(s)[s[j].0.model()] == s[j].1);
        if j != i {
            assert(s[j].0.model() != s[i].0.model());
        }
    }
    assert(entries_map(t) =~= m);
}

proof fn lemma_remove<K: Key, V>(s: Seq<(K, V)>, i: int)
    requires
        distinct_keys(s),
        0 <= i < s.len(),
    ensures
        entries_map(s.remove(i)) == entries_map(s).remove(s[i].0.model()),
{
    let t = s.remove(i);
    let gone = s[i].0.model();
    assert forall|a: int, b: int| 0 <= a < b < t.len() implies (#[trigger] t[a]).0.model() != (
    #[trigger] t[b]).0.model() by {
        let a1 = if a < i {
            a
        } else {
            a + 1
        };
        let b1 = if b < i {
            b
        } else {
            b + 1
        };
        assert(t[a] == s[a1]);
        assert(t[b] == s[b1]);
    }
    lemma_entries_map(s);
    lemma_entries_map(t);
    let m = entries_map(s).remove(gone);
    assert forall|k: K::Model| entries_map(t).dom().contains(k) <==> m.dom().contains(k) by {
        if entries_map(t).dom().contains(k) {
            let j = choose|j: int| 0 <= j < t.len() && (#[trigger] t[j]).0.model() == k;
            let j1 = if j < i {
                j
            } else {
                j + 1
            };
            assert(t[j] == s[j1]);
            assert(entries_map(s).dom().contains(s[j1].0.model()));
            if j1 < i {
                assert(s[j1].0.model() != s[i].0.model());
            } else {
                assert(s[i].0.model() != s[j1].0.model());
            }
        }
        if m.dom().contains(k) {
            let j = choose|j: int| 0 <= j < s.len() && (#[trigger] s[j]).0.model() == k;
            let j1 = if j < i {
                j
            } else {
                j - 1
            };
            assert(t[j1] == s[j]);
            assert(entries_map(t).dom().contains(t[j1].0.model()));
        }
    }
    assert forall|k: K::Model| entries_map(t).dom().contains(k) implies entries_map(t)[k]
        == m[k] by {
        let j = choose|j: int| 0 <= j < t.len() && (#[trigger] t[j]).0.model() == k;
        let j1 = if j < i {
            j
        } else {
            j + 1
        };
        assert(t[j] == s[j1]);
        assert(entries_map(t)[t[j].0.model()] == t[j].1);
        assert(entries_map(s)[s[j1].0.model()] == s[j1].1);
    }
    assert(entries_map(t) =~= m);
}

/// A set of 48-byte digests.
#[derive(Debug)]
pub struct DigestSet {
    members: KeyMap<[u8; 48], ()>,
}

impl View for DigestSet {
    type V = Set<[u8; 48]>;

    closed spec fn view(&self) -> Set<[u8; 48]> {
        self.members@.dom()
    }
}

impl DigestSet {
    /// An empty set.
    pub fn new() -> (r: Self)
        ensures
            r@ == Set::<[u8; 48]>::empty(),
    {
        let r = DigestSet { members: KeyMap::new() };
        assert(r@ =~= Set::<[u8; 48]>::empty());
        r
    }

    /// Add a digest.
    pub fn insert(&mut self, digest: [u8; 48])
        ensures
            final(self)@ == old(self)@.insert(digest),
    {
        self.members.insert(digest, ());
        assert(self@ =~= old(self)@.insert(digest));
    }

    /// Whether a digest is in the set.
    pub fn contains(&self, digest: &[u8; 48]) -> (r: bool)
        ensures
            r == self@.contains(*digest),
    {
        self.members.contains(digest)
    }

    /// The number of digests.
    pub fn len(&self) -> (n: usize)
        ensures
            self@.finite(),
            n == self@.len(),
    {
        self.members.len()
    }
}

} // verus!
