//! The verification keys that the service publishes.

use vstd::prelude::*;
use crate::cmis::revocation::SignedCrl;
use crate::crypto::composite;
use crate::crypto::composite::CompositePublicKey;
use crate::primitives::text;

verus! {

/// A published verification key.
#[derive(Debug, Clone, PartialEq, Eq)]
pub struct Jwk {
    /// Identifier.
    pub kid: String,
    /// The composite public key, encoded.
    pub public: Vec<u8>,
    /// When it was made, Unix seconds; the issuer's own key does not say.
    pub created: Option<i64>,
}

/// The contents of a [`Jwk`].
#[verifier::ext_equal]
pub struct JwkModel {
    pub kid: Seq<char>,
    pub public: Seq<u8>,
    pub created: Option<i64>,
}

impl View for Jwk {
    type V = JwkModel;

    open spec fn view(&self) -> JwkModel {
        JwkModel { kid: self.kid@, public: self.public@, created: self.created }
    }
}

/// The contents of several keys.
pub open spec fn models(keys: Seq<Jwk>) -> Seq<JwkModel> {
    keys.map_values(|k: Jwk| k@)
}

impl Jwk {
    /// A key without a time.
    pub fn from_public_key(kid: String, pk: &CompositePublicKey) -> (r: Self)
        ensures
            r@ == (JwkModel { kid: kid@, public: composite::key_bytes(pk@), created: None }),
    {
        Jwk { kid, public: pk.to_concat_bytes(), created: None }
    }

    /// A key with the time at which it was made.
    pub fn from_public_key_at(kid: String, pk: &CompositePublicKey, created: i64) -> (r: Self)
        ensures
            r@ == (JwkModel {
                kid: kid@,
                public: composite::key_bytes(pk@),
                created: Some(created),
            }),
    {
        Jwk { kid, public: pk.to_concat_bytes(), created: Some(created) }
    }

    /// A copy.
    pub fn duplicate(&self) -> (r: Self)
        ensures
            r@ == self@,
    {
        Jwk {
            kid: self.kid.clone(),
            public: vstd::slice::slice_to_vec(self.public.as_slice()),
            created: self.created,
        }
    }
}

/// The time of a key; a key that does not say is older than any.
pub open spec fn age_key(k: JwkModel) -> int {
    match k.created {
        Some(t) => t as int,
        None => i64::MIN as int,
    }
}

/// Keys with one more, behind every key that is as new or newer.
pub open spec fn insert_newest(keys: Seq<JwkModel>, k: JwkModel) -> Seq<JwkModel>
    decreases keys.len(),
{
    if keys.len() == 0 || age_key(keys.last()) >= age_key(k) {
        keys.push(k)
    } else {
        insert_newest(keys.drop_last(), k).push(keys.last())
    }
}

/// Keys from newest to oldest; those of one age in their order.
pub open spec fn newest_first(keys: Seq<JwkModel>) -> Seq<JwkModel>
    decreases keys.len(),
{
    if keys.len() == 0 {
        keys
    } else {
        insert_newest(newest_first(keys.drop_last()), keys.last())
    }
}

/// Whether keys go from newest to oldest.
pub open spec fn is_newest_first(keys: Seq<JwkModel>) -> bool {
    forall|i: int, j: int|
        0 <= i < j < keys.len() ==> age_key(#[trigger] keys[i]) >= age_key(#[trigger] keys[j])
}

proof fn lemma_insert_newest(keys: Seq<JwkModel>, k: JwkModel)
    requires
        is_newest_first(keys),
    ensures
        is_newest_first(insert_newest(keys, k)),
        insert_newest(keys, k).len() == keys.len() + 1,
        insert_newest(keys, k).to_multiset() == keys.to_multiset().insert(k),
        forall|i: int|
            0 <= i < keys.len() + 1 ==> (#[trigger] insert_newest(keys, k)[i]) == k || exists|
                j: int,
            |
                0 <= j < keys.len() && insert_newest(keys, k)[i] == #[trigger] keys[j],
    decreases keys.len(),
{
    keys.to_multiset_ensures();
    if keys.len() == 0 || age_key(keys.last()) >= age_key(k) {
        let r = keys.push(k);
        assert forall|i: int, j: int| 0 <= i < j < r.len() implies age_key(#[trigger] r[i])
            >= age_key(#[trigger] r[j]) by {
            if j == keys.len() {
                if i < keys.len() - 1 {
                    assert(age_key(keys[i]) >= age_key(keys[keys.len() - 1]));
                }
            } else {
                assert(age_key(keys[i]) >= age_key(keys[j]));
            }
        }
        assert forall|i: int| 0 <= i < r.len() implies (#[trigger] r[i]) == k || exists|j: int|
            0 <= j < keys.len() && r[i] == #[trigger] keys[j] by {
            if i < keys.len() {
                assert(r[i] == keys[i]);
            }
        }
    } else {
        let init = keys.drop_last();
        lemma_insert_newest(init, k);
        let inner = insert_newest(init, k);
        let r = inner.push(keys.last());
        inner.to_multiset_ensures();
        init.to_multiset_ensures();
        assert(init.push(keys.last()) =~= keys);
        assert(r.to_multiset() =~= keys.to_multiset().insert(k));
        assert forall|i: int| 0 <= i < r.len() implies (#[trigger] r[i]) == k || exists|j: int|
            0 <= j < keys.len() && r[i] == #[trigger] keys[j] by {
            if i < inner.len() {
                assert(r[i] == inner[i]);
                if inner[i] != k {
                    let j = choose|j: int| 0 <= j < init.len() && inner[i] == #[trigger] init[j];
                    assert(keys[j] == init[j]);
                }
            } else {
                assert(r[i] == keys[keys.len() - 1]);
            }
        }
        assert forall|i: int, j: int| 0 <= i < j < r.len() implies age_key(#[trigger] r[i])
            >= age_key(#[trigger] r[j]) by {
            if j == inner.len() {
                if inner[i] != k {
                    let m = choose|m: int| 0 <= m < init.len() && inner[i] == #[trigger] init[m];
                    assert(keys[m] == init[m]);
                    assert(age_key(keys[m]) >= age_key(keys[keys.len() - 1]));
                }
            } else {
                assert(age_key(inner[i]) >= age_key(inner[j]));
            }
        }
    }
}

/// Ordering keys by age loses none and adds none, and puts newer keys first.
pub proof fn law_newest_first(keys: Seq<JwkModel>)
    ensures
        is_newest_first(newest_first(keys)),
        newest_first(keys).to_multiset() == keys.to_multiset(),
        newest_first(keys).len() == keys.len(),
    decreases keys.len(),
{
    if keys.len() > 0 {
        let init = keys.drop_last();
        law_newest_first(init);
        lemma_insert_newest(newest_first(init), keys.last());
        init.to_multiset_ensures();
        assert(init.push(keys.last()) =~= keys);
    }
}

/// The keys that the service publishes: its own root, other roots of a
/// rotation, and the keys that hosts sign child tokens with.
#[derive(Debug)]
pub struct KeyRegistry {
    issuer: Jwk,
    extra_roots: Vec<Jwk>,
    child_keys: Vec<Jwk>,
}

/// The contents of a [`KeyRegistry`].
#[verifier::ext_equal]
pub struct RegistryModel {
    pub issuer: JwkModel,
    pub extra_roots: Seq<JwkModel>,
    pub child_keys: Seq<JwkModel>,
}

impl View for KeyRegistry {
    type V = RegistryModel;

    closed spec fn view(&self) -> RegistryModel {
        RegistryModel {
            issuer: self.issuer@,
            extra_roots: models(self.extra_roots@),
            child_keys: models(self.child_keys@),
        }
    }
}

/// The published keys: roots from newest to oldest, then the hosts' keys.
pub open spec fn published(m: RegistryModel) -> Seq<JwkModel> {
    newest_first(seq![m.issuer] + m.extra_roots) + m.child_keys
}

/// The position of the first key with an identifier, from `i` on, or the
/// number of keys.
pub open spec fn kid_from(keys: Seq<JwkModel>, kid: Seq<char>, i: int) -> int
    decreases keys.len() - i,
{
    if i < 0 || i >= keys.len() {
        keys.len() as int
    } else if keys[i].kid == kid {
        i
    } else {
        kid_from(keys, kid, i + 1)
    }
}

/// Whether some key has an identifier.
pub open spec fn has_kid(keys: Seq<JwkModel>, kid: Seq<char>) -> bool {
    kid_from(keys, kid, 0) < keys.len()
}

proof fn lemma_kid_from(keys: Seq<JwkModel>, kid: Seq<char>, i: int)
    requires
        0 <= i <= keys.len(),
    ensures
        i <= kid_from(keys, kid, i) <= keys.len(),
        kid_from(keys, kid, i) < keys.len() ==> keys[kid_from(keys, kid, i)].kid == kid,
        forall|j: int| i <= j < kid_from(keys, kid, i) ==> (#[trigger] keys[j]).kid != kid,
    decreases keys.len() - i,
{
    if i < keys.len() && keys[i].kid != kid {
        lemma_kid_from(keys, kid, i + 1);
    }
}

fn find_kid(keys: &Vec<Jwk>, kid: &str) -> (r: usize)
    ensures
        r == kid_from(models(keys@), kid@, 0),
        r <= keys@.len(),
{
    let mut i: usize = 0;
    while i < keys.len()
        invariant
            i <= keys@.len(),
            kid_from(models(keys@), kid@, 0) == kid_from(models(keys@), kid@, i as int),
        decreases keys@.len() - i,
    {
        assert(models(keys@)[i as int] == keys@[i as int]@);
        if text::same_text(keys[i].kid.as_str(), kid) {
            return i;
        }
        i += 1;
    }
    i
}

/// What is published for verifiers: the keys, and the revocation list.
#[derive(Debug)]
pub struct JwkSet {
    /// The keys, in the order in which they are preferred.
    pub keys: Vec<Jwk>,
    /// The latest revocation list, if one has been published.
    pub crl: Option<SignedCrl>,
}

impl JwkSet {
    /// The first key with an identifier.
    pub fn find(&self, kid: &str) -> (r: Option<&Jwk>)
        ensures
            match r {
                Some(k) => has_kid(models(self.keys@), kid@) && k@ == models(
                    self.keys@,
                )[kid_from(models(self.keys@), kid@, 0)] && k.kid@ == kid@,
                None => !has_kid(models(self.keys@), kid@),
            },
    {
        let i: usize = find_kid(&self.keys, kid);
        proof {
            lemma_kid_from(models(self.keys@), kid@, 0);
        }
        if i < self.keys.len() {
            Some(&self.keys[i])
        } else {
            None
        }
    }

    /// The key to prefer: the first.
    pub fn preferred(&self) -> (r: Option<&Jwk>)
        ensures
            match r {
                Some(k) => self.keys@.len() > 0 && *k == self.keys@[0],
                None => self.keys@.len() == 0,
            },
    {
        if self.keys.len() > 0 {
            Some(&self.keys[0])
        } else {
            None
        }
    }
}

fn is_newer(a: &Jwk, b: &Jwk) -> (r: bool)
    ensures
        r == (age_key(a@) > age_key(b@)),
{
    let x: i64 = match a.created {
        Some(t) => t,
        None => i64::MIN,
    };
    let y: i64 = match b.created {
        Some(t) => t,
        None => i64::MIN,
    };
    x > y
}

fn insert_key(keys: &mut Vec<Jwk>, k: Jwk)
    ensures
        models(final(keys)@) == insert_newest(models(old(keys)@), k@),
    decreases old(keys)@.len(),
{
    let n: usize = keys.len();
    if n == 0 || !is_newer(&k, &keys[n - 1]) {
        proof {
            if n > 0 {
                assert(models(keys@).last() == keys@[n - 1]@);
            }
        }
        keys.push(k);
        assert(models(keys@) =~= models(old(keys)@).push(k@));
    } else {
        assert(models(keys@).last() == keys@[n - 1]@);
        if let Some(last) = keys.pop() {
            assert(models(keys@) =~= models(old(keys)@).drop_last());
            insert_key(keys, k);
            let ghost inner = keys@;
            keys.push(last);
            assert(models(keys@) =~= models(inner).push(last@));
        }
    }
}

impl KeyRegistry {
    /// A registry with the issuer's root alone.
    pub fn new(issuer: Jwk) -> (r: Self)
        ensures
            r@ == (RegistryModel {
                issuer: issuer@,
                extra_roots: Seq::empty(),
                child_keys: Seq::empty(),
            }),
    {
        let r = KeyRegistry { issuer, extra_roots: Vec::new(), child_keys: Vec::new() };
        assert(r@.extra_roots =~= Seq::<JwkModel>::empty());
        assert(r@.child_keys =~= Seq::<JwkModel>::empty());
        r
    }

    /// The issuer's public key.
    pub fn issuer_public(&self) -> (r: Vec<u8>)
        ensures
            r@ == self@.issuer.public,
    {
        vstd::slice::slice_to_vec(self.issuer.public.as_slice())
    }

    /// The published keys: roots from newest to oldest, then the hosts' keys.
    pub fn published_keys(&self) -> (r: Vec<Jwk>)
        ensures
            models(r@) == published(self@),
    {
        let ghost roots = seq![self@.issuer] + self@.extra_roots;
        let mut keys: Vec<Jwk> = Vec::new();
        keys.push(self.issuer.duplicate());
        let mut i: usize = 0;
        proof {
            reveal_with_fuel(newest_first, 3);
            assert(roots.take(1).drop_last() =~= Seq::<JwkModel>::empty());
            assert(models(keys@) =~= newest_first(roots.take(1)));
        }
        while i < self.extra_roots.len()
            invariant
                i <= self.extra_roots@.len(),
                roots == seq![self@.issuer] + models(self.extra_roots@),
                models(keys@) == newest_first(roots.take(i + 1)),
            decreases self.extra_roots@.len() - i,
        {
            proof {
                assert(roots.take(i + 2).drop_last() =~= roots.take(i + 1));
                assert(roots.take(i + 2).last() == self.extra_roots@[i as int]@);
            }
            insert_key(&mut keys, self.extra_roots[i].duplicate());
            i += 1;
        }
        assert(roots.take(roots.len() as int) =~= roots);
        let ghost sorted = newest_first(roots);
        let mut j: usize = 0;
        assert(models(self.child_keys@).take(0) =~= Seq::<JwkModel>::empty());
        assert(models(keys@) =~= sorted + models(self.child_keys@).take(0));
        while j < self.child_keys.len()
            invariant
                j <= self.child_keys@.len(),
                models(keys@) == sorted + models(self.child_keys@).take(j as int),
            decreases self.child_keys@.len() - j,
        {
            let ghost before = keys@;
            keys.push(self.child_keys[j].duplicate());
            assert(models(keys@) =~= models(before).push(self.child_keys@[j as int]@));
            assert(models(keys@) =~= sorted + models(self.child_keys@).take(j + 1));
            j += 1;
        }
        assert(models(self.child_keys@).take(j as int) =~= models(self.child_keys@));
        keys
    }

    /// Publish another root, made at a given time. A root that is known by its
    /// identifier keeps its key and takes the new time.
    pub fn register_root_key(&mut self, pk: &CompositePublicKey, kid: String, created: i64)
        ensures
            final(self)@ == after_root(
                old(self)@,
                kid@,
                composite::key_bytes(pk@),
                created,
            ),
    {
        let i: usize = find_kid(&self.extra_roots, kid.as_str());
        proof {
            lemma_kid_from(models(self.extra_roots@), kid@, 0);
        }
        if i < self.extra_roots.len() {
            let known = self.extra_roots[i].duplicate();
            self.extra_roots[i] = Jwk {
                kid: known.kid,
                public: known.public,
                created: Some(created),
            };
            assert(self@.extra_roots =~= old(self)@.extra_roots.update(
                i as int,
                JwkModel { created: Some(created), ..old(self)@.extra_roots[i as int] },
            ));
        } else {
            self.extra_roots.push(Jwk::from_public_key_at(kid, pk, created));
            assert(self@.extra_roots =~= old(self)@.extra_roots.push(
                JwkModel {
                    kid: kid@,
                    public: composite::key_bytes(pk@),
                    created: Some(created),
                },
            ));
        }
    }

    /// Publish a host's key. A key whose identifier is the issuer's, or that of
    /// a known host key, is passed over.
    pub fn register_child_key(&mut self, kid: String, pk: &CompositePublicKey)
        ensures
            final(self)@ == after_child(old(self)@, kid@, composite::key_bytes(pk@)),
    {
        if text::same_text(self.issuer.kid.as_str(), kid.as_str()) {
            return;
        }
        let i: usize = find_kid(&self.child_keys, kid.as_str());
        if i < self.child_keys.len() {
            return;
        }
        self.child_keys.push(Jwk::from_public_key(kid, pk));
        assert(self@.child_keys =~= old(self)@.child_keys.push(
            JwkModel { kid: kid@, public: composite::key_bytes(pk@), created: None },
        ));
    }

    /// Whether a host's key, or the issuer's, is published under an identifier.
    pub fn is_published(&self, kid: &str) -> (r: bool)
        ensures
            r == (self@.issuer.kid == kid@ || has_kid(self@.child_keys, kid@)),
    {
        text::same_text(self.issuer.kid.as_str(), kid) || find_kid(&self.child_keys, kid)
            < self.child_keys.len()
    }
}

/// The registry after a root was published.
pub open spec fn after_root(
    m: RegistryModel,
    kid: Seq<char>,
    public: Seq<u8>,
    created: i64,
) -> RegistryModel {
    let i = kid_from(m.extra_roots, kid, 0);
    if i < m.extra_roots.len() {
        RegistryModel {
            extra_roots: m.extra_roots.update(
                i,
                JwkModel { created: Some(created), ..m.extra_roots[i] },
            ),
            ..m
        }
    } else {
        RegistryModel {
            extra_roots: m.extra_roots.push(JwkModel { kid, public, created: Some(created) }),
            ..m
        }
    }
}

/// The registry after a host's key was published.
pub open spec fn after_child(m: RegistryModel, kid: Seq<char>, public: Seq<u8>) -> RegistryModel {
    if m.issuer.kid == kid || has_kid(m.child_keys, kid) {
        m
    } else {
        RegistryModel {
            child_keys: m.child_keys.push(JwkModel { kid, public, created: None }),
            ..m
        }
    }
}

/// A host key that was published is there.
pub proof fn lemma_after_child_has(m: RegistryModel, kid: Seq<char>, public: Seq<u8>)
    ensures
        ({
            let after = after_child(m, kid, public);
            after.issuer.kid == kid || has_kid(after.child_keys, kid)
        }),
{
    let after = after_child(m, kid, public);
    lemma_kid_from(after.child_keys, kid, 0);
    if !(m.issuer.kid == kid || has_kid(m.child_keys, kid)) {
        assert(after.child_keys[after.child_keys.len() - 1].kid == kid);
        if kid_from(after.child_keys, kid, 0) == after.child_keys.len() {
            assert(after.child_keys[after.child_keys.len() - 1].kid != kid);
        }
    }
}

/// Publishing a host key takes no other away.
pub proof fn lemma_after_child_keeps(
    m: RegistryModel,
    kid: Seq<char>,
    public: Seq<u8>,
    other: Seq<char>,
)
    requires
        m.issuer.kid == other || has_kid(m.child_keys, other),
    ensures
        ({
            let after = after_child(m, kid, public);
            after.issuer.kid == other || has_kid(after.child_keys, other)
        }),
{
    let after = after_child(m, kid, public);
    if has_kid(m.child_keys, other) {
        lemma_kid_from(m.child_keys, other, 0);
        lemma_kid_from(after.child_keys, other, 0);
        let i = kid_from(m.child_keys, other, 0);
        assert(after.child_keys[i] == m.child_keys[i]);
        if kid_from(after.child_keys, other, 0) == after.child_keys.len() {
            assert(after.child_keys[i].kid != other);
        }
    }
}

/// A root that is newer than every other is the preferred key.
pub proof fn law_newest_root_preferred(m: RegistryModel, i: int)
    requires
        0 <= i < m.extra_roots.len(),
        age_key(m.extra_roots[i]) > age_key(m.issuer),
        forall|j: int|
            0 <= j < m.extra_roots.len() && j != i ==> age_key(m.extra_roots[i]) > age_key(
                #[trigger] m.extra_roots[j],
            ),
    ensures
        published(m)[0] == m.extra_roots[i],
{
    let roots = seq![m.issuer] + m.extra_roots;
    let sorted = newest_first(roots);
    law_newest_first(roots);
    let k = m.extra_roots[i];
    assert(roots[i + 1] == k);
    roots.to_multiset_ensures();
    sorted.to_multiset_ensures();
    assert(roots.contains(k));
    assert(roots.to_multiset().count(k) > 0);
    assert(sorted.contains(k));
    let p = choose|p: int| 0 <= p < sorted.len() && sorted[p] == k;
    assert(age_key(sorted[0]) >= age_key(sorted[p]));
    assert(sorted.contains(sorted[0]));
    assert(sorted.to_multiset().count(sorted[0]) > 0);
    assert(roots.contains(sorted[0]));
    let q = choose|q: int| 0 <= q < roots.len() && roots[q] == sorted[0];
    if q == 0 {
        assert(roots[0] == m.issuer);
    } else {
        assert(roots[q] == m.extra_roots[q - 1]);
    }
}

/// Every root and every host key can be found among the published keys.
pub proof fn law_registered_keys_published(m: RegistryModel, k: JwkModel)
    requires
        k == m.issuer || m.extra_roots.contains(k) || m.child_keys.contains(k),
    ensures
        published(m).contains(k),
        has_kid(published(m), k.kid),
{
    let roots = seq![m.issuer] + m.extra_roots;
    let sorted = newest_first(roots);
    law_newest_first(roots);
    let all = published(m);
    if m.child_keys.contains(k) {
        let j = choose|j: int| 0 <= j < m.child_keys.len() && m.child_keys[j] == k;
        assert(all[sorted.len() + j] == k);
    } else {
        if k == m.issuer {
            assert(roots[0] == k);
        } else {
            let j = choose|j: int| 0 <= j < m.extra_roots.len() && m.extra_roots[j] == k;
            assert(roots[j + 1] == k);
        }
        assert(roots.contains(k));
        roots.to_multiset_ensures();
        sorted.to_multiset_ensures();
        assert(roots.to_multiset().count(k) > 0);
        assert(sorted.contains(k));
        let p = choose|p: int| 0 <= p < sorted.len() && sorted[p] == k;
        assert(all[p] == k);
    }
    let at = choose|p: int| 0 <= p < all.len() && all[p] == k;
    lemma_kid_from(all, k.kid, 0);
    if kid_from(all, k.kid, 0) == all.len() {
        assert(all[at].kid != k.kid);
    }
}

/// Publishing a root or a host's key a second time does not grow the set.
pub proof fn law_registration_idempotent(
    m: RegistryModel,
    kid: Seq<char>,
    public: Seq<u8>,
    t1: i64,
    t2: i64,
)
    ensures
        after_child(after_child(m, kid, public), kid, public) == after_child(m, kid, public),
        after_root(after_root(m, kid, public, t1), kid, public, t2).extra_roots.len() == after_root(
            m,
            kid,
            public,
            t1,
        ).extra_roots.len(),
{
    lemma_kid_from(m.child_keys, kid, 0);
    let c = after_child(m, kid, public);
    lemma_kid_from(c.child_keys, kid, 0);
    if !(m.issuer.kid == kid || has_kid(m.child_keys, kid)) {
        assert(c.child_keys.last().kid == kid);
        if kid_from(c.child_keys, kid, 0) == c.child_keys.len() {
            assert(c.child_keys[c.child_keys.len() - 1].kid != kid);
        }
    }
    lemma_kid_from(m.extra_roots, kid, 0);
    let a = after_root(m, kid, public, t1).extra_roots;
    lemma_kid_from(a, kid, 0);
    let i = kid_from(m.extra_roots, kid, 0);
    if i < m.extra_roots.len() {
        assert(a[i].kid == kid);
    } else {
        assert(a[a.len() - 1].kid == kid);
    }
    if kid_from(a, kid, 0) == a.len() {
        assert(a[if i < m.extra_roots.len() {
            i
        } else {
            a.len() - 1
        }].kid != kid);
    }
}

/// A key is found by its identifier wherever it stands, and the first of
/// several.
pub proof fn law_key_found(keys: Seq<JwkModel>, kid: Seq<char>, i: int)
    requires
        0 <= i < keys.len(),
        keys[i].kid == kid,
    ensures
        has_kid(keys, kid),
        kid_from(keys, kid, 0) <= i,
        keys[kid_from(keys, kid, 0)].kid == kid,
        (forall|j: int| 0 <= j < i ==> (#[trigger] keys[j]).kid != kid) ==> kid_from(keys, kid, 0)
            == i,
{
    lemma_kid_from(keys, kid, 0);
    let n = kid_from(keys, kid, 0);
    if n > i {
        assert(keys[i].kid != kid);
    }
}

/// A key that no one has registered is not found.
pub proof fn law_no_other_key_found(keys: Seq<JwkModel>, kid: Seq<char>)
    requires
        forall|i: int| 0 <= i < keys.len() ==> (#[trigger] keys[i]).kid != kid,
    ensures
        !has_kid(keys, kid),
{
    lemma_kid_from(keys, kid, 0);
}

/// Keys that go from newest to oldest already stay in their order.
pub proof fn law_order_kept(keys: Seq<JwkModel>)
    requires
        is_newest_first(keys),
    ensures
        newest_first(keys) == keys,
    decreases keys.len(),
{
    if keys.len() > 0 {
        let init = keys.drop_last();
        assert forall|i: int, j: int| 0 <= i < j < init.len() implies age_key(#[trigger] init[i])
            >= age_key(#[trigger] init[j]) by {
            assert(age_key(keys[i]) >= age_key(keys[j]));
        }
        law_order_kept(init);
        if init.len() > 0 {
            assert(age_key(keys[keys.len() - 2]) >= age_key(keys[keys.len() - 1]));
        }
        assert(init.push(keys.last()) =~= keys);
    }
}

/// A new root is published with its key and its time, behind those that were
/// there. A root that is known keeps its key, and only its time changes.
pub proof fn law_root_published(
    m: RegistryModel,
    kid: Seq<char>,
    public: Seq<u8>,
    created: i64,
    i: int,
)
    requires
        0 <= i < m.extra_roots.len(),
    ensures
        ({
            let after = after_root(m, kid, public, created);
            &&& after.issuer == m.issuer
            &&& after.child_keys == m.child_keys
            &&& after.extra_roots[i].kid == m.extra_roots[i].kid
            &&& after.extra_roots[i].public == m.extra_roots[i].public
            &&& m.extra_roots[i].kid != kid ==> after.extra_roots[i] == m.extra_roots[i]
            &&& (forall|j: int| 0 <= j < m.extra_roots.len() ==> (#[trigger] m.extra_roots[j]).kid
                != kid) ==> after.extra_roots == m.extra_roots.push(
                JwkModel { kid, public, created: Some(created) },
            )
            &&& m.extra_roots[i].kid == kid && (forall|j: int|
                0 <= j < i ==> (#[trigger] m.extra_roots[j]).kid != kid)
                ==> after.extra_roots[i].created == Some(created) && after.extra_roots.len()
                == m.extra_roots.len()
        }),
{
    lemma_kid_from(m.extra_roots, kid, 0);
    if m.extra_roots[i].kid == kid {
        law_key_found(m.extra_roots, kid, i);
    }
}

/// A host's key is published under its identifier, once: a key that is there
/// is not replaced, and no root is touched.
pub proof fn law_child_key_published(m: RegistryModel, kid: Seq<char>, public: Seq<u8>)
    ensures
        ({
            let after = after_child(m, kid, public);
            &&& after.issuer == m.issuer
            &&& after.extra_roots == m.extra_roots
            &&& m.child_keys.is_prefix_of(after.child_keys)
            &&& kid != m.issuer.kid && !has_kid(m.child_keys, kid) ==> after.child_keys
                == m.child_keys.push(JwkModel { kid, public, created: None })
            &&& kid == m.issuer.kid || has_kid(m.child_keys, kid) ==> after == m
            &&& after_child(after, kid, public) == after
        }),
{
    lemma_after_child_has(m, kid, public);
}

} // verus!
