//! Tree heads that a quorum of replicas signs.
//!
//! Each replica signs the same body. A verifier accepts the head only if enough
//! distinct replicas, out of those that it knows, signed it.

use vstd::prelude::*;
use crate::attest::rim_bundle::TrustedKeys;
use crate::audit::sth;
use crate::audit::sth::{SignedTreeHead, SthBody, SthError, SthSigner};
use crate::collections::KeyMap;
use crate::crypto::composite;
use crate::crypto::composite::{CompositePublicKey, PublicKeyModel, SecretKeyModel};
use crate::crypto::envelope;
use crate::primitives::text::same_text;

verus! {

/// One replica's signature on the body.
#[derive(Debug, Clone, PartialEq, Eq)]
pub struct CoSignature {
    /// The replica's key.
    pub signer_kid: String,
    /// The composite signature, in unpadded URL-safe Base64.
    pub signature_b64: String,
}

/// A tree head with the signatures of several replicas.
#[derive(Debug, Clone, PartialEq, Eq)]
pub struct CoSignedTreeHead {
    /// The CBOR form of the body.
    pub body_cbor: Vec<u8>,
    /// One signature per replica.
    pub signatures: Vec<CoSignature>,
}

/// Failure modes of quorum signatures.
#[derive(Debug)]
pub enum QuorumError {
    /// The threshold is zero, or above the number of signers.
    InvalidThreshold {
        /// The threshold.
        threshold: usize,
        /// The number of signers.
        signer_count: usize,
    },
    /// Two signers share a key identifier.
    DuplicateSigner(String),
    /// A signer failed.
    SignerFailed {
        /// The signer's key.
        kid: String,
        /// What it said.
        source: SthError,
    },
    /// Too few signatures verified.
    QuorumNotMet {
        /// Distinct signers whose signatures verified.
        accepted: usize,
        /// The threshold.
        threshold: usize,
    },
    /// The body cannot be read.
    Body(SthError),
}

impl CoSignature {
    /// A copy.
    pub fn duplicate(&self) -> (r: Self)
        ensures
            r.signer_kid@ == self.signer_kid@,
            r.signature_b64@ == self.signature_b64@,
    {
        CoSignature {
            signer_kid: self.signer_kid.as_str().to_owned(),
            signature_b64: self.signature_b64.as_str().to_owned(),
        }
    }
}

/// Whether two lists of signatures hold the same identifiers and signatures.
pub open spec fn same_signatures(a: Seq<CoSignature>, b: Seq<CoSignature>) -> bool {
    &&& a.len() == b.len()
    &&& forall|i: int|
        0 <= i < a.len() ==> (#[trigger] a[i]).signer_kid@ == b[i].signer_kid@
            && a[i].signature_b64@ == b[i].signature_b64@
}

impl CoSignedTreeHead {
    /// The body, whether or not any signature verifies.
    pub fn body(&self) -> (r: Result<SthBody, SthError>)
        ensures
            match r {
                Ok(body) => sth::body_from(self.body_cbor@) == Some(body@),
                Err(e) => sth::body_from(self.body_cbor@) is None && (e matches SthError::Decode(m)
                    && m@ == sth::body_fault(self.body_cbor@)),
            },
    {
        sth::decode_body(self.body_cbor.as_slice())
    }

    /// The head as the `n`-th signer alone signed it.
    pub fn as_single(&self, n: usize) -> (r: Option<SignedTreeHead>)
        ensures
            match r {
                Some(s) => n < self.signatures@.len() && s.body_cbor@ == self.body_cbor@
                    && s.signer_kid@ == self.signatures@[n as int].signer_kid@ && s.signature_b64@
                    == self.signatures@[n as int].signature_b64@,
                None => n >= self.signatures@.len(),
            },
    {
        if n >= self.signatures.len() {
            return None;
        }
        let s = self.signatures[n].duplicate();
        Some(
            SignedTreeHead {
                body_cbor: vstd::slice::slice_to_vec(self.body_cbor.as_slice()),
                signer_kid: s.signer_kid,
                signature_b64: s.signature_b64,
            },
        )
    }

    /// A copy.
    pub fn duplicate(&self) -> (r: Self)
        ensures
            r.body_cbor@ == self.body_cbor@,
            same_signatures(r.signatures@, self.signatures@),
    {
        let mut signatures: Vec<CoSignature> = Vec::new();
        let mut i: usize = 0;
        while i < self.signatures.len()
            invariant
                i <= self.signatures@.len(),
                signatures@.len() == i,
                forall|j: int|
                    0 <= j < i ==> (#[trigger] signatures@[j]).signer_kid@
                        == self.signatures@[j].signer_kid@ && signatures@[j].signature_b64@
                        == self.signatures@[j].signature_b64@,
            decreases self.signatures@.len() - i,
        {
            signatures.push(self.signatures[i].duplicate());
            i += 1;
        }
        CoSignedTreeHead {
            body_cbor: vstd::slice::slice_to_vec(self.body_cbor.as_slice()),
            signatures,
        }
    }
}

/// Whether the identifiers of the first `n` signers are all distinct.
pub open spec fn distinct_signers<S: SthSigner>(signers: Seq<S>, n: int) -> bool {
    forall|i: int, j: int|
        0 <= i < j < n ==> (#[trigger] signers[i]).key_id() != (#[trigger] signers[j]).key_id()
}

/// Whether `kid` is the identifier of the first signer that repeats one.
pub open spec fn first_repeated<S: SthSigner>(signers: Seq<S>, kid: Seq<char>) -> bool {
    exists|i: int, j: int|
        0 <= i < j < signers.len() && distinct_signers(signers, j) && (
        #[trigger] signers[i]).key_id() == kid && (#[trigger] signers[j]).key_id() == kid
}

/// Signs tree heads with every one of its signers, whose key identifiers are
/// distinct and of which there are at least as many as its threshold.
pub struct QuorumSigner<S: SthSigner> {
    threshold: usize,
    signers: Vec<S>,
}

impl<S: SthSigner> QuorumSigner<S> {
    #[verifier::type_invariant]
    spec fn inv(&self) -> bool {
        &&& 0 < self.threshold <= self.signers@.len()
        &&& distinct_signers(self.signers@, self.signers@.len() as int)
    }

    /// The signers.
    pub closed spec fn members(&self) -> Seq<S> {
        self.signers@
    }

    /// The threshold.
    pub closed spec fn quorum(&self) -> usize {
        self.threshold
    }

    /// A quorum signer: the threshold must lie between one and the number of
    /// signers, and no two of them may share an identifier.
    pub fn new(signers: Vec<S>, threshold: usize) -> (r: Result<Self, QuorumError>)
        ensures
            match r {
                Ok(q) => {
                    &&& 0 < threshold <= signers@.len()
                    &&& distinct_signers(signers@, signers@.len() as int)
                    &&& q.members() == signers@
                    &&& q.quorum() == threshold
                },
                Err(QuorumError::InvalidThreshold { threshold: t, signer_count }) => {
                    &&& threshold == 0 || threshold > signers@.len()
                    &&& t == threshold
                    &&& signer_count == signers@.len()
                },
                Err(QuorumError::DuplicateSigner(kid)) => {
                    &&& 0 < threshold <= signers@.len()
                    &&& first_repeated(signers@, kid@)
                },
                Err(_) => false,
            },
    {
        if threshold == 0 || threshold > signers.len() {
            return Err(QuorumError::InvalidThreshold { threshold, signer_count: signers.len() });
        }
        let mut j: usize = 0;
        while j < signers.len()
            invariant
                j <= signers@.len(),
                0 < threshold <= signers@.len(),
                distinct_signers(signers@, j as int),
            decreases signers@.len() - j,
        {
            let mut i: usize = 0;
            while i < j
                invariant
                    i <= j < signers@.len(),
                    0 < threshold <= signers@.len(),
                    distinct_signers(signers@, j as int),
                    forall|k: int|
                        0 <= k < i ==> (#[trigger] signers@[k]).key_id()
                            != signers@[j as int].key_id(),
                decreases j - i,
            {
                if same_text(signers[i].kid(), signers[j].kid()) {
                    assert(signers@[i as int].key_id() == signers@[j as int].key_id());
                    return Err(QuorumError::DuplicateSigner(signers[j].kid().to_owned()));
                }
                i += 1;
            }
            j += 1;
        }
        Ok(QuorumSigner { threshold, signers })
    }

    /// The threshold.
    pub fn threshold(&self) -> (r: usize)
        ensures
            r == self.quorum(),
            0 < r <= self.members().len(),
    {
        proof {
            use_type_invariant(self);
        }
        self.threshold
    }

    /// The number of signers.
    pub fn signer_count(&self) -> (r: usize)
        ensures
            r == self.members().len(),
    {
        self.signers.len()
    }

    /// Sign a body with every signer, in their order. The first signer's failure
    /// is the whole's.
    pub fn sign(&self, body: &SthBody) -> (r: Result<CoSignedTreeHead, QuorumError>)
        ensures
            match r {
                Ok(head) => {
                    &&& head.body_cbor@ == sth::body_bytes(body@)
                    &&& sth::body_from(head.body_cbor@) == Some(body@)
                    &&& head.signatures@.len() == self.members().len()
                    &&& forall|i: int|
                        0 <= i < self.members().len() ==> (
                        #[trigger] head.signatures@[i]).signer_kid@ == self.members()[i].key_id()
                            && signed_by(
                            self.members()[i],
                            *body,
                            head.signatures@[i].signature_b64@,
                        )
                },
                Err(QuorumError::SignerFailed { kid, source }) => exists|i: int| #[trigger]
                    fails_at(self.members(), i, *body, kid@, source),
                Err(_) => false,
            },
    {
        let body_cbor = match sth::encode_body(body) {
            Ok(b) => b,
            Err(e) => return Err(QuorumError::Body(e)),
        };
        let mut signatures: Vec<CoSignature> = Vec::new();
        let mut i: usize = 0;
        while i < self.signers.len()
            invariant
                i <= self.signers@.len(),
                signatures@.len() == i,
                forall|j: int|
                    0 <= j < i ==> (#[trigger] signatures@[j]).signer_kid@
                        == self.signers@[j].key_id() && signed_by(
                        self.signers@[j],
                        *body,
                        signatures@[j].signature_b64@,
                    ),
            decreases self.signers@.len() - i,
        {
            match self.signers[i].sign(body) {
                Ok(head) => {
                    let ghost made = head;
                    signatures.push(
                        CoSignature {
                            signer_kid: head.signer_kid,
                            signature_b64: head.signature_b64,
                        },
                    );
                    assert(call_ensures(
                        S::sign,
                        (&self.signers@[i as int], body),
                        Ok::<_, SthError>(made),
                    ));
                    assert(signed_by(
                        self.signers@[i as int],
                        *body,
                        signatures@[i as int].signature_b64@,
                    ));
                },
                Err(source) => {
                    let kid = self.signers[i].kid().to_owned();
                    assert(self.members()[i as int].key_id() == kid@);
                    assert(call_ensures(
                        S::sign,
                        (&self.members()[i as int], body),
                        Err::<SignedTreeHead, _>(source),
                    ));
                    assert forall|j: int| 0 <= j < i implies has_signed(
                        #[trigger] self.members()[j],
                        *body,
                    ) by {
                        assert(signed_by(
                            self.members()[j],
                            *body,
                            signatures@[j].signature_b64@,
                        ));
                    }
                    let failure = QuorumError::SignerFailed { kid, source };
                    assert(failure matches QuorumError::SignerFailed { kid: k, source: s }
                        && fails_at(self.members(), i as int, *body, k@, s));
                    return Err(failure);
                },
            }
            i += 1;
        }
        Ok(CoSignedTreeHead { body_cbor, signatures })
    }
}

/// Whether the `i`-th of some signers is the first that fails on a body, with an
/// error: those before it have signed.
pub open spec fn fails_at<S: SthSigner>(
    signers: Seq<S>,
    i: int,
    body: SthBody,
    kid: Seq<char>,
    source: SthError,
) -> bool {
    &&& 0 <= i < signers.len()
    &&& kid == signers[i].key_id()
    &&& call_ensures(S::sign, (&signers[i], &body), Err::<SignedTreeHead, _>(source))
    &&& forall|j: int| 0 <= j < i ==> has_signed(#[trigger] signers[j], body)
}

/// Whether a signer has signed a body.
pub open spec fn has_signed<S: SthSigner>(signer: S, body: SthBody) -> bool {
    exists|head: SignedTreeHead|
        #![trigger head.signature_b64]
        call_ensures(S::sign, (&signer, &body), Ok::<_, SthError>(head))
}

/// Whether a signer can give a signature on a body.
pub open spec fn signed_by<S: SthSigner>(signer: S, body: SthBody, text: Seq<char>) -> bool {
    exists|head: SignedTreeHead|
        #![trigger head.signature_b64]
        call_ensures(S::sign, (&signer, &body), Ok::<_, SthError>(head)) && head.signature_b64@
            == text
}

/// The keys of replicas, and how many of them must have signed.
pub struct VerifyingKeyset {
    keys: TrustedKeys,
    threshold: usize,
}

/// The contents of a [`VerifyingKeyset`].
pub struct KeysetModel {
    pub keys: Map<Seq<char>, PublicKeyModel>,
    pub threshold: nat,
}

impl View for VerifyingKeyset {
    type V = KeysetModel;

    closed spec fn view(&self) -> KeysetModel {
        KeysetModel { keys: self.keys@, threshold: self.threshold as nat }
    }
}

/// Whether the first `n` pairs have distinct identifiers.
pub open spec fn distinct_kids(pairs: Seq<(String, CompositePublicKey)>, n: int) -> bool {
    forall|i: int, j: int| 0 <= i < j < n ==> (#[trigger] pairs[i]).0@ != (#[trigger] pairs[j]).0@
}

/// The keys of the first `n` pairs, by identifier.
pub open spec fn keys_of(pairs: Seq<(String, CompositePublicKey)>, n: int) -> Map<
    Seq<char>,
    PublicKeyModel,
>
    decreases n,
{
    if n <= 0 {
        Map::empty()
    } else {
        keys_of(pairs, n - 1).insert(pairs[n - 1].0@, pairs[n - 1].1@)
    }
}

proof fn lemma_keys_of(pairs: Seq<(String, CompositePublicKey)>, n: int)
    requires
        0 <= n <= pairs.len(),
    ensures
        keys_of(pairs, n).dom().finite(),
        forall|kid: Seq<char>| #[trigger]
            keys_of(pairs, n).dom().contains(kid) <==> exists|i: int|
                0 <= i < n && (#[trigger] pairs[i]).0@ == kid,
        distinct_kids(pairs, n) ==> keys_of(pairs, n).dom().len() == n,
    decreases n,
{
    if n > 0 {
        lemma_keys_of(pairs, n - 1);
        assert(pairs[n - 1].0@ == pairs[n - 1].0@);
        assert forall|kid: Seq<char>| #[trigger]
            keys_of(pairs, n).dom().contains(kid) <==> exists|i: int|
                0 <= i < n && (#[trigger] pairs[i]).0@ == kid by {
            if keys_of(pairs, n - 1).dom().contains(kid) {
                let i = choose|i: int| 0 <= i < n - 1 && (#[trigger] pairs[i]).0@ == kid;
                assert(pairs[i].0@ == kid);
            }
        }
    }
}

impl VerifyingKeyset {
    #[verifier::type_invariant]
    spec fn inv(&self) -> bool {
        0 < self@.threshold <= self@.keys.dom().len()
    }

    /// A keyset: no two pairs may share an identifier, and the threshold must
    /// lie between one and the number of keys.
    pub fn new(pairs: Vec<(String, CompositePublicKey)>, threshold: usize) -> (r: Result<
        Self,
        QuorumError,
    >)
        ensures
            match r {
                Ok(k) => {
                    &&& distinct_kids(pairs@, pairs@.len() as int)
                    &&& 0 < threshold <= pairs@.len()
                    &&& k@.keys == keys_of(pairs@, pairs@.len() as int)
                    &&& k@.keys.dom().finite()
                    &&& k@.keys.dom().len() == pairs@.len()
                    &&& k@.threshold == threshold
                },
                Err(QuorumError::DuplicateSigner(kid)) => exists|i: int, j: int|
                    0 <= i < j < pairs@.len() && distinct_kids(pairs@, j) && (
                    #[trigger] pairs@[i]).0@ == kid@ && (#[trigger] pairs@[j]).0@ == kid@,
                Err(QuorumError::InvalidThreshold { threshold: t, signer_count }) => {
                    &&& distinct_kids(pairs@, pairs@.len() as int)
                    &&& threshold == 0 || threshold > pairs@.len()
                    &&& t == threshold
                    &&& signer_count == pairs@.len()
                },
                Err(_) => false,
            },
    {
        let ghost all = pairs@;
        let count: usize = pairs.len();
        let mut rest = pairs;
        let mut keys = TrustedKeys::new();
        let mut n: usize = 0;
        while n < count
            invariant
                all == pairs@,
                n <= count == all.len(),
                rest@ == all.skip(n as int),
                distinct_kids(all, n as int),
                keys@ == keys_of(all, n as int),
            decreases count - n,
        {
            let (kid, pk) = rest.remove(0);
            proof {
                lemma_keys_of(all, n as int);
                assert(all[n as int] == (kid, pk));
                assert(rest@ =~= all.skip(n + 1));
            }
            if keys.get(kid.as_str()).is_some() {
                proof {
                    let i = choose|i: int| 0 <= i < n && (#[trigger] all[i]).0@ == kid@;
                    assert(all[i].0@ == kid@ && all[n as int].0@ == kid@);
                }
                return Err(QuorumError::DuplicateSigner(kid));
            }
            keys.add(kid, pk);
            n += 1;
        }
        proof {
            lemma_keys_of(all, count as int);
        }
        if threshold == 0 || threshold > keys.len() {
            return Err(QuorumError::InvalidThreshold { threshold, signer_count: keys.len() });
        }
        Ok(VerifyingKeyset { keys, threshold })
    }

    /// The number of keys.
    pub fn key_count(&self) -> (r: usize)
        ensures
            self@.keys.dom().finite(),
            r == self@.keys.dom().len(),
    {
        self.keys.len()
    }

    /// The threshold.
    pub fn threshold(&self) -> (r: usize)
        ensures
            r == self@.threshold,
            0 < r <= self@.keys.dom().len(),
    {
        proof {
            use_type_invariant(self);
        }
        self.threshold
    }
}

/// Whether a signature counts: its signer is known, and it verifies.
pub open spec fn counts(
    keys: Map<Seq<char>, PublicKeyModel>,
    body_cbor: Seq<u8>,
    sig: CoSignature,
) -> bool {
    keys.dom().contains(sig.signer_kid@) && sth::signs(
        keys[sig.signer_kid@],
        body_cbor,
        sig.signature_b64@,
    )
}

/// The distinct signers, among the first `n` signatures, whose signature
/// counts.
pub open spec fn accepted(
    keys: Map<Seq<char>, PublicKeyModel>,
    body_cbor: Seq<u8>,
    sigs: Seq<CoSignature>,
    n: int,
) -> Set<Seq<char>>
    decreases n,
{
    if n <= 0 {
        Set::empty()
    } else if counts(keys, body_cbor, sigs[n - 1]) {
        accepted(keys, body_cbor, sigs, n - 1).insert(sigs[n - 1].signer_kid@)
    } else {
        accepted(keys, body_cbor, sigs, n - 1)
    }
}

/// The distinct signers of a head whose signature counts.
pub open spec fn endorsers(keys: Map<Seq<char>, PublicKeyModel>, head: CoSignedTreeHead) -> Set<
    Seq<char>,
> {
    accepted(keys, head.body_cbor@, head.signatures@, head.signatures@.len() as int)
}

/// Verify a head: at least as many distinct known signers as the threshold
/// must have signed its body. Signatures of unknown signers, and those that do
/// not verify, are passed over.
pub fn verify_cosigned(head: &CoSignedTreeHead, keyset: &VerifyingKeyset) -> (r: Result<
    SthBody,
    QuorumError,
>)
    ensures
        match r {
            Ok(body) => {
                &&& endorsers(keyset@.keys, *head).len() >= keyset@.threshold
                &&& sth::body_from(head.body_cbor@) == Some(body@)
            },
            Err(QuorumError::QuorumNotMet { accepted, threshold }) => {
                &&& accepted == endorsers(keyset@.keys, *head).len()
                &&& threshold == keyset@.threshold
                &&& accepted < threshold
            },
            Err(QuorumError::Body(e)) => {
                &&& endorsers(keyset@.keys, *head).len() >= keyset@.threshold
                &&& sth::body_from(head.body_cbor@) is None
                &&& e matches SthError::Decode(m) && m@ == sth::body_fault(head.body_cbor@)
            },
            Err(_) => false,
        },
{
    let mut seen: KeyMap<String, bool> = KeyMap::new();
    let mut i: usize = 0;
    while i < head.signatures.len()
        invariant
            i <= head.signatures@.len(),
            seen@.dom() == accepted(
                keyset@.keys,
                head.body_cbor@,
                head.signatures@,
                i as int,
            ),
        decreases head.signatures@.len() - i,
    {
        let sig = &head.signatures[i];
        if let Some(pk) = keyset.keys.get(sig.signer_kid.as_str()) {
            if let Ok(true) = sth::check_head(
                pk,
                head.body_cbor.as_slice(),
                sig.signature_b64.as_str(),
            ) {
                let ghost before = seen@;
                let kid = sig.signer_kid.as_str().to_owned();
                seen.insert(kid, true);
                assert(seen@.dom() =~= before.dom().insert(kid@));
            }
        }
        i += 1;
    }
    let count: usize = seen.len();
    if count < keyset.threshold {
        return Err(
            QuorumError::QuorumNotMet { accepted: count, threshold: keyset.threshold },
        );
    }
    match head.body() {
        Ok(body) => Ok(body),
        Err(e) => Err(QuorumError::Body(e)),
    }
}

/// The signers that count are those of which some signature counts: a
/// signature that occurs twice counts once, and one of an unknown signer never.
pub proof fn law_endorsers(
    keys: Map<Seq<char>, PublicKeyModel>,
    body_cbor: Seq<u8>,
    sigs: Seq<CoSignature>,
    n: int,
)
    requires
        0 <= n <= sigs.len(),
    ensures
        accepted(keys, body_cbor, sigs, n).finite(),
        accepted(keys, body_cbor, sigs, n).len() <= n,
        accepted(keys, body_cbor, sigs, n).subset_of(keys.dom()),
        forall|kid: Seq<char>| #[trigger]
            accepted(keys, body_cbor, sigs, n).contains(kid) <==> exists|i: int|
                0 <= i < n && (#[trigger] sigs[i]).signer_kid@ == kid && counts(
                    keys,
                    body_cbor,
                    sigs[i],
                ),
    decreases n,
{
    if n > 0 {
        law_endorsers(keys, body_cbor, sigs, n - 1);
        let now = accepted(keys, body_cbor, sigs, n);
        assert forall|kid: Seq<char>| #[trigger] now.contains(kid) <==> exists|i: int|
            0 <= i < n && (#[trigger] sigs[i]).signer_kid@ == kid && counts(
                keys,
                body_cbor,
                sigs[i],
            ) by {
            if accepted(keys, body_cbor, sigs, n - 1).contains(kid) {
                let i = choose|i: int|
                    0 <= i < n - 1 && (#[trigger] sigs[i]).signer_kid@ == kid && counts(
                        keys,
                        body_cbor,
                        sigs[i],
                    );
                assert(sigs[i].signer_kid@ == kid);
            }
            if now.contains(kid) && !accepted(keys, body_cbor, sigs, n - 1).contains(kid) {
                assert(sigs[n - 1].signer_kid@ == kid);
            }
        }
    }
}

/// Whoever holds fewer keys than the threshold cannot make a head that is
/// accepted: of the signers that count, at least one is none of theirs.
pub proof fn law_minority_cannot_publish(
    keyset: KeysetModel,
    head: CoSignedTreeHead,
    held: Set<Seq<char>>,
)
    requires
        held.finite(),
        held.len() < keyset.threshold,
        endorsers(keyset.keys, head).len() >= keyset.threshold,
    ensures
        exists|i: int|
            0 <= i < head.signatures@.len() && counts(
                keyset.keys,
                head.body_cbor@,
                #[trigger] head.signatures@[i],
            ) && !held.contains(head.signatures@[i].signer_kid@),
{
    let n = head.signatures@.len() as int;
    law_endorsers(keyset.keys, head.body_cbor@, head.signatures@, n);
    let all = endorsers(keyset.keys, head);
    if all.subset_of(held) {
        vstd::set_lib::lemma_len_subset(all, held);
    }
    let kid = choose|kid: Seq<char>| all.contains(kid) && !held.contains(kid);
    assert(all.contains(kid) && !held.contains(kid));
}

/// More signatures never take an accepted head's quorum away.
pub proof fn law_more_signatures_keep_quorum(
    keys: Map<Seq<char>, PublicKeyModel>,
    body_cbor: Seq<u8>,
    sigs: Seq<CoSignature>,
    more: Seq<CoSignature>,
)
    ensures
        accepted(keys, body_cbor, sigs, sigs.len() as int).subset_of(
            accepted(keys, body_cbor, sigs + more, (sigs + more).len() as int),
        ),
{
    let all = sigs + more;
    law_endorsers(keys, body_cbor, sigs, sigs.len() as int);
    law_endorsers(keys, body_cbor, all, all.len() as int);
    assert forall|kid: Seq<char>|
        accepted(keys, body_cbor, sigs, sigs.len() as int).contains(kid) implies #[trigger] accepted(
        keys,
        body_cbor,
        all,
        all.len() as int,
    ).contains(kid) by {
        let i = choose|i: int|
            0 <= i < sigs.len() && (#[trigger] sigs[i]).signer_kid@ == kid && counts(
                keys,
                body_cbor,
                sigs[i],
            );
        assert(all[i] == sigs[i]);
    }
}

/// Where distinct known signers have signed, every one of them counts: a head
/// with so many signatures meets any threshold up to their number.
pub proof fn law_every_signer_counts(
    keys: Map<Seq<char>, PublicKeyModel>,
    body_cbor: Seq<u8>,
    sigs: Seq<CoSignature>,
    n: int,
)
    requires
        0 <= n <= sigs.len(),
        forall|i: int|
            0 <= i < n ==> keys.dom().contains((#[trigger] sigs[i]).signer_kid@) && sth::signs(
                keys[sigs[i].signer_kid@],
                body_cbor,
                sigs[i].signature_b64@,
            ),
        forall|i: int, j: int|
            0 <= i < j < n ==> (#[trigger] sigs[i]).signer_kid@ != (#[trigger] sigs[j]).signer_kid@,
    ensures
        accepted(keys, body_cbor, sigs, n).len() == n,
    decreases n,
{
    if n > 0 {
        law_every_signer_counts(keys, body_cbor, sigs, n - 1);
        law_endorsers(keys, body_cbor, sigs, n - 1);
        let kid = sigs[n - 1].signer_kid@;
        if accepted(keys, body_cbor, sigs, n - 1).contains(kid) {
            let i = choose|i: int|
                0 <= i < n - 1 && (#[trigger] sigs[i]).signer_kid@ == kid && counts(
                    keys,
                    body_cbor,
                    sigs[i],
                );
            assert(sigs[i].signer_kid@ != sigs[n - 1].signer_kid@);
        }
    }
}

/// A keyset holds every key under its own identifier.
pub proof fn law_every_key_held(pairs: Seq<(String, CompositePublicKey)>, n: int, i: int)
    requires
        0 <= i < n <= pairs.len(),
        distinct_kids(pairs, n),
    ensures
        keys_of(pairs, n).dom().contains(pairs[i].0@),
        keys_of(pairs, n)[pairs[i].0@] == pairs[i].1@,
    decreases n,
{
    if i < n - 1 {
        law_every_key_held(pairs, n - 1, i);
        assert(pairs[i].0@ != pairs[n - 1].0@);
    }
}

/// A head that a known signer made counts for this signer.
pub proof fn law_made_head_counts(
    keys: Map<Seq<char>, PublicKeyModel>,
    secret: SecretKeyModel,
    body_cbor: Seq<u8>,
    sig: CoSignature,
)
    requires
        keys.dom().contains(sig.signer_kid@),
        keys[sig.signer_kid@] == composite::public_of(secret),
        envelope::sealed_by(secret, sth::sth_context(), body_cbor, sig.signature_b64@),
        !composite::degenerate(envelope::opened(sig.signature_b64@)->Ok_0),
    ensures
        counts(keys, body_cbor, sig),
{
    envelope::law_sealed_checks(secret, sth::sth_context(), body_cbor, sig.signature_b64@);
}

/// A head that enough known signers have signed is accepted. `r` is what
/// [`verify_cosigned`] gives.
pub proof fn law_quorum_accepted(
    head: &CoSignedTreeHead,
    keyset: &VerifyingKeyset,
    r: Result<SthBody, QuorumError>,
)
    requires
        call_ensures(verify_cosigned, (head, keyset), r),
        forall|i: int|
            0 <= i < head.signatures@.len() ==> keyset@.keys.dom().contains(
                (#[trigger] head.signatures@[i]).signer_kid@,
            ) && sth::signs(
                keyset@.keys[head.signatures@[i].signer_kid@],
                head.body_cbor@,
                head.signatures@[i].signature_b64@,
            ),
        forall|i: int, j: int|
            0 <= i < j < head.signatures@.len() ==> (#[trigger] head.signatures@[i]).signer_kid@
                != (#[trigger] head.signatures@[j]).signer_kid@,
        head.signatures@.len() >= keyset@.threshold,
        sth::body_from(head.body_cbor@) is Some,
    ensures
        r matches Ok(body) && sth::body_from(head.body_cbor@) == Some(body@),
{
    law_every_signer_counts(
        keyset@.keys,
        head.body_cbor@,
        head.signatures@,
        head.signatures@.len() as int,
    );
}

} // verus!
