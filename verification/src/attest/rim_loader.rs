//! Loading signed bundles into the store of measurements.

use vstd::prelude::*;
use crate::attest::rim;
use crate::attest::rim::{ApplyError, ApplyOutcome, RimModel, RimStore};
use crate::attest::rim_bundle;
use crate::crypto::composite::PublicKeyModel;
use crate::attest::rim_bundle::{BundleError, EnvelopeFault, SignedRimBundle, TrustedKeys};
use crate::primitives::encoding;

verus! {

/// What a reload did.
#[derive(Debug, Clone, PartialEq, Eq)]
pub enum ReloadOutcome {
    /// The bundle was applied.
    Applied(ApplyOutcome),
    /// The bundle is not newer than the active version; nothing changed.
    UpToDate {
        /// The active version.
        version: u64,
    },
}

/// Why a reload failed.
#[derive(Debug)]
pub enum ReloadError {
    /// The bundle could not be read.
    Io {
        /// Where it was to be read from.
        path: String,
        /// What went wrong.
        message: String,
    },
    /// The bundle does not decode or verify.
    Bundle(BundleError),
    /// The store refused the bundle.
    Apply(ApplyError),
}

/// What a reload does with a store and a bundle that was read: `before` and
/// `after` are the store's contents.
pub open spec fn reloaded(
    signed: SignedRimBundle,
    trust: Map<Seq<char>, PublicKeyModel>,
    before: RimModel,
    after: RimModel,
    r: Result<ReloadOutcome, ReloadError>,
) -> bool {
    let digest_fault = rim_bundle::first_digest_fault(signed.bundle.approved_digests_hex@, 0);
    match r {
        Ok(ReloadOutcome::Applied(o)) => {
            &&& signed.verdict(trust) is Ok
            &&& signed.bundle.version > before.last_version
            &&& signed.bundle.not_before < signed.bundle.not_after
            &&& digest_fault is None
            &&& after.last_version == signed.bundle.version == o.version
            &&& after.manual == before.manual
            &&& after.generations.len() == o.retained
            &&& o.retained + o.pruned == before.generations.len() + 1
            &&& is_generation_of(after.generations.last(), signed.bundle)
            &&& after.generations == rim::after_adding(
                before.generations,
                after.generations.last(),
            )
        },
        Ok(ReloadOutcome::UpToDate { version }) => {
            &&& signed.verdict(trust) is Ok
            &&& signed.bundle.version <= before.last_version
            &&& version == before.last_version
            &&& after == before
        },
        Err(ReloadError::Bundle(e)) => {
            &&& after == before
            &&& match signed.verdict(trust) {
                Err(EnvelopeFault::UnknownKid(kid)) => e matches BundleError::UnknownKid(k) && k@
                    == kid,
                Err(EnvelopeFault::BadSignature(f)) => e matches BundleError::BadSignature(m) && m@
                    == f,
                Ok(_) => signed.bundle.version > before.last_version && (
                e matches BundleError::BadDigest(m) && digest_fault == Some(m@)),
            }
        },
        Err(ReloadError::Apply(e)) => {
            &&& after == before
            &&& signed.verdict(trust) is Ok
            &&& signed.bundle.version > before.last_version
            &&& digest_fault is None
            &&& signed.bundle.not_before >= signed.bundle.not_after
            &&& e == (ApplyError::InvalidWindow {
                not_before: signed.bundle.not_before,
                not_after: signed.bundle.not_after,
            })
        },
        Err(ReloadError::Io { .. }) => false,
    }
}

/// Bring a bundle that was read into the store: verify it, and apply it if it
/// is newer than the active version. A bundle that is not newer is no error.
pub fn reload_bundle(
    signed: &SignedRimBundle,
    trust: &TrustedKeys,
    store: &mut RimStore,
) -> (r: Result<ReloadOutcome, ReloadError>)
    ensures
        rim::store_inv(final(store)@),
        reloaded(*signed, trust@, old(store)@, final(store)@, r),
{
    let current: u64 = store.current_version();
    let bundle = match signed.verify(trust) {
        Ok(b) => b,
        Err(e) => return Err(ReloadError::Bundle(e)),
    };
    if bundle.version <= current {
        return Ok(ReloadOutcome::UpToDate { version: current });
    }
    let generation = match bundle.to_generation() {
        Ok(g) => g,
        Err(e) => return Err(ReloadError::Bundle(e)),
    };
    match store.apply(generation) {
        Ok(o) => Ok(ReloadOutcome::Applied(o)),
        Err(e) => Err(ReloadError::Apply(e)),
    }
}

/// Where bundles come from, who may publish them, and the store they go into.
#[derive(Debug)]
pub struct RimLoader {
    path: String,
    trust: TrustedKeys,
    store: RimStore,
}

impl RimLoader {
    /// The contents of the store.
    pub closed spec fn contents(&self) -> RimModel {
        self.store@
    }

    /// The trusted publisher keys.
    pub closed spec fn trusted(&self) -> Map<Seq<char>, PublicKeyModel> {
        self.trust@
    }

    /// Where bundles are read from.
    pub closed spec fn source(&self) -> Seq<char> {
        self.path@
    }

    /// A loader.
    pub fn new(path: String, trust: TrustedKeys, store: RimStore) -> (r: Self)
        ensures
            r.source() == path@,
            r.trusted() == trust@,
            r.contents() == store@,
    {
        RimLoader { path, trust, store }
    }

    /// Where bundles are read from.
    pub fn path(&self) -> (r: &str)
        ensures
            r@ == self.source(),
    {
        self.path.as_str()
    }

    /// The store.
    pub fn store(&self) -> (r: &RimStore)
        ensures
            r@ == self.contents(),
    {
        &self.store
    }

    /// Apply the bundle that was read from the path, or hand on why it was not
    /// read or does not decode.
    pub fn try_reload(&mut self, read: Result<SignedRimBundle, ReloadError>) -> (r: Result<
        ReloadOutcome,
        ReloadError,
    >)
        ensures
            final(self).source() == old(self).source(),
            final(self).trusted() == old(self).trusted(),
            match read {
                Ok(signed) => reloaded(
                    signed,
                    old(self).trusted(),
                    old(self).contents(),
                    final(self).contents(),
                    r,
                ),
                Err(e) => r == Err::<ReloadOutcome, _>(e) && final(self).contents() == old(
                    self,
                ).contents(),
            },
    {
        match read {
            Ok(signed) => reload_bundle(&signed, &self.trust, &mut self.store),
            Err(e) => Err(e),
        }
    }
}

/// A reload never takes the store back: its version does not fall, and a
/// reload that fails or finds nothing new leaves it as it was.
pub proof fn law_reload_monotone(
    signed: SignedRimBundle,
    trust: Map<Seq<char>, PublicKeyModel>,
    before: RimModel,
    after: RimModel,
    r: Result<ReloadOutcome, ReloadError>,
)
    requires
        reloaded(signed, trust, before, after, r),
    ensures
        after.last_version >= before.last_version,
        r is Err || r->Ok_0 is UpToDate ==> after == before,
        signed.verdict(trust) is Err ==> after == before,
{
}

/// Whether a generation is the one that a bundle describes.
pub open spec fn is_generation_of(
    g: rim::GenerationModel,
    b: rim_bundle::RimBundle,
) -> bool {
    &&& g.version == b.version
    &&& g.policy_id == b.policy_id@
    &&& g.not_before == b.not_before
    &&& g.not_after == b.not_after
    &&& forall|d: [u8; 48]| #[trigger]
        g.approved.contains(d) <==> exists|i: int|
            0 <= i < b.approved_digests_hex@.len() && rim_bundle::is_digest_of(
                d,
                (#[trigger] b.approved_digests_hex@[i])@,
            )
}

/// A bundle that verifies, is newer, decodes and has a window is taken up, and
/// from then on approves each digest that it lists in lowercase hexadecimal,
/// under its policy, within its window.
pub proof fn law_listed_digest_approved(
    signed: SignedRimBundle,
    trust: Map<Seq<char>, PublicKeyModel>,
    before: RimModel,
    after: RimModel,
    r: Result<ReloadOutcome, ReloadError>,
    k: int,
    d: [u8; 48],
    now: i64,
)
    requires
        reloaded(signed, trust, before, after, r),
        signed.verdict(trust) is Ok,
        signed.bundle.version > before.last_version,
        signed.bundle.not_before <= now < signed.bundle.not_after,
        forall|i: int|
            0 <= i < signed.bundle.approved_digests_hex@.len() ==> rim_bundle::is_digest_text(
                (#[trigger] signed.bundle.approved_digests_hex@[i])@,
            ),
        0 <= k < signed.bundle.approved_digests_hex@.len(),
        signed.bundle.approved_digests_hex@[k]@ == encoding::hex_text(d@),
        !before.manual.dom().contains(d),
    ensures
        r matches Ok(ReloadOutcome::Applied(_)),
        after.last_version == signed.bundle.version,
        rim::approved_policy(after, d, Some(now)) == Some(signed.bundle.policy_id@),
{
    rim_bundle::law_bundle_decodes(signed.bundle);
    rim_bundle::law_digest_text(d, d);
    let g = after.generations.last();
    assert(rim_bundle::is_digest_of(d, signed.bundle.approved_digests_hex@[k]@));
    assert(g.approved.contains(d));
}

} // verus!
