//! TPM vendor roots and the chain from an endorsement-key certificate to one
//! of them.

use vstd::prelude::*;
use vstd::slice::slice_to_vec;
use crate::primitives::bytes::bytes_equal;
use crate::primitives::text::joined;
use crate::primitives::x509;

verus! {

/// A TPM vendor whose roots can be trusted.
#[derive(Debug, Clone, Copy, PartialEq, Eq, Hash)]
pub enum Vendor {
    /// Infineon OPTIGA.
    Infineon,
    /// Nuvoton.
    Nuvoton,
    /// STMicroelectronics.
    St,
    /// Intel PTT (firmware TPM).
    IntelPtt,
}

impl Vendor {
    /// All vendors.
    pub const ALL: [Vendor; 4] = [Vendor::Infineon, Vendor::Nuvoton, Vendor::St, Vendor::IntelPtt];

    /// The name of the vendor in audit records.
    pub fn name(self) -> (r: &'static str)
        ensures
            r@ == match self {
                Vendor::Infineon => "infineon"@,
                Vendor::Nuvoton => "nuvoton"@,
                Vendor::St => "st"@,
                Vendor::IntelPtt => "intel-ptt"@,
            },
    {
        match self {
            Vendor::Infineon => "infineon",
            Vendor::Nuvoton => "nuvoton",
            Vendor::St => "st",
            Vendor::IntelPtt => "intel-ptt",
        }
    }
}

/// The PEM roots that an operator provisions, by vendor.
#[derive(Debug, Clone, PartialEq, Eq)]
pub struct VendorRoots {
    /// Of Infineon.
    pub infineon: String,
    /// Of Nuvoton.
    pub nuvoton: String,
    /// Of STMicroelectronics.
    pub st: String,
    /// Of Intel.
    pub intel: String,
}

/// A PEM text with another one after it, closed with a line feed.
pub open spec fn with_pem(bundle: Seq<char>, pem: Seq<char>) -> Seq<char> {
    let all = bundle + pem;
    if all.len() > 0 && all.last() == '\n' {
        all
    } else {
        all.push('\n')
    }
}

impl VendorRoots {
    /// The PEM text of a vendor.
    pub open spec fn pem_of(&self, vendor: Vendor) -> Seq<char> {
        match vendor {
            Vendor::Infineon => self.infineon@,
            Vendor::Nuvoton => self.nuvoton@,
            Vendor::St => self.st@,
            Vendor::IntelPtt => self.intel@,
        }
    }

    /// No roots: nothing is trusted until an operator provisions one.
    pub fn none() -> (r: Self)
        ensures
            forall|v: Vendor| #[trigger] r.pem_of(v) == ""@,
    {
        proof {
            reveal_strlit("");
        }
        VendorRoots {
            infineon: "".to_owned(),
            nuvoton: "".to_owned(),
            st: "".to_owned(),
            intel: "".to_owned(),
        }
    }

    /// The PEM text of a vendor.
    pub fn pem(&self, vendor: Vendor) -> (r: &str)
        ensures
            r@ == self.pem_of(vendor),
    {
        match vendor {
            Vendor::Infineon => self.infineon.as_str(),
            Vendor::Nuvoton => self.nuvoton.as_str(),
            Vendor::St => self.st.as_str(),
            Vendor::IntelPtt => self.intel.as_str(),
        }
    }

    /// Add a PEM text to those of a vendor.
    pub fn provision(&mut self, vendor: Vendor, pem: &str)
        ensures
            forall|v: Vendor|
                #![trigger final(self).pem_of(v)]
                final(self).pem_of(v) == (if v == vendor {
                    with_pem(old(self).pem_of(v), pem@)
                } else {
                    old(self).pem_of(v)
                }),
    {
        let mut bundle = joined(self.pem(vendor), pem);
        let n: usize = bundle.as_str().unicode_len();
        if n == 0 || bundle.as_str().get_char(n - 1) != '\n' {
            let ghost before = bundle@;
            bundle = joined(bundle.as_str(), "\n");
            proof {
                reveal_strlit("\n");
            }
            assert(bundle@ =~= before.push('\n'));
        }
        match vendor {
            Vendor::Infineon => {
                self.infineon = bundle;
            },
            Vendor::Nuvoton => {
                self.nuvoton = bundle;
            },
            Vendor::St => {
                self.st = bundle;
            },
            Vendor::IntelPtt => {
                self.intel = bundle;
            },
        }
    }
}

/// Why an endorsement-key certificate does not chain to a trusted root.
#[derive(Debug, Clone, PartialEq, Eq)]
pub enum ChainError {
    /// A certificate does not parse.
    Malformed(String),
    /// No issuer of some certificate is among the intermediates and roots.
    NoIssuer,
    /// A signature in the path does not verify.
    BadSignature,
    /// A certificate in the path is outside its validity window.
    Expired,
    /// The path is too long.
    TooDeep,
    /// There are no roots.
    EmptyStore,
}

/// The contents of a [`ChainError`].
pub enum ChainFault {
    Malformed(Seq<char>),
    NoIssuer,
    BadSignature,
    Expired,
    TooDeep,
    EmptyStore,
}

impl View for ChainError {
    type V = ChainFault;

    open spec fn view(&self) -> ChainFault {
        match self {
            ChainError::Malformed(m) => ChainFault::Malformed(m@),
            ChainError::NoIssuer => ChainFault::NoIssuer,
            ChainError::BadSignature => ChainFault::BadSignature,
            ChainError::Expired => ChainFault::Expired,
            ChainError::TooDeep => ChainFault::TooDeep,
            ChainError::EmptyStore => ChainFault::EmptyStore,
        }
    }
}

/// A trusted root.
struct Root {
    der: Vec<u8>,
    vendor: Vendor,
}

/// The contents of a trusted root.
pub struct RootModel {
    pub der: Seq<u8>,
    pub vendor: Vendor,
}

/// The trusted vendor roots.
pub struct VendorTrustStore {
    roots: Vec<Root>,
}

/// The outcome of a successful chain check.
#[derive(Debug, Clone, Copy, PartialEq, Eq)]
pub struct VendorMatch {
    /// The vendor whose root ended the chain.
    pub vendor: Vendor,
}

/// How many certificates a path may hold before a root must be reached.
pub const MAX_CHAIN_DEPTH: usize = 8;

/// The first certificate from position `i` on that issued `child`: its subject
/// is `issuer` and its key made the signature. A certificate that does not
/// parse ends the search with what is said of it.
pub open spec fn issuer_from(
    certs: Seq<Seq<u8>>,
    i: nat,
    issuer: Seq<u8>,
    child: Seq<u8>,
) -> Result<Option<nat>, Seq<char>>
    decreases certs.len() - i,
{
    if i >= certs.len() {
        Ok(None)
    } else {
        match x509::x509_facts(certs[i as int]) {
            Err(e) => Err(e),
            Ok(f) => if f.subject == issuer && x509::x509_signed_by(child, certs[i as int]) {
                Ok(Some(i))
            } else {
                issuer_from(certs, i + 1, issuer, child)
            },
        }
    }
}

/// The position of the first root that equals `der`, from position `i` on.
pub open spec fn same_root_from(roots: Seq<RootModel>, i: nat, der: Seq<u8>) -> Option<nat>
    decreases roots.len() - i,
{
    if i >= roots.len() {
        None
    } else if roots[i as int].der == der {
        Some(i)
    } else {
        same_root_from(roots, i + 1, der)
    }
}

/// The encodings of the roots.
pub open spec fn root_ders(roots: Seq<RootModel>) -> Seq<Seq<u8>> {
    roots.map_values(|r: RootModel| r.der)
}

/// What the check says of certificate `cert`, with `depth` certificates left
/// to go through.
pub open spec fn chain_from(
    roots: Seq<RootModel>,
    intermediates: Seq<Seq<u8>>,
    now: i64,
    cert: Seq<u8>,
    depth: nat,
) -> Result<Vendor, ChainFault>
    decreases depth,
{
    if depth == 0 {
        Err(ChainFault::TooDeep)
    } else {
        match x509::x509_facts(cert) {
            Err(e) => Err(ChainFault::Malformed(e)),
            Ok(f) => if now < f.not_before || now > f.not_after {
                Err(ChainFault::Expired)
            } else if f.subject == f.issuer && same_root_from(roots, 0, cert) is Some {
                Ok(roots[same_root_from(roots, 0, cert)->0 as int].vendor)
            } else {
                match issuer_from(root_ders(roots), 0, f.issuer, cert) {
                    Err(e) => Err(ChainFault::Malformed(e)),
                    Ok(Some(i)) => Ok(roots[i as int].vendor),
                    Ok(None) => match issuer_from(intermediates, 0, f.issuer, cert) {
                        Err(e) => Err(ChainFault::Malformed(e)),
                        Ok(None) => Err(ChainFault::NoIssuer),
                        Ok(Some(i)) => if f.subject == f.issuer {
                            Err(ChainFault::NoIssuer)
                        } else {
                            chain_from(
                                roots,
                                intermediates,
                                now,
                                intermediates[i as int],
                                (depth - 1) as nat,
                            )
                        },
                    },
                }
            },
        }
    }
}

/// What the check says of an endorsement-key certificate.
pub open spec fn chain_verdict(
    roots: Seq<RootModel>,
    ek: Seq<u8>,
    intermediates: Seq<Seq<u8>>,
    now: i64,
) -> Result<Vendor, ChainFault> {
    if roots.len() == 0 {
        Err(ChainFault::EmptyStore)
    } else {
        chain_from(roots, intermediates, now, ek, MAX_CHAIN_DEPTH as nat)
    }
}

/// What adding the PEM blocks from position `i` on gives: the store's roots
/// after it, and the fault that stopped it. Blocks before the fault stay.
pub open spec fn pem_added(
    roots: Seq<RootModel>,
    blocks: Seq<Result<Seq<u8>, Seq<char>>>,
    i: nat,
    vendor: Vendor,
) -> (Seq<RootModel>, Option<Seq<char>>)
    decreases blocks.len() - i,
{
    if i >= blocks.len() {
        (roots, None)
    } else {
        match blocks[i as int] {
            Err(e) => (roots, Some(e)),
            Ok(der) => match x509::x509_facts(der) {
                Err(e) => (roots, Some(e)),
                Ok(_) => pem_added(roots.push(RootModel { der, vendor }), blocks, i + 1, vendor),
            },
        }
    }
}

/// The certificates as sequences.
pub open spec fn cert_views(certs: Seq<Vec<u8>>) -> Seq<Seq<u8>> {
    certs.map_values(|c: Vec<u8>| c@)
}

impl View for VendorTrustStore {
    type V = Seq<RootModel>;

    closed spec fn view(&self) -> Seq<RootModel> {
        self.roots@.map_values(|r: Root| RootModel { der: r.der@, vendor: r.vendor })
    }
}

impl Default for VendorTrustStore {
    fn default() -> (r: Self)
        ensures
            r@ == Seq::<RootModel>::empty(),
    {
        VendorTrustStore::new()
    }
}

impl VendorTrustStore {
    /// An empty store.
    pub fn new() -> (r: Self)
        ensures
            r@ == Seq::<RootModel>::empty(),
    {
        let r = VendorTrustStore { roots: Vec::new() };
        assert(r@ =~= Seq::<RootModel>::empty());
        r
    }

    /// A store with the roots that are provisioned for every vendor.
    pub fn bundled(provisioned: &VendorRoots) -> (r: Result<Self, ChainError>)
        ensures
            match r {
                Ok(store) => bundled_after(*provisioned, Vendor::ALL@, 4) == Ok::<_, ChainFault>(
                    store@,
                ),
                Err(e) => bundled_after(*provisioned, Vendor::ALL@, 4) == Err::<
                    Seq<RootModel>,
                    _,
                >(e@),
            },
    {
        let mut store = VendorTrustStore::new();
        let all = Vendor::ALL;
        let mut i: usize = 0;
        while i < 4
            invariant
                i <= 4,
                all@ == Vendor::ALL@,
                bundled_after(*provisioned, all@, i as nat) == Ok::<_, ChainFault>(store@),
            decreases 4 - i,
        {
            let v = all[i];
            if let Err(e) = store.load_vendor(provisioned, v) {
                proof {
                    lemma_bundled_err(*provisioned, all@, (i + 1) as nat, 4);
                }
                return Err(e);
            }
            i += 1;
        }
        Ok(store)
    }

    /// A store with the roots that are provisioned for one vendor.
    pub fn with_vendor(provisioned: &VendorRoots, vendor: Vendor) -> (r: Result<Self, ChainError>)
        ensures
            ({
                let after = pem_added(
                    Seq::empty(),
                    provisioned_blocks(*provisioned, vendor),
                    0,
                    vendor,
                );
                match (r, after.1) {
                    (Ok(store), None) => store@ == after.0,
                    (Err(e), Some(fault)) => e@ == ChainFault::Malformed(fault),
                    _ => false,
                }
            }),
    {
        let mut store = VendorTrustStore::new();
        match store.load_vendor(provisioned, vendor) {
            Ok(()) => Ok(store),
            Err(e) => Err(e),
        }
    }

    /// Add the roots that are provisioned for one vendor.
    pub fn load_vendor(&mut self, provisioned: &VendorRoots, vendor: Vendor) -> (r: Result<
        (),
        ChainError,
    >)
        ensures
            ({
                let after = pem_added(
                    old(self)@,
                    provisioned_blocks(*provisioned, vendor),
                    0,
                    vendor,
                );
                final(self)@ == after.0 && match (r, after.1) {
                    (Ok(_), None) => true,
                    (Err(e), Some(fault)) => e@ == ChainFault::Malformed(fault),
                    _ => false,
                }
            }),
    {
        self.add_root_pem(provisioned.pem(vendor).as_bytes(), vendor)
    }

    /// Add the roots of a PEM text for a vendor, block by block up to the
    /// first that is no certificate.
    pub fn add_root_pem(&mut self, pem: &[u8], vendor: Vendor) -> (r: Result<(), ChainError>)
        ensures
            final(self)@ == pem_added(old(self)@, x509::pem_blocks_of(pem@), 0, vendor).0,
            match (r, pem_added(old(self)@, x509::pem_blocks_of(pem@), 0, vendor).1) {
                (Ok(_), None) => true,
                (Err(e), Some(fault)) => e@ == ChainFault::Malformed(fault),
                _ => false,
            },
    {
        let blocks = x509::pem_blocks(pem);
        let ghost model = x509::pem_blocks_of(pem@);
        let mut i: usize = 0;
        while i < blocks.len()
            invariant
                i <= blocks@.len(),
                model == x509::blocks_view(blocks@),
                model == x509::pem_blocks_of(pem@),
                pem_added(old(self)@, model, 0, vendor) == pem_added(
                    self@,
                    model,
                    i as nat,
                    vendor,
                ),
            decreases blocks@.len() - i,
        {
            match &blocks[i] {
                Ok(der) => {
                    if let Err(e) = self.add_root_der(der.as_slice(), vendor) {
                        return Err(e);
                    }
                },
                Err(e) => {
                    return Err(ChainError::Malformed(e.clone()));
                },
            }
            i += 1;
        }
        Ok(())
    }

    /// Add one root, if it parses.
    pub fn add_root_der(&mut self, der: &[u8], vendor: Vendor) -> (r: Result<(), ChainError>)
        ensures
            match (r, x509::x509_facts(der@)) {
                (Ok(_), Ok(_)) => final(self)@ == old(self)@.push(RootModel { der: der@, vendor }),
                (Err(e), Err(fault)) => e@ == ChainFault::Malformed(fault) && final(self)@ == old(
                    self,
                )@,
                _ => false,
            },
    {
        match x509::x509_parse(der) {
            Ok(_) => {
                self.roots.push(Root { der: slice_to_vec(der), vendor });
                assert(self@ =~= old(self)@.push(RootModel { der: der@, vendor }));
                Ok(())
            },
            Err(e) => Err(ChainError::Malformed(e)),
        }
    }

    /// The number of trusted roots.
    pub fn len(&self) -> (r: usize)
        ensures
            r == self@.len(),
    {
        self.roots.len()
    }

    /// Whether there are no roots.
    pub fn is_empty(&self) -> (r: bool)
        ensures
            r == (self@.len() == 0),
    {
        self.roots.is_empty()
    }

    /// Verify that `ek_der` chains by signature to a trusted root, over
    /// certificates of `intermediates`, each valid at `now` (Unix seconds).
    /// Trusted roots are preferred as issuers.
    pub fn verify_ek_chain(&self, ek_der: &[u8], intermediates: &[Vec<u8>], now: i64) -> (r: Result<
        VendorMatch,
        ChainError,
    >)
        ensures
            match r {
                Ok(m) => chain_verdict(self@, ek_der@, cert_views(intermediates@), now) == Ok::<
                    _,
                    ChainFault,
                >(m.vendor),
                Err(e) => chain_verdict(self@, ek_der@, cert_views(intermediates@), now) == Err::<
                    Vendor,
                    _,
                >(e@),
            },
    {
        if self.roots.is_empty() {
            return Err(ChainError::EmptyStore);
        }
        let ghost inter = cert_views(intermediates@);
        let ghost verdict = chain_verdict(self@, ek_der@, inter, now);
        let mut current = slice_to_vec(ek_der);
        let mut depth: usize = MAX_CHAIN_DEPTH;
        while depth > 0
            invariant
                inter == cert_views(intermediates@),
                verdict == chain_verdict(self@, ek_der@, inter, now),
                verdict == chain_from(self@, inter, now, current@, depth as nat),
            decreases depth,
        {
            let facts = match x509::x509_parse(current.as_slice()) {
                Ok(f) => f,
                Err(e) => return Err(ChainError::Malformed(e)),
            };
            if now < facts.not_before || now > facts.not_after {
                return Err(ChainError::Expired);
            }
            let self_issued: bool = bytes_equal(facts.subject.as_slice(), facts.issuer.as_slice());
            if self_issued {
                if let Some(vendor) = self.matching_root_vendor(current.as_slice()) {
                    return Ok(VendorMatch { vendor });
                }
            }
            match self.issuer_root_for(facts.issuer.as_slice(), current.as_slice()) {
                Err(e) => return Err(e),
                Ok(Some(vendor)) => return Ok(VendorMatch { vendor }),
                Ok(None) => {},
            }
            match issuer_intermediate_for(
                facts.issuer.as_slice(),
                current.as_slice(),
                intermediates,
            ) {
                Err(e) => return Err(e),
                Ok(None) => return Err(ChainError::NoIssuer),
                Ok(Some(i)) => {
                    if self_issued {
                        return Err(ChainError::NoIssuer);
                    }
                    current = slice_to_vec(intermediates[i].as_slice());
                },
            }
            depth -= 1;
        }
        Err(ChainError::TooDeep)
    }

    /// The vendor of the first root that equals `der`.
    fn matching_root_vendor(&self, der: &[u8]) -> (r: Option<Vendor>)
        ensures
            match r {
                Some(v) => same_root_from(self@, 0, der@) matches Some(i) && i < self@.len()
                    && self@[i as int].vendor == v,
                None => same_root_from(self@, 0, der@) is None,
            },
    {
        let mut i: usize = 0;
        while i < self.roots.len()
            invariant
                i <= self.roots@.len(),
                self@.len() == self.roots@.len(),
                same_root_from(self@, 0, der@) == same_root_from(self@, i as nat, der@),
            decreases self.roots@.len() - i,
        {
            assert(self@[i as int].der == self.roots@[i as int].der@);
            if bytes_equal(self.roots[i].der.as_slice(), der) {
                return Some(self.roots[i].vendor);
            }
            i += 1;
        }
        None
    }

    /// The vendor of the first root that issued `child`.
    fn issuer_root_for(&self, issuer: &[u8], child: &[u8]) -> (r: Result<
        Option<Vendor>,
        ChainError,
    >)
        ensures
            match (r, issuer_from(root_ders(self@), 0, issuer@, child@)) {
                (Ok(Some(v)), Ok(Some(i))) => i < self@.len() && self@[i as int].vendor == v,
                (Ok(None), Ok(None)) => true,
                (Err(e), Err(fault)) => e@ == ChainFault::Malformed(fault),
                _ => false,
            },
    {
        let ghost ders = root_ders(self@);
        let mut i: usize = 0;
        while i < self.roots.len()
            invariant
                i <= self.roots@.len(),
                self@.len() == self.roots@.len(),
                ders == root_ders(self@),
                issuer_from(ders, 0, issuer@, child@) == issuer_from(
                    ders,
                    i as nat,
                    issuer@,
                    child@,
                ),
            decreases self.roots@.len() - i,
        {
            let der = self.roots[i].der.as_slice();
            assert(ders[i as int] == der@);
            match x509::x509_parse(der) {
                Ok(f) => {
                    if bytes_equal(f.subject.as_slice(), issuer) && x509::x509_verify_signature(
                        child,
                        der,
                    ) {
                        return Ok(Some(self.roots[i].vendor));
                    }
                },
                Err(e) => return Err(ChainError::Malformed(e)),
            }
            i += 1;
        }
        Ok(None)
    }
}

/// The position of the first intermediate that issued `child`.
fn issuer_intermediate_for(issuer: &[u8], child: &[u8], intermediates: &[Vec<u8>]) -> (r: Result<
    Option<usize>,
    ChainError,
>)
    ensures
        match (r, issuer_from(cert_views(intermediates@), 0, issuer@, child@)) {
            (Ok(Some(i)), Ok(Some(j))) => i == j && i < intermediates@.len(),
            (Ok(None), Ok(None)) => true,
            (Err(e), Err(fault)) => e@ == ChainFault::Malformed(fault),
            _ => false,
        },
{
    let ghost certs = cert_views(intermediates@);
    let mut i: usize = 0;
    while i < intermediates.len()
        invariant
            i <= intermediates@.len(),
            certs == cert_views(intermediates@),
            issuer_from(certs, 0, issuer@, child@) == issuer_from(
                certs,
                i as nat,
                issuer@,
                child@,
            ),
        decreases intermediates@.len() - i,
    {
        let der = intermediates[i].as_slice();
        assert(certs[i as int] == der@);
        match x509::x509_parse(der) {
            Ok(f) => {
                if bytes_equal(f.subject.as_slice(), issuer) && x509::x509_verify_signature(
                    child,
                    der,
                ) {
                    return Ok(Some(i));
                }
            },
            Err(e) => return Err(ChainError::Malformed(e)),
        }
        i += 1;
    }
    Ok(None)
}

/// The blocks of the PEM text that is provisioned for a vendor.
pub open spec fn provisioned_blocks(provisioned: VendorRoots, vendor: Vendor) -> Seq<
    Result<Seq<u8>, Seq<char>>,
> {
    x509::pem_blocks_of(vstd::utf8::encode_utf8(provisioned.pem_of(vendor)))
}

/// The roots after loading the first `n` vendors, or the first fault.
pub open spec fn bundled_after(provisioned: VendorRoots, vendors: Seq<Vendor>, n: nat) -> Result<
    Seq<RootModel>,
    ChainFault,
>
    decreases n,
{
    if n == 0 {
        Ok(Seq::empty())
    } else {
        match bundled_after(provisioned, vendors, (n - 1) as nat) {
            Err(e) => Err(e),
            Ok(roots) => match pem_added(
                roots,
                provisioned_blocks(provisioned, vendors[n - 1]),
                0,
                vendors[n - 1],
            ) {
                (_, Some(fault)) => Err(ChainFault::Malformed(fault)),
                (after, None) => Ok(after),
            },
        }
    }
}

proof fn lemma_bundled_err(provisioned: VendorRoots, vendors: Seq<Vendor>, n: nat, m: nat)
    requires
        n <= m,
        bundled_after(provisioned, vendors, n) is Err,
    ensures
        bundled_after(provisioned, vendors, m) == bundled_after(provisioned, vendors, n),
    decreases m,
{
    if n < m {
        lemma_bundled_err(provisioned, vendors, n, (m - 1) as nat);
    }
}

/// Whether certificate `issuer` issued `child`: the names link and the
/// signature verifies.
pub open spec fn issued(child: Seq<u8>, issuer: Seq<u8>) -> bool {
    &&& x509::x509_facts(child) is Ok
    &&& x509::x509_facts(issuer) is Ok
    &&& x509::x509_facts(issuer)->Ok_0.subject == x509::x509_facts(child)->Ok_0.issuer
    &&& x509::x509_signed_by(child, issuer)
}

/// Whether a certificate parses and is within its validity window.
pub open spec fn valid_at(cert: Seq<u8>, now: i64) -> bool {
    x509::x509_facts(cert) matches Ok(f) && f.not_before <= now <= f.not_after
}

/// Whether `path` leads from its first certificate to a root of `vendor`: all
/// of it is valid at `now`, each certificate was issued by the next, and the
/// last one is a root of the vendor or was issued by one.
pub open spec fn is_chain(
    roots: Seq<RootModel>,
    path: Seq<Seq<u8>>,
    now: i64,
    vendor: Vendor,
) -> bool {
    &&& path.len() > 0
    &&& forall|i: int| 0 <= i < path.len() ==> valid_at(#[trigger] path[i], now)
    &&& forall|i: int| 0 <= i < path.len() - 1 ==> issued(#[trigger] path[i], path[i + 1])
    &&& exists|r: int|
        0 <= r < roots.len() && (#[trigger] roots[r]).vendor == vendor && (roots[r].der
            == path.last() || issued(path.last(), roots[r].der))
}

/// An accepted certificate really chains to a root of the vendor that is
/// reported: a path of at most [`MAX_CHAIN_DEPTH`] certificates is returned,
/// which starts with it and goes on over intermediates.
pub proof fn law_accepted_chain(
    roots: Seq<RootModel>,
    ek: Seq<u8>,
    intermediates: Seq<Seq<u8>>,
    now: i64,
    vendor: Vendor,
) -> (path: Seq<Seq<u8>>)
    requires
        chain_verdict(roots, ek, intermediates, now) == Ok::<_, ChainFault>(vendor),
    ensures
        is_chain(roots, path, now, vendor),
        path[0] == ek,
        path.len() <= MAX_CHAIN_DEPTH,
        forall|i: int| 0 < i < path.len() ==> intermediates.contains(#[trigger] path[i]),
{
    lemma_chain(roots, intermediates, now, ek, MAX_CHAIN_DEPTH as nat, vendor)
}

proof fn lemma_issuer_from(certs: Seq<Seq<u8>>, i: nat, issuer: Seq<u8>, child: Seq<u8>)
    ensures
        issuer_from(certs, i, issuer, child) matches Ok(Some(j)) ==> i <= j < certs.len()
            && x509::x509_signed_by(child, certs[j as int]) && (x509::x509_facts(
            certs[j as int],
        ) matches Ok(f) && f.subject == issuer),
    decreases certs.len() - i,
{
    if i < certs.len() {
        lemma_issuer_from(certs, i + 1, issuer, child);
    }
}

proof fn lemma_same_root_from(roots: Seq<RootModel>, i: nat, der: Seq<u8>)
    ensures
        same_root_from(roots, i, der) matches Some(j) ==> i <= j < roots.len()
            && roots[j as int].der == der,
    decreases roots.len() - i,
{
    if i < roots.len() {
        lemma_same_root_from(roots, i + 1, der);
    }
}

proof fn lemma_chain(
    roots: Seq<RootModel>,
    intermediates: Seq<Seq<u8>>,
    now: i64,
    cert: Seq<u8>,
    depth: nat,
    vendor: Vendor,
) -> (path: Seq<Seq<u8>>)
    requires
        chain_from(roots, intermediates, now, cert, depth) == Ok::<_, ChainFault>(vendor),
    ensures
        is_chain(roots, path, now, vendor),
        path[0] == cert,
        path.len() <= depth,
        forall|i: int| 0 < i < path.len() ==> intermediates.contains(#[trigger] path[i]),
    decreases depth,
{
    let f = x509::x509_facts(cert)->Ok_0;
    let one = seq![cert];
    lemma_same_root_from(roots, 0, cert);
    lemma_issuer_from(root_ders(roots), 0, f.issuer, cert);
    lemma_issuer_from(intermediates, 0, f.issuer, cert);
    assert(valid_at(cert, now));
    if f.subject == f.issuer && same_root_from(roots, 0, cert) is Some {
        let r = same_root_from(roots, 0, cert)->0 as int;
        assert(roots[r].vendor == vendor && roots[r].der == one.last());
        one
    } else {
        match issuer_from(root_ders(roots), 0, f.issuer, cert) {
            Ok(Some(i)) => {
                assert(roots[i as int].vendor == vendor);
                assert(root_ders(roots)[i as int] == roots[i as int].der);
                assert(issued(one.last(), roots[i as int].der));
                one
            },
            _ => {
                let i = issuer_from(intermediates, 0, f.issuer, cert)->Ok_0->0;
                let next = intermediates[i as int];
                let tail = lemma_chain(
                    roots,
                    intermediates,
                    now,
                    next,
                    (depth - 1) as nat,
                    vendor,
                );
                let path = one + tail;
                assert(path.last() == tail.last());
                assert forall|j: int| 0 <= j < path.len() implies valid_at(
                    #[trigger] path[j],
                    now,
                ) by {
                    if j > 0 {
                        assert(path[j] == tail[j - 1]);
                    }
                }
                assert forall|j: int| 0 <= j < path.len() - 1 implies issued(
                    #[trigger] path[j],
                    path[j + 1],
                ) by {
                    assert(path[j + 1] == tail[j]);
                    if j > 0 {
                        assert(path[j] == tail[j - 1]);
                        assert(tail[j] == tail[(j - 1) + 1]);
                    }
                }
                assert forall|j: int| 0 < j < path.len() implies intermediates.contains(
                    #[trigger] path[j],
                ) by {
                    assert(path[j] == tail[j - 1]);
                }
                path
            },
        }
    }
}

/// Whether a certificate names itself as its issuer.
pub open spec fn self_issued(cert: Seq<u8>) -> bool {
    x509::x509_facts(cert) matches Ok(f) && f.subject == f.issuer
}

/// Whether a root vouches for a certificate: it issued the certificate, or it is
/// that certificate, which then names itself as its issuer.
pub open spec fn anchors(root: RootModel, cert: Seq<u8>) -> bool {
    issued(cert, root.der) || (self_issued(cert) && root.der == cert)
}

/// Whether everything that is trusted or presented parses.
pub open spec fn all_parse(roots: Seq<RootModel>, intermediates: Seq<Seq<u8>>) -> bool {
    &&& forall|r: int| 0 <= r < roots.len() ==> x509::x509_facts((#[trigger] roots[r]).der) is Ok
    &&& forall|k: int|
        0 <= k < intermediates.len() ==> x509::x509_facts(#[trigger] intermediates[k]) is Ok
}

/// Whether `next` is the one certificate among those presented that issued
/// `cert`.
pub open spec fn only_issuer(intermediates: Seq<Seq<u8>>, cert: Seq<u8>, next: Seq<u8>) -> bool {
    &&& intermediates.contains(next)
    &&& issued(cert, next)
    &&& forall|k: int|
        0 <= k < intermediates.len() && issued(cert, #[trigger] intermediates[k])
            ==> intermediates[k] == next
}

proof fn lemma_issuer_found(certs: Seq<Seq<u8>>, i: nat, child: Seq<u8>)
    requires
        x509::x509_facts(child) is Ok,
        forall|k: int| 0 <= k < certs.len() ==> x509::x509_facts(#[trigger] certs[k]) is Ok,
    ensures
        match issuer_from(certs, i, x509::x509_facts(child)->Ok_0.issuer, child) {
            Ok(Some(j)) => i <= j < certs.len() && issued(child, certs[j as int]) && forall|k: int|
                i <= k < j ==> !issued(child, #[trigger] certs[k]),
            Ok(None) => forall|k: int|
                i <= k < certs.len() ==> !issued(child, #[trigger] certs[k]),
            Err(_) => false,
        },
    decreases certs.len() - i,
{
    if i < certs.len() {
        assert(x509::x509_facts(certs[i as int]) is Ok);
        if !issued(child, certs[i as int]) {
            lemma_issuer_found(certs, i + 1, child);
        }
    }
}

proof fn lemma_same_root_found(roots: Seq<RootModel>, i: nat, der: Seq<u8>)
    ensures
        match same_root_from(roots, i, der) {
            Some(j) => i <= j < roots.len() && roots[j as int].der == der,
            None => forall|k: int| i <= k < roots.len() ==> (#[trigger] roots[k]).der != der,
        },
    decreases roots.len() - i,
{
    if i < roots.len() && roots[i as int].der != der {
        lemma_same_root_found(roots, i + 1, der);
    }
}

/// What the check says of one certificate in the middle of a path or at its
/// end.
proof fn lemma_one_step(
    roots: Seq<RootModel>,
    intermediates: Seq<Seq<u8>>,
    now: i64,
    cert: Seq<u8>,
    depth: nat,
)
    requires
        all_parse(roots, intermediates),
        valid_at(cert, now),
        depth > 0,
    ensures
        (exists|r: int| 0 <= r < roots.len() && anchors(#[trigger] roots[r], cert)) ==> exists|
            r: int,
        |
            0 <= r < roots.len() && anchors(#[trigger] roots[r], cert) && chain_from(
                roots,
                intermediates,
                now,
                cert,
                depth,
            ) == Ok::<_, ChainFault>(roots[r].vendor),
        (forall|r: int| 0 <= r < roots.len() ==> !anchors(#[trigger] roots[r], cert)) ==> {
            &&& (forall|next: Seq<u8>|
                #![trigger only_issuer(intermediates, cert, next)]
                only_issuer(intermediates, cert, next) && !self_issued(cert) ==> chain_from(
                    roots,
                    intermediates,
                    now,
                    cert,
                    depth,
                ) == chain_from(roots, intermediates, now, next, (depth - 1) as nat))
            &&& (forall|k: int|
                0 <= k < intermediates.len() ==> !issued(cert, #[trigger] intermediates[k]))
                ==> chain_from(roots, intermediates, now, cert, depth) == Err::<Vendor, _>(
                ChainFault::NoIssuer,
            )
        },
{
    let ders = root_ders(roots);
    assert forall|k: int| 0 <= k < ders.len() implies x509::x509_facts(#[trigger] ders[k]) is Ok by {
        assert(ders[k] == roots[k].der);
    }
    lemma_same_root_found(roots, 0, cert);
    lemma_issuer_found(ders, 0, cert);
    lemma_issuer_found(intermediates, 0, cert);
    let f = x509::x509_facts(cert)->Ok_0;
    if self_issued(cert) && same_root_from(roots, 0, cert) is Some {
        assert(anchors(roots[same_root_from(roots, 0, cert)->0 as int], cert));
    } else {
        match issuer_from(ders, 0, f.issuer, cert)->Ok_0 {
            Some(j) => {
                assert(ders[j as int] == roots[j as int].der);
                assert(anchors(roots[j as int], cert));
            },
            None => {
                assert forall|r: int| 0 <= r < roots.len() implies !anchors(
                    #[trigger] roots[r],
                    cert,
                ) by {
                    assert(ders[r] == roots[r].der);
                }
                assert forall|next: Seq<u8>|
                    #![trigger only_issuer(intermediates, cert, next)]
                    only_issuer(intermediates, cert, next) && !self_issued(cert) implies chain_from(
                    roots,
                    intermediates,
                    now,
                    cert,
                    depth,
                ) == chain_from(roots, intermediates, now, next, (depth - 1) as nat) by {
                    let k = choose|k: int| 0 <= k < intermediates.len() && intermediates[k] == next;
                    assert(issued(cert, intermediates[k]));
                }
            },
        }
    }
}

proof fn lemma_path_accepted(
    roots: Seq<RootModel>,
    path: Seq<Seq<u8>>,
    intermediates: Seq<Seq<u8>>,
    now: i64,
    vendor: Vendor,
    depth: nat,
)
    requires
        all_parse(roots, intermediates),
        0 < path.len() <= depth,
        forall|i: int| 0 <= i < path.len() ==> valid_at(#[trigger] path[i], now),
        forall|i: int|
            0 <= i < path.len() - 1 ==> only_issuer(intermediates, #[trigger] path[i], path[i + 1])
                && !self_issued(path[i]),
        exists|r: int| 0 <= r < roots.len() && anchors(#[trigger] roots[r], path.last()),
        forall|i: int, r: int|
            0 <= i < path.len() && 0 <= r < roots.len() && #[trigger] anchors(roots[r], path[i])
                ==> roots[r].vendor == vendor,
    ensures
        chain_from(roots, intermediates, now, path[0], depth) == Ok::<_, ChainFault>(vendor),
    decreases path.len(),
{
    lemma_one_step(roots, intermediates, now, path[0], depth);
    if path.len() > 1 && forall|r: int|
        0 <= r < roots.len() ==> !anchors(#[trigger] roots[r], path[0]) {
        let rest = path.drop_first();
        assert(only_issuer(intermediates, path[0], path[1]));
        assert forall|i: int| 0 <= i < rest.len() implies valid_at(#[trigger] rest[i], now) by {
            assert(rest[i] == path[i + 1]);
        }
        assert forall|i: int| 0 <= i < rest.len() - 1 implies only_issuer(
            intermediates,
            #[trigger] rest[i],
            rest[i + 1],
        ) && !self_issued(rest[i]) by {
            assert(rest[i] == path[i + 1]);
            assert(rest[i + 1] == path[i + 2]);
        }
        assert forall|i: int, r: int|
            0 <= i < rest.len() && 0 <= r < roots.len() && #[trigger] anchors(
                roots[r],
                rest[i],
            ) implies roots[r].vendor == vendor by {
            assert(rest[i] == path[i + 1]);
        }
        assert(rest.last() == path.last());
        lemma_path_accepted(roots, rest, intermediates, now, vendor, (depth - 1) as nat);
    }
}

/// The check finds a chain where there is one: a certificate from which a path
/// of at most eight leads to a root is accepted, for the vendor of that root.
/// All of the path is valid at `now`; each certificate but the last was issued
/// by the next and by no other that is presented, and does not name itself as
/// its issuer; a root vouches for the last; and roots that vouch for a
/// certificate of the path are all of the one vendor.
pub proof fn law_chain_found(
    roots: Seq<RootModel>,
    path: Seq<Seq<u8>>,
    intermediates: Seq<Seq<u8>>,
    now: i64,
    vendor: Vendor,
)
    requires
        all_parse(roots, intermediates),
        0 < path.len() <= 8,
        forall|i: int| 0 <= i < path.len() ==> valid_at(#[trigger] path[i], now),
        forall|i: int|
            0 <= i < path.len() - 1 ==> only_issuer(intermediates, #[trigger] path[i], path[i + 1])
                && !self_issued(path[i]),
        exists|r: int| 0 <= r < roots.len() && anchors(#[trigger] roots[r], path.last()),
        forall|i: int, r: int|
            0 <= i < path.len() && 0 <= r < roots.len() && #[trigger] anchors(roots[r], path[i])
                ==> roots[r].vendor == vendor,
    ensures
        chain_verdict(roots, path[0], intermediates, now) == Ok::<_, ChainFault>(vendor),
{
    lemma_path_accepted(roots, path, intermediates, now, vendor, MAX_CHAIN_DEPTH as nat);
}

/// The usual shape: an endorsement-key certificate that one valid intermediate
/// issued, which a root issued, is accepted for the vendor of that root.
pub proof fn law_one_intermediate_accepted(
    root: RootModel,
    ek: Seq<u8>,
    intermediate: Seq<u8>,
    now: i64,
)
    requires
        x509::x509_facts(root.der) is Ok,
        valid_at(ek, now),
        valid_at(intermediate, now),
        issued(ek, intermediate),
        issued(intermediate, root.der),
        !self_issued(ek),
    ensures
        chain_verdict(seq![root], ek, seq![intermediate], now) == Ok::<_, ChainFault>(root.vendor),
{
    let roots = seq![root];
    let path = seq![ek, intermediate];
    assert(seq![intermediate][0] == intermediate);
    assert(only_issuer(seq![intermediate], path[0], path[1]));
    assert(anchors(roots[0], path.last()));
    law_chain_found(roots, path, seq![intermediate], now, root.vendor);
}

/// What is refused first: a certificate that does not parse as malformed, one
/// that is outside its validity window as expired, and one that no root
/// vouches for and that nothing presented issued as without an issuer.
pub proof fn law_refusal_reasons(
    roots: Seq<RootModel>,
    ek: Seq<u8>,
    intermediates: Seq<Seq<u8>>,
    now: i64,
)
    requires
        roots.len() > 0,
        all_parse(roots, intermediates),
    ensures
        x509::x509_facts(ek) matches Err(e) ==> chain_verdict(roots, ek, intermediates, now)
            == Err::<Vendor, _>(ChainFault::Malformed(e)),
        x509::x509_facts(ek) is Ok && !valid_at(ek, now) ==> chain_verdict(
            roots,
            ek,
            intermediates,
            now,
        ) == Err::<Vendor, _>(ChainFault::Expired),
        valid_at(ek, now) && (forall|r: int|
            0 <= r < roots.len() ==> !anchors(#[trigger] roots[r], ek)) && (forall|k: int|
            0 <= k < intermediates.len() ==> !issued(ek, #[trigger] intermediates[k]))
            ==> chain_verdict(roots, ek, intermediates, now) == Err::<Vendor, _>(
            ChainFault::NoIssuer,
        ),
{
    if valid_at(ek, now) {
        lemma_one_step(roots, intermediates, now, ek, MAX_CHAIN_DEPTH as nat);
    }
}

/// Without roots, no certificate is accepted.
pub proof fn law_empty_store_refuses(ek: Seq<u8>, intermediates: Seq<Seq<u8>>, now: i64)
    ensures
        chain_verdict(Seq::empty(), ek, intermediates, now) == Err::<Vendor, _>(
            ChainFault::EmptyStore,
        ),
{
}

/// Whether every block of a PEM text is a certificate.
pub open spec fn all_certificates(blocks: Seq<Result<Seq<u8>, Seq<char>>>) -> bool {
    forall|i: int|
        0 <= i < blocks.len() ==> #[trigger] blocks[i] is Ok && x509::x509_facts(blocks[i]->Ok_0)
            is Ok
}

proof fn lemma_pem_added(
    roots: Seq<RootModel>,
    blocks: Seq<Result<Seq<u8>, Seq<char>>>,
    i: nat,
    vendor: Vendor,
)
    requires
        i <= blocks.len(),
        all_certificates(blocks),
    ensures
        pem_added(roots, blocks, i, vendor).1 is None,
        pem_added(roots, blocks, i, vendor).0.len() == roots.len() + blocks.len() - i,
        forall|k: int|
            0 <= k < roots.len() ==> #[trigger] pem_added(roots, blocks, i, vendor).0[k]
                == roots[k],
        forall|k: int|
            i <= k < blocks.len() ==> pem_added(roots, blocks, i, vendor).0[roots.len() + k - i] == (
            RootModel { der: (#[trigger] blocks[k])->Ok_0, vendor }),
    decreases blocks.len() - i,
{
    if i < blocks.len() {
        assert(blocks[i as int] is Ok);
        let more = roots.push(RootModel { der: blocks[i as int]->Ok_0, vendor });
        lemma_pem_added(more, blocks, i + 1, vendor);
        let all = pem_added(roots, blocks, i, vendor).0;
        assert(all == pem_added(more, blocks, i + 1, vendor).0);
        assert(all[roots.len() as int] == more[roots.len() as int]);
        assert forall|k: int| 0 <= k < roots.len() implies #[trigger] all[k] == roots[k] by {
            assert(all[k] == more[k]);
        }
    }
}

/// Every certificate of a PEM text becomes a root of its vendor, in order, and
/// the roots that were there stay.
pub proof fn law_every_certificate_added(
    roots: Seq<RootModel>,
    blocks: Seq<Result<Seq<u8>, Seq<char>>>,
    vendor: Vendor,
)
    requires
        all_certificates(blocks),
    ensures
        pem_added(roots, blocks, 0, vendor).1 is None,
        pem_added(roots, blocks, 0, vendor).0 == roots + blocks.map_values(
            |b: Result<Seq<u8>, Seq<char>>| RootModel { der: b->Ok_0, vendor },
        ),
{
    lemma_pem_added(roots, blocks, 0, vendor);
    let added = blocks.map_values(
        |b: Result<Seq<u8>, Seq<char>>| RootModel { der: b->Ok_0, vendor },
    );
    let all = pem_added(roots, blocks, 0, vendor).0;
    assert forall|k: int| 0 <= k < all.len() implies all[k] == (roots + added)[k] by {
        if k >= roots.len() {
            assert(blocks[k - roots.len()] is Ok);
            assert(all[roots.len() + (k - roots.len()) - 0] == added[k - roots.len()]);
        }
    }
    assert(all =~= roots + added);
}

/// Roots that are provisioned for a vendor are in the store of all vendors, as
/// roots of that vendor.
pub proof fn law_provisioned_root_bundled(
    provisioned: VendorRoots,
    vendors: Seq<Vendor>,
    n: nat,
    v: int,
    k: int,
)
    requires
        0 <= v < n <= vendors.len(),
        forall|i: int|
            0 <= i < n ==> all_certificates(
                provisioned_blocks(provisioned, #[trigger] vendors[i]),
            ),
        0 <= k < provisioned_blocks(provisioned, vendors[v]).len(),
    ensures
        bundled_after(provisioned, vendors, n) matches Ok(roots) && roots.contains(
            RootModel {
                der: provisioned_blocks(provisioned, vendors[v])[k]->Ok_0,
                vendor: vendors[v],
            },
        ),
    decreases n,
{
    lemma_bundled_ok(provisioned, vendors, (n - 1) as nat);
    let blocks = provisioned_blocks(provisioned, vendors[n - 1]);
    let root = RootModel {
        der: provisioned_blocks(provisioned, vendors[v])[k]->Ok_0,
        vendor: vendors[v],
    };
    let before = bundled_after(provisioned, vendors, (n - 1) as nat)->Ok_0;
    lemma_pem_added(before, blocks, 0, vendors[n - 1]);
    let after = pem_added(before, blocks, 0, vendors[n - 1]).0;
    if v < n - 1 {
        law_provisioned_root_bundled(provisioned, vendors, (n - 1) as nat, v, k);
        let p = choose|p: int| 0 <= p < before.len() && before[p] == root;
        assert(after[p] == root);
    } else {
        assert(blocks[k] is Ok);
        assert(after[before.len() + k - 0] == root);
    }
}

proof fn lemma_bundled_ok(provisioned: VendorRoots, vendors: Seq<Vendor>, n: nat)
    requires
        n <= vendors.len(),
        forall|i: int|
            0 <= i < n ==> all_certificates(
                provisioned_blocks(provisioned, #[trigger] vendors[i]),
            ),
    ensures
        bundled_after(provisioned, vendors, n) is Ok,
    decreases n,
{
    if n > 0 {
        lemma_bundled_ok(provisioned, vendors, (n - 1) as nat);
        lemma_pem_added(
            bundled_after(provisioned, vendors, (n - 1) as nat)->Ok_0,
            provisioned_blocks(provisioned, vendors[n - 1]),
            0,
            vendors[n - 1],
        );
    }
}

/// What is provisioned for a vendor is kept whole, with what was there before
/// it, and ends a line.
pub proof fn law_provisioned_text_kept(bundle: Seq<char>, pem: Seq<char>)
    ensures
        (bundle + pem).is_prefix_of(with_pem(bundle, pem)),
        with_pem(bundle, pem).last() == '\n',
        with_pem(bundle, pem).len() <= bundle.len() + pem.len() + 1,
        pem.len() > 0 && pem.last() == '\n' ==> with_pem(bundle, pem) == bundle + pem,
{
}

} // verus!
