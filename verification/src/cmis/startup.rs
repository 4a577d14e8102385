//! Settings of the service: what the environment says, and what is made of it.

use vstd::prelude::*;
use crate::attest::rim_bundle::TrustedKeys;
use crate::cmis::state::{CmisConfig, ProposalPolicy};
use crate::cmis::state;
use crate::crypto::composite;
use crate::crypto::composite::{CompositeError, CompositePublicKey};
use crate::primitives::number;
use crate::primitives::{encoding, text};

verus! {

/// Shortest lifetime of signed documents that can be set: 96 hours.
pub const MIN_TTL_SECS: u64 = 345_600;

/// Longest lifetime of signed documents that can be set: 30 days.
pub const MAX_TTL_SECS: u64 = 2_592_000;

/// Why the service does not start.
#[derive(Debug)]
pub enum StartupError {
    /// A peer has no `=`.
    PeerWithoutEquals {
        /// The peer.
        entry: String,
    },
    /// A peer has only one address.
    PeerWithoutComma {
        /// The peer.
        entry: String,
    },
    /// A peer's identifier is no number.
    PeerId {
        /// The peer.
        entry: String,
    },
    /// No peer is listed.
    NoPeers,
    /// There are peers, but this node has no identifier.
    NodeIdMissing,
    /// This node's identifier is no number.
    NodeIdInvalid,
    /// This node is not among the peers.
    NodeNotListed {
        /// Its identifier.
        node_id: u64,
    },
    /// Several nodes need secrets that they share.
    SecretsMissing,
    /// Only one of certificate and key between nodes is set.
    PeerTlsPair,
    /// Only one of certificate and key for clients is set.
    TlsPair,
    /// A signer's identifier is not set.
    SignerIdMissing,
    /// A signer's key is not set.
    SignerKeyMissing,
    /// A signer's key is not in hexadecimal.
    SignerKeyHex(String),
    /// A signer's key does not decode.
    SignerKey(CompositeError),
    /// A seed has a wrong size.
    SeedLength {
        /// Where it was read.
        src: String,
        /// Its size.
        len: usize,
    },
}

/// A node of the cluster.
#[derive(Debug, Clone, PartialEq, Eq)]
pub struct PeerNode {
    /// Its identifier.
    pub id: u64,
    /// Where it takes part in consensus.
    pub addr_raft: String,
    /// Where it is managed.
    pub addr_api: String,
}

/// The contents of a [`PeerNode`].
pub struct PeerModel {
    pub id: u64,
    pub addr_raft: Seq<char>,
    pub addr_api: Seq<char>,
}

impl View for PeerNode {
    type V = PeerModel;

    open spec fn view(&self) -> PeerModel {
        PeerModel { id: self.id, addr_raft: self.addr_raft@, addr_api: self.addr_api@ }
    }
}

/// What is wrong with a list of peers.
pub enum PeerFault {
    WithoutEquals(Seq<char>),
    WithoutComma(Seq<char>),
    Id(Seq<char>),
    Empty,
}

/// The node that `id=raft_addr,api_addr` stands for.
pub open spec fn peer_of(entry: Seq<char>) -> Result<PeerModel, PeerFault> {
    match text::halves(entry, '=') {
        None => Err(PeerFault::WithoutEquals(entry)),
        Some(idh) => match text::halves(idh.1, ',') {
            None => Err(PeerFault::WithoutComma(entry)),
            Some(addrs) => match number::parsed_unsigned(text::trimmed(idh.0), u64::MAX as nat) {
                None => Err(PeerFault::Id(entry)),
                Some(id) => Ok(
                    PeerModel {
                        id: id as u64,
                        addr_raft: text::trimmed(addrs.0),
                        addr_api: text::trimmed(addrs.1),
                    },
                ),
            },
        },
    }
}

/// The nodes that the first `n` entries stand for, or the first fault among
/// them. Blank entries are passed over.
pub open spec fn peers_among(entries: Seq<Seq<char>>, n: int) -> Result<Seq<PeerModel>, PeerFault>
    decreases n,
{
    if n <= 0 {
        Ok(Seq::empty())
    } else {
        match peers_among(entries, n - 1) {
            Err(f) => Err(f),
            Ok(peers) => if text::trimmed(entries[n - 1]).len() == 0 {
                Ok(peers)
            } else {
                match peer_of(entries[n - 1]) {
                    Err(f) => Err(f),
                    Ok(p) => Ok(peers.push(p)),
                }
            },
        }
    }
}

/// The nodes that a list of peers stands for: entries between semicolons, at
/// least one of them not blank.
pub open spec fn peers_of(list: Seq<char>) -> Result<Seq<PeerModel>, PeerFault> {
    let entries = text::pieces_from(list, ';', 0);
    match peers_among(entries, entries.len() as int) {
        Err(f) => Err(f),
        Ok(peers) => if peers.len() == 0 {
            Err(PeerFault::Empty)
        } else {
            Ok(peers)
        },
    }
}

/// The contents of several nodes.
pub open spec fn peer_models(peers: Seq<PeerNode>) -> Seq<PeerModel> {
    peers.map_values(|p: PeerNode| p@)
}

/// Whether an error reports a fault.
pub open spec fn reports(e: StartupError, f: PeerFault) -> bool {
    match f {
        PeerFault::WithoutEquals(t) => e matches StartupError::PeerWithoutEquals { entry }
            && entry@ == t,
        PeerFault::WithoutComma(t) => e matches StartupError::PeerWithoutComma { entry }
            && entry@ == t,
        PeerFault::Id(t) => e matches StartupError::PeerId { entry } && entry@ == t,
        PeerFault::Empty => e is NoPeers,
    }
}

fn parse_peer(entry: &str) -> (r: Result<PeerNode, StartupError>)
    ensures
        match r {
            Ok(p) => peer_of(entry@) == Ok::<_, PeerFault>(p@),
            Err(e) => peer_of(entry@) matches Err(f) && reports(e, f),
        },
{
    let (id, addrs) = match text::split_once(entry, '=') {
        Some(h) => h,
        None => return Err(StartupError::PeerWithoutEquals { entry: entry.to_owned() }),
    };
    let (addr_raft, addr_api) = match text::split_once(addrs, ',') {
        Some(h) => h,
        None => return Err(StartupError::PeerWithoutComma { entry: entry.to_owned() }),
    };
    match number::parse_u64(text::trim(id)) {
        Some(id) => Ok(
            PeerNode {
                id,
                addr_raft: text::trim(addr_raft).to_owned(),
                addr_api: text::trim(addr_api).to_owned(),
            },
        ),
        None => Err(StartupError::PeerId { entry: entry.to_owned() }),
    }
}

/// Read a list of peers, such as
/// `1=10.0.0.1:9601,10.0.0.1:9602;2=10.0.0.2:9601,10.0.0.2:9602`.
pub fn parse_peers(list: &str) -> (r: Result<Vec<PeerNode>, StartupError>)
    ensures
        match r {
            Ok(peers) => peers_of(list@) == Ok::<_, PeerFault>(peer_models(peers@)),
            Err(e) => peers_of(list@) matches Err(f) && reports(e, f),
        },
{
    let entries = text::split(list, ';');
    let ghost all = text::views(entries@);
    let mut peers: Vec<PeerNode> = Vec::new();
    let mut i: usize = 0;
    assert(peer_models(peers@) =~= Seq::<PeerModel>::empty());
    while i < entries.len()
        invariant
            i <= entries@.len(),
            all == text::views(entries@),
            all == text::pieces_from(list@, ';', 0),
            peers_among(all, i as int) == Ok::<_, PeerFault>(peer_models(peers@)),
        decreases entries@.len() - i,
    {
        assert(all[i as int] == entries@[i as int]@);
        if text::trim(entries[i]).unicode_len() > 0 {
            match parse_peer(entries[i]) {
                Ok(p) => {
                    let ghost before = peers@;
                    peers.push(p);
                    assert(peer_models(peers@) =~= peer_models(before).push(p@));
                },
                Err(e) => {
                    proof {
                        lemma_fault_stays(all, i + 1, all.len() as int);
                    }
                    return Err(e);
                },
            }
        }
        i += 1;
    }
    assert(peer_models(peers@).len() == peers@.len());
    if peers.len() == 0 {
        return Err(StartupError::NoPeers);
    }
    Ok(peers)
}

proof fn lemma_fault_stays(entries: Seq<Seq<char>>, n: int, m: int)
    requires
        peers_among(entries, n) is Err,
        0 <= n <= m,
    ensures
        peers_among(entries, m) == peers_among(entries, n),
    decreases m - n,
{
    if n < m {
        lemma_fault_stays(entries, n, m - 1);
    }
}

/// How nodes protect what they send each other.
#[derive(Debug, Clone, PartialEq, Eq)]
pub enum PeerTls {
    /// A certificate that every node derives from the shared secret.
    SelfSigned,
    /// A certificate that the operator supplies.
    Certs {
        /// Where the certificate is.
        cert_path: String,
        /// Where its key is.
        key_path: String,
    },
}

/// Whether a word switches something on.
pub open spec fn truthy(word: Seq<char>) -> bool {
    let w = text::ascii_lower(text::trimmed(word));
    w == "1"@ || w == "true"@ || w == "yes"@ || w == "on"@
}

/// Whether a word switches something on.
pub fn is_truthy(word: &str) -> (r: bool)
    ensures
        r == truthy(word@),
{
    let w = text::trim(word).to_ascii_lowercase();
    text::same_text(w.as_str(), "1") || text::same_text(w.as_str(), "true") || text::same_text(
        w.as_str(),
        "yes",
    ) || text::same_text(w.as_str(), "on")
}

/// What the setting of a path says: an empty one is none.
pub open spec fn set_path(s: Option<Seq<char>>) -> Option<Seq<char>> {
    match s {
        Some(p) => if p.len() == 0 {
            None
        } else {
            Some(p)
        },
        None => None,
    }
}

fn nonempty(s: &Option<String>) -> (r: Option<String>)
    ensures
        text::option_view(r) == set_path(text::option_view(*s)),
{
    match s {
        Some(p) => if p.as_str().unicode_len() == 0 {
            None
        } else {
            Some(p.clone())
        },
        None => None,
    }
}

/// Decide how nodes protect what they send each other: by the operator's
/// certificate, if both it and its key are set; else by one derived from the
/// secret, if that is switched on; else not at all.
pub fn resolve_peer_tls(
    cert: &Option<String>,
    key: &Option<String>,
    enabled: &Option<String>,
) -> (r: Result<Option<PeerTls>, StartupError>)
    ensures
        match (set_path(text::option_view(*cert)), set_path(text::option_view(*key))) {
            (Some(c), Some(k)) => r matches Ok(Some(PeerTls::Certs { cert_path, key_path }))
                && cert_path@ == c && key_path@ == k,
            (None, None) => r == Ok::<_, StartupError>(
                if enabled matches Some(w) && truthy(w@) {
                    Some(PeerTls::SelfSigned)
                } else {
                    None
                },
            ),
            _ => r == Err::<Option<PeerTls>, _>(StartupError::PeerTlsPair),
        },
{
    match (nonempty(cert), nonempty(key)) {
        (Some(cert_path), Some(key_path)) => Ok(Some(PeerTls::Certs { cert_path, key_path })),
        (None, None) => match enabled {
            Some(w) => if is_truthy(w.as_str()) {
                Ok(Some(PeerTls::SelfSigned))
            } else {
                Ok(None)
            },
            None => Ok(None),
        },
        _ => Err(StartupError::PeerTlsPair),
    }
}

/// Certificate and key for clients: both or none.
pub fn resolve_tls(cert: Option<String>, key: Option<String>) -> (r: Result<
    Option<(String, String)>,
    StartupError,
>)
    ensures
        match (cert, key) {
            (Some(c), Some(k)) => r == Ok::<_, StartupError>(Some((c, k))),
            (None, None) => r == Ok::<Option<(String, String)>, StartupError>(None),
            _ => r == Err::<Option<(String, String)>, _>(StartupError::TlsPair),
        },
{
    match (cert, key) {
        (Some(c), Some(k)) => Ok(Some((c, k))),
        (None, None) => Ok(None),
        _ => Err(StartupError::TlsPair),
    }
}

/// What the environment says of the cluster.
#[derive(Debug)]
pub struct ClusterEnv {
    /// Where the cluster keeps its data.
    pub data_dir: Option<String>,
    /// The nodes.
    pub peers: Option<String>,
    /// This node.
    pub node_id: Option<String>,
    /// Where a node alone takes part in consensus.
    pub raft_addr: Option<String>,
    /// Where a node alone is managed.
    pub api_addr: Option<String>,
    /// The interface that one node of several listens on.
    pub listen: Option<String>,
    /// Certificate between nodes.
    pub peer_tls_cert: Option<String>,
    /// Key of the certificate between nodes.
    pub peer_tls_key: Option<String>,
    /// Whether a certificate between nodes is derived.
    pub peer_tls: Option<String>,
    /// Shared secret of consensus.
    pub raft_secret: Option<String>,
    /// Shared secret of management.
    pub api_secret: Option<String>,
}

/// The nodes of a cluster.
#[derive(Debug)]
pub enum Nodes {
    /// This node alone.
    Single {
        /// Where it takes part in consensus.
        addr_raft: String,
        /// Where it is managed.
        addr_api: String,
    },
    /// The listed nodes.
    Listed {
        /// This node.
        node_id: u64,
        /// The nodes.
        peers: Vec<PeerNode>,
        /// The interface that this node listens on.
        listen: String,
    },
}

/// How the cluster is started.
#[derive(Debug)]
pub struct ClusterPlan {
    /// Where the cluster keeps its data.
    pub data_dir: String,
    /// The nodes.
    pub nodes: Nodes,
    /// How nodes protect what they send each other.
    pub peer_tls: Option<PeerTls>,
    /// The shared secrets, or those for a node alone.
    pub secrets: Option<(String, String)>,
}

/// A setting, or what stands for it where it is missing.
pub open spec fn setting_or(s: Option<String>, fallback: Seq<char>) -> Seq<char> {
    match s {
        Some(v) => v@,
        None => fallback,
    }
}

fn or_default(s: &Option<String>, fallback: &str) -> (r: String)
    ensures
        r@ == setting_or(*s, fallback@),
{
    match s {
        Some(v) => v.clone(),
        None => fallback.to_owned(),
    }
}

/// Whether several nodes are listed.
pub open spec fn lists_peers(peers: Option<String>) -> bool {
    peers matches Some(list) && text::trimmed(list@).len() > 0
}

/// Whether a node is listed.
pub open spec fn listed(peers: Seq<PeerModel>, id: u64) -> bool {
    exists|i: int| 0 <= i < peers.len() && (#[trigger] peers[i]).id == id
}

fn is_listed(peers: &Vec<PeerNode>, id: u64) -> (r: bool)
    ensures
        r == listed(peer_models(peers@), id),
{
    let ghost m = peer_models(peers@);
    let mut i: usize = 0;
    while i < peers.len()
        invariant
            i <= peers@.len(),
            m == peer_models(peers@),
            forall|j: int| 0 <= j < i ==> (#[trigger] m[j]).id != id,
        decreases peers@.len() - i,
    {
        assert(m[i as int] == peers@[i as int]@);
        if peers[i].id == id {
            return true;
        }
        i += 1;
    }
    false
}

/// Whether nodes are those that the environment asks for.
pub open spec fn nodes_fit(env: ClusterEnv, nodes: Nodes) -> bool {
    match nodes {
        Nodes::Single { addr_raft, addr_api } => {
            &&& !lists_peers(env.peers)
            &&& addr_raft@ == setting_or(env.raft_addr, "127.0.0.1:9601"@)
            &&& addr_api@ == setting_or(env.api_addr, "127.0.0.1:9602"@)
        },
        Nodes::Listed { node_id, peers, listen } => {
            &&& lists_peers(env.peers)
            &&& peers_of(env.peers->0@) == Ok::<_, PeerFault>(peer_models(peers@))
            &&& env.node_id is Some
            &&& number::parsed_unsigned(text::trimmed(env.node_id->0@), u64::MAX as nat) == Some(
                node_id as nat,
            )
            &&& listed(peer_models(peers@), node_id)
            &&& listen@ == setting_or(env.listen, "0.0.0.0"@)
        },
    }
}

/// Whether an error says why there are no nodes.
pub open spec fn nodes_fault(env: ClusterEnv, e: StartupError) -> bool {
    &&& lists_peers(env.peers)
    &&& match peers_of(env.peers->0@) {
        Err(f) => reports(e, f),
        Ok(peers) => match env.node_id {
            None => e is NodeIdMissing,
            Some(t) => match number::parsed_unsigned(text::trimmed(t@), u64::MAX as nat) {
                None => e is NodeIdInvalid,
                Some(id) => !listed(peers, id as u64) && e == (StartupError::NodeNotListed {
                    node_id: id as u64,
                }),
            },
        },
    }
}

/// Decide which nodes the cluster has.
pub fn resolve_nodes(env: &ClusterEnv) -> (r: Result<Nodes, StartupError>)
    ensures
        match r {
            Ok(nodes) => nodes_fit(*env, nodes),
            Err(e) => nodes_fault(*env, e),
        },
{
    if let Some(list) = &env.peers {
        if text::trim(list.as_str()).unicode_len() > 0 {
            let peers = parse_peers(list.as_str())?;
            let node_id: u64 = match &env.node_id {
                None => return Err(StartupError::NodeIdMissing),
                Some(t) => match number::parse_u64(text::trim(t.as_str())) {
                    Some(id) => id,
                    None => return Err(StartupError::NodeIdInvalid),
                },
            };
            if !is_listed(&peers, node_id) {
                return Err(StartupError::NodeNotListed { node_id });
            }
            return Ok(Nodes::Listed { node_id, peers, listen: or_default(&env.listen, "0.0.0.0") });
        }
    }
    Ok(
        Nodes::Single {
            addr_raft: or_default(&env.raft_addr, "127.0.0.1:9601"),
            addr_api: or_default(&env.api_addr, "127.0.0.1:9602"),
        },
    )
}

/// Whether this node is the only one.
pub open spec fn alone(nodes: Nodes) -> bool {
    match nodes {
        Nodes::Single { .. } => true,
        Nodes::Listed { node_id, peers, listen } => peers@.len() <= 1,
    }
}

/// How the cluster is started. A node alone needs no shared secrets and does
/// not protect what it sends to itself; several nodes must have secrets.
pub fn cluster_plan(env: &ClusterEnv) -> (r: Result<ClusterPlan, StartupError>)
    ensures
        match r {
            Ok(p) => {
                &&& p.data_dir@ == setting_or(env.data_dir, "/var/lib/ferrogate/raft"@)
                &&& nodes_fit(*env, p.nodes)
                &&& p.secrets matches Some(s) ==> env.raft_secret matches Some(a)
                    && env.api_secret matches Some(b) && s.0@ == a@ && s.1@ == b@
                &&& p.secrets is None <==> env.raft_secret is None || env.api_secret is None
                &&& p.secrets is None ==> alone(p.nodes)
                &&& if alone(p.nodes) {
                    p.peer_tls is None
                } else {
                    match (
                        set_path(text::option_view(env.peer_tls_cert)),
                        set_path(text::option_view(env.peer_tls_key)),
                    ) {
                        (Some(c), Some(k)) => p.peer_tls matches Some(
                            PeerTls::Certs { cert_path, key_path },
                        ) && cert_path@ == c && key_path@ == k,
                        (None, None) => p.peer_tls == (
                        if env.peer_tls matches Some(w) && truthy(w@) {
                            Some(PeerTls::SelfSigned)
                        } else {
                            None
                        }),
                        _ => false,
                    }
                }
            },
            Err(e) => {
                ||| nodes_fault(*env, e)
                ||| e is PeerTlsPair && (set_path(text::option_view(env.peer_tls_cert)) is Some) != (
                set_path(text::option_view(env.peer_tls_key)) is Some) && exists|n: Nodes| #[trigger]
                    nodes_fit(*env, n) && !alone(n)
                ||| e is SecretsMissing && (env.raft_secret is None || env.api_secret is None) && (
                set_path(text::option_view(env.peer_tls_cert)) is Some) == (set_path(
                    text::option_view(env.peer_tls_key),
                ) is Some) && exists|n: Nodes| #[trigger] nodes_fit(*env, n) && !alone(n)
            },
        },
{
    let nodes = resolve_nodes(env)?;
    let single = match &nodes {
        Nodes::Single { .. } => true,
        Nodes::Listed { peers, .. } => peers.len() <= 1,
    };
    let peer_tls = if single {
        None
    } else {
        resolve_peer_tls(&env.peer_tls_cert, &env.peer_tls_key, &env.peer_tls)?
    };
    let secrets = match (&env.raft_secret, &env.api_secret) {
        (Some(a), Some(b)) => Some((a.clone(), b.clone())),
        _ => if single {
            None
        } else {
            return Err(StartupError::SecretsMissing);
        },
    };
    Ok(
        ClusterPlan {
            data_dir: or_default(&env.data_dir, "/var/lib/ferrogate/raft"),
            nodes,
            peer_tls,
            secrets,
        },
    )
}

/// A lifetime as it is set: a number, kept within bounds. What is no number is
/// as good as not set.
pub open spec fn bounded_ttl(raw: Option<Seq<char>>, min: u64, max: u64) -> Option<u64> {
    match raw {
        None => None,
        Some(t) => match number::parsed_unsigned(t, u64::MAX as nat) {
            None => None,
            Some(n) => Some(
                if n < min {
                    min
                } else if n > max {
                    max
                } else {
                    n as u64
                },
            ),
        },
    }
}

/// Read the setting of a lifetime.
pub fn ttl_setting(raw: &Option<String>, min: u64, max: u64) -> (r: Option<u64>)
    requires
        min <= max,
    ensures
        r == bounded_ttl(text::option_view(*raw), min, max),
{
    match raw {
        None => None,
        Some(t) => match number::parse_u64(t.as_str()) {
            None => None,
            Some(n) => Some(
                if n < min {
                    min
                } else if n > max {
                    max
                } else {
                    n
                },
            ),
        },
    }
}

/// Take settings over from the environment; what is not set stays.
pub fn configure(
    config: CmisConfig,
    proposals: &Option<String>,
    svid_ttl: &Option<String>,
    allowlist_ttl: &Option<String>,
) -> (r: CmisConfig)
    ensures
        r.trust_domain == config.trust_domain,
        r.policy_epoch == config.policy_epoch,
        r.require_preregistered_host_key == config.require_preregistered_host_key,
        r.allowlist_proposal_policy == (match proposals {
            Some(v) => state::policy_named(text::ascii_lower(text::trimmed(v@))),
            None => config.allowlist_proposal_policy,
        }),
        r.svid_ttl_secs == (match bounded_ttl(
            text::option_view(*svid_ttl),
            MIN_TTL_SECS,
            MAX_TTL_SECS,
        ) {
            Some(n) => n,
            None => config.svid_ttl_secs,
        }),
        r.allowlist_ttl_secs == (match bounded_ttl(
            text::option_view(*allowlist_ttl),
            MIN_TTL_SECS,
            MAX_TTL_SECS,
        ) {
            Some(n) => n as i64,
            None => config.allowlist_ttl_secs,
        }),
{
    let mut r = config;
    if let Some(v) = proposals {
        r.allowlist_proposal_policy = ProposalPolicy::from_env_value(v.as_str());
    }
    if let Some(n) = ttl_setting(svid_ttl, MIN_TTL_SECS, MAX_TTL_SECS) {
        r.svid_ttl_secs = n;
    }
    if let Some(n) = ttl_setting(allowlist_ttl, MIN_TTL_SECS, MAX_TTL_SECS) {
        r.allowlist_ttl_secs = n as i64;
    }
    r
}

/// The bytes of a key's text, without the white space around it.
pub open spec fn key_text_bytes(s: Seq<char>) -> Seq<u8> {
    vstd::utf8::encode_utf8(text::trimmed(s))
}

/// Trust one signer, of whom an identifier and a composite public key in
/// hexadecimal are set.
pub fn load_single_key_trust(kid: Option<String>, pub_hex: Option<String>) -> (r: Result<
    TrustedKeys,
    StartupError,
>)
    ensures
        match (kid, pub_hex) {
            (None, _) => r == Err::<TrustedKeys, _>(StartupError::SignerIdMissing),
            (_, None) => r == Err::<TrustedKeys, _>(StartupError::SignerKeyMissing),
            (Some(k), Some(h)) => if !encoding::is_hex(key_text_bytes(h@)) {
                r matches Err(StartupError::SignerKeyHex(m)) && m@ == encoding::hex_fault_text(
                    key_text_bytes(h@),
                )
            } else {
                match composite::key_from(encoding::hex_value(key_text_bytes(h@))) {
                    Ok(key) => r matches Ok(t) && t@ == Map::<
                        Seq<char>,
                        composite::PublicKeyModel,
                    >::empty().insert(k@, key),
                    Err(fault) => r matches Err(
                        StartupError::SignerKey(CompositeError::Decode(m)),
                    ) && m@ == fault,
                }
            },
        },
{
    let kid = match kid {
        Some(k) => k,
        None => return Err(StartupError::SignerIdMissing),
    };
    let pub_hex = match pub_hex {
        Some(h) => h,
        None => return Err(StartupError::SignerKeyMissing),
    };
    let bytes = match encoding::hex_decode(text::trim(pub_hex.as_str()).as_bytes()) {
        Ok(b) => b,
        Err(m) => return Err(StartupError::SignerKeyHex(m)),
    };
    let pk = match CompositePublicKey::from_concat_bytes(bytes.as_slice()) {
        Ok(pk) => pk,
        Err(e) => return Err(StartupError::SignerKey(e)),
    };
    let mut trust = TrustedKeys::new();
    trust.add(kid, pk);
    Ok(trust)
}

/// A lifetime that is set lies within the bounds, whatever was written: a slip
/// can neither shorten nor lengthen what is signed beyond them.
pub proof fn law_lifetimes_bounded(raw: Option<Seq<char>>, min: u64, max: u64)
    requires
        min <= max,
    ensures
        bounded_ttl(raw, min, max) matches Some(n) ==> min <= n <= max,
{
}

/// A lifetime that is written within the bounds is taken as it is.
pub proof fn law_lifetime_taken(n: u64, min: u64, max: u64)
    requires
        min <= max,
    ensures
        min <= n <= max ==> bounded_ttl(Some(text::decimal(n as nat)), min, max) == Some(n),
        n < min ==> bounded_ttl(Some(text::decimal(n as nat)), min, max) == Some(min),
        n > max ==> bounded_ttl(Some(text::decimal(n as nat)), min, max) == Some(max),
        bounded_ttl(None, min, max) is None,
{
    number::lemma_decimal_value(n as nat);
}

/// Whether a text has no white space around it.
pub open spec fn tight(s: Seq<char>) -> bool {
    s.len() > 0 ==> !text::white_space(s[0]) && !text::white_space(s.last())
}

/// A node that is written as its number, an equals sign and two addresses with
/// a comma between them is read with this number and these addresses.
pub proof fn law_peer_read(id: u64, raft: Seq<char>, api: Seq<char>)
    requires
        text::lacks(raft, ','),
        tight(raft),
        tight(api),
    ensures
        peer_of(text::decimal(id as nat) + seq!['='] + (raft + seq![','] + api)) == Ok::<
            _,
            PeerFault,
        >(PeerModel { id, addr_raft: raft, addr_api: api }),
{
    let d = text::decimal(id as nat);
    let none = Seq::<char>::empty();
    number::lemma_decimal_value(id as nat);
    assert forall|i: int| 0 <= i < d.len() implies #[trigger] d[i] != '=' by {
        assert(number::is_digit(d[i]));
    }
    text::law_halves(d, '=', raft + seq![','] + api);
    text::law_halves(raft, ',', api);
    if d.len() > 0 {
        assert(number::is_digit(d[0]));
        assert(number::is_digit(d[d.len() - 1]));
    }
    assert(none + d + none =~= d);
    text::law_trimmed(none, d, none);
    assert(none + raft + none =~= raft);
    text::law_trimmed(none, raft, none);
    assert(none + api + none =~= api);
    text::law_trimmed(none, api, none);
}

proof fn lemma_peers_among(a: Seq<Seq<char>>, b: Seq<Seq<char>>, n: int)
    requires
        0 <= n <= b.len(),
        peers_among(a, a.len() as int) is Ok,
        peers_among(b, b.len() as int) is Ok,
    ensures
        peers_among(b, n) is Ok,
        peers_among(a + b, a.len() + n) == Ok::<_, PeerFault>(
            peers_among(a, a.len() as int)->Ok_0 + peers_among(b, n)->Ok_0,
        ),
    decreases n,
{
    lemma_peers_prefix(b, n, b.len() as int);
    if n == 0 {
        lemma_peers_same(a, a + b, a.len() as int);
        assert(peers_among(a, a.len() as int)->Ok_0 + peers_among(b, 0)->Ok_0 =~= peers_among(
            a,
            a.len() as int,
        )->Ok_0);
    } else {
        lemma_peers_among(a, b, n - 1);
        assert((a + b)[a.len() + n - 1] == b[n - 1]);
        assert(peers_among(a + b, a.len() + n)->Ok_0 =~= peers_among(a, a.len() as int)->Ok_0
            + peers_among(b, n)->Ok_0);
    }
}

proof fn lemma_peers_prefix(b: Seq<Seq<char>>, n: int, m: int)
    requires
        0 <= n <= m,
        peers_among(b, m) is Ok,
    ensures
        peers_among(b, n) is Ok,
    decreases m - n,
{
    if n < m {
        lemma_peers_prefix(b, n, m - 1);
    }
}

proof fn lemma_peers_same(a: Seq<Seq<char>>, c: Seq<Seq<char>>, n: int)
    requires
        n <= a.len(),
        n <= c.len(),
        forall|i: int| 0 <= i < n ==> a[i] == #[trigger] c[i],
    ensures
        peers_among(a, n) == peers_among(c, n),
    decreases n,
{
    if n > 0 {
        lemma_peers_same(a, c, n - 1);
        assert(a[n - 1] == c[n - 1]);
    }
}

/// Two lists of nodes with a semicolon between them name the nodes of the one,
/// then those of the other: no node is lost, and their order stays.
pub proof fn law_peers_joined(a: Seq<char>, b: Seq<char>)
    requires
        peers_of(a) is Ok,
        peers_of(b) is Ok,
    ensures
        peers_of(a + seq![';'] + b) == Ok::<_, PeerFault>(
            peers_of(a)->Ok_0 + peers_of(b)->Ok_0,
        ),
{
    text::law_pieces(a, ';', b);
    let x = text::pieces_from(a, ';', 0);
    let y = text::pieces_from(b, ';', 0);
    lemma_peers_among(x, y, y.len() as int);
}

/// A list of one node names this node.
pub proof fn law_peer_listed(entry: Seq<char>)
    requires
        text::lacks(entry, ';'),
        text::trimmed(entry).len() > 0,
    ensures
        match peer_of(entry) {
            Ok(p) => peers_of(entry) == Ok::<_, PeerFault>(seq![p]),
            Err(f) => peers_of(entry) == Err::<Seq<PeerModel>, _>(f),
        },
{
    text::law_pieces(entry, ';', entry);
    reveal_with_fuel(peers_among, 2);
    if let Ok(p) = peer_of(entry) {
        assert(Seq::<PeerModel>::empty().push(p) =~= seq![p]);
    }
}

/// A word switches something on in any case and with white space around it.
pub proof fn law_switch_words(before: Seq<char>, word: Seq<char>, after: Seq<char>)
    requires
        text::blank(before),
        text::blank(after),
        tight(word),
    ensures
        truthy(before + word + after) <==> {
            let w = text::ascii_lower(word);
            w == "1"@ || w == "true"@ || w == "yes"@ || w == "on"@
        },
{
    text::law_trimmed(before, word, after);
}

/// Several nodes are never started without shared secrets, and a node only with
/// a list that names it. `r` is what [`cluster_plan`] gives.
pub proof fn law_cluster_needs_secrets(env: &ClusterEnv, r: Result<ClusterPlan, StartupError>)
    requires
        call_ensures(cluster_plan, (env,), r),
    ensures
        r matches Ok(p) ==> {
            &&& p.nodes matches Nodes::Listed { node_id, peers, listen } ==> (peers@.len() > 1
                ==> p.secrets is Some) && listed(peer_models(peers@), node_id)
            &&& p.nodes is Listed <==> lists_peers(env.peers)
            &&& env.raft_secret is Some && env.api_secret is Some ==> p.secrets is Some
        },
        !lists_peers(env.peers) ==> r is Ok,
{
}

/// Settings that are not set stay. `r` is what [`configure`] gives.
pub proof fn law_unset_settings_stay(config: CmisConfig, r: CmisConfig)
    requires
        call_ensures(
            configure,
            (config, &None::<String>, &None::<String>, &None::<String>),
            r,
        ),
    ensures
        r.trust_domain == config.trust_domain,
        r.svid_ttl_secs == config.svid_ttl_secs,
        r.allowlist_ttl_secs == config.allowlist_ttl_secs,
        r.policy_epoch == config.policy_epoch,
        r.allowlist_proposal_policy == config.allowlist_proposal_policy,
        r.require_preregistered_host_key == config.require_preregistered_host_key,
{
}

/// One signer is trusted just where an identifier and the hexadecimal text of a
/// key are set, and then this one alone, under this key. `r` is what
/// [`load_single_key_trust`] gives.
pub proof fn law_one_signer_trusted(
    kid: Option<String>,
    pub_hex: Option<String>,
    key: composite::PublicKeyModel,
    r: Result<TrustedKeys, StartupError>,
)
    requires
        call_ensures(load_single_key_trust, (kid, pub_hex), r),
        composite::key_decodes(key),
        pub_hex matches Some(h) && h@ == encoding::hex_text(composite::key_bytes(key)),
    ensures
        kid is None ==> r is Err,
        kid matches Some(k) ==> (r matches Ok(t) && t@.dom().contains(k@) && t@[k@] == key
            && forall|other: Seq<char>| other != k@ ==> !#[trigger] t@.dom().contains(other)),
{
    let b = composite::key_bytes(key);
    encoding::lemma_hex_untrimmed(b);
    encoding::lemma_hex_roundtrip(b);
    composite::law_key_roundtrip(key, b);
}

} // verus!
