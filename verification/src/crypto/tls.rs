//! Key exchange and ciphers of the transport.

use vstd::prelude::*;

verus! {

/// Code point of the hybrid group X25519MLKEM768.
pub const X25519_MLKEM768: u16 = 0x11ec;

/// Code point of the classical group X25519.
pub const X25519: u16 = 0x001d;

/// Which groups are offered.
#[derive(Debug, Clone, Copy, PartialEq, Eq, Structural)]
pub enum ProviderMode {
    /// Only the hybrid group.
    HybridOnly,
    /// The hybrid group first, then the classical one.
    HybridPreferredWithX25519Fallback,
}

/// Code points of the ciphers, most preferred first:
/// `TLS13_CHACHA20_POLY1305_SHA256`, then `TLS13_AES_256_GCM_SHA384`.
pub const FERROGATE_CIPHER_SUITES: [u16; 2] = [0x1303, 0x1302];

/// The groups that a mode offers, most preferred first.
pub open spec fn offered_groups(mode: ProviderMode) -> Seq<u16> {
    match mode {
        ProviderMode::HybridOnly => seq![X25519_MLKEM768],
        ProviderMode::HybridPreferredWithX25519Fallback => seq![X25519_MLKEM768, X25519],
    }
}

/// The groups that a mode offers, most preferred first.
pub fn kx_groups(mode: ProviderMode) -> (r: Vec<u16>)
    ensures
        r@ == offered_groups(mode),
{
    let mut groups: Vec<u16> = Vec::new();
    groups.push(X25519_MLKEM768);
    if mode == ProviderMode::HybridPreferredWithX25519Fallback {
        groups.push(X25519);
    }
    assert(groups@ =~= offered_groups(mode));
    groups
}

/// The hybrid group is always preferred, and in production nothing else is
/// offered: a peer without it gets no connection.
pub proof fn law_hybrid_first(mode: ProviderMode)
    ensures
        offered_groups(mode)[0] == X25519_MLKEM768,
        mode is HybridOnly ==> forall|g: u16| #[trigger]
            offered_groups(mode).contains(g) ==> g == X25519_MLKEM768,
{
}

/// Outside production the classical group is offered too, behind the hybrid
/// one, and no third.
pub proof fn law_fallback_offered()
    ensures
        offered_groups(ProviderMode::HybridPreferredWithX25519Fallback).contains(X25519),
        forall|g: u16| #[trigger]
            offered_groups(ProviderMode::HybridPreferredWithX25519Fallback).contains(g) ==> g
                == X25519_MLKEM768 || g == X25519,
{
    let groups = offered_groups(ProviderMode::HybridPreferredWithX25519Fallback);
    assert(groups[1] == X25519);
}

} // verus!
