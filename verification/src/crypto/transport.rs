//! What is said of the group that a connection negotiated.

use vstd::prelude::*;
use crate::crypto::tls;

verus! {

/// The only application protocol that is offered: HTTP/2.
pub const ALPN_H2: &'static str = "h2";

/// Code point of the group that every accepted connection must use.
pub const HYBRID_GROUP: u16 = 0x11ec;

/// The name of a group that is not the hybrid one.
pub uninterp spec fn group_name(code: u16) -> Seq<char>;

/// `rustls::NamedGroup::from` on a code point, in its `Debug` form: the group's
/// name, a function of the code point.
#[verifier::external_body]
pub(crate) fn named_group(code: u16) -> (r: String)
    ensures
        r@ == group_name(code),
{
    format!("{:?}", rustls::NamedGroup::from(code))
}

/// Whether a negotiated group is the hybrid one.
pub fn is_hybrid_group(group: Option<u16>) -> (r: bool)
    ensures
        r == (group == Some(HYBRID_GROUP)),
{
    match group {
        Some(g) => g == HYBRID_GROUP,
        None => false,
    }
}

/// What a negotiated group is called in logs.
pub open spec fn label_of(group: Option<u16>) -> Seq<char> {
    match group {
        Some(g) => if g == HYBRID_GROUP {
            "X25519MLKEM768"@
        } else {
            group_name(g)
        },
        None => "none"@,
    }
}

/// What a negotiated group is called in logs.
pub fn group_label(group: Option<u16>) -> (r: String)
    ensures
        r@ == label_of(group),
{
    match group {
        Some(g) => if g == HYBRID_GROUP {
            "X25519MLKEM768".to_owned()
        } else {
            named_group(g)
        },
        None => "none".to_owned(),
    }
}

/// The group that connections must use is the one that is offered in
/// production.
pub proof fn law_production_group_is_hybrid()
    ensures
        tls::offered_groups(tls::ProviderMode::HybridOnly) == seq![HYBRID_GROUP],
{
}

} // verus!
