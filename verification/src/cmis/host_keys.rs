//! Which machine key belongs to which hardware.
//!
//! A key that an operator asserted beforehand must be presented as it is.
//! Otherwise the first key that comes with a fingerprint is pinned to it, unless
//! only asserted keys are allowed.

use vstd::prelude::*;
use crate::cmis::fleet_manifest::{EnrolledModel, FleetStore};
use crate::collections::KeyMap;
use crate::primitives::bytes::bytes_equal;

verus! {

/// What a presented key is to a fingerprint.
#[derive(Debug, Clone, Copy, PartialEq, Eq, Structural)]
pub enum HostKeyBinding {
    /// The key that an operator asserted.
    PreRegistered,
    /// The first key for this fingerprint; it is now pinned.
    FirstSeen,
    /// The key that is pinned.
    Pinned,
    /// Another key than the one that is asserted or pinned.
    Mismatch,
    /// No key is asserted or pinned, and only asserted keys are allowed.
    RejectedNotPreRegistered,
}

/// The keys that are pinned to fingerprints.
#[derive(Debug)]
pub struct HostKeys {
    pins: KeyMap<[u8; 48], Vec<u8>>,
}

impl View for HostKeys {
    type V = Map<[u8; 48], Seq<u8>>;

    closed spec fn view(&self) -> Map<[u8; 48], Seq<u8>> {
        self.pins@.map_values(|k: Vec<u8>| k@)
    }
}

/// What a presented key is to a fingerprint.
pub open spec fn binding(
    fleet: EnrolledModel,
    pins: Map<[u8; 48], Seq<u8>>,
    fp: [u8; 48],
    key: Seq<u8>,
    strict: bool,
) -> HostKeyBinding {
    if fleet.prereg.dom().contains(fp) {
        if fleet.prereg[fp] == key {
            HostKeyBinding::PreRegistered
        } else {
            HostKeyBinding::Mismatch
        }
    } else if pins.dom().contains(fp) {
        if pins[fp] == key {
            HostKeyBinding::Pinned
        } else {
            HostKeyBinding::Mismatch
        }
    } else if strict {
        HostKeyBinding::RejectedNotPreRegistered
    } else {
        HostKeyBinding::FirstSeen
    }
}

/// The pins after a key was presented: one more, if it was the first.
pub open spec fn pins_after(
    fleet: EnrolledModel,
    pins: Map<[u8; 48], Seq<u8>>,
    fp: [u8; 48],
    key: Seq<u8>,
    strict: bool,
) -> Map<[u8; 48], Seq<u8>> {
    if binding(fleet, pins, fp, key, strict) is FirstSeen {
        pins.insert(fp, key)
    } else {
        pins
    }
}

impl HostKeys {
    /// Nothing is pinned.
    pub fn new() -> (r: Self)
        ensures
            r@ == Map::<[u8; 48], Seq<u8>>::empty(),
    {
        let r = HostKeys { pins: KeyMap::new() };
        assert(r@ =~= Map::<[u8; 48], Seq<u8>>::empty());
        r
    }

    /// What a presented key is to a fingerprint; a first key is pinned.
    pub fn bind(&mut self, fleet: &FleetStore, fp: &[u8; 48], key: &[u8], strict: bool) -> (r:
        HostKeyBinding)
        ensures
            r == binding(fleet@, old(self)@, *fp, key@, strict),
            final(self)@ == pins_after(fleet@, old(self)@, *fp, key@, strict),
    {
        if let Some(asserted) = fleet.preregistered(fp) {
            if bytes_equal(asserted, key) {
                return HostKeyBinding::PreRegistered;
            }
            return HostKeyBinding::Mismatch;
        }
        if let Some(pinned) = self.pins.get(fp) {
            if bytes_equal(pinned.as_slice(), key) {
                return HostKeyBinding::Pinned;
            }
            return HostKeyBinding::Mismatch;
        }
        if strict {
            return HostKeyBinding::RejectedNotPreRegistered;
        }
        self.pins.insert(*fp, vstd::slice::slice_to_vec(key));
        assert(self@ =~= old(self)@.insert(*fp, key@));
        HostKeyBinding::FirstSeen
    }
}

/// A pin is for good: nothing that is presented later changes or removes it,
/// and while no other key is asserted, exactly the pinned key is accepted.
pub proof fn law_pins_hold(
    fleet: EnrolledModel,
    pins: Map<[u8; 48], Seq<u8>>,
    fp: [u8; 48],
    presented_fp: [u8; 48],
    presented: Seq<u8>,
    strict: bool,
    key: Seq<u8>,
)
    requires
        pins.dom().contains(fp),
    ensures
        pins_after(fleet, pins, presented_fp, presented, strict).dom().contains(fp),
        pins_after(fleet, pins, presented_fp, presented, strict)[fp] == pins[fp],
        !fleet.prereg.dom().contains(fp) ==> (binding(fleet, pins, fp, key, strict) is Pinned
            <==> key == pins[fp]) && (binding(fleet, pins, fp, key, strict) is Mismatch <==> key
            != pins[fp]),
{
}

/// A refusal leaves no pin behind: a key that was refused is no more accepted
/// afterwards than before.
pub proof fn law_refusal_leaves_no_pin(
    fleet: EnrolledModel,
    pins: Map<[u8; 48], Seq<u8>>,
    fp: [u8; 48],
    key: Seq<u8>,
    strict: bool,
)
    requires
        binding(fleet, pins, fp, key, strict) is Mismatch || binding(fleet, pins, fp, key, strict)
            is RejectedNotPreRegistered,
    ensures
        pins_after(fleet, pins, fp, key, strict) == pins,
{
}

/// An asserted key decides alone: pins do not matter beside it.
pub proof fn law_asserted_key_decides(
    fleet: EnrolledModel,
    pins: Map<[u8; 48], Seq<u8>>,
    fp: [u8; 48],
    key: Seq<u8>,
    strict: bool,
)
    requires
        fleet.prereg.dom().contains(fp),
    ensures
        binding(fleet, pins, fp, key, strict) is PreRegistered <==> key == fleet.prereg[fp],
        binding(fleet, pins, fp, key, strict) is Mismatch <==> key != fleet.prereg[fp],
        pins_after(fleet, pins, fp, key, strict) == pins,
{
}

/// The first key wins where any may come: it is taken and pinned, is known when
/// it comes again, and any other key for that fingerprint is refused. Where only
/// asserted keys may come it is refused instead, and nothing is pinned.
pub proof fn law_first_key_pinned(
    fleet: EnrolledModel,
    pins: Map<[u8; 48], Seq<u8>>,
    fp: [u8; 48],
    key: Seq<u8>,
    other: Seq<u8>,
    later: bool,
)
    requires
        !fleet.prereg.dom().contains(fp),
        !pins.dom().contains(fp),
        other != key,
    ensures
        binding(fleet, pins, fp, key, false) is FirstSeen,
        binding(fleet, pins, fp, key, true) is RejectedNotPreRegistered,
        pins_after(fleet, pins, fp, key, true) == pins,
        ({
            let after = pins_after(fleet, pins, fp, key, false);
            &&& after == pins.insert(fp, key)
            &&& binding(fleet, after, fp, key, later) is Pinned
            &&& binding(fleet, after, fp, other, later) is Mismatch
        }),
{
}

} // verus!
