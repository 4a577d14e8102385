//! Hybrid post-quantum signatures, certificate pins and transport settings.

use vstd::prelude::*;

pub mod composite;
pub mod der;
pub mod envelope;
pub mod pin;
pub mod tls;
pub mod transport;

verus! {

/// What this part of the library is called.
pub const CRATE_NAME: &'static str = "ferro-crypto";

} // verus!
