//! Verification of host attestations.

pub mod aik;
pub mod host_key;
pub mod rim;
pub mod rim_bundle;
pub mod rim_loader;
pub mod tpm;
pub mod vendor;
pub mod verify;
