//! The machine identity service: admission, attestation, revocation and
//! allowlists, decided on plain values.

pub mod allowlist;
pub mod attest;
pub mod cluster_store;
pub mod credential;
pub mod fleet_manifest;
pub mod host_keys;
pub mod keys;
pub mod pcr;
pub mod record;
pub mod requests;
pub mod revocation;
pub mod seed;
pub mod service;
pub mod startup;
pub mod state;
pub mod status;
pub mod transport;
