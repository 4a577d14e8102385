//! FerroGate: the verified core of a machine-identity service.

pub mod attest;
pub mod audit;
pub mod ceremony;
pub mod child_verify;
pub mod cmis;
pub mod collections;
pub mod crypto;
pub mod harden;
pub mod machineid;
pub mod primitives;
