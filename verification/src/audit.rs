//! The append-only, signed audit log.

pub mod anchor;
pub mod bytes;
pub mod cosign;
pub mod event;
pub mod log;
pub mod merkle;
pub mod sth;
pub mod store;
