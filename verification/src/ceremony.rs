//! Root key ceremonies: sealed shares, cross-signatures, signed minutes and
//! destruction.

pub mod crosssign;
pub mod error;
pub mod destruction;
pub mod media;
pub mod minutes;
