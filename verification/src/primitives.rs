//! The seam to the cryptographic, encoding and text routines that the library
//! calls and does not verify itself.

pub mod bytes;
pub mod cbor;
pub mod encoding;
pub mod hash;
pub mod json;
pub mod number;
pub mod signature;
pub mod text;
pub mod x509;
