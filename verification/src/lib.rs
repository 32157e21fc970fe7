//! Crockford Base32 text for 128-bit identifiers.
//!
//! The codec turns sixteen bytes into twenty-six characters of the Crockford
//! alphabet and back. Reading is forgiving: letters may be in either case,
//! `I` and `L` are read as `1`, `O` as `0`, and hyphens are skipped.
//! The identifier type wraps sixteen bytes and can be made from text, from
//! raw bytes or from the bytes of another UUID value, or generated afresh.

pub mod alphabet;
pub mod base32;
pub mod codec;
pub mod identifier;
pub mod laws;
pub mod order;
pub mod radix;
pub mod text;

pub use crate::base32::{DecodeFailure, FailureKind};
pub use crate::codec::{decode_crockford_to_bytes, encode_bytes_to_crockford, CrockfordError};
pub use crate::identifier::{encode_crockford, CompareOp, CrockfordUUID, IdentifierError, Source};
