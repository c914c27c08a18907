//! Fingerprints of documents: the same document gives the same fingerprint,
//! whatever order its members stand in.
pub use crate::canon::{canonical_json, json_fingerprint};
pub use crate::digest::sha256_hex;
