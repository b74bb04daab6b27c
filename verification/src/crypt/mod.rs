//! The hash, the keyed hash and the key derivation that the monitor uses.
pub mod sha3;
pub mod hmac_sha3;
pub mod hkdf_sha3;
