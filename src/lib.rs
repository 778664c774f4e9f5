//! Offline license keys: generation and validation of fixed-size byte tokens
//! derived from a secret seed, a developer-defined magic table and a checksum.
//!
//! A token is laid out as `key ‖ payload ‖ checksum`. The key is an
//! extendable-output hash of the seed, the payload holds one byte per magic
//! chunk, and the checksum covers `key ‖ payload`.

pub mod adler32;
pub mod license_blacklist;
pub mod license_byte_check;
pub mod license_checksum;
pub mod license_error;
pub mod license_key;
pub mod license_laws;
pub mod license_magic;
pub mod license_operator;
pub mod license_properties;
pub mod license_serializer;

pub use crate::license_error::LicenseError;
pub use crate::license_key::LicenseKey;
