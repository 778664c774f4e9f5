use vstd::prelude::*;

verus! {

/// Every failure that the library reports.
#[derive(Debug, Clone, Copy, PartialEq, Eq, Structural)]
pub enum LicenseError {
    /// A checksum initializer does not hold exactly eight bytes.
    InvalidChecksumInit { count: usize },
    /// The configured key size cannot hold the seed bytes, payload and checksum;
    /// the key size must exceed `required`.
    KeyTooSmall { required: usize },
    /// A serialized token is shorter than the sizes its properties declare.
    DeserializeTooShort,
    /// A byte-check position lies outside a magic table of `magic_size` chunks.
    InvalidByteCheckPosition { magic_size: usize },
}

} // verus!
