//! The configured shape of the tokens that an operator generates.
use vstd::prelude::*;

verus! {

/// The total token size that an operator aims at, and the shape of its
/// magic table: `magic_size` chunks of `magic_count` bytes each.
#[derive(PartialEq, Eq, Clone, Copy, Debug, Structural)]
pub struct LicenseProperties {
    pub key_size: usize,
    pub magic_count: usize,
    pub magic_size: usize,
}

} // verus!
