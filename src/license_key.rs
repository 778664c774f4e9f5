//! The license key record: its raw fields and their serialized concatenation.
use vstd::prelude::*;
use vstd::slice::{slice_subrange, slice_to_vec};

use crate::license_error::LicenseError;

verus! {

/// The outcome of validating a license key.
#[derive(PartialEq, Eq, Clone, Copy, Debug, Structural)]
pub enum LicenseKeyStatus {
    Valid,
    Invalid,
    Blacklisted,
}

/// The byte counts of the three fields of a token.
#[derive(PartialEq, Eq, Clone, Copy, Debug, Structural)]
pub struct LicenseKeyProperties {
    pub key_size: usize,
    pub payload_size: usize,
    pub checksum_size: usize,
}

impl LicenseKeyProperties {
    /// The total byte count of a token with these properties.
    pub open spec fn spec_size(&self) -> int {
        self.key_size + self.payload_size + self.checksum_size
    }

    pub fn default() -> (r: Self)
        ensures
            r.key_size == 0,
            r.payload_size == 0,
            r.checksum_size == 0,
    {
        LicenseKeyProperties { key_size: 0, payload_size: 0, checksum_size: 0 }
    }

    pub fn size(&self) -> (r: usize)
        requires
            self.spec_size() <= usize::MAX,
        ensures
            r == self.spec_size(),
    {
        self.key_size + self.payload_size + self.checksum_size
    }
}

/// A license key. When `serialized_key` is filled in, it is
/// `key ‖ payload ‖ checksum` and `properties` gives the three lengths.
#[derive(PartialEq, Eq, Clone, Debug)]
pub struct LicenseKey {
    pub properties: LicenseKeyProperties,
    pub key: Vec<u8>,
    pub payload: Vec<u8>,
    pub checksum: Vec<u8>,
    pub serialized_key: Vec<u8>,
}

/// The mathematical value of a license key.
pub struct LicenseKeyView {
    pub properties: LicenseKeyProperties,
    pub key: Seq<u8>,
    pub payload: Seq<u8>,
    pub checksum: Seq<u8>,
    pub serialized_key: Seq<u8>,
}

impl View for LicenseKey {
    type V = LicenseKeyView;

    open spec fn view(&self) -> LicenseKeyView {
        LicenseKeyView {
            properties: self.properties,
            key: self.key@,
            payload: self.payload@,
            checksum: self.checksum@,
            serialized_key: self.serialized_key@,
        }
    }
}

/// The key rebuilt field by field from its serialized form and properties, or
/// `None` where the serialized form is shorter than the properties declare.
pub open spec fn deserialize_view(k: LicenseKeyView) -> Option<LicenseKeyView> {
    let p = k.properties;
    let s = k.serialized_key;
    if s.len() < p.spec_size() {
        None
    } else {
        Some(
            LicenseKeyView {
                properties: p,
                key: s.subrange(0, p.key_size as int),
                payload: s.subrange(p.key_size as int, p.key_size + p.payload_size),
                checksum: s.subrange(p.key_size + p.payload_size, p.spec_size()),
                serialized_key: s,
            },
        )
    }
}

impl LicenseKey {
    pub fn new(
        properties: LicenseKeyProperties,
        key: Vec<u8>,
        payload: Vec<u8>,
        checksum: Vec<u8>,
        serialized_key: Vec<u8>,
    ) -> (r: Self)
        ensures
            r.properties == properties,
            r.key@ == key@,
            r.payload@ == payload@,
            r.checksum@ == checksum@,
            r.serialized_key@ == serialized_key@,
    {
        LicenseKey { properties, key, payload, checksum, serialized_key }
    }

    /// The empty key: all fields empty, all sizes zero.
    pub fn default() -> (r: Self)
        ensures
            r.properties.spec_size() == 0,
            r.key@.len() == 0,
            r.payload@.len() == 0,
            r.checksum@.len() == 0,
            r.serialized_key@.len() == 0,
    {
        LicenseKey {
            key: Vec::new(),
            payload: Vec::new(),
            checksum: Vec::new(),
            properties: LicenseKeyProperties::default(),
            serialized_key: Vec::new(),
        }
    }

    /// Rebuilds the fields from `serialized_key` and `properties`; fails where
    /// the serialized key is shorter than the properties declare.
    pub fn deserialize(&self) -> (r: Result<Self, LicenseError>)
        ensures
            r matches Ok(k) ==> deserialize_view(self@) == Some(k@),
            r is Err ==> deserialize_view(self@) is None,
            r is Err ==> r == Err::<Self, LicenseError>(LicenseError::DeserializeTooShort),
    {
        let p = self.properties;
        let s = self.serialized_key.as_slice();
        let len = s.len();
        if p.key_size > len || p.payload_size > len - p.key_size || p.checksum_size > len
            - p.key_size - p.payload_size {
            return Err(LicenseError::DeserializeTooShort);
        }
        let key_end = p.key_size;
        let payload_end = key_end + p.payload_size;
        let checksum_end = payload_end + p.checksum_size;
        let r = LicenseKey {
            properties: p,
            key: slice_to_vec(slice_subrange(s, 0, key_end)),
            payload: slice_to_vec(slice_subrange(s, key_end, payload_end)),
            checksum: slice_to_vec(slice_subrange(s, payload_end, checksum_end)),
            serialized_key: slice_to_vec(s),
        };
        Ok(r)
    }
}

} // verus!
