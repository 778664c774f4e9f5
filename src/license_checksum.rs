//! The checksum placed at the end of a token, over `key ‖ payload`.
use vstd::prelude::*;
use vstd::slice::slice_to_vec;

use crate::adler32::{adler32_checksum, adler32_spec};
use crate::license_error::LicenseError;

verus! {

/// A checksum algorithm: a function of the data and a salt.
pub trait HashOperator {
    /// The checksum of `hash` under the salt `init`, or the error with which
    /// the algorithm refuses the salt.
    spec fn spec_checksum(&self, hash: Seq<u8>, init: Seq<u8>) -> Result<Seq<u8>, LicenseError>;

    /// A checksum is never longer than a `usize` can count.
    proof fn lemma_checksum_len(&self, hash: Seq<u8>, init: Seq<u8>)
        ensures
            self.spec_checksum(hash, init) matches Ok(c) ==> c.len() <= usize::MAX,
    ;

    fn checksum(&self, hash: &[u8], init: &[u8]) -> (r: Result<Vec<u8>, LicenseError>)
        ensures
            r matches Ok(v) ==> self.spec_checksum(hash@, init@) == Ok::<Seq<u8>, LicenseError>(v@),
            r matches Err(e) ==> self.spec_checksum(hash@, init@) == Err::<Seq<u8>, LicenseError>(e),
    ;
}

/// Adler-32 with accumulators initialized from an eight-byte salt.
pub struct Adler32 {}

impl HashOperator for Adler32 {
    open spec fn spec_checksum(&self, hash: Seq<u8>, init: Seq<u8>) -> Result<Seq<u8>, LicenseError> {
        if init.len() == 8 {
            Ok(adler32_spec(hash, init))
        } else {
            Err(LicenseError::InvalidChecksumInit { count: init.len() as usize })
        }
    }

    proof fn lemma_checksum_len(&self, hash: Seq<u8>, init: Seq<u8>) {
    }

    fn checksum(&self, hash: &[u8], init: &[u8]) -> (r: Result<Vec<u8>, LicenseError>) {
        adler32_checksum(hash, init)
    }
}

/// A checksum configuration: the salt ("magic"), the declared width in bytes,
/// and the algorithm.
pub struct LicenseChecksum<H: HashOperator> {
    magic: Vec<u8>,
    byte_size: usize,
    operator: H,
}

impl<H: HashOperator> LicenseChecksum<H> {
    /// The salt.
    pub closed spec fn spec_magic(&self) -> Seq<u8> {
        self.magic@
    }

    /// The declared width of the checksum in bytes.
    pub closed spec fn spec_byte_size(&self) -> usize {
        self.byte_size
    }

    /// The algorithm.
    pub closed spec fn spec_operator(&self) -> H {
        self.operator
    }

    /// The checksum of `data` under this configuration.
    pub open spec fn spec_generate(&self, data: Seq<u8>) -> Result<Seq<u8>, LicenseError> {
        self.spec_operator().spec_checksum(data, self.spec_magic())
    }

    pub fn new(magic: Vec<u8>, byte_size: usize, operator: H) -> (r: Self)
        ensures
            r.spec_magic() == magic@,
            r.spec_byte_size() == byte_size,
            r.spec_operator() == operator,
    {
        LicenseChecksum { magic, byte_size, operator }
    }

    /// The checksum of `seed` under this configuration.
    pub fn generate(&self, seed: &[u8]) -> (r: Result<Vec<u8>, LicenseError>)
        ensures
            r matches Ok(v) ==> self.spec_generate(seed@) == Ok::<Seq<u8>, LicenseError>(v@),
            r matches Err(e) ==> self.spec_generate(seed@) == Err::<Seq<u8>, LicenseError>(e),
    {
        self.operator.checksum(seed, self.magic.as_slice())
    }

    /// Whether `checksum` is the checksum of `key ‖ payload`.
    pub fn validate(&self, key: Vec<u8>, payload: Vec<u8>, checksum: Vec<u8>) -> (r: bool)
        ensures
            r == (self.spec_generate(key@ + payload@) == Ok::<Seq<u8>, LicenseError>(checksum@)),
    {
        let mut bytes = key;
        let mut payload = payload;
        bytes.append(&mut payload);
        match self.generate(bytes.as_slice()) {
            Ok(generated) => bytes_equal(generated.as_slice(), checksum.as_slice()),
            Err(_) => false,
        }
    }

    pub fn get_magic(&self) -> (r: &Vec<u8>)
        ensures
            r@ == self.spec_magic(),
    {
        &self.magic
    }

    pub fn get_byte_size(&self) -> (r: &usize)
        ensures
            *r == self.spec_byte_size(),
    {
        &self.byte_size
    }
}

impl LicenseChecksum<Adler32> {
    /// Adler-32 under the eight-byte salt `checksum_magic`, four bytes wide.
    pub fn default(checksum_magic: [u8; 8]) -> (r: Self)
        ensures
            r.spec_magic() == checksum_magic@,
            r.spec_byte_size() == 4,
            forall|data: Seq<u8>| #[trigger]
                r.spec_generate(data) == Ok::<Seq<u8>, LicenseError>(adler32_spec(data, checksum_magic@)),
    {
        LicenseChecksum {
            magic: slice_to_vec(checksum_magic.as_slice()),
            byte_size: 4,
            operator: Adler32 {},
        }
    }
}

/// Whether two byte slices hold the same bytes.
pub(crate) fn bytes_equal(a: &[u8], b: &[u8]) -> (r: bool)
    ensures
        r == (a@ == b@),
{
    if a.len() != b.len() {
        return false;
    }
    let mut i: usize = 0;
    while i < a.len()
        invariant
            i <= a@.len(),
            a@.len() == b@.len(),
            forall|k: int| 0 <= k < i ==> a@[k] == b@[k],
        decreases a@.len() - i,
    {
        if a[i] != b[i] {
            return false;
        }
        i = i + 1;
    }
    proof {
        assert(a@ =~= b@);
    }
    true
}

} // verus!
