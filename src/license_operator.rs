//! The operator: one configuration that generates license keys and validates
//! them.
use vstd::prelude::*;
use vstd::slice::slice_to_vec;

use sha3::digest::ExtendableOutput;
use sha3::Shake256;

use crate::license_blacklist::LicenseBlacklist;
use crate::license_byte_check::{byte_checks_hold, LicenseByteCheck};
use crate::adler32::adler32_spec;
use crate::license_checksum::{Adler32, HashOperator, LicenseChecksum};
use crate::license_error::LicenseError;
use crate::license_key::{deserialize_view, LicenseKey, LicenseKeyProperties, LicenseKeyStatus, LicenseKeyView};
use crate::license_magic::{seqs_view, total_len, LicenseMagic};
use crate::license_properties::LicenseProperties;
use crate::license_serializer::{DefaultLicenseKeySerializer, LicenseKeySerializer};

verus! {

/// The first `len` bytes of the SHAKE256 output stream over `seed`.
pub uninterp spec fn shake256_xof(seed: Seq<u8>, len: nat) -> Seq<u8>;

/// Relies on sha3's Shake256 through digest's `ExtendableOutput::digest_xof`,
/// which fills an output buffer of `len` bytes with the SHAKE256 stream of
/// `seed`.
#[verifier::external_body]
fn shake256(seed: &[u8], len: usize) -> (r: Vec<u8>)
    ensures
        r@ == shake256_xof(seed@, len as nat),
        r@.len() == len,
{
    let mut out: Vec<u8> = vec![0u8; len];
    Shake256::digest_xof(seed, &mut out);
    out
}

/// The number of seed-derived bytes that every key holds at least.
pub const MIN_SEED_BYTES: usize = 8;

/// The number of checksum bytes that the size check reserves at least.
pub const MIN_CHECKSUM_BYTES: usize = 4;

/// The bound that a configured key size must exceed: the minimum seed-derived
/// bytes, the payload width, and the checksum width (at least the minimum).
pub open spec fn required_key_size(payload_size: int, checksum_size: int) -> int {
    MIN_SEED_BYTES + payload_size + if checksum_size > MIN_CHECKSUM_BYTES {
        checksum_size
    } else {
        MIN_CHECKSUM_BYTES as int
    }
}

/// The payload of a key: one byte per magic chunk, in table order.
pub open spec fn payload_of<S: LicenseKeySerializer>(
    serializer: S,
    key: Seq<u8>,
    magic: Seq<Seq<u8>>,
) -> Seq<u8> {
    Seq::new(magic.len(), |i: int| serializer.spec_hash(key, magic[i]))
}

/// Generates and validates license keys under one configuration: a key size,
/// a magic table, a payload/display strategy `S`, a checksum, a blacklist and
/// byte checks.
pub struct LicenseOperator<S: LicenseKeySerializer, H: HashOperator> {
    properties: LicenseProperties,
    magic: LicenseMagic,
    serializer: S,
    checksum: LicenseChecksum<H>,
    blacklist: LicenseBlacklist,
    byte_check: LicenseByteCheck,
}

impl<S: LicenseKeySerializer, H: HashOperator> LicenseOperator<S, H> {
    pub closed spec fn spec_properties(&self) -> LicenseProperties {
        self.properties
    }

    pub closed spec fn spec_magic(&self) -> Seq<Seq<u8>> {
        self.magic@
    }

    pub closed spec fn spec_serializer(&self) -> S {
        self.serializer
    }

    pub closed spec fn spec_checksum(&self) -> LicenseChecksum<H> {
        self.checksum
    }

    pub closed spec fn spec_blacklist(&self) -> Seq<Seq<u8>> {
        self.blacklist@
    }

    pub closed spec fn spec_byte_check(&self) -> Seq<usize> {
        self.byte_check@
    }

    /// The bound that the key size must exceed.
    pub open spec fn spec_required_size(&self) -> int {
        required_key_size(
            total_len(self.spec_magic()) as int,
            self.spec_checksum().spec_byte_size() as int,
        )
    }

    /// Whether the configured key size leaves room for every field.
    pub open spec fn spec_size_ok(&self) -> bool {
        self.spec_properties().key_size > self.spec_required_size()
    }

    /// The number of seed-derived bytes: what the key size leaves once the
    /// checksum width and the payload width are taken out.
    pub open spec fn spec_hash_size(&self) -> int {
        self.spec_properties().key_size - self.spec_checksum().spec_byte_size() - total_len(
            self.spec_magic(),
        )
    }

    /// The key fragment that a seed expands to: the first bytes of its
    /// SHAKE256 stream, as many as the hash size.
    pub open spec fn spec_key_fragment(&self, seed: Seq<u8>) -> Seq<u8> {
        let n = self.spec_hash_size() as nat;
        Seq::new(n, |i: int| shake256_xof(seed, n)[i])
    }

    /// The magic table has no more chunks than a `usize` can count.
    pub proof fn lemma_magic_len_bound(&self)
        ensures
            self.spec_magic().len() <= usize::MAX,
    {
        self.magic.lemma_len_bound();
    }

    /// The license key that `seed` gives, or the error.
    pub open spec fn spec_generate(&self, seed: Seq<u8>) -> Result<LicenseKeyView, LicenseError> {
        if !self.spec_size_ok() {
            Err(
                LicenseError::KeyTooSmall {
                    required: if self.spec_required_size() > usize::MAX {
                        usize::MAX
                    } else {
                        self.spec_required_size() as usize
                    },
                },
            )
        } else {
            let key = self.spec_key_fragment(seed);
            let payload = payload_of(self.spec_serializer(), key, self.spec_magic());
            match self.spec_checksum().spec_generate(key + payload) {
                Err(e) => Err(e),
                Ok(checksum) => Ok(
                    LicenseKeyView {
                        properties: LicenseKeyProperties {
                            key_size: key.len() as usize,
                            payload_size: payload.len() as usize,
                            checksum_size: checksum.len() as usize,
                        },
                        key: key,
                        payload: payload,
                        checksum: checksum,
                        serialized_key: key + payload + checksum,
                    },
                ),
            }
        }
    }

    /// The status of a key: `Invalid` where it does not deserialize or its
    /// checksum does not match, else `Blacklisted` where its key fragment is
    /// revoked, else `Invalid` where a byte check fails, else `Valid`.
    pub open spec fn spec_validate(&self, k: LicenseKeyView) -> LicenseKeyStatus {
        match deserialize_view(k) {
            None => LicenseKeyStatus::Invalid,
            Some(d) => if self.spec_checksum().spec_generate(d.key + d.payload) != Ok::<
                Seq<u8>,
                LicenseError,
            >(d.checksum) {
                LicenseKeyStatus::Invalid
            } else if self.spec_blacklist().contains(d.key) {
                LicenseKeyStatus::Blacklisted
            } else if !byte_checks_hold(
                self.spec_byte_check(),
                d.payload,
                self.spec_serializer(),
                d.key,
                self.spec_magic(),
            ) {
                LicenseKeyStatus::Invalid
            } else {
                LicenseKeyStatus::Valid
            },
        }
    }

    pub fn new(
        properties: LicenseProperties,
        magic: LicenseMagic,
        serializer: S,
        checksum: LicenseChecksum<H>,
        blacklist: LicenseBlacklist,
        byte_check: LicenseByteCheck,
    ) -> (r: Self)
        ensures
            r.spec_properties() == properties,
            r.spec_magic() == magic@,
            r.spec_serializer() == serializer,
            r.spec_checksum() == checksum,
            r.spec_blacklist() == blacklist@,
            r.spec_byte_check() == byte_check@,
    {
        LicenseOperator { properties, magic, serializer, checksum, blacklist, byte_check }
    }

    /// The bound that the key size must exceed, saturated at `usize::MAX`.
    fn required_size(&self) -> (r: usize)
        ensures
            r == if self.spec_required_size() > usize::MAX {
                usize::MAX as int
            } else {
                self.spec_required_size()
            },
    {
        let payload_size = self.magic.payload_size();
        let byte_size = *self.checksum.get_byte_size();
        let checksum_size = if byte_size > MIN_CHECKSUM_BYTES {
            byte_size
        } else {
            MIN_CHECKSUM_BYTES
        };
        if payload_size > usize::MAX - MIN_SEED_BYTES || checksum_size > usize::MAX
            - MIN_SEED_BYTES - payload_size {
            usize::MAX
        } else {
            MIN_SEED_BYTES + payload_size + checksum_size
        }
    }

    /// The key fragment that `seed` expands to.
    fn key_fragment(&self, seed: &[u8]) -> (r: Vec<u8>)
        requires
            self.spec_size_ok(),
        ensures
            r@ == self.spec_key_fragment(seed@),
    {
        let payload_size = self.magic.payload_size();
        let hash_size = self.properties.key_size - *self.checksum.get_byte_size() - payload_size;
        let r = shake256(seed, hash_size);
        assert(r@ =~= self.spec_key_fragment(seed@));
        r
    }

    /// Generates the license key of `seed`: the seed-derived key fragment,
    /// one payload byte per magic chunk, and the checksum over both.
    pub fn generate_license_key(&self, seed: &[u8]) -> (r: Result<LicenseKey, LicenseError>)
        ensures
            r matches Ok(k) ==> self.spec_generate(seed@) == Ok::<LicenseKeyView, LicenseError>(
                k@,
            ),
            r matches Err(e) ==> self.spec_generate(seed@) == Err::<LicenseKeyView, LicenseError>(
                e,
            ),
    {
        let required = self.required_size();
        if self.properties.key_size <= required {
            return Err(LicenseError::KeyTooSmall { required });
        }
        let key = self.key_fragment(seed);

        let table = self.magic.get_magic();
        let mut payload: Vec<u8> = Vec::new();
        let mut i: usize = 0;
        while i < table.len()
            invariant
                i <= table@.len(),
                table@.len() == self.spec_magic().len(),
                seqs_view(table@) == self.spec_magic(),
                payload@ =~= payload_of(self.spec_serializer(), key@, self.spec_magic()).subrange(
                    0,
                    i as int,
                ),
            decreases table@.len() - i,
        {
            assert(table@[i as int]@ == self.spec_magic()[i as int]);
            let b = self.serializer.hash(key.as_slice(), table[i].as_slice());
            payload.push(b);
            i = i + 1;
        }

        assert(payload@ =~= payload_of(self.spec_serializer(), key@, self.spec_magic()));
        let mut data = slice_to_vec(key.as_slice());
        data.extend_from_slice(payload.as_slice());
        assert(data@ =~= key@ + payload@);
        let checksum = match self.checksum.generate(data.as_slice()) {
            Ok(c) => c,
            Err(e) => return Err(e),
        };
        let mut serialized_key = data;
        serialized_key.extend_from_slice(checksum.as_slice());
        assert(serialized_key@ =~= key@ + payload@ + checksum@);
        let properties = LicenseKeyProperties {
            key_size: key.len(),
            payload_size: payload.len(),
            checksum_size: checksum.len(),
        };
        Ok(LicenseKey { properties, key, payload, checksum, serialized_key })
    }

    /// Validates a key: `Invalid` where it does not deserialize or its
    /// checksum does not match, `Blacklisted` where its key fragment is
    /// revoked, `Invalid` where a byte check fails, `Valid` otherwise.
    pub fn validate_license_key(&self, key: &LicenseKey) -> (r: LicenseKeyStatus)
        ensures
            r == self.spec_validate(key@),
    {
        let valid = match key.deserialize() {
            Ok(valid) => valid,
            Err(_) => return LicenseKeyStatus::Invalid,
        };
        if !self.checksum.validate(
            slice_to_vec(valid.key.as_slice()),
            slice_to_vec(valid.payload.as_slice()),
            slice_to_vec(valid.checksum.as_slice()),
        ) {
            return LicenseKeyStatus::Invalid;
        }
        if self.blacklist.is_blacklisted(slice_to_vec(valid.key.as_slice())) {
            return LicenseKeyStatus::Blacklisted;
        }
        if !self.byte_check.validate(
            valid.payload.as_slice(),
            &self.serializer,
            valid.key.as_slice(),
            &self.magic,
        ) {
            return LicenseKeyStatus::Invalid;
        }
        LicenseKeyStatus::Valid
    }

    /// Whether `self` is `before` with the key fragment of `seed` revoked:
    /// the fragment is added to the blacklist where the key size leaves room
    /// for one, and nothing else changes.
    pub open spec fn spec_blacklisted_from(&self, before: Self, seed: Seq<u8>) -> bool {
        &&& self.spec_properties() == before.spec_properties()
        &&& self.spec_magic() == before.spec_magic()
        &&& self.spec_serializer() == before.spec_serializer()
        &&& self.spec_checksum() == before.spec_checksum()
        &&& self.spec_byte_check() == before.spec_byte_check()
        &&& self.spec_blacklist() == if before.spec_size_ok() {
            before.spec_blacklist().push(before.spec_key_fragment(seed))
        } else {
            before.spec_blacklist()
        }
    }

    /// Revokes the key fragment that `seed` expands to, so that keys
    /// generated from `seed` validate as `Blacklisted`.
    pub fn add_seed_to_blacklist(&mut self, seed: &[u8])
        ensures
            final(self).spec_blacklisted_from(*old(self), seed@),
    {
        let required = self.required_size();
        if self.properties.key_size > required {
            let fragment = self.key_fragment(seed);
            self.blacklist.push(fragment);
        }
    }

    /// The display string of a key's serialized form.
    pub fn get_serialized_key(&self, license_key: &LicenseKey) -> (r: String)
        ensures
            r@ == self.spec_serializer().spec_serialize_key(license_key.serialized_key@),
    {
        self.serializer.serialize_key(license_key.serialized_key.as_slice())
    }
}

impl LicenseOperator<DefaultLicenseKeySerializer, Adler32> {
    /// An operator with 16-byte keys, a random magic table of `magic_size`
    /// chunks of `magic_count` bytes, the default strategy, Adler-32 under
    /// `checksum_magic`, no blacklist and no byte checks. Meant for trials:
    /// a production configuration supplies its own secret magic table.
    pub fn default(magic_size: usize, magic_count: usize, checksum_magic: [u8; 8]) -> (r: Self)
        ensures
            r.spec_properties() == (LicenseProperties { key_size: 16, magic_count, magic_size }),
            r.spec_magic().len() == magic_size,
            forall|i: int|
                0 <= i < magic_size ==> #[trigger] r.spec_magic()[i].len() == magic_count,
            r.spec_checksum().spec_magic() == checksum_magic@,
            r.spec_checksum().spec_byte_size() == 4,
            forall|data: Seq<u8>| #[trigger]
                r.spec_checksum().spec_generate(data) == Ok::<Seq<u8>, LicenseError>(
                    adler32_spec(data, checksum_magic@),
                ),
            r.spec_blacklist().len() == 0,
            r.spec_byte_check().len() == 0,
    {
        let mut magic = LicenseMagic::default();
        magic.randomize_magic(magic_size, magic_count);
        LicenseOperator {
            properties: LicenseProperties { key_size: 16, magic_count, magic_size },
            magic,
            serializer: DefaultLicenseKeySerializer {},
            checksum: LicenseChecksum::default(checksum_magic),
            blacklist: LicenseBlacklist::default(),
            byte_check: LicenseByteCheck::default(),
        }
    }
}

} // verus!
