//! Positional assertions on the payload, checked again at validation.
use vstd::prelude::*;

use crate::license_error::LicenseError;
use crate::license_magic::{seqs_view, LicenseMagic};
use crate::license_serializer::LicenseKeySerializer;

verus! {

/// Whether every position names a payload byte and a magic chunk, and the
/// byte is the hash of `seed` with that chunk.
pub open spec fn byte_checks_hold<S: LicenseKeySerializer>(
    positions: Seq<usize>,
    payload: Seq<u8>,
    serializer: S,
    seed: Seq<u8>,
    magic: Seq<Seq<u8>>,
) -> bool {
    forall|i: int|
        0 <= i < positions.len() ==> {
            let p = #[trigger] positions[i] as int;
            &&& p < payload.len()
            &&& p < magic.len()
            &&& payload[p] == serializer.spec_hash(seed, magic[p])
        }
}

#[derive(Clone, Debug)]
pub struct LicenseByteCheck {
    byte_positions: Vec<usize>,
}

impl View for LicenseByteCheck {
    type V = Seq<usize>;

    closed spec fn view(&self) -> Seq<usize> {
        self.byte_positions@
    }
}

impl Default for LicenseByteCheck {
    /// No positions to check.
    fn default() -> (r: Self)
        ensures
            r@.len() == 0,
    {
        LicenseByteCheck { byte_positions: Vec::new() }
    }
}

impl LicenseByteCheck {
    /// Checks at `byte_positions`; fails where one of them lies outside the
    /// magic table.
    pub fn new(byte_positions: Vec<usize>, magic: &LicenseMagic) -> (r: Result<
        Self,
        LicenseError,
    >)
        requires
            byte_positions@.len() > 0 ==> magic@.len() > 0,
        ensures
            r is Ok <==> forall|i: int|
                0 <= i < byte_positions@.len() ==> #[trigger] byte_positions@[i] < magic@.len(),
            r matches Ok(c) ==> c@ == byte_positions@,
            r is Err ==> r == Err::<Self, LicenseError>(
                (LicenseError::InvalidByteCheckPosition { magic_size: magic@.len() as usize }),
            ),
    {
        let magic_size = magic.get_magic().len();
        let mut i: usize = 0;
        while i < byte_positions.len()
            invariant
                i <= byte_positions@.len(),
                magic_size == magic@.len(),
                byte_positions@.len() > 0 ==> magic_size > 0,
                forall|k: int| 0 <= k < i ==> #[trigger] byte_positions@[k] < magic_size,
            decreases byte_positions@.len() - i,
        {
            if byte_positions[i] > magic_size - 1 {
                return Err(LicenseError::InvalidByteCheckPosition { magic_size });
            }
            i = i + 1;
        }
        Ok(LicenseByteCheck { byte_positions })
    }

    /// Adds one more position, unchecked.
    pub fn push(self, byte_position: usize) -> (r: Self)
        ensures
            r@ == self@.push(byte_position),
    {
        let mut s = self;
        s.byte_positions.push(byte_position);
        s
    }

    /// Whether the payload passes every check.
    pub fn validate<S: LicenseKeySerializer>(
        &self,
        payload: &[u8],
        serializer: &S,
        seed: &[u8],
        magic: &LicenseMagic,
    ) -> (r: bool)
        ensures
            r == byte_checks_hold(self@, payload@, *serializer, seed@, magic@),
    {
        let table = magic.get_magic();
        assert(table@.len() == magic@.len());
        let mut i: usize = 0;
        while i < self.byte_positions.len()
            invariant
                i <= self@.len(),
                table@.len() == magic@.len(),
                seqs_view(table@) == magic@,
                byte_checks_hold(self@.subrange(0, i as int), payload@, *serializer, seed@, magic@),
            decreases self@.len() - i,
        {
            let bc = self.byte_positions[i];
            if bc >= payload.len() || bc >= table.len() {
                proof {
                    assert(self@[i as int] == bc);
                }
                return false;
            }
            let h = serializer.hash(seed, table[bc].as_slice());
            assert(table@[bc as int]@ == magic@[bc as int]);
            if payload[bc] != h {
                proof {
                    assert(self@[i as int] == bc);
                }
                return false;
            }
            proof {
                assert forall|k: int| 0 <= k < i + 1 implies {
                    let p = #[trigger] self@.subrange(0, i + 1)[k] as int;
                    &&& p < payload@.len()
                    &&& p < magic@.len()
                    &&& payload@[p] == serializer.spec_hash(seed@, magic@[p])
                } by {
                    if k < i {
                        assert(self@.subrange(0, i + 1)[k] == self@.subrange(0, i as int)[k]);
                    }
                }
            }
            i = i + 1;
        }
        proof {
            assert(self@.subrange(0, i as int) =~= self@);
        }
        true
    }
}

} // verus!
